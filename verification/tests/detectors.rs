use aderyn_core::ast::{FunctionCallKind, Node, NodeKind};
use aderyn_core::detector::{IssueDetector, IssueSeverity};
use aderyn_core::ledger::FindingKey;
use aderyn_core::repeated_address_this::RepeatedAddressThisDetector;
use aderyn_core::single_use_state_variable::SingleUseStateVariableDetector;
use aderyn_core::workspace::{CompilationUnit, WorkspaceContext};

fn named_leaf(id: u64, kind: NodeKind, name: &str, line: usize) -> Node {
    Node {
        id,
        kind,
        name: Some(name.to_string()),
        type_ref: None,
        call_kind: None,
        src_line: line,
        children: vec![],
    }
}

/// An `address(this)` type conversion: the call node plus its two children.
fn address_this_call(id: u64, line: usize) -> Node {
    let type_expr = Node {
        id: id + 1,
        kind: NodeKind::ElementaryTypeNameExpression,
        name: None,
        type_ref: Some("address".to_string()),
        call_kind: None,
        src_line: line,
        children: vec![],
    };
    let this_ident = named_leaf(id + 2, NodeKind::Identifier, "this", line);
    Node {
        id,
        kind: NodeKind::FunctionCall,
        name: None,
        type_ref: None,
        call_kind: Some(FunctionCallKind::TypeConversion),
        src_line: line,
        children: vec![type_expr, this_ident],
    }
}

fn unit(name: &str, children: Vec<Node>) -> CompilationUnit {
    let contract = Node {
        id: 1,
        kind: NodeKind::ContractDefinition,
        name: Some(name.to_string()),
        type_ref: None,
        call_kind: None,
        src_line: 1,
        children,
    };
    let root = Node {
        id: 0,
        kind: NodeKind::SourceUnit,
        name: None,
        type_ref: None,
        call_kind: None,
        src_line: 1,
        children: vec![contract],
    };
    CompilationUnit {
        name: name.to_string(),
        root,
    }
}

/// A function definition whose body declares `varname` once and then uses it
/// in `uses` later identifier occurrences.
fn function_with_local(fn_id: u64, varname: &str, uses: usize) -> Node {
    let declaration = named_leaf(fn_id + 2, NodeKind::VariableDeclaration, varname, 4);
    let stmt = Node {
        id: fn_id + 1,
        kind: NodeKind::VariableDeclarationStatement,
        name: None,
        type_ref: None,
        call_kind: None,
        src_line: 4,
        children: vec![declaration],
    };
    let mut body = vec![stmt];
    for k in 0..uses {
        body.push(named_leaf(
            fn_id + 3 + k as u64,
            NodeKind::Identifier,
            varname,
            5 + k,
        ));
    }
    Node {
        id: fn_id,
        kind: NodeKind::FunctionDefinition,
        name: Some("f".to_string()),
        type_ref: None,
        call_kind: None,
        src_line: 3,
        children: body,
    }
}

#[test]
fn repeated_address_this_test_template_detector() {
    let context = WorkspaceContext::build(vec![unit(
        "ArbitraryTransferFrom",
        vec![address_this_call(10, 7), address_this_call(20, 9)],
    )])
    .unwrap();
    let mut detector = RepeatedAddressThisDetector::default();
    let _ = detector.detect(&context).unwrap();
}

#[test]
fn single_use_state_variable_test_template_detector() {
    let context = WorkspaceContext::build(vec![unit(
        "ArbitraryTransferFrom",
        vec![function_with_local(10, "x", 1)],
    )])
    .unwrap();
    let mut detector = SingleUseStateVariableDetector::default();
    let _ = detector.detect(&context).unwrap();
}

#[test]
fn repeated_self_address_three_occurrences_one_finding() {
    // three address(this) conversions on the same source line of one
    // contract: the colliding keys collapse to exactly one instance
    let context = WorkspaceContext::build(vec![unit(
        "Vault",
        vec![
            address_this_call(10, 7),
            address_this_call(20, 7),
            address_this_call(30, 7),
        ],
    )])
    .unwrap();
    let mut detector = RepeatedAddressThisDetector::default();
    let found = detector.detect(&context).unwrap();
    assert!(found);
    assert_eq!(detector.instances().len(), 1);
    assert_eq!(detector.severity(), IssueSeverity::Low);
    // the last inserted node wins the collision
    let key = FindingKey {
        contract: "Vault".to_string(),
        line: 7,
        detector: "address-this".to_string(),
    };
    assert_eq!(detector.instances().get(&key), Some(30));
}

#[test]
fn repeated_self_address_distinct_lines_all_reported() {
    let context = WorkspaceContext::build(vec![unit(
        "Vault",
        vec![address_this_call(10, 7), address_this_call(20, 9)],
    )])
    .unwrap();
    let mut detector = RepeatedAddressThisDetector::default();
    let found = detector.detect(&context).unwrap();
    assert!(found);
    assert_eq!(detector.instances().len(), 2);
}

#[test]
fn repeated_self_address_single_occurrence_not_reported() {
    // the detector only fires when the count of occurrences exceeds one
    let context =
        WorkspaceContext::build(vec![unit("Vault", vec![address_this_call(10, 7)])]).unwrap();
    let mut detector = RepeatedAddressThisDetector::default();
    let found = detector.detect(&context).unwrap();
    assert!(!found);
    assert_eq!(detector.instances().len(), 0);
}

#[test]
fn repeated_self_address_plain_call_not_reported() {
    // a non-conversion call around the same children is not the pattern
    let mut call = address_this_call(10, 7);
    call.call_kind = Some(FunctionCallKind::FunctionCall);
    let mut other = address_this_call(20, 8);
    other.call_kind = Some(FunctionCallKind::FunctionCall);
    let context = WorkspaceContext::build(vec![unit("Vault", vec![call, other])]).unwrap();
    let mut detector = RepeatedAddressThisDetector::default();
    let found = detector.detect(&context).unwrap();
    assert!(!found);
}

#[test]
fn repeated_address_this_metadata() {
    let detector = RepeatedAddressThisDetector::default();
    assert_eq!(detector.name(), "address-this".to_string());
    assert_eq!(
        detector.title(),
        "Multiple address(this) calls inside the contract <contract-name> can cause uncecessary gas consumption."
            .to_string()
    );
    assert_eq!(detector.description(), "".to_string());
    assert_eq!(detector.severity(), IssueSeverity::Low);
}

#[test]
fn single_use_local_one_use_reported() {
    // `x` declared, then referenced by exactly one later identifier: the
    // declaration statement is flagged
    let context =
        WorkspaceContext::build(vec![unit("Token", vec![function_with_local(10, "x", 1)])])
            .unwrap();
    let mut detector = SingleUseStateVariableDetector::default();
    let found = detector.detect(&context).unwrap();
    assert!(found);
    assert_eq!(detector.instances().len(), 1);
    let key = FindingKey {
        contract: "Token".to_string(),
        line: 4,
        detector: "single-use-state-variable".to_string(),
    };
    // the flagged node is the declaration statement
    assert_eq!(detector.instances().get(&key), Some(11));
}

#[test]
fn single_use_local_three_uses_not_reported() {
    let context =
        WorkspaceContext::build(vec![unit("Token", vec![function_with_local(10, "x", 3)])])
            .unwrap();
    let mut detector = SingleUseStateVariableDetector::default();
    let found = detector.detect(&context).unwrap();
    assert!(!found);
    assert_eq!(detector.instances().len(), 0);
}

#[test]
fn single_use_local_two_uses_not_reported() {
    let context =
        WorkspaceContext::build(vec![unit("Token", vec![function_with_local(10, "x", 2)])])
            .unwrap();
    let mut detector = SingleUseStateVariableDetector::default();
    let found = detector.detect(&context).unwrap();
    assert!(!found);
    assert_eq!(detector.instances().len(), 0);
}

#[test]
fn single_use_local_unused_not_reported() {
    let context =
        WorkspaceContext::build(vec![unit("Token", vec![function_with_local(10, "x", 0)])])
            .unwrap();
    let mut detector = SingleUseStateVariableDetector::default();
    let found = detector.detect(&context).unwrap();
    assert!(!found);
}

#[test]
fn single_use_state_variable_metadata() {
    let detector = SingleUseStateVariableDetector::default();
    assert_eq!(detector.name(), "single-use-state-variable".to_string());
    assert_eq!(
        detector.title(),
        "Stack variable value is assigned and used only once".to_string()
    );
    assert_eq!(detector.description(), "".to_string());
    assert_eq!(detector.severity(), IssueSeverity::Low);
}

#[test]
fn empty_workspace_detectors_find_nothing() {
    // zero compilation units: construction succeeds trivially and every
    // detector reports no findings with no error
    let context = WorkspaceContext::build(vec![]).unwrap();
    assert_eq!(context.unit_count(), 0);
    let mut a = RepeatedAddressThisDetector::default();
    let found_a = a.detect(&context).unwrap();
    assert!(!found_a);
    assert_eq!(a.instances().len(), 0);
    let mut b = SingleUseStateVariableDetector::default();
    let found_b = b.detect(&context).unwrap();
    assert!(!found_b);
    assert_eq!(b.instances().len(), 0);
}

#[test]
fn detector_rerun_is_deterministic() {
    // the same query against an unchanged context gives identical results
    let build = || {
        WorkspaceContext::build(vec![unit(
            "Vault",
            vec![address_this_call(10, 7), address_this_call(20, 9)],
        )])
        .unwrap()
    };
    let context = build();
    let mut d1 = RepeatedAddressThisDetector::default();
    let mut d2 = RepeatedAddressThisDetector::default();
    let f1 = d1.detect(&context).unwrap();
    let f2 = d2.detect(&context).unwrap();
    assert_eq!(f1, f2);
    assert_eq!(d1.instances().len(), d2.instances().len());
    let key = FindingKey {
        contract: "Vault".to_string(),
        line: 7,
        detector: "address-this".to_string(),
    };
    assert_eq!(d1.instances().get(&key), d2.instances().get(&key));
}

#[test]
fn single_use_scan_continues_past_heavily_used_names() {
    // an earlier function with a thrice-used declarant does not stop the
    // scan: a later function's single-use local is still flagged
    let context = WorkspaceContext::build(vec![unit(
        "Token",
        vec![
            function_with_local(10, "y", 3),
            function_with_local(50, "x", 1),
        ],
    )])
    .unwrap();
    let mut detector = SingleUseStateVariableDetector::default();
    let found = detector.detect(&context).unwrap();
    assert!(found);
    assert_eq!(detector.instances().len(), 1);
    let key = FindingKey {
        contract: "Token".to_string(),
        line: 4,
        detector: "single-use-state-variable".to_string(),
    };
    assert_eq!(detector.instances().get(&key), Some(51));
}

#[test]
fn single_use_later_statement_still_examined() {
    // within one function, a thrice-used first statement does not hide a
    // later single-use statement
    let decl_y = named_leaf(12, NodeKind::VariableDeclaration, "y", 4);
    let stmt_y = Node {
        id: 11,
        kind: NodeKind::VariableDeclarationStatement,
        name: None,
        type_ref: None,
        call_kind: None,
        src_line: 4,
        children: vec![decl_y],
    };
    let decl_x = named_leaf(14, NodeKind::VariableDeclaration, "x", 5);
    let stmt_x = Node {
        id: 13,
        kind: NodeKind::VariableDeclarationStatement,
        name: None,
        type_ref: None,
        call_kind: None,
        src_line: 5,
        children: vec![decl_x],
    };
    let body = vec![
        stmt_y,
        stmt_x,
        named_leaf(15, NodeKind::Identifier, "y", 6),
        named_leaf(16, NodeKind::Identifier, "y", 7),
        named_leaf(17, NodeKind::Identifier, "y", 8),
        named_leaf(18, NodeKind::Identifier, "x", 9),
    ];
    let function = Node {
        id: 10,
        kind: NodeKind::FunctionDefinition,
        name: Some("f".to_string()),
        type_ref: None,
        call_kind: None,
        src_line: 3,
        children: body,
    };
    let context = WorkspaceContext::build(vec![unit("Token", vec![function])]).unwrap();
    let mut detector = SingleUseStateVariableDetector::default();
    let found = detector.detect(&context).unwrap();
    assert!(found);
    assert_eq!(detector.instances().len(), 1);
    let key = FindingKey {
        contract: "Token".to_string(),
        line: 5,
        detector: "single-use-state-variable".to_string(),
    };
    assert_eq!(detector.instances().get(&key), Some(13));
}
