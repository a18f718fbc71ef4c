use aderyn_core::ast::{FunctionCallKind, Node, NodeKind};
use aderyn_core::browser::{extract_named, extract_of_kind, immediate_children, preorder_nodes};
use aderyn_core::ledger::{FindingKey, FindingLedger};
use aderyn_core::repeated_address_this::RepeatedAddressThisDetector;
use aderyn_core::runner::{run_detectors, AnyDetector};
use aderyn_core::single_use_state_variable::SingleUseStateVariableDetector;
use aderyn_core::workspace::{CompilationUnit, WorkspaceContext, WorkspaceError};

fn node(id: u64, kind: NodeKind, children: Vec<Node>) -> Node {
    Node {
        id,
        kind,
        name: None,
        type_ref: None,
        call_kind: None,
        src_line: id as usize,
        children,
    }
}

/// A small tree:
///   0 Block
///   ├── 1 Identifier
///   ├── 2 IfStatement
///   │   ├── 3 Identifier
///   │   └── 4 BinaryOperation
///   └── 5 Identifier
fn sample_tree() -> Node {
    node(
        0,
        NodeKind::Block,
        vec![
            node(1, NodeKind::Identifier, vec![]),
            node(
                2,
                NodeKind::IfStatement,
                vec![
                    node(3, NodeKind::Identifier, vec![]),
                    node(4, NodeKind::BinaryOperation, vec![]),
                ],
            ),
            node(5, NodeKind::Identifier, vec![]),
        ],
    )
}

fn ids(nodes: &[&Node]) -> Vec<u64> {
    nodes.iter().map(|n| n.id).collect()
}

#[test]
fn preorder_walk_visits_depth_first() {
    let tree = sample_tree();
    let all = preorder_nodes(&tree);
    assert_eq!(ids(&all), vec![0, 1, 2, 3, 4, 5]);
}

#[test]
fn extraction_counts_descendants_of_kind() {
    // the query returns one result per descendant (inclusive) of the kind
    let tree = sample_tree();
    assert_eq!(extract_of_kind(&tree, NodeKind::Identifier).len(), 3);
    assert_eq!(extract_of_kind(&tree, NodeKind::BinaryOperation).len(), 1);
    assert_eq!(extract_of_kind(&tree, NodeKind::Block).len(), 1);
    assert_eq!(extract_of_kind(&tree, NodeKind::FunctionCall).len(), 0);
}

#[test]
fn extraction_is_deterministic_and_ordered() {
    let tree = sample_tree();
    let first = extract_of_kind(&tree, NodeKind::Identifier);
    let second = extract_of_kind(&tree, NodeKind::Identifier);
    assert_eq!(ids(&first), vec![1, 3, 5]);
    assert_eq!(ids(&first), ids(&second));
}

#[test]
fn extraction_composes_from_a_previous_result() {
    // re-root a second query at an element of the first result
    let tree = sample_tree();
    let ifs = extract_of_kind(&tree, NodeKind::IfStatement);
    assert_eq!(ids(&ifs), vec![2]);
    let inner = extract_of_kind(ifs[0], NodeKind::Identifier);
    assert_eq!(ids(&inner), vec![3]);
}

#[test]
fn immediate_children_do_not_recurse() {
    let tree = sample_tree();
    let direct = immediate_children(&tree);
    assert_eq!(ids(&direct), vec![1, 2, 5]);
}

#[test]
fn workspace_build_rejects_duplicate_identifiers() {
    let u = CompilationUnit {
        name: "Broken".to_string(),
        root: node(
            7,
            NodeKind::SourceUnit,
            vec![
                node(8, NodeKind::Identifier, vec![]),
                node(8, NodeKind::Identifier, vec![]),
            ],
        ),
    };
    match WorkspaceContext::build(vec![u]) {
        Err(WorkspaceError::DuplicateId) => {}
        _ => panic!("a graph with two nodes sharing an identifier must be rejected"),
    }
}

#[test]
fn workspace_accessors_keep_ingestion_then_preorder_order() {
    let u1 = CompilationUnit {
        name: "A".to_string(),
        root: node(
            0,
            NodeKind::SourceUnit,
            vec![node(1, NodeKind::FunctionDefinition, vec![node(2, NodeKind::Identifier, vec![])])],
        ),
    };
    let u2 = CompilationUnit {
        name: "B".to_string(),
        root: node(
            10,
            NodeKind::SourceUnit,
            vec![node(11, NodeKind::FunctionDefinition, vec![])],
        ),
    };
    let context = WorkspaceContext::build(vec![u1, u2]).unwrap();
    let defs = context.function_definitions();
    assert_eq!(ids(&defs), vec![1, 11]);
    assert_eq!(context.unit_count(), 2);
    assert_eq!(context.contract_name_of(2), Some("A".to_string()));
    assert_eq!(context.contract_name_of(11), Some("B".to_string()));
    assert_eq!(context.contract_name_of(99), None);
}

#[test]
fn workspace_construction_is_idempotent() {
    // identical input graphs give contexts whose index contents compare equal
    let build = || {
        let u = CompilationUnit {
            name: "A".to_string(),
            root: node(
                0,
                NodeKind::SourceUnit,
                vec![
                    node(1, NodeKind::FunctionDefinition, vec![node(2, NodeKind::Identifier, vec![])]),
                    node(3, NodeKind::VariableDeclaration, vec![]),
                ],
            ),
        };
        WorkspaceContext::build(vec![u]).unwrap()
    };
    let c1 = build();
    let c2 = build();
    assert_eq!(c1.unit_count(), c2.unit_count());
    assert_eq!(
        ids(&c1.function_definitions()),
        ids(&c2.function_definitions())
    );
    assert_eq!(
        ids(&c1.variable_declarations()),
        ids(&c2.variable_declarations())
    );
    for id in 0..4u64 {
        assert_eq!(c1.contract_name_of(id), c2.contract_name_of(id));
    }
}

#[test]
fn ledger_colliding_keys_overwrite() {
    // two findings under the same (contract, line, detector) key leave one
    // entry holding the most recently inserted node identifier
    let mut ledger = FindingLedger::new();
    let key = || FindingKey {
        contract: "C".to_string(),
        line: 3,
        detector: "address-this".to_string(),
    };
    ledger.insert(key(), 41);
    ledger.insert(key(), 42);
    assert_eq!(ledger.len(), 1);
    assert_eq!(ledger.get(&key()), Some(42));
    assert_eq!(ledger.id_at(0), 42);
}

#[test]
fn ledger_distinct_keys_accumulate_in_order() {
    let mut ledger = FindingLedger::new();
    let k1 = FindingKey {
        contract: "C".to_string(),
        line: 3,
        detector: "address-this".to_string(),
    };
    let k2 = FindingKey {
        contract: "C".to_string(),
        line: 9,
        detector: "address-this".to_string(),
    };
    ledger.insert(
        FindingKey {
            contract: "C".to_string(),
            line: 3,
            detector: "address-this".to_string(),
        },
        1,
    );
    ledger.insert(
        FindingKey {
            contract: "C".to_string(),
            line: 9,
            detector: "address-this".to_string(),
        },
        2,
    );
    assert_eq!(ledger.len(), 2);
    assert_eq!(ledger.get(&k1), Some(1));
    assert_eq!(ledger.get(&k2), Some(2));
    assert_eq!(ledger.key_at(0).line, 3);
    assert_eq!(ledger.key_at(1).line, 9);
    assert!(!ledger.is_empty());
    let snap = ledger.snapshot();
    assert_eq!(snap.len(), 2);
    assert_eq!(snap.get(&k1), Some(1));
    let missing = FindingKey {
        contract: "D".to_string(),
        line: 3,
        detector: "address-this".to_string(),
    };
    assert_eq!(ledger.get(&missing), None);
}

fn two_pattern_workspace() -> WorkspaceContext {
    // one contract with two address(this) conversions and one single-use local
    let type_expr = |id: u64| Node {
        id,
        kind: NodeKind::ElementaryTypeNameExpression,
        name: None,
        type_ref: Some("address".to_string()),
        call_kind: None,
        src_line: 7,
        children: vec![],
    };
    let this_ident = |id: u64| Node {
        id,
        kind: NodeKind::Identifier,
        name: Some("this".to_string()),
        type_ref: None,
        call_kind: None,
        src_line: 7,
        children: vec![],
    };
    let call = |id: u64| Node {
        id,
        kind: NodeKind::FunctionCall,
        name: None,
        type_ref: None,
        call_kind: Some(FunctionCallKind::TypeConversion),
        src_line: 7,
        children: vec![type_expr(id + 1), this_ident(id + 2)],
    };
    let declaration = Node {
        id: 32,
        kind: NodeKind::VariableDeclaration,
        name: Some("x".to_string()),
        type_ref: None,
        call_kind: None,
        src_line: 4,
        children: vec![],
    };
    let stmt = Node {
        id: 31,
        kind: NodeKind::VariableDeclarationStatement,
        name: None,
        type_ref: None,
        call_kind: None,
        src_line: 4,
        children: vec![declaration],
    };
    let use_of_x = Node {
        id: 33,
        kind: NodeKind::Identifier,
        name: Some("x".to_string()),
        type_ref: None,
        call_kind: None,
        src_line: 5,
        children: vec![],
    };
    let function = Node {
        id: 30,
        kind: NodeKind::FunctionDefinition,
        name: Some("f".to_string()),
        type_ref: None,
        call_kind: None,
        src_line: 3,
        children: vec![stmt, use_of_x],
    };
    let root = node(
        0,
        NodeKind::SourceUnit,
        vec![node(1, NodeKind::ContractDefinition, vec![call(10), call(20), function])],
    );
    WorkspaceContext::build(vec![CompilationUnit {
        name: "Mixed".to_string(),
        root,
    }])
    .unwrap()
}

#[test]
fn runner_aggregates_every_detector() {
    // both detectors run once; each record carries that detector's own
    // findings, independent of the other's outcome
    let context = two_pattern_workspace();
    let detectors = vec![
        AnyDetector::RepeatedAddressThis(RepeatedAddressThisDetector::new()),
        AnyDetector::SingleUseStateVariable(SingleUseStateVariableDetector::new()),
    ];
    let report = run_detectors(&context, detectors);
    assert_eq!(report.failures.len(), 0);
    assert_eq!(report.records.len(), 2);
    // both are Low severity, so the batch order is kept
    assert_eq!(report.records[0].name, "address-this".to_string());
    assert_eq!(report.records[1].name, "single-use-state-variable".to_string());
    assert_eq!(report.records[0].findings.len(), 1);
    assert_eq!(report.records[1].findings.len(), 1);
    let call_key = FindingKey {
        contract: "Mixed".to_string(),
        line: 7,
        detector: "address-this".to_string(),
    };
    assert_eq!(report.records[0].findings.get(&call_key), Some(20));
    let stmt_key = FindingKey {
        contract: "Mixed".to_string(),
        line: 4,
        detector: "single-use-state-variable".to_string(),
    };
    assert_eq!(report.records[1].findings.get(&stmt_key), Some(31));
}

#[test]
fn runner_on_empty_workspace_reports_no_findings() {
    let context = WorkspaceContext::build(vec![]).unwrap();
    let detectors = vec![
        AnyDetector::RepeatedAddressThis(RepeatedAddressThisDetector::new()),
        AnyDetector::SingleUseStateVariable(SingleUseStateVariableDetector::new()),
    ];
    let report = run_detectors(&context, detectors);
    assert_eq!(report.failures.len(), 0);
    assert_eq!(report.records.len(), 2);
    assert_eq!(report.records[0].findings.len(), 0);
    assert_eq!(report.records[1].findings.len(), 0);
}

#[test]
fn named_queries_find_every_carrier_of_a_name() {
    let named = |id: u64, kind: NodeKind, name: &str| Node {
        id,
        kind,
        name: Some(name.to_string()),
        type_ref: None,
        call_kind: None,
        src_line: id as usize,
        children: vec![],
    };
    let tree = node(
        0,
        NodeKind::Block,
        vec![
            named(1, NodeKind::VariableDeclaration, "x"),
            named(2, NodeKind::Identifier, "x"),
            named(3, NodeKind::Identifier, "y"),
        ],
    );
    let xs = extract_named(&tree, "x");
    assert_eq!(ids(&xs), vec![1, 2]);
    let context = WorkspaceContext::build(vec![CompilationUnit {
        name: "A".to_string(),
        root: tree,
    }])
    .unwrap();
    assert_eq!(ids(&context.nodes_named("x")), vec![1, 2]);
    assert_eq!(ids(&context.nodes_named("y")), vec![3]);
    assert_eq!(ids(&context.nodes_named("z")), Vec::<u64>::new());
}

#[test]
fn node_lookup_by_identifier() {
    let context = WorkspaceContext::build(vec![CompilationUnit {
        name: "A".to_string(),
        root: sample_tree(),
    }])
    .unwrap();
    let found = context.node_by_id(3).expect("node 3 is in the graph");
    assert_eq!(found.id, 3);
    assert_eq!(found.kind, NodeKind::Identifier);
    assert!(context.node_by_id(99).is_none());
}

#[test]
fn parent_lookup_is_a_relation_over_the_graph() {
    let context = WorkspaceContext::build(vec![CompilationUnit {
        name: "A".to_string(),
        root: sample_tree(),
    }])
    .unwrap();
    // node 3 sits under the if-statement (node 2); node 2 under the root
    assert_eq!(context.parent_of(3).expect("has a parent").id, 2);
    assert_eq!(context.parent_of(2).expect("has a parent").id, 0);
    // the root has no parent, an unknown identifier neither
    assert!(context.parent_of(0).is_none());
    assert!(context.parent_of(99).is_none());
}
