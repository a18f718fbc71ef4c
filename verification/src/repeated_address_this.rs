//! A detector for repeated `address(this)` type conversions.
//!
//! A contract that converts its own address more than once can recompute the
//! same value needlessly. The detector collects every type-conversion call
//! whose subtree holds exactly one identifier named `this` and exactly one
//! elementary-type-name expression naming `address`; when more than one such
//! call exists in the workspace, every one of them is reported.

use vstd::prelude::*;

use crate::ast::{FunctionCallKind, Node, NodeKind};
use crate::browser::{
    derefs, extract_of_kind, extract_spec, lemma_filter_elements, lemma_filter_push, string_eq_str,
};
use crate::detector::{
    capture, capture_from, capture_model, lemma_capture_from_contains, lemma_capture_from_same_key,
    DetectorError, IssueDetector, IssueDetectorNamePool, IssueSeverity,
};
use crate::ledger::{FindingLedger, KeyView, LedgerModel};
use crate::workspace::{
    contract_name_spec, lemma_of_kind_upto_kinds, lemma_workspace_of_kind_resolves,
    workspace_of_kind, CompilationUnit, WorkspaceContext,
};
use vstd::string::StringExecFns;

verus! {

/// Whether the subtree rooted at `n` holds exactly one identifier, named
/// `this`.
pub open spec fn single_identifier_this(n: Node) -> bool {
    let ids = extract_spec(n, NodeKind::Identifier);
    &&& ids.len() == 1
    &&& ids[0].name matches Some(s) && s@ == "this"@
}

/// Whether the subtree rooted at `n` holds exactly one elementary-type-name
/// expression, whose type reference names `address`.
pub open spec fn single_elementary_address(n: Node) -> bool {
    let es = extract_spec(n, NodeKind::ElementaryTypeNameExpression);
    &&& es.len() == 1
    &&& es[0].type_ref matches Some(t) && t@ == "address"@
}

/// The structural pattern this detector flags: a type-conversion call of the
/// shape `address(this)`.
pub open spec fn is_address_this_conversion(n: Node) -> bool {
    &&& n.kind == NodeKind::FunctionCall
    &&& n.call_kind == Some(FunctionCallKind::TypeConversion)
    &&& single_identifier_this(n)
    &&& single_elementary_address(n)
}

/// The pattern, as a selector predicate.
pub open spec fn addr_this_pred() -> spec_fn(Node) -> bool {
    |n: Node| is_address_this_conversion(n)
}

/// Every `address(this)` conversion in the workspace, in the stable
/// workspace iteration order.
pub open spec fn matching_calls(units: Seq<CompilationUnit>) -> Seq<Node> {
    workspace_of_kind(units, NodeKind::FunctionCall).filter(addr_this_pred())
}

/// What one run of the detector does to its ledger: when more than one
/// matching call exists, every matching call is recorded in order; with at
/// most one, nothing is recorded.
pub open spec fn repeated_address_this_model(
    units: Seq<CompilationUnit>,
    lg0: LedgerModel,
) -> LedgerModel {
    let calls = matching_calls(units);
    if calls.len() > 1 {
        capture_from(units, lg0, calls, 0, IssueDetectorNamePool::AddressThis.name_spec())
    } else {
        lg0
    }
}

/// A qualifying call resolves, through the identifier index, to its unit
/// name: it is a node of the workspace.
pub proof fn lemma_matching_call_resolves(units: Seq<CompilationUnit>, i: int)
    requires
        0 <= i < matching_calls(units).len(),
    ensures
        contract_name_spec(units, matching_calls(units)[i].id) is Some,
{
    lemma_workspace_of_kind_resolves(units, NodeKind::FunctionCall);
    lemma_filter_elements(workspace_of_kind(units, NodeKind::FunctionCall), addr_this_pred());
    let c = matching_calls(units)[i];
    assert(workspace_of_kind(units, NodeKind::FunctionCall).contains(c));
    let j = choose|j: int|
        0 <= j < workspace_of_kind(units, NodeKind::FunctionCall).len() && workspace_of_kind(
            units,
            NodeKind::FunctionCall,
        )[j] == c;
    assert(contract_name_spec(
        units,
        workspace_of_kind(units, NodeKind::FunctionCall)[j].id,
    ) is Some);
}

/// Every qualifying call is recorded: with more than one `address(this)`
/// conversion in the workspace, a run leaves an entry in the ledger under
/// each call's key (contract name, source line, detector name).
pub proof fn lemma_repeated_all_captured(units: Seq<CompilationUnit>, lg0: LedgerModel, i: int)
    requires
        matching_calls(units).len() > 1,
        0 <= i < matching_calls(units).len(),
    ensures
        (match contract_name_spec(units, matching_calls(units)[i].id) {
            Some(nm) => repeated_address_this_model(units, lg0).map.contains_key(
                (
                    nm,
                    matching_calls(units)[i].src_line as nat,
                    IssueDetectorNamePool::AddressThis.name_spec(),
                ),
            ),
            None => false,
        }),
{
    lemma_matching_call_resolves(units, i);
    lemma_capture_from_contains(
        units,
        lg0,
        matching_calls(units),
        0,
        i,
        IssueDetectorNamePool::AddressThis.name_spec(),
    );
}

/// Colliding keys collapse: when every qualifying call shares one contract
/// and one source line, a run records exactly one entry under the shared
/// key, bound to the last call's identifier (last write wins).
pub proof fn lemma_repeated_same_line(units: Seq<CompilationUnit>, lg0: LedgerModel, k: KeyView)
    requires
        matching_calls(units).len() > 1,
        forall|i: int|
            0 <= i < matching_calls(units).len() ==> (match contract_name_spec(
                units,
                (#[trigger] matching_calls(units)[i]).id,
            ) {
                Some(nm) => (
                    nm,
                    matching_calls(units)[i].src_line as nat,
                    IssueDetectorNamePool::AddressThis.name_spec(),
                ) == k,
                None => false,
            }),
    ensures
        repeated_address_this_model(units, lg0) == lg0.spec_insert(
            k,
            matching_calls(units).last().id,
        ),
{
    lemma_capture_from_same_key(
        units,
        lg0,
        matching_calls(units),
        0,
        IssueDetectorNamePool::AddressThis.name_spec(),
        k,
    );
}

/// Flags contracts that convert their own address with `address(this)` more
/// than once.
pub struct RepeatedAddressThisDetector {
    found_instances: FindingLedger,
}

impl RepeatedAddressThisDetector {
    /// A fresh detector with an empty ledger.
    pub fn new() -> (r: RepeatedAddressThisDetector)
        ensures
            r.ledger_wf(),
            r.ledger_model() == LedgerModel::empty(),
    {
        RepeatedAddressThisDetector { found_instances: FindingLedger::new() }
    }
}

impl Default for RepeatedAddressThisDetector {
    /// A fresh detector with an empty ledger.
    fn default() -> (r: RepeatedAddressThisDetector)
        ensures
            r.ledger_wf(),
            r.ledger_model() == LedgerModel::empty(),
    {
        RepeatedAddressThisDetector::new()
    }
}

impl IssueDetector for RepeatedAddressThisDetector {
    closed spec fn ledger_model(&self) -> LedgerModel {
        self.found_instances@
    }

    closed spec fn ledger_wf(&self) -> bool {
        self.found_instances.wf()
    }

    open spec fn severity_spec(&self) -> IssueSeverity {
        IssueSeverity::Low
    }

    open spec fn name_spec(&self) -> Seq<char> {
        IssueDetectorNamePool::AddressThis.name_spec()
    }

    open spec fn title_spec(&self) -> Seq<char> {
        "Multiple address(this) calls inside the contract <contract-name> can cause uncecessary gas consumption."@
    }

    open spec fn description_spec(&self) -> Seq<char> {
        ""@
    }

    fn detect(&mut self, ctx: &WorkspaceContext) -> (r: Result<bool, DetectorError>)
        ensures
            final(self).ledger_model() == repeated_address_this_model(
                ctx.units_view(),
                old(self).ledger_model(),
            ),
            r matches Ok(found) && found == (final(self).ledger_model().len() != 0),
    {
        let ghost units = ctx.units_view();
        let calls = ctx.function_calls();
        proof {
            lemma_of_kind_upto_kinds(units, units.len() as int, NodeKind::FunctionCall);
        }
        let mut matched: Vec<&Node> = Vec::new();
        proof {
            assert(derefs(calls@.subrange(0, 0)) =~= Seq::<Node>::empty());
            assert(derefs(matched@) =~= derefs(calls@.subrange(0, 0)).filter(addr_this_pred()))
                by {
                reveal(Seq::filter);
            }
        }
        let mut i: usize = 0;
        while i < calls.len()
            invariant
                i <= calls@.len(),
                units == ctx.units_view(),
                derefs(calls@) == workspace_of_kind(units, NodeKind::FunctionCall),
                forall|j: int|
                    0 <= j < derefs(calls@).len() ==> (#[trigger] derefs(calls@)[j]).kind
                        == NodeKind::FunctionCall,
                derefs(matched@) == derefs(calls@.subrange(0, i as int)).filter(addr_this_pred()),
            decreases calls@.len() - i,
        {
            let call = calls[i];
            let ghost callval = derefs(calls@)[i as int];
            proof {
                assert(callval == *call);
            }
            let is_conversion = matches!(call.call_kind, Some(FunctionCallKind::TypeConversion));
            let mut is_match = false;
            if is_conversion {
                // search for the lone `this` identifier
                let ids = extract_of_kind(call, NodeKind::Identifier);
                let mut this_found = false;
                if ids.len() == 1 {
                    match &ids[0].name {
                        Some(s) => {
                            this_found = string_eq_str(s, "this");
                            proof {
                                assert(*ids@[0] == extract_spec(callval, NodeKind::Identifier)[0]);
                            }
                        },
                        None => {},
                    }
                }
                proof {
                    if ids@.len() == 1 {
                        assert(*ids@[0] == extract_spec(callval, NodeKind::Identifier)[0]);
                    }
                    assert(this_found == single_identifier_this(callval));
                }
                // search for the lone `address` elementary type name
                let es = extract_of_kind(call, NodeKind::ElementaryTypeNameExpression);
                let mut address_found = false;
                if es.len() == 1 {
                    match &es[0].type_ref {
                        Some(t) => {
                            address_found = string_eq_str(t, "address");
                        },
                        None => {},
                    }
                }
                proof {
                    if es@.len() == 1 {
                        assert(*es@[0] == extract_spec(
                            callval,
                            NodeKind::ElementaryTypeNameExpression,
                        )[0]);
                    }
                    assert(address_found == single_elementary_address(callval));
                }
                is_match = this_found && address_found;
            }
            proof {
                assert(is_match == is_address_this_conversion(callval));
            }
            let ghost prefix = derefs(calls@.subrange(0, i as int));
            proof {
                assert(derefs(calls@.subrange(0, i + 1 as int)) =~= prefix.push(callval));
                lemma_filter_push(prefix, callval, addr_this_pred());
            }
            if is_match {
                matched.push(call);
                proof {
                    assert(derefs(matched@) =~= prefix.filter(addr_this_pred()) + seq![callval]);
                }
            } else {
                proof {
                    assert(derefs(matched@) =~= prefix.filter(addr_this_pred())
                        + Seq::<Node>::empty());
                }
            }
            i = i + 1;
        }
        proof {
            assert(calls@.subrange(0, calls@.len() as int) =~= calls@);
            assert(derefs(matched@) == matching_calls(units));
        }
        let ghost mvals = derefs(matched@);
        let ghost lg0 = self.found_instances@;
        let ghost det = IssueDetectorNamePool::AddressThis.name_spec();
        if matched.len() > 1 {
            let det_name = IssueDetectorNamePool::AddressThis.to_name();
            let mut j: usize = 0;
            while j < matched.len()
                invariant
                    j <= matched@.len(),
                    ctx.wf(),
                    units == ctx.units_view(),
                    det_name@ == det,
                    derefs(matched@) == mvals,
                    self.found_instances.wf(),
                    capture_from(units, lg0, mvals, 0, det) == capture_from(
                        units,
                        self.found_instances@,
                        mvals,
                        j as int,
                        det,
                    ),
                decreases matched@.len() - j,
            {
                let ghost before = self.found_instances@;
                capture(&mut self.found_instances, ctx, matched[j], &det_name);
                proof {
                    assert(mvals[j as int] == *matched@[j as int]);
                    assert(self.found_instances@ == capture_model(
                        units,
                        before,
                        mvals[j as int],
                        det,
                    ));
                }
                j = j + 1;
            }
        }
        Ok(!self.found_instances.is_empty())
    }

    fn severity(&self) -> (s: IssueSeverity) {
        IssueSeverity::Low
    }

    fn name(&self) -> (r: String) {
        IssueDetectorNamePool::AddressThis.to_name()
    }

    fn title(&self) -> (r: String) {
        String::from_str(
            "Multiple address(this) calls inside the contract <contract-name> can cause uncecessary gas consumption.",
        )
    }

    fn description(&self) -> (r: String) {
        String::from_str("")
    }

    fn instances(&self) -> (r: FindingLedger) {
        self.found_instances.snapshot()
    }
}

} // verus!
