//! The detector contract: the polymorphic unit of analysis, its fixed
//! metadata, and the single choke point through which findings are recorded.

use vstd::prelude::*;

use crate::ast::Node;
use crate::ledger::{lemma_ledger_overwrite, FindingKey, FindingLedger, KeyView, LedgerModel};
use crate::workspace::{contract_name_spec, CompilationUnit, WorkspaceContext};
use vstd::string::StringExecFns;

verus! {

/// The fixed risk classification of a detector's findings.
#[derive(Clone, Copy, Debug, PartialEq, Eq, Structural)]
pub enum IssueSeverity {
    Critical,
    High,
    Medium,
    Low,
    NonCritical,
    Gas,
}

/// The closed registry of known detector names.
#[derive(Clone, Copy, Debug, PartialEq, Eq, Structural)]
pub enum IssueDetectorNamePool {
    AddressThis,
    SingleUseStateVariable,
}

impl IssueDetectorNamePool {
    /// The stable identifier this registry entry denotes.
    pub open spec fn name_spec(&self) -> Seq<char> {
        match self {
            IssueDetectorNamePool::AddressThis => "address-this"@,
            IssueDetectorNamePool::SingleUseStateVariable => "single-use-state-variable"@,
        }
    }

    /// The stable identifier, as a string.
    pub fn to_name(&self) -> (r: String)
        ensures
            r@ == self.name_spec(),
    {
        match self {
            IssueDetectorNamePool::AddressThis => String::from_str("address-this"),
            IssueDetectorNamePool::SingleUseStateVariable => String::from_str(
                "single-use-state-variable",
            ),
        }
    }
}

/// A recoverable, detector-level failure: a structural assumption about the
/// graph did not hold while the detector ran. It never corrupts the
/// workspace context and never stops other detectors.
#[derive(Clone, Copy, Debug, PartialEq, Eq, Structural)]
pub enum DetectorError {
    /// A node the detector relies on is absent from the expected position.
    MissingExpectedNode,
}

/// What recording one flagged node does to a ledger: the node's identifier
/// is filed under (enclosing contract-or-file name, source line, detector
/// name); a node whose identifier the index cannot resolve records nothing.
pub open spec fn capture_model(
    units: Seq<CompilationUnit>,
    lg: LedgerModel,
    n: Node,
    det: Seq<char>,
) -> LedgerModel {
    match contract_name_spec(units, n.id) {
        Some(nm) => lg.spec_insert((nm, n.src_line as nat, det), n.id),
        None => lg,
    }
}

/// Recording a sequence of flagged nodes, from position `j` on, in order.
pub open spec fn capture_from(
    units: Seq<CompilationUnit>,
    lg: LedgerModel,
    s: Seq<Node>,
    j: int,
    det: Seq<char>,
) -> LedgerModel
    decreases s.len() - j,
{
    if j < 0 || j >= s.len() {
        lg
    } else {
        capture_from(units, capture_model(units, lg, s[j], det), s, j + 1, det)
    }
}

/// Recording more findings never removes a key already in the map.
pub proof fn lemma_capture_from_monotone(
    units: Seq<CompilationUnit>,
    lg: LedgerModel,
    s: Seq<Node>,
    j: int,
    det: Seq<char>,
    k: KeyView,
)
    requires
        lg.map.contains_key(k),
    ensures
        capture_from(units, lg, s, j, det).map.contains_key(k),
    decreases s.len() - j,
{
    if 0 <= j < s.len() {
        lemma_capture_from_monotone(units, capture_model(units, lg, s[j], det), s, j + 1, det, k);
    }
}

/// Every recorded node whose identifier resolves leaves its key in the map.
pub proof fn lemma_capture_from_contains(
    units: Seq<CompilationUnit>,
    lg: LedgerModel,
    s: Seq<Node>,
    j: int,
    i: int,
    det: Seq<char>,
)
    requires
        0 <= j <= i < s.len(),
        contract_name_spec(units, s[i].id) is Some,
    ensures
        (match contract_name_spec(units, s[i].id) {
            Some(nm) => capture_from(units, lg, s, j, det).map.contains_key(
                (nm, s[i].src_line as nat, det),
            ),
            None => true,
        }),
    decreases i - j,
{
    if j == i {
        match contract_name_spec(units, s[i].id) {
            Some(nm) => {
                lemma_capture_from_monotone(
                    units,
                    capture_model(units, lg, s[j], det),
                    s,
                    j + 1,
                    det,
                    (nm, s[i].src_line as nat, det),
                );
            },
            None => {},
        }
    } else {
        lemma_capture_from_contains(units, capture_model(units, lg, s[j], det), s, j + 1, i, det);
    }
}

/// When every node from position `j` on shares one key, the recordings
/// collapse to a single insert of the last node's identifier (last write
/// wins).
pub proof fn lemma_capture_from_same_key(
    units: Seq<CompilationUnit>,
    lg: LedgerModel,
    s: Seq<Node>,
    j: int,
    det: Seq<char>,
    k: KeyView,
)
    requires
        0 <= j < s.len(),
        forall|i: int|
            j <= i < s.len() ==> (match contract_name_spec(units, (#[trigger] s[i]).id) {
                Some(nm) => (nm, s[i].src_line as nat, det) == k,
                None => false,
            }),
    ensures
        capture_from(units, lg, s, j, det) == lg.spec_insert(k, s[s.len() - 1].id),
    decreases s.len() - j,
{
    assert(match contract_name_spec(units, s[j].id) {
        Some(nm) => (nm, s[j].src_line as nat, det) == k,
        None => false,
    });
    if j == s.len() - 1 {
        assert(capture_model(units, lg, s[j], det) == lg.spec_insert(k, s[j].id));
        assert(capture_from(units, capture_model(units, lg, s[j], det), s, j + 1, det)
            == capture_model(units, lg, s[j], det));
    } else {
        assert(capture_model(units, lg, s[j], det) == lg.spec_insert(k, s[j].id));
        lemma_capture_from_same_key(units, capture_model(units, lg, s[j], det), s, j + 1, det, k);
        lemma_ledger_overwrite(lg, k, s[j].id, s[s.len() - 1].id);
    }
}

/// The single choke point through which every detector reports a finding:
/// resolve the flagged node's enclosing contract name through the workspace
/// context, form the composite key with the node's source line and the
/// detector's name, and record the node's identifier, overwriting any prior
/// entry under the same key.
pub fn capture(ledger: &mut FindingLedger, ctx: &WorkspaceContext, node: &Node, det_name: &String)
    requires
        old(ledger).wf(),
        ctx.wf(),
    ensures
        final(ledger).wf(),
        final(ledger)@ == capture_model(ctx.units_view(), old(ledger)@, *node, det_name@),
{
    match ctx.contract_name_of(node.id) {
        Some(contract) => {
            let key = FindingKey {
                contract,
                line: node.src_line,
                detector: det_name.clone(),
            };
            ledger.insert(key, node.id);
        },
        None => {},
    }
}

/// The contract every analysis rule implements.
///
/// A detector is created once per run, invoked exactly once through
/// [`IssueDetector::detect`], then queried for its fixed metadata and its
/// accumulated findings. `detect` confines its side effects to the
/// detector's own finding ledger: the workspace context is shared read-only.
pub trait IssueDetector: Sized {
    /// The model of this detector's finding ledger.
    spec fn ledger_model(&self) -> LedgerModel;

    /// Whether this detector's ledger is structurally sound.
    spec fn ledger_wf(&self) -> bool;

    /// The fixed severity classification.
    spec fn severity_spec(&self) -> IssueSeverity;

    /// The stable name, drawn from the closed registry.
    spec fn name_spec(&self) -> Seq<char>;

    /// The fixed title text.
    spec fn title_spec(&self) -> Seq<char>;

    /// The fixed description text.
    spec fn description_spec(&self) -> Seq<char>;

    /// Run the analysis once against a shared workspace context, recording
    /// findings in this detector's own ledger, and report whether the ledger
    /// is non-empty afterwards. A failure is per-detector and leaves the
    /// context untouched.
    fn detect(&mut self, ctx: &WorkspaceContext) -> (r: Result<bool, DetectorError>)
        requires
            ctx.wf(),
            old(self).ledger_wf(),
        ensures
            final(self).ledger_wf(),
            r matches Ok(found) ==> found == (final(self).ledger_model().len() != 0),
            final(self).severity_spec() == old(self).severity_spec(),
            final(self).name_spec() == old(self).name_spec(),
            final(self).title_spec() == old(self).title_spec(),
            final(self).description_spec() == old(self).description_spec(),
    ;

    /// The fixed severity classification.
    fn severity(&self) -> (s: IssueSeverity)
        ensures
            s == self.severity_spec(),
    ;

    /// The stable detector name used for traceability and ledger keys.
    fn name(&self) -> (r: String)
        ensures
            r@ == self.name_spec(),
    ;

    /// The fixed, human-readable title.
    fn title(&self) -> (r: String)
        ensures
            r@ == self.title_spec(),
    ;

    /// The fixed, human-readable description.
    fn description(&self) -> (r: String)
        ensures
            r@ == self.description_spec(),
    ;

    /// A read-only snapshot of the accumulated findings.
    fn instances(&self) -> (r: FindingLedger)
        requires
            self.ledger_wf(),
        ensures
            r.wf(),
            r@ == self.ledger_model(),
    ;
}

} // verus!
