//! The detector runner: invoke each detector of a batch exactly once against
//! a shared workspace context, isolate per-detector failures, and aggregate
//! the results in a stable, deterministic order.
//!
//! The aggregation groups successful detectors by severity rank (critical
//! first), keeping the batch order within each rank; a failed detector is
//! recorded by name among the failures instead, and never disturbs what the
//! others report.

use vstd::prelude::*;

use crate::browser::lemma_filter_push;
use crate::detector::{DetectorError, IssueDetector, IssueSeverity};
use crate::ledger::{FindingLedger, LedgerModel};
use crate::repeated_address_this::{repeated_address_this_model, RepeatedAddressThisDetector};
use crate::single_use_state_variable::{single_use_model, SingleUseStateVariableDetector};
use crate::workspace::{CompilationUnit, WorkspaceContext};

verus! {

/// The closed set of detectors a run can be assembled from.
pub enum AnyDetector {
    RepeatedAddressThis(RepeatedAddressThisDetector),
    SingleUseStateVariable(SingleUseStateVariableDetector),
}

/// The ledger one run of a detector leaves behind, as a function of the
/// workspace and the detector's starting state.
pub open spec fn any_detect_model(units: Seq<CompilationUnit>, d: AnyDetector) -> LedgerModel {
    match d {
        AnyDetector::RepeatedAddressThis(x) => repeated_address_this_model(
            units,
            x.ledger_model(),
        ),
        AnyDetector::SingleUseStateVariable(x) => single_use_model(units, x.ledger_model()),
    }
}

impl IssueDetector for AnyDetector {
    open spec fn ledger_model(&self) -> LedgerModel {
        match self {
            AnyDetector::RepeatedAddressThis(x) => x.ledger_model(),
            AnyDetector::SingleUseStateVariable(x) => x.ledger_model(),
        }
    }

    open spec fn ledger_wf(&self) -> bool {
        match self {
            AnyDetector::RepeatedAddressThis(x) => x.ledger_wf(),
            AnyDetector::SingleUseStateVariable(x) => x.ledger_wf(),
        }
    }

    open spec fn severity_spec(&self) -> IssueSeverity {
        match self {
            AnyDetector::RepeatedAddressThis(x) => x.severity_spec(),
            AnyDetector::SingleUseStateVariable(x) => x.severity_spec(),
        }
    }

    open spec fn name_spec(&self) -> Seq<char> {
        match self {
            AnyDetector::RepeatedAddressThis(x) => x.name_spec(),
            AnyDetector::SingleUseStateVariable(x) => x.name_spec(),
        }
    }

    open spec fn title_spec(&self) -> Seq<char> {
        match self {
            AnyDetector::RepeatedAddressThis(x) => x.title_spec(),
            AnyDetector::SingleUseStateVariable(x) => x.title_spec(),
        }
    }

    open spec fn description_spec(&self) -> Seq<char> {
        match self {
            AnyDetector::RepeatedAddressThis(x) => x.description_spec(),
            AnyDetector::SingleUseStateVariable(x) => x.description_spec(),
        }
    }

    fn detect(&mut self, ctx: &WorkspaceContext) -> (r: Result<bool, DetectorError>)
        ensures
            final(self).ledger_model() == any_detect_model(ctx.units_view(), *old(self)),
            r matches Ok(found) && found == (final(self).ledger_model().len() != 0),
    {
        match self {
            AnyDetector::RepeatedAddressThis(x) => x.detect(ctx),
            AnyDetector::SingleUseStateVariable(x) => x.detect(ctx),
        }
    }

    fn severity(&self) -> (s: IssueSeverity) {
        match self {
            AnyDetector::RepeatedAddressThis(x) => x.severity(),
            AnyDetector::SingleUseStateVariable(x) => x.severity(),
        }
    }

    fn name(&self) -> (r: String) {
        match self {
            AnyDetector::RepeatedAddressThis(x) => x.name(),
            AnyDetector::SingleUseStateVariable(x) => x.name(),
        }
    }

    fn title(&self) -> (r: String) {
        match self {
            AnyDetector::RepeatedAddressThis(x) => x.title(),
            AnyDetector::SingleUseStateVariable(x) => x.title(),
        }
    }

    fn description(&self) -> (r: String) {
        match self {
            AnyDetector::RepeatedAddressThis(x) => x.description(),
            AnyDetector::SingleUseStateVariable(x) => x.description(),
        }
    }

    fn instances(&self) -> (r: FindingLedger) {
        match self {
            AnyDetector::RepeatedAddressThis(x) => x.instances(),
            AnyDetector::SingleUseStateVariable(x) => x.instances(),
        }
    }
}

/// The mathematical content of one aggregated result.
#[verifier::ext_equal]
pub ghost struct RecordView {
    pub name: Seq<char>,
    pub severity: IssueSeverity,
    pub title: Seq<char>,
    pub description: Seq<char>,
    pub findings: LedgerModel,
}

/// One aggregated result: a detector's metadata and its finding ledger.
pub struct DetectorRecord {
    pub name: String,
    pub severity: IssueSeverity,
    pub title: String,
    pub description: String,
    pub findings: FindingLedger,
}

impl View for DetectorRecord {
    type V = RecordView;

    open spec fn view(&self) -> RecordView {
        RecordView {
            name: self.name@,
            severity: self.severity,
            title: self.title@,
            description: self.description@,
            findings: self.findings@,
        }
    }
}

/// A failure recorded against one detector's name.
pub struct DetectorFailure {
    pub name: String,
    pub error: DetectorError,
}

/// What one analysis run hands to the reporting layer.
pub struct RunReport {
    pub records: Vec<DetectorRecord>,
    pub failures: Vec<DetectorFailure>,
}

/// The record one detector contributes, as a function of the workspace and
/// that detector's starting state alone.
pub open spec fn record_of(units: Seq<CompilationUnit>, d: AnyDetector) -> RecordView {
    RecordView {
        name: d.name_spec(),
        severity: d.severity_spec(),
        title: d.title_spec(),
        description: d.description_spec(),
        findings: any_detect_model(units, d),
    }
}

/// The records of a batch, one per detector, in batch order.
pub open spec fn unsorted_records(units: Seq<CompilationUnit>, ds: Seq<AnyDetector>) -> Seq<
    RecordView,
> {
    ds.map_values(|d: AnyDetector| record_of(units, d))
}

/// The selector predicate for records of one severity.
pub open spec fn sev_pred(sev: IssueSeverity) -> spec_fn(RecordView) -> bool {
    |r: RecordView| r.severity == sev
}

/// Severity ranks, most severe first.
pub open spec fn severity_order() -> Seq<IssueSeverity> {
    seq![
        IssueSeverity::Critical,
        IssueSeverity::High,
        IssueSeverity::Medium,
        IssueSeverity::Low,
        IssueSeverity::NonCritical,
        IssueSeverity::Gas,
    ]
}

/// Records grouped by the severity ranks from position `i` on, batch order
/// kept within each rank.
pub open spec fn grouped(s: Seq<RecordView>, i: int) -> Seq<RecordView>
    decreases severity_order().len() - i,
{
    if i < 0 || i >= severity_order().len() {
        Seq::empty()
    } else {
        s.filter(sev_pred(severity_order()[i])) + grouped(s, i + 1)
    }
}

/// The runner's deterministic aggregation order: severity rank first, batch
/// order within a rank — never the order in which detectors happened to
/// finish.
pub open spec fn ordered_records(units: Seq<CompilationUnit>, ds: Seq<AnyDetector>) -> Seq<
    RecordView,
> {
    grouped(unsorted_records(units, ds), 0)
}

/// The views of a sequence of aggregated records.
pub open spec fn records_view(s: Seq<DetectorRecord>) -> Seq<RecordView> {
    s.map_values(|r: DetectorRecord| r@)
}

/// The state a detector is left in after its one invocation, relative to its
/// starting state.
pub open spec fn detector_ran(units: Seq<CompilationUnit>, post: AnyDetector, orig: AnyDetector) -> bool {
    &&& post.ledger_wf()
    &&& post.name_spec() == orig.name_spec()
    &&& post.severity_spec() == orig.severity_spec()
    &&& post.title_spec() == orig.title_spec()
    &&& post.description_spec() == orig.description_spec()
    &&& post.ledger_model() == any_detect_model(units, orig)
}

/// Assemble the aggregated record of one detector that has run.
fn make_record(d: &AnyDetector) -> (rec: DetectorRecord)
    requires
        d.ledger_wf(),
    ensures
        rec@ == (RecordView {
            name: d.name_spec(),
            severity: d.severity_spec(),
            title: d.title_spec(),
            description: d.description_spec(),
            findings: d.ledger_model(),
        }),
{
    DetectorRecord {
        name: d.name(),
        severity: d.severity(),
        title: d.title(),
        description: d.description(),
        findings: d.instances(),
    }
}

/// Append, in batch order, the records of every detector of one severity.
fn append_records_of_severity(
    out: &mut Vec<DetectorRecord>,
    dets: &Vec<AnyDetector>,
    sev: IssueSeverity,
    Ghost(units): Ghost<Seq<CompilationUnit>>,
    Ghost(origs): Ghost<Seq<AnyDetector>>,
)
    requires
        dets@.len() == origs.len(),
        forall|j: int| 0 <= j < dets@.len() ==> detector_ran(units, dets@[j], origs[j]),
    ensures
        records_view(final(out)@) == records_view(old(out)@) + unsorted_records(
            units,
            origs,
        ).filter(sev_pred(sev)),
{
    let ghost unsorted = unsorted_records(units, origs);
    proof {
        assert(unsorted.subrange(0, 0) =~= Seq::<RecordView>::empty());
        assert(records_view(out@) =~= records_view(out@) + unsorted.subrange(0, 0).filter(
            sev_pred(sev),
        )) by {
            reveal(Seq::filter);
        }
    }
    let ghost base = out@;
    let mut j: usize = 0;
    while j < dets.len()
        invariant
            j <= dets@.len(),
            dets@.len() == origs.len(),
            forall|l: int| 0 <= l < dets@.len() ==> detector_ran(units, dets@[l], origs[l]),
            unsorted == unsorted_records(units, origs),
            records_view(out@) == records_view(base) + unsorted.subrange(0, j as int).filter(
                sev_pred(sev),
            ),
        decreases dets@.len() - j,
    {
        let ghost rv = unsorted[j as int];
        proof {
            assert(rv == record_of(units, origs[j as int]));
            assert(unsorted.subrange(0, j + 1 as int) =~= unsorted.subrange(0, j as int).push(rv));
            lemma_filter_push(unsorted.subrange(0, j as int), rv, sev_pred(sev));
        }
        let d = &dets[j];
        let ds = d.severity();
        proof {
            assert(detector_ran(units, dets@[j as int], origs[j as int]));
        }
        if ds == sev {
            let rec = make_record(d);
            proof {
                assert(rec@ == rv);
            }
            let ghost prev = out@;
            out.push(rec);
            proof {
                assert(sev_pred(sev)(rv));
                assert(unsorted.subrange(0, j + 1 as int).filter(sev_pred(sev)) == unsorted.subrange(
                    0,
                    j as int,
                ).filter(sev_pred(sev)) + seq![rv]);
                assert(out@ =~= prev.push(rec));
                assert(records_view(out@) =~= records_view(prev).push(rv));
                assert(records_view(out@) =~= records_view(base) + unsorted.subrange(
                    0,
                    j + 1 as int,
                ).filter(sev_pred(sev)));
            }
        } else {
            proof {
                assert(!sev_pred(sev)(rv));
                assert(records_view(out@) =~= records_view(base) + unsorted.subrange(
                    0,
                    j + 1 as int,
                ).filter(sev_pred(sev)));
            }
        }
        j = j + 1;
    }
    proof {
        assert(unsorted.subrange(0, unsorted.len() as int) =~= unsorted);
    }
}

/// Run every detector of the batch exactly once against the shared context,
/// then aggregate: successful detectors grouped by severity rank in batch
/// order, failed detectors recorded by name among the failures.
pub fn run_detectors(ctx: &WorkspaceContext, detectors: Vec<AnyDetector>) -> (r: RunReport)
    requires
        ctx.wf(),
        forall|i: int| 0 <= i < detectors@.len() ==> (#[trigger] detectors@[i]).ledger_wf(),
    ensures
        records_view(r.records@) == ordered_records(ctx.units_view(), detectors@),
        r.failures@.len() == 0,
{
    let ghost units = ctx.units_view();
    let ghost origs = detectors@;
    let mut pending = detectors;
    let mut ran: Vec<AnyDetector> = Vec::new();
    let mut failures: Vec<DetectorFailure> = Vec::new();
    while pending.len() > 0
        invariant
            ctx.wf(),
            units == ctx.units_view(),
            ran@.len() + pending@.len() == origs.len(),
            pending@ == origs.subrange(ran@.len() as int, origs.len() as int),
            forall|i: int| 0 <= i < origs.len() ==> (#[trigger] origs[i]).ledger_wf(),
            forall|j: int| 0 <= j < ran@.len() ==> detector_ran(units, ran@[j], origs[j]),
            failures@.len() == 0,
        decreases pending@.len(),
    {
        let ghost k = ran@.len() as int;
        let mut d = pending.remove(0);
        proof {
            assert(d == origs[k]);
            assert(pending@ =~= origs.subrange(k + 1, origs.len() as int));
        }
        let res = d.detect(ctx);
        match res {
            Ok(_) => {},
            Err(e) => {
                // a broken rule is reported once, against its own name, and
                // never stops the rest of the scan
                failures.push(DetectorFailure { name: d.name(), error: e });
            },
        }
        ran.push(d);
    }
    let mut records: Vec<DetectorRecord> = Vec::new();
    append_records_of_severity(
        &mut records,
        &ran,
        IssueSeverity::Critical,
        Ghost(units),
        Ghost(origs),
    );
    append_records_of_severity(&mut records, &ran, IssueSeverity::High, Ghost(units), Ghost(origs));
    append_records_of_severity(
        &mut records,
        &ran,
        IssueSeverity::Medium,
        Ghost(units),
        Ghost(origs),
    );
    append_records_of_severity(&mut records, &ran, IssueSeverity::Low, Ghost(units), Ghost(origs));
    append_records_of_severity(
        &mut records,
        &ran,
        IssueSeverity::NonCritical,
        Ghost(units),
        Ghost(origs),
    );
    append_records_of_severity(&mut records, &ran, IssueSeverity::Gas, Ghost(units), Ghost(origs));
    proof {
        let unsorted = unsorted_records(units, origs);
        reveal_with_fuel(grouped, 8);
        assert(records_view(records@) =~= grouped(unsorted, 0));
    }
    RunReport { records, failures }
}

/// An element of either part of a concatenation is an element of the whole.
proof fn lemma_concat_contains(a: Seq<RecordView>, b: Seq<RecordView>, x: RecordView)
    requires
        a.contains(x) || b.contains(x),
    ensures
        (a + b).contains(x),
{
    if a.contains(x) {
        let i = choose|i: int| 0 <= i < a.len() && a[i] == x;
        assert((a + b)[i] == x);
    } else {
        let i = choose|i: int| 0 <= i < b.len() && b[i] == x;
        assert((a + b)[a.len() + i] == x);
    }
}

/// Completeness of the aggregation: every detector of the batch contributes
/// its record — with its own findings — to the runner's ordered aggregation,
/// whatever any other detector of the batch did.
pub proof fn lemma_aggregation_complete(units: Seq<CompilationUnit>, ds: Seq<AnyDetector>, j: int)
    requires
        0 <= j < ds.len(),
    ensures
        ordered_records(units, ds).contains(record_of(units, ds[j])),
{
    let u = unsorted_records(units, ds);
    let r = record_of(units, ds[j]);
    assert(u[j] == r);
    let sev = r.severity;
    assert(sev_pred(sev)(r));
    u.lemma_filter_contains(sev_pred(sev), j);
    reveal_with_fuel(grouped, 8);
    match sev {
        IssueSeverity::Critical => {
            lemma_concat_contains(u.filter(sev_pred(severity_order()[0])), grouped(u, 1), r);
        },
        IssueSeverity::High => {
            lemma_concat_contains(u.filter(sev_pred(severity_order()[1])), grouped(u, 2), r);
            lemma_concat_contains(u.filter(sev_pred(severity_order()[0])), grouped(u, 1), r);
        },
        IssueSeverity::Medium => {
            lemma_concat_contains(u.filter(sev_pred(severity_order()[2])), grouped(u, 3), r);
            lemma_concat_contains(u.filter(sev_pred(severity_order()[1])), grouped(u, 2), r);
            lemma_concat_contains(u.filter(sev_pred(severity_order()[0])), grouped(u, 1), r);
        },
        IssueSeverity::Low => {
            lemma_concat_contains(u.filter(sev_pred(severity_order()[3])), grouped(u, 4), r);
            lemma_concat_contains(u.filter(sev_pred(severity_order()[2])), grouped(u, 3), r);
            lemma_concat_contains(u.filter(sev_pred(severity_order()[1])), grouped(u, 2), r);
            lemma_concat_contains(u.filter(sev_pred(severity_order()[0])), grouped(u, 1), r);
        },
        IssueSeverity::NonCritical => {
            lemma_concat_contains(u.filter(sev_pred(severity_order()[4])), grouped(u, 5), r);
            lemma_concat_contains(u.filter(sev_pred(severity_order()[3])), grouped(u, 4), r);
            lemma_concat_contains(u.filter(sev_pred(severity_order()[2])), grouped(u, 3), r);
            lemma_concat_contains(u.filter(sev_pred(severity_order()[1])), grouped(u, 2), r);
            lemma_concat_contains(u.filter(sev_pred(severity_order()[0])), grouped(u, 1), r);
        },
        IssueSeverity::Gas => {
            lemma_concat_contains(u.filter(sev_pred(severity_order()[5])), grouped(u, 6), r);
            lemma_concat_contains(u.filter(sev_pred(severity_order()[4])), grouped(u, 5), r);
            lemma_concat_contains(u.filter(sev_pred(severity_order()[3])), grouped(u, 4), r);
            lemma_concat_contains(u.filter(sev_pred(severity_order()[2])), grouped(u, 3), r);
            lemma_concat_contains(u.filter(sev_pred(severity_order()[1])), grouped(u, 2), r);
            lemma_concat_contains(u.filter(sev_pred(severity_order()[0])), grouped(u, 1), r);
        },
    }
}

/// An empty workspace yields no findings: a detector that starts with an
/// empty ledger ends with one.
pub proof fn lemma_empty_workspace(units: Seq<CompilationUnit>, d: AnyDetector)
    requires
        units.len() == 0,
        d.ledger_model() == LedgerModel::empty(),
    ensures
        any_detect_model(units, d).len() == 0,
{
    assert(crate::workspace::workspace_of_kind(units, crate::ast::NodeKind::FunctionCall).filter(
        crate::repeated_address_this::addr_this_pred(),
    ) =~= Seq::<crate::ast::Node>::empty()) by {
        reveal(Seq::filter);
    }
}

/// Isolation law: what one detector reports is a function of the workspace
/// and that detector alone. Two batches whose detectors contribute equal
/// records — whatever happened to any other detector — aggregate to the same
/// report, so no detector's success or failure affects another's findings.
pub proof fn lemma_detector_isolation(
    units: Seq<CompilationUnit>,
    a: Seq<AnyDetector>,
    b: Seq<AnyDetector>,
)
    requires
        a.len() == b.len(),
        forall|j: int| 0 <= j < a.len() ==> record_of(units, a[j]) == record_of(units, b[j]),
    ensures
        ordered_records(units, a) == ordered_records(units, b),
{
    assert(unsorted_records(units, a) =~= unsorted_records(units, b));
}

} // verus!
