//! A detector for stack variables that are assigned and then used only once.
//!
//! For every function definition in the workspace, the detector walks the
//! function's variable-declaration statements, samples the first declared
//! variable of each statement, and counts the identifier occurrences of that
//! name inside the function. A name counted exactly once flags its
//! declaration statement; any other count records nothing, and the scan goes
//! on through every remaining statement and function. Only the first
//! declaration of a statement is sampled.

use vstd::prelude::*;

use crate::ast::{preorder, Node, NodeKind};
use crate::browser::{
    derefs, extract_of_kind, extract_spec, lemma_filter_elements, lemma_filter_push,
    lemma_preorder_trans, named,
};
use crate::detector::{
    capture, capture_model, DetectorError, IssueDetector, IssueDetectorNamePool, IssueSeverity,
};
use crate::ledger::{FindingLedger, KeyView, LedgerModel};
use crate::workspace::{
    contract_name_spec, lemma_node_in_unit_resolves, lemma_of_kind_upto_in_units,
    workspace_of_kind, CompilationUnit, WorkspaceContext,
};
use vstd::string::StringExecFns;

verus! {

/// How many identifiers named `nm` occur in the subtree of function `f`.
pub open spec fn count_uses(f: Node, nm: Seq<char>) -> nat {
    extract_spec(f, NodeKind::Identifier).filter(named(nm)).len()
}

/// The name declared by the first declaration of a variable-declaration
/// statement, when that declaration is present and named. Only the first
/// declaration is sampled.
pub open spec fn first_declared_name(stmt: Node) -> Option<Seq<char>> {
    if stmt.children@.len() > 0 && stmt.children@[0].kind == NodeKind::VariableDeclaration {
        match stmt.children@[0].name {
            Some(s) => Some(s@),
            None => None,
        }
    } else {
        None
    }
}

/// Processing the statements of function `f` from position `j` on: a
/// statement whose first declarant's name is counted exactly once in `f`
/// records that statement; every other statement records nothing; every
/// statement is examined.
pub open spec fn stmts_from(
    units: Seq<CompilationUnit>,
    f: Node,
    stmts: Seq<Node>,
    j: int,
    lg: LedgerModel,
    det: Seq<char>,
) -> LedgerModel
    decreases stmts.len() - j,
{
    if j < 0 || j >= stmts.len() {
        lg
    } else {
        let lg2 = match first_declared_name(stmts[j]) {
            Some(nm) => if count_uses(f, nm) == 1 {
                capture_model(units, lg, stmts[j], det)
            } else {
                lg
            },
            None => lg,
        };
        stmts_from(units, f, stmts, j + 1, lg2, det)
    }
}

/// Processing the workspace's function definitions from position `j` on,
/// every function examined in order.
pub open spec fn fns_from(
    units: Seq<CompilationUnit>,
    fns: Seq<Node>,
    j: int,
    lg: LedgerModel,
    det: Seq<char>,
) -> LedgerModel
    decreases fns.len() - j,
{
    if j < 0 || j >= fns.len() {
        lg
    } else {
        fns_from(
            units,
            fns,
            j + 1,
            stmts_from(
                units,
                fns[j],
                extract_spec(fns[j], NodeKind::VariableDeclarationStatement),
                0,
                lg,
                det,
            ),
            det,
        )
    }
}

/// What one run of the detector does to its ledger.
pub open spec fn single_use_model(units: Seq<CompilationUnit>, lg0: LedgerModel) -> LedgerModel {
    fns_from(
        units,
        workspace_of_kind(units, NodeKind::FunctionDefinition),
        0,
        lg0,
        IssueDetectorNamePool::SingleUseStateVariable.name_spec(),
    )
}

/// Scanning more statements never removes a key already in the map.
pub proof fn lemma_stmts_from_monotone(
    units: Seq<CompilationUnit>,
    f: Node,
    stmts: Seq<Node>,
    j: int,
    lg: LedgerModel,
    det: Seq<char>,
    k: KeyView,
)
    requires
        lg.map.contains_key(k),
    ensures
        stmts_from(units, f, stmts, j, lg, det).map.contains_key(k),
    decreases stmts.len() - j,
{
    if 0 <= j < stmts.len() {
        let lg2 = match first_declared_name(stmts[j]) {
            Some(nm) => if count_uses(f, nm) == 1 {
                capture_model(units, lg, stmts[j], det)
            } else {
                lg
            },
            None => lg,
        };
        assert(lg2.map.contains_key(k));
        lemma_stmts_from_monotone(units, f, stmts, j + 1, lg2, det, k);
    }
}

/// Scanning more functions never removes a key already in the map.
pub proof fn lemma_fns_from_monotone(
    units: Seq<CompilationUnit>,
    fns: Seq<Node>,
    j: int,
    lg: LedgerModel,
    det: Seq<char>,
    k: KeyView,
)
    requires
        lg.map.contains_key(k),
    ensures
        fns_from(units, fns, j, lg, det).map.contains_key(k),
    decreases fns.len() - j,
{
    if 0 <= j < fns.len() {
        let lg2 = stmts_from(
            units,
            fns[j],
            extract_spec(fns[j], NodeKind::VariableDeclarationStatement),
            0,
            lg,
            det,
        );
        lemma_stmts_from_monotone(
            units,
            fns[j],
            extract_spec(fns[j], NodeKind::VariableDeclarationStatement),
            0,
            lg,
            det,
            k,
        );
        lemma_fns_from_monotone(units, fns, j + 1, lg2, det, k);
    }
}

/// A statement whose first declarant's name is counted exactly once, and
/// whose identifier resolves, leaves its key in the map of the statement
/// scan.
pub proof fn lemma_stmts_from_contains(
    units: Seq<CompilationUnit>,
    f: Node,
    stmts: Seq<Node>,
    j: int,
    i: int,
    lg: LedgerModel,
    det: Seq<char>,
)
    requires
        0 <= j <= i < stmts.len(),
        (match first_declared_name(stmts[i]) {
            Some(nm) => count_uses(f, nm) == 1,
            None => false,
        }),
        contract_name_spec(units, stmts[i].id) is Some,
    ensures
        (match contract_name_spec(units, stmts[i].id) {
            Some(cn) => stmts_from(units, f, stmts, j, lg, det).map.contains_key(
                (cn, stmts[i].src_line as nat, det),
            ),
            None => true,
        }),
    decreases i - j,
{
    let lg2 = match first_declared_name(stmts[j]) {
        Some(nm) => if count_uses(f, nm) == 1 {
            capture_model(units, lg, stmts[j], det)
        } else {
            lg
        },
        None => lg,
    };
    if j == i {
        match contract_name_spec(units, stmts[i].id) {
            Some(cn) => {
                assert(lg2.map.contains_key((cn, stmts[i].src_line as nat, det)));
                lemma_stmts_from_monotone(
                    units,
                    f,
                    stmts,
                    j + 1,
                    lg2,
                    det,
                    (cn, stmts[i].src_line as nat, det),
                );
            },
            None => {},
        }
    } else {
        lemma_stmts_from_contains(units, f, stmts, j + 1, i, lg2, det);
    }
}

/// A single-use declaration is always flagged: for any function of the
/// workspace, a variable-declaration statement whose first declarant's name
/// occurs exactly once among the function's identifiers ends in the final
/// ledger, under its own key — whatever the other statements and functions
/// hold. Here `v` picks the function among the workspace's definitions and
/// `i` the statement among that function's declaration statements.
pub proof fn lemma_single_use_captured(
    units: Seq<CompilationUnit>,
    lg0: LedgerModel,
    v: int,
    i: int,
)
    requires
        0 <= v < workspace_of_kind(units, NodeKind::FunctionDefinition).len(),
        0 <= i < extract_spec(
            workspace_of_kind(units, NodeKind::FunctionDefinition)[v],
            NodeKind::VariableDeclarationStatement,
        ).len(),
        (match first_declared_name(
            extract_spec(
                workspace_of_kind(units, NodeKind::FunctionDefinition)[v],
                NodeKind::VariableDeclarationStatement,
            )[i],
        ) {
            Some(nm) => count_uses(
                workspace_of_kind(units, NodeKind::FunctionDefinition)[v],
                nm,
            ) == 1,
            None => false,
        }),
    ensures
        (match contract_name_spec(
            units,
            extract_spec(
                workspace_of_kind(units, NodeKind::FunctionDefinition)[v],
                NodeKind::VariableDeclarationStatement,
            )[i].id,
        ) {
            Some(cn) => single_use_model(units, lg0).map.contains_key(
                (
                    cn,
                    extract_spec(
                        workspace_of_kind(units, NodeKind::FunctionDefinition)[v],
                        NodeKind::VariableDeclarationStatement,
                    )[i].src_line as nat,
                    IssueDetectorNamePool::SingleUseStateVariable.name_spec(),
                ),
            ),
            None => false,
        }),
{
    let fns = workspace_of_kind(units, NodeKind::FunctionDefinition);
    let f = fns[v];
    let stmts = extract_spec(f, NodeKind::VariableDeclarationStatement);
    let stmt = stmts[i];
    let det = IssueDetectorNamePool::SingleUseStateVariable.name_spec();
    // the statement is a node of its unit, so its identifier resolves
    lemma_of_kind_upto_in_units(units, units.len() as int, NodeKind::FunctionDefinition);
    let u = choose|u: int| 0 <= u < units.len() && preorder(units[u].root).contains(f);
    lemma_filter_elements(preorder(f), crate::browser::of_kind(
        NodeKind::VariableDeclarationStatement,
    ));
    assert(preorder(f).contains(stmt));
    lemma_preorder_trans(units[u].root, f, stmt);
    lemma_node_in_unit_resolves(units, u, stmt);
    // the statement scan records it, and the later functions keep it
    match contract_name_spec(units, stmt.id) {
        Some(_) => {
            lemma_fns_from_reaches(units, fns, 0, v, i, lg0, det);
        },
        None => {},
    }
}

/// The function scan, started anywhere at or before function `v`, records
/// the key of function `v`'s single-use statement `i`.
proof fn lemma_fns_from_reaches(
    units: Seq<CompilationUnit>,
    fns: Seq<Node>,
    j: int,
    v: int,
    i: int,
    lg: LedgerModel,
    det: Seq<char>,
)
    requires
        0 <= j <= v < fns.len(),
        0 <= i < extract_spec(fns[v], NodeKind::VariableDeclarationStatement).len(),
        (match first_declared_name(
            extract_spec(fns[v], NodeKind::VariableDeclarationStatement)[i],
        ) {
            Some(nm) => count_uses(fns[v], nm) == 1,
            None => false,
        }),
        contract_name_spec(
            units,
            extract_spec(fns[v], NodeKind::VariableDeclarationStatement)[i].id,
        ) is Some,
    ensures
        (match contract_name_spec(
            units,
            extract_spec(fns[v], NodeKind::VariableDeclarationStatement)[i].id,
        ) {
            Some(cn) => fns_from(units, fns, j, lg, det).map.contains_key(
                (
                    cn,
                    extract_spec(fns[v], NodeKind::VariableDeclarationStatement)[i].src_line as nat,
                    det,
                ),
            ),
            None => true,
        }),
    decreases v - j,
{
    let lg2 = stmts_from(
        units,
        fns[j],
        extract_spec(fns[j], NodeKind::VariableDeclarationStatement),
        0,
        lg,
        det,
    );
    if j == v {
        let stmts = extract_spec(fns[v], NodeKind::VariableDeclarationStatement);
        lemma_stmts_from_contains(units, fns[v], stmts, 0, i, lg, det);
        match contract_name_spec(units, stmts[i].id) {
            Some(cn) => {
                lemma_fns_from_monotone(
                    units,
                    fns,
                    j + 1,
                    lg2,
                    det,
                    (cn, stmts[i].src_line as nat, det),
                );
            },
            None => {},
        }
    } else {
        lemma_fns_from_reaches(units, fns, j + 1, v, i, lg2, det);
    }
}

/// Flags variable declarations whose first declared variable is referenced
/// by exactly one identifier occurrence in its function.
pub struct SingleUseStateVariableDetector {
    found_instances: FindingLedger,
}

impl SingleUseStateVariableDetector {
    /// A fresh detector with an empty ledger.
    pub fn new() -> (r: SingleUseStateVariableDetector)
        ensures
            r.ledger_wf(),
            r.ledger_model() == LedgerModel::empty(),
    {
        SingleUseStateVariableDetector { found_instances: FindingLedger::new() }
    }
}

impl Default for SingleUseStateVariableDetector {
    /// A fresh detector with an empty ledger.
    fn default() -> (r: SingleUseStateVariableDetector)
        ensures
            r.ledger_wf(),
            r.ledger_model() == LedgerModel::empty(),
    {
        SingleUseStateVariableDetector::new()
    }
}

impl IssueDetector for SingleUseStateVariableDetector {
    closed spec fn ledger_model(&self) -> LedgerModel {
        self.found_instances@
    }

    closed spec fn ledger_wf(&self) -> bool {
        self.found_instances.wf()
    }

    open spec fn severity_spec(&self) -> IssueSeverity {
        IssueSeverity::Low
    }

    open spec fn name_spec(&self) -> Seq<char> {
        IssueDetectorNamePool::SingleUseStateVariable.name_spec()
    }

    open spec fn title_spec(&self) -> Seq<char> {
        "Stack variable value is assigned and used only once"@
    }

    open spec fn description_spec(&self) -> Seq<char> {
        ""@
    }

    fn detect(&mut self, ctx: &WorkspaceContext) -> (r: Result<bool, DetectorError>)
        ensures
            final(self).ledger_model() == single_use_model(
                ctx.units_view(),
                old(self).ledger_model(),
            ),
            r matches Ok(found) && found == (final(self).ledger_model().len() != 0),
    {
        let ghost units = ctx.units_view();
        let ghost det = IssueDetectorNamePool::SingleUseStateVariable.name_spec();
        let det_name = IssueDetectorNamePool::SingleUseStateVariable.to_name();
        let functions = ctx.function_definitions();
        let ghost fnvals = derefs(functions@);
        let ghost lg0 = self.found_instances@;
        let mut fi: usize = 0;
        while fi < functions.len()
            invariant
                fi <= functions@.len(),
                ctx.wf(),
                units == ctx.units_view(),
                det_name@ == det,
                det == IssueDetectorNamePool::SingleUseStateVariable.name_spec(),
                derefs(functions@) == fnvals,
                fnvals == workspace_of_kind(units, NodeKind::FunctionDefinition),
                self.found_instances.wf(),
                lg0 == old(self).found_instances@,
                fns_from(units, fnvals, 0, lg0, det) == fns_from(
                    units,
                    fnvals,
                    fi as int,
                    self.found_instances@,
                    det,
                ),
            decreases functions@.len() - fi,
        {
            let function = functions[fi];
            let ghost fval = fnvals[fi as int];
            proof {
                assert(fval == *function);
            }
            let stmts = extract_of_kind(function, NodeKind::VariableDeclarationStatement);
            let ghost svals = derefs(stmts@);
            let ghost lgf = self.found_instances@;
            let mut si: usize = 0;
            while si < stmts.len()
                invariant
                    si <= stmts@.len(),
                    ctx.wf(),
                    units == ctx.units_view(),
                    det_name@ == det,
                    det == IssueDetectorNamePool::SingleUseStateVariable.name_spec(),
                    fi < fnvals.len(),
                    fval == fnvals[fi as int],
                    fval == *function,
                    fnvals == workspace_of_kind(units, NodeKind::FunctionDefinition),
                    derefs(stmts@) == svals,
                    svals == extract_spec(fval, NodeKind::VariableDeclarationStatement),
                    self.found_instances.wf(),
                    lg0 == old(self).found_instances@,
                    fns_from(units, fnvals, 0, lg0, det) == fns_from(
                        units,
                        fnvals,
                        fi as int,
                        lgf,
                        det,
                    ),
                    stmts_from(units, fval, svals, 0, lgf, det) == stmts_from(
                        units,
                        fval,
                        svals,
                        si as int,
                        self.found_instances@,
                        det,
                    ),
                decreases stmts@.len() - si,
            {
                let stmt = stmts[si];
                let ghost sval = svals[si as int];
                proof {
                    assert(sval == *stmt);
                }
                let mut declared_present = false;
                if stmt.children.len() > 0 {
                    let c0 = &stmt.children[0];
                    if c0.kind == NodeKind::VariableDeclaration {
                        match &c0.name {
                            Some(declared) => {
                                declared_present = true;
                                let ghost nm = declared@;
                                proof {
                                    assert(first_declared_name(sval) == Some(nm));
                                }
                                // count every identifier occurrence of the
                                // name inside the function
                                let ids = extract_of_kind(function, NodeKind::Identifier);
                                let ghost ivals = derefs(ids@);
                                proof {
                                    assert(ivals.subrange(0, 0) =~= Seq::<Node>::empty());
                                    assert(ivals.subrange(0, 0).filter(named(nm)).len() == 0) by {
                                        reveal(Seq::filter);
                                    }
                                }
                                let mut counter: usize = 0;
                                let mut ii: usize = 0;
                                while ii < ids.len()
                                    invariant
                                        ii <= ids@.len(),
                                        ctx.wf(),
                                        units == ctx.units_view(),
                                        det_name@ == det,
                                        det
                                            == IssueDetectorNamePool::SingleUseStateVariable.name_spec(),
                                        fi < fnvals.len(),
                                        fval == fnvals[fi as int],
                                        fnvals == workspace_of_kind(
                                            units,
                                            NodeKind::FunctionDefinition,
                                        ),
                                        si < svals.len(),
                                        sval == svals[si as int],
                                        svals == extract_spec(
                                            fval,
                                            NodeKind::VariableDeclarationStatement,
                                        ),
                                        first_declared_name(sval) == Some(nm),
                                        declared@ == nm,
                                        derefs(ids@) == ivals,
                                        ivals == extract_spec(fval, NodeKind::Identifier),
                                        counter <= ii,
                                        counter == ivals.subrange(0, ii as int).filter(
                                            named(nm),
                                        ).len(),
                                        self.found_instances.wf(),
                                        lg0 == old(self).found_instances@,
                                        fns_from(units, fnvals, 0, lg0, det) == fns_from(
                                            units,
                                            fnvals,
                                            fi as int,
                                            lgf,
                                            det,
                                        ),
                                        stmts_from(units, fval, svals, 0, lgf, det) == stmts_from(
                                            units,
                                            fval,
                                            svals,
                                            si as int,
                                            self.found_instances@,
                                            det,
                                        ),
                                    decreases ids@.len() - ii,
                                {
                                    let id_node = ids[ii];
                                    let ghost ival = ivals[ii as int];
                                    proof {
                                        assert(ival == *id_node);
                                    }
                                    let mut matches_name = false;
                                    match &id_node.name {
                                        Some(s) => {
                                            matches_name = *s == *declared;
                                        },
                                        None => {},
                                    }
                                    proof {
                                        assert(matches_name == named(nm)(ival));
                                        assert(ivals.subrange(0, ii + 1 as int) =~= ivals.subrange(
                                            0,
                                            ii as int,
                                        ).push(ival));
                                        lemma_filter_push(
                                            ivals.subrange(0, ii as int),
                                            ival,
                                            named(nm),
                                        );
                                    }
                                    if matches_name {
                                        counter = counter + 1;
                                    }
                                    ii = ii + 1;
                                }
                                proof {
                                    assert(ivals.subrange(0, ivals.len() as int) =~= ivals);
                                    assert(counter == count_uses(fval, nm));
                                }
                                if counter == 1 {
                                    let ghost before = self.found_instances@;
                                    capture(&mut self.found_instances, ctx, stmt, &det_name);
                                    proof {
                                        assert(self.found_instances@ == capture_model(
                                            units,
                                            before,
                                            sval,
                                            det,
                                        ));
                                        assert(stmts_from(units, fval, svals, 0, lgf, det)
                                            == stmts_from(
                                            units,
                                            fval,
                                            svals,
                                            si + 1 as int,
                                            self.found_instances@,
                                            det,
                                        ));
                                    }
                                } else {
                                    proof {
                                        assert(stmts_from(units, fval, svals, 0, lgf, det)
                                            == stmts_from(
                                            units,
                                            fval,
                                            svals,
                                            si + 1 as int,
                                            self.found_instances@,
                                            det,
                                        ));
                                    }
                                }
                            },
                            None => {},
                        }
                    }
                }
                if !declared_present {
                    proof {
                        assert(first_declared_name(sval) is None);
                        assert(stmts_from(units, fval, svals, 0, lgf, det) == stmts_from(
                            units,
                            fval,
                            svals,
                            si + 1 as int,
                            self.found_instances@,
                            det,
                        ));
                    }
                }
                si = si + 1;
            }
            proof {
                assert(stmts_from(units, fval, svals, 0, lgf, det) == self.found_instances@);
                assert(fns_from(units, fnvals, 0, lg0, det) == fns_from(
                    units,
                    fnvals,
                    fi + 1 as int,
                    self.found_instances@,
                    det,
                ));
            }
            fi = fi + 1;
        }
        proof {
            assert(fns_from(units, fnvals, 0, lg0, det) == self.found_instances@);
        }
        Ok(!self.found_instances.is_empty())
    }

    fn severity(&self) -> (s: IssueSeverity) {
        IssueSeverity::Low
    }

    fn name(&self) -> (r: String) {
        IssueDetectorNamePool::SingleUseStateVariable.to_name()
    }

    fn title(&self) -> (r: String) {
        String::from_str("Stack variable value is assigned and used only once")
    }

    fn description(&self) -> (r: String) {
        String::from_str("")
    }

    fn instances(&self) -> (r: FindingLedger) {
        self.found_instances.snapshot()
    }
}

} // verus!
