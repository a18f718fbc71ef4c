//! The workspace context: the indexed, read-only view over the whole parsed
//! codebase for one analysis run.
//!
//! Construction ingests a batch of compilation units, builds the node
//! identifier index once, and fails — fatally for the run — when the graph is
//! malformed (two nodes sharing an identifier). A built context is immutable:
//! every accessor is read-only, so any number of detectors can share it.

use vstd::prelude::*;

use crate::ast::{preorder, Node, NodeKind};
use crate::browser::{derefs, extract_named, extract_of_kind, extract_spec, named, of_kind, preorder_nodes};

verus! {

/// One parsed source file: its contract (or module) name and the root of its
/// node tree.
pub struct CompilationUnit {
    pub name: String,
    pub root: Node,
}

/// One row of the identifier index: a node identifier and the compilation
/// unit it belongs to.
#[derive(Clone, Copy, Debug, PartialEq, Eq, Structural)]
pub struct IdEntry {
    pub id: u64,
    pub unit: usize,
}

/// Why a workspace context cannot be built.
#[derive(Clone, Copy, Debug, PartialEq, Eq, Structural)]
pub enum WorkspaceError {
    /// Two nodes of the supplied graph share an identifier.
    DuplicateId,
}

/// The index row drawn from one node of unit `u`.
pub open spec fn entry_of(u: int) -> spec_fn(Node) -> IdEntry {
    |m: Node| IdEntry { id: m.id, unit: u as usize }
}

/// The index rows of one compilation unit, in pre-order.
pub open spec fn unit_entries(unit: CompilationUnit, u: int) -> Seq<IdEntry> {
    preorder(unit.root).map_values(entry_of(u))
}

/// The index rows of the first `u` compilation units, in ingestion order.
pub open spec fn index_prefix(units: Seq<CompilationUnit>, u: int) -> Seq<IdEntry>
    decreases u,
{
    if u <= 0 || u > units.len() {
        Seq::empty()
    } else {
        index_prefix(units, u - 1) + unit_entries(units[u - 1], u - 1)
    }
}

/// The whole identifier index a workspace derives from its units.
pub open spec fn index_spec(units: Seq<CompilationUnit>) -> Seq<IdEntry> {
    index_prefix(units, units.len() as int)
}

/// No two rows of an index share a node identifier.
pub open spec fn distinct_ids(s: Seq<IdEntry>) -> bool {
    forall|p: int, q: int| 0 <= p < q < s.len() ==> (#[trigger] s[p]).id != (#[trigger] s[q]).id
}

/// The structural invariant of a well-formed node graph: every node
/// identifier is unique across the whole workspace.
pub open spec fn unique_ids(units: Seq<CompilationUnit>) -> bool {
    distinct_ids(index_spec(units))
}

/// The first index row holding `id`, scanning in index order.
pub open spec fn find_entry(s: Seq<IdEntry>, id: u64) -> Option<IdEntry>
    decreases s.len(),
{
    if s.len() == 0 {
        None
    } else if s[0].id == id {
        Some(s[0])
    } else {
        find_entry(s.drop_first(), id)
    }
}

/// The contract (unit) name that a node identifier resolves to, if the
/// identifier is in the graph.
pub open spec fn contract_name_spec(units: Seq<CompilationUnit>, id: u64) -> Option<Seq<char>> {
    match find_entry(index_spec(units), id) {
        Some(e) => if 0 <= e.unit < units.len() {
            Some(units[e.unit as int].name@)
        } else {
            None
        },
        None => None,
    }
}

/// All nodes of kind `k` among the first `u` units: ingestion order between
/// units, pre-order within each.
pub open spec fn of_kind_upto(units: Seq<CompilationUnit>, u: int, k: NodeKind) -> Seq<Node>
    decreases u,
{
    if u <= 0 || u > units.len() {
        Seq::empty()
    } else {
        of_kind_upto(units, u - 1, k) + extract_spec(units[u - 1].root, k)
    }
}

/// All nodes of kind `k` in the whole workspace, in its stable iteration
/// order.
pub open spec fn workspace_of_kind(units: Seq<CompilationUnit>, k: NodeKind) -> Seq<Node> {
    of_kind_upto(units, units.len() as int, k)
}

/// All nodes named `nm` among the first `u` units, in the same stable order.
pub open spec fn named_upto(units: Seq<CompilationUnit>, u: int, nm: Seq<char>) -> Seq<Node>
    decreases u,
{
    if u <= 0 || u > units.len() {
        Seq::empty()
    } else {
        named_upto(units, u - 1, nm) + preorder(units[u - 1].root).filter(named(nm))
    }
}

/// All nodes in the whole workspace that carry the name `nm`.
pub open spec fn workspace_named(units: Seq<CompilationUnit>, nm: Seq<char>) -> Seq<Node> {
    named_upto(units, units.len() as int, nm)
}

/// The nodes of the first `u` compilation units: ingestion order between
/// units, pre-order within each.
pub open spec fn nodes_upto(units: Seq<CompilationUnit>, u: int) -> Seq<Node>
    decreases u,
{
    if u <= 0 || u > units.len() {
        Seq::empty()
    } else {
        nodes_upto(units, u - 1) + preorder(units[u - 1].root)
    }
}

/// Every node of the whole workspace, in its stable iteration order.
pub open spec fn workspace_nodes(units: Seq<CompilationUnit>) -> Seq<Node> {
    nodes_upto(units, units.len() as int)
}

/// Whether `p` owns a direct child with the given identifier.
pub open spec fn is_parent_of(p: Node, id: u64) -> bool {
    exists|c: int| 0 <= c < p.children@.len() && (#[trigger] p.children@[c]).id == id
}

/// A node of one indexed unit's pre-order is among the workspace's nodes.
pub proof fn lemma_nodes_upto_covers(units: Seq<CompilationUnit>, u: int, v: int, m: Node)
    requires
        0 <= v < u <= units.len(),
        preorder(units[v].root).contains(m),
    ensures
        nodes_upto(units, u).contains(m),
    decreases u,
{
    let pre = nodes_upto(units, u - 1);
    if v == u - 1 {
        let i = choose|i: int| 0 <= i < preorder(units[v].root).len() && preorder(units[v].root)[i]
            == m;
        assert(nodes_upto(units, u)[pre.len() + i] == m);
    } else {
        lemma_nodes_upto_covers(units, u - 1, v, m);
        let i = choose|i: int| 0 <= i < pre.len() && pre[i] == m;
        assert(nodes_upto(units, u)[i] == m);
    }
}

/// A scan that meets the first matching row at position `j` agrees with
/// [`find_entry`].
pub proof fn lemma_find_entry_first(s: Seq<IdEntry>, id: u64, j: int)
    requires
        0 <= j < s.len(),
        s[j].id == id,
        forall|l: int| 0 <= l < j ==> (#[trigger] s[l]).id != id,
    ensures
        find_entry(s, id) == Some(s[j]),
    decreases s.len(),
{
    if j > 0 {
        assert(s[0].id != id);
        lemma_find_entry_first(s.drop_first(), id, j - 1);
        assert(s.drop_first()[j - 1] == s[j]);
    }
}

/// A scan that meets no matching row agrees with [`find_entry`].
pub proof fn lemma_find_entry_none(s: Seq<IdEntry>, id: u64)
    requires
        forall|l: int| 0 <= l < s.len() ==> (#[trigger] s[l]).id != id,
    ensures
        find_entry(s, id) is None,
    decreases s.len(),
{
    if s.len() > 0 {
        lemma_find_entry_none(s.drop_first(), id);
    }
}

/// Every row of an index prefix names one of the first `u` units.
pub proof fn lemma_index_prefix_bounds(units: Seq<CompilationUnit>, u: int)
    requires
        u <= units.len(),
    ensures
        forall|j: int|
            0 <= j < index_prefix(units, u).len() ==> (#[trigger] index_prefix(units, u)[j]).unit
                < u,
    decreases u,
{
    if u > 0 {
        lemma_index_prefix_bounds(units, u - 1);
        assert forall|j: int| 0 <= j < index_prefix(units, u).len() implies (#[trigger] index_prefix(
            units,
            u,
        )[j]).unit < u by {
            let pre = index_prefix(units, u - 1);
            if j < pre.len() {
                assert(index_prefix(units, u)[j] == pre[j]);
            } else {
                assert(index_prefix(units, u)[j] == unit_entries(units[u - 1], u - 1)[j
                    - pre.len()]);
            }
        }
    }
}

/// A row with the identifier exists exactly when the scan finds one.
pub proof fn lemma_find_entry_some(s: Seq<IdEntry>, id: u64)
    requires
        exists|j: int| 0 <= j < s.len() && (#[trigger] s[j]).id == id,
    ensures
        find_entry(s, id) is Some,
    decreases s.len(),
{
    if s.len() > 0 && s[0].id != id {
        let j = choose|j: int| 0 <= j < s.len() && (#[trigger] s[j]).id == id;
        assert(s.drop_first()[j - 1].id == id);
        lemma_find_entry_some(s.drop_first(), id);
    }
}

/// The row the scan finds is a row of the index.
pub proof fn lemma_find_entry_row(s: Seq<IdEntry>, id: u64, e: IdEntry)
    requires
        find_entry(s, id) == Some(e),
    ensures
        exists|j: int| 0 <= j < s.len() && (#[trigger] s[j]) == e,
    decreases s.len(),
{
    if s.len() > 0 {
        if s[0].id == id {
            assert(s[0] == e);
        } else {
            lemma_find_entry_row(s.drop_first(), id, e);
            let j = choose|j: int| 0 <= j < s.drop_first().len() && (#[trigger] s.drop_first()[j])
                == e;
            assert(s[j + 1] == e);
        }
    }
}

/// The prefix index holds a row for every node of each indexed unit.
pub proof fn lemma_index_prefix_has_unit_nodes(units: Seq<CompilationUnit>, u: int, v: int, i: int)
    requires
        0 <= v < u <= units.len(),
        0 <= i < preorder(units[v].root).len(),
    ensures
        exists|j: int|
            0 <= j < index_prefix(units, u).len() && (#[trigger] index_prefix(units, u)[j]).id
                == preorder(units[v].root)[i].id,
    decreases u,
{
    let pre = index_prefix(units, u - 1);
    if v == u - 1 {
        assert(index_prefix(units, u)[pre.len() + i] == unit_entries(units[v], v)[i]);
        assert(unit_entries(units[v], v)[i].id == preorder(units[v].root)[i].id);
    } else {
        lemma_index_prefix_has_unit_nodes(units, u - 1, v, i);
        let j = choose|j: int|
            0 <= j < index_prefix(units, u - 1).len() && (#[trigger] index_prefix(units, u - 1)[j]).id
                == preorder(units[v].root)[i].id;
        assert(index_prefix(units, u)[j] == pre[j]);
    }
}

/// Every node of a kind query lies in the pre-order of one of the units.
pub proof fn lemma_of_kind_upto_in_units(units: Seq<CompilationUnit>, u: int, k: NodeKind)
    ensures
        forall|j: int|
            0 <= j < of_kind_upto(units, u, k).len() ==> exists|v: int|
                0 <= v < u && preorder(units[v].root).contains(
                    #[trigger] of_kind_upto(units, u, k)[j],
                ),
    decreases u,
{
    if 0 < u <= units.len() {
        lemma_of_kind_upto_in_units(units, u - 1, k);
        crate::browser::lemma_filter_elements(preorder(units[u - 1].root), of_kind(k));
        assert forall|j: int| 0 <= j < of_kind_upto(units, u, k).len() implies exists|v: int|
            0 <= v < u && preorder(units[v].root).contains(
                #[trigger] of_kind_upto(units, u, k)[j],
            ) by {
            let pre = of_kind_upto(units, u - 1, k);
            if j < pre.len() {
                assert(of_kind_upto(units, u, k)[j] == pre[j]);
                let v = choose|v: int| 0 <= v < u - 1 && preorder(units[v].root).contains(pre[j]);
                assert(0 <= v < u && preorder(units[v].root).contains(
                    of_kind_upto(units, u, k)[j],
                ));
            } else {
                assert(of_kind_upto(units, u, k)[j] == extract_spec(units[u - 1].root, k)[j
                    - pre.len()]);
                assert(preorder(units[u - 1].root).contains(of_kind_upto(units, u, k)[j]));
                assert(0 <= u - 1 < u && preorder(units[u - 1].root).contains(
                    of_kind_upto(units, u, k)[j],
                ));
            }
        }
    }
}

/// A node that lies in the pre-order of one of the units resolves, through
/// the identifier index, to a unit name.
pub proof fn lemma_node_in_unit_resolves(units: Seq<CompilationUnit>, v: int, n: Node)
    requires
        0 <= v < units.len(),
        preorder(units[v].root).contains(n),
    ensures
        contract_name_spec(units, n.id) is Some,
{
    lemma_index_prefix_bounds(units, units.len() as int);
    let i = choose|i: int| 0 <= i < preorder(units[v].root).len() && preorder(units[v].root)[i]
        == n;
    lemma_index_prefix_has_unit_nodes(units, units.len() as int, v, i);
    lemma_find_entry_some(index_spec(units), n.id);
    let fe = find_entry(index_spec(units), n.id);
    match fe {
        Some(e) => {
            lemma_find_entry_row(index_spec(units), n.id, e);
            let l = choose|l: int|
                0 <= l < index_spec(units).len() && (#[trigger] index_spec(units)[l]) == e;
            assert(index_prefix(units, units.len() as int)[l].unit < units.len());
        },
        None => {},
    }
}

/// Every node a kind query returns resolves, through the identifier index,
/// to the name of its enclosing compilation unit.
pub proof fn lemma_workspace_of_kind_resolves(units: Seq<CompilationUnit>, k: NodeKind)
    ensures
        forall|j: int|
            0 <= j < workspace_of_kind(units, k).len() ==> contract_name_spec(
                units,
                (#[trigger] workspace_of_kind(units, k)[j]).id,
            ) is Some,
{
    lemma_of_kind_upto_in_units(units, units.len() as int, k);
    assert forall|j: int| 0 <= j < workspace_of_kind(units, k).len() implies contract_name_spec(
        units,
        (#[trigger] workspace_of_kind(units, k)[j]).id,
    ) is Some by {
        let n = workspace_of_kind(units, k)[j];
        let v = choose|v: int| 0 <= v < units.len() && preorder(units[v].root).contains(n);
        lemma_node_in_unit_resolves(units, v, n);
    }
}

/// Every node a kind query returns is of the queried kind.
pub proof fn lemma_of_kind_upto_kinds(units: Seq<CompilationUnit>, u: int, k: NodeKind)
    ensures
        forall|j: int|
            0 <= j < of_kind_upto(units, u, k).len() ==> (#[trigger] of_kind_upto(units, u, k)[j]).kind
                == k,
    decreases u,
{
    if 0 < u <= units.len() {
        lemma_of_kind_upto_kinds(units, u - 1, k);
        let pre = of_kind_upto(units, u - 1, k);
        let ex = extract_spec(units[u - 1].root, k);
        assert forall|j: int| 0 <= j < of_kind_upto(units, u, k).len() implies (
        #[trigger] of_kind_upto(units, u, k)[j]).kind == k by {
            if j < pre.len() {
                assert(of_kind_upto(units, u, k)[j] == pre[j]);
            } else {
                assert(of_kind_upto(units, u, k)[j] == ex[j - pre.len()]);
                preorder(units[u - 1].root).lemma_filter_pred(of_kind(k), j - pre.len());
                assert(of_kind(k)(ex[j - pre.len()]));
            }
        }
    }
}

/// The indexed, read-only view over the parsed codebase.
pub struct WorkspaceContext {
    units: Vec<CompilationUnit>,
    id_index: Vec<IdEntry>,
}

impl WorkspaceContext {
    /// The compilation units the context was built from, in ingestion order.
    pub closed spec fn units_view(&self) -> Seq<CompilationUnit> {
        self.units@
    }

    /// The identifier index the context derived at construction.
    pub closed spec fn index_view(&self) -> Seq<IdEntry> {
        self.id_index@
    }

    /// A built context holds exactly the index its units determine, over a
    /// graph with unique node identifiers.
    pub closed spec fn wf(&self) -> bool {
        &&& self.id_index@ == index_spec(self.units@)
        &&& unique_ids(self.units@)
    }

    /// The invariant, spelled over the public views.
    pub proof fn lemma_wf(&self)
        requires
            self.wf(),
        ensures
            self.index_view() == index_spec(self.units_view()),
            unique_ids(self.units_view()),
    {
    }

    /// Build the context for one analysis run: derive the identifier index
    /// and validate that no two nodes share an identifier. A malformed graph
    /// is a fatal configuration error: no context is handed out.
    pub fn build(units: Vec<CompilationUnit>) -> (r: Result<WorkspaceContext, WorkspaceError>)
        ensures
            match r {
                Ok(ctx) => ctx.wf() && ctx.units_view() == units@ && unique_ids(units@),
                Err(e) => e == WorkspaceError::DuplicateId && !unique_ids(units@),
            },
    {
        let mut id_index: Vec<IdEntry> = Vec::new();
        let mut u: usize = 0;
        proof {
            assert(id_index@ =~= index_prefix(units@, 0));
        }
        while u < units.len()
            invariant
                u <= units@.len(),
                id_index@ == index_prefix(units@, u as int),
            decreases units@.len() - u,
        {
            let all = preorder_nodes(&units[u].root);
            let ghost base = id_index@;
            let mut j: usize = 0;
            while j < all.len()
                invariant
                    j <= all@.len(),
                    u < units@.len(),
                    derefs(all@) == preorder(units@[u as int].root),
                    id_index@ == base + derefs(all@.subrange(0, j as int)).map_values(
                        entry_of(u as int),
                    ),
                decreases all@.len() - j,
            {
                id_index.push(IdEntry { id: all[j].id, unit: u });
                proof {
                    assert(derefs(all@.subrange(0, j + 1 as int)) =~= derefs(
                        all@.subrange(0, j as int),
                    ).push(*all@[j as int]));
                    assert(id_index@ =~= base + derefs(all@.subrange(0, j + 1 as int)).map_values(
                        entry_of(u as int),
                    ));
                }
                j = j + 1;
            }
            proof {
                assert(all@.subrange(0, all@.len() as int) =~= all@);
                assert(id_index@ =~= index_prefix(units@, u + 1 as int));
            }
            u = u + 1;
        }
        let ghost idx = index_spec(units@);
        proof {
            assert(id_index@ == idx);
        }
        let mut p: usize = 0;
        while p < id_index.len()
            invariant
                p <= id_index@.len(),
                id_index@ == idx,
                idx == index_spec(units@),
                forall|a: int, b: int|
                    0 <= a < b < idx.len() && a < p ==> (#[trigger] idx[a]).id != (
                    #[trigger] idx[b]).id,
            decreases id_index@.len() - p,
        {
            let mut q: usize = p + 1;
            while q < id_index.len()
                invariant
                    p < q <= id_index@.len(),
                    id_index@ == idx,
                    idx == index_spec(units@),
                    forall|b: int| p < b < q ==> (#[trigger] idx[b]).id != idx[p as int].id,
                decreases id_index@.len() - q,
            {
                if id_index[p].id == id_index[q].id {
                    proof {
                        assert(!distinct_ids(idx));
                    }
                    return Err(WorkspaceError::DuplicateId);
                }
                q = q + 1;
            }
            p = p + 1;
        }
        Ok(WorkspaceContext { units, id_index })
    }

    /// All nodes of kind `k` across the workspace: ingestion order between
    /// units, pre-order within each unit, the same sequence on every call.
    pub fn nodes_of_kind<'a>(&'a self, k: NodeKind) -> (out: Vec<&'a Node>)
        ensures
            derefs(out@) == workspace_of_kind(self.units_view(), k),
    {
        let mut out: Vec<&'a Node> = Vec::new();
        let mut u: usize = 0;
        proof {
            assert(derefs(out@) =~= of_kind_upto(self.units@, 0, k));
        }
        while u < self.units.len()
            invariant
                u <= self.units@.len(),
                derefs(out@) == of_kind_upto(self.units@, u as int, k),
            decreases self.units@.len() - u,
        {
            let mut part = extract_of_kind(&self.units[u].root, k);
            let ghost prefix = out@;
            out.append(&mut part);
            proof {
                assert(derefs(out@) =~= derefs(prefix) + extract_spec(
                    self.units@[u as int].root,
                    k,
                ));
                assert(derefs(out@) =~= of_kind_upto(self.units@, u + 1 as int, k));
            }
            u = u + 1;
        }
        out
    }

    /// All nodes carrying the identifier name `nm` across the workspace,
    /// whatever their kind, in the stable workspace iteration order.
    pub fn nodes_named<'a>(&'a self, nm: &str) -> (out: Vec<&'a Node>)
        ensures
            derefs(out@) == workspace_named(self.units_view(), nm@),
    {
        let mut out: Vec<&'a Node> = Vec::new();
        let mut u: usize = 0;
        proof {
            assert(derefs(out@) =~= named_upto(self.units@, 0, nm@));
        }
        while u < self.units.len()
            invariant
                u <= self.units@.len(),
                derefs(out@) == named_upto(self.units@, u as int, nm@),
            decreases self.units@.len() - u,
        {
            let mut part = extract_named(&self.units[u].root, nm);
            let ghost prefix = out@;
            out.append(&mut part);
            proof {
                assert(derefs(out@) =~= derefs(prefix) + preorder(
                    self.units@[u as int].root,
                ).filter(named(nm@)));
                assert(derefs(out@) =~= named_upto(self.units@, u + 1 as int, nm@));
            }
            u = u + 1;
        }
        out
    }

    /// All function definitions in the workspace.
    pub fn function_definitions<'a>(&'a self) -> (out: Vec<&'a Node>)
        ensures
            derefs(out@) == workspace_of_kind(self.units_view(), NodeKind::FunctionDefinition),
    {
        self.nodes_of_kind(NodeKind::FunctionDefinition)
    }

    /// All function call expressions in the workspace.
    pub fn function_calls<'a>(&'a self) -> (out: Vec<&'a Node>)
        ensures
            derefs(out@) == workspace_of_kind(self.units_view(), NodeKind::FunctionCall),
    {
        self.nodes_of_kind(NodeKind::FunctionCall)
    }

    /// All variable declarations in the workspace.
    pub fn variable_declarations<'a>(&'a self) -> (out: Vec<&'a Node>)
        ensures
            derefs(out@) == workspace_of_kind(self.units_view(), NodeKind::VariableDeclaration),
    {
        self.nodes_of_kind(NodeKind::VariableDeclaration)
    }

    /// The number of compilation units.
    pub fn unit_count(&self) -> (n: usize)
        ensures
            n == self.units_view().len(),
    {
        self.units.len()
    }

    /// Look a node up by its identifier: the node-by-ID relation over the
    /// whole graph. With unique identifiers (a well-formed context), at most
    /// one node can answer.
    pub fn node_by_id<'a>(&'a self, id: u64) -> (r: Option<&'a Node>)
        ensures
            (match r {
                Some(p) => workspace_nodes(self.units_view()).contains(*p) && p.id == id,
                None => forall|l: int|
                    0 <= l < workspace_nodes(self.units_view()).len() ==> (
                    #[trigger] workspace_nodes(self.units_view())[l]).id != id,
            }),
    {
        let mut u: usize = 0;
        while u < self.units.len()
            invariant
                u <= self.units@.len(),
                forall|l: int|
                    0 <= l < nodes_upto(self.units@, u as int).len() ==> (#[trigger] nodes_upto(
                        self.units@,
                        u as int,
                    )[l]).id != id,
            decreases self.units@.len() - u,
        {
            let all = preorder_nodes(&self.units[u].root);
            let mut j: usize = 0;
            while j < all.len()
                invariant
                    j <= all@.len(),
                    u < self.units@.len(),
                    derefs(all@) == preorder(self.units@[u as int].root),
                    forall|m: int| 0 <= m < j ==> (#[trigger] derefs(all@)[m]).id != id,
                decreases all@.len() - j,
            {
                if all[j].id == id {
                    proof {
                        let p = derefs(all@)[j as int];
                        assert(preorder(self.units@[u as int].root).contains(p));
                        lemma_nodes_upto_covers(
                            self.units@,
                            self.units@.len() as int,
                            u as int,
                            p,
                        );
                    }
                    return Some(all[j]);
                }
                j = j + 1;
            }
            proof {
                let pre = nodes_upto(self.units@, u as int);
                assert forall|l: int|
                    0 <= l < nodes_upto(self.units@, u + 1 as int).len() implies (
                #[trigger] nodes_upto(self.units@, u + 1 as int)[l]).id != id by {
                    if l < pre.len() {
                        assert(nodes_upto(self.units@, u + 1 as int)[l] == pre[l]);
                    } else {
                        assert(nodes_upto(self.units@, u + 1 as int)[l] == derefs(all@)[l
                            - pre.len()]);
                    }
                }
            }
            u = u + 1;
        }
        None
    }

    /// Look a node's parent up: the non-owning parent relation, answered by
    /// a lookup over the graph rather than by a back-reference. With unique
    /// identifiers at most one node owns a child with the given identifier.
    pub fn parent_of<'a>(&'a self, id: u64) -> (r: Option<&'a Node>)
        ensures
            (match r {
                Some(p) => workspace_nodes(self.units_view()).contains(*p) && is_parent_of(
                    *p,
                    id,
                ),
                None => forall|l: int|
                    0 <= l < workspace_nodes(self.units_view()).len() ==> !is_parent_of(
                        #[trigger] workspace_nodes(self.units_view())[l],
                        id,
                    ),
            }),
    {
        let mut u: usize = 0;
        while u < self.units.len()
            invariant
                u <= self.units@.len(),
                forall|l: int|
                    0 <= l < nodes_upto(self.units@, u as int).len() ==> !is_parent_of(
                        #[trigger] nodes_upto(self.units@, u as int)[l],
                        id,
                    ),
            decreases self.units@.len() - u,
        {
            let all = preorder_nodes(&self.units[u].root);
            let mut j: usize = 0;
            while j < all.len()
                invariant
                    j <= all@.len(),
                    u < self.units@.len(),
                    derefs(all@) == preorder(self.units@[u as int].root),
                    forall|m: int| 0 <= m < j ==> !is_parent_of(#[trigger] derefs(all@)[m], id),
                decreases all@.len() - j,
            {
                if has_child_with_id(all[j], id) {
                    proof {
                        let p = derefs(all@)[j as int];
                        assert(preorder(self.units@[u as int].root).contains(p));
                        lemma_nodes_upto_covers(
                            self.units@,
                            self.units@.len() as int,
                            u as int,
                            p,
                        );
                    }
                    return Some(all[j]);
                }
                j = j + 1;
            }
            proof {
                let pre = nodes_upto(self.units@, u as int);
                assert forall|l: int|
                    0 <= l < nodes_upto(self.units@, u + 1 as int).len() implies !is_parent_of(
                    #[trigger] nodes_upto(self.units@, u + 1 as int)[l],
                    id,
                ) by {
                    if l < pre.len() {
                        assert(nodes_upto(self.units@, u + 1 as int)[l] == pre[l]);
                    } else {
                        assert(nodes_upto(self.units@, u + 1 as int)[l] == derefs(all@)[l
                            - pre.len()]);
                    }
                }
            }
            u = u + 1;
        }
        None
    }

    /// Resolve a node identifier to the name of its enclosing compilation
    /// unit, as the identifier index records it.
    pub fn contract_name_of(&self, id: u64) -> (r: Option<String>)
        requires
            self.wf(),
        ensures
            match contract_name_spec(self.units_view(), id) {
                Some(nm) => r matches Some(s) && s@ == nm,
                None => r is None,
            },
    {
        proof {
            lemma_index_prefix_bounds(self.units@, self.units@.len() as int);
        }
        let mut j: usize = 0;
        while j < self.id_index.len()
            invariant
                j <= self.id_index@.len(),
                self.wf(),
                forall|l: int| 0 <= l < j ==> (#[trigger] self.id_index@[l]).id != id,
            decreases self.id_index@.len() - j,
        {
            if self.id_index[j].id == id {
                let e = self.id_index[j];
                proof {
                    lemma_find_entry_first(self.id_index@, id, j as int);
                    lemma_index_prefix_bounds(self.units@, self.units@.len() as int);
                }
                return Some(self.units[e.unit].name.clone());
            }
            j = j + 1;
        }
        proof {
            lemma_find_entry_none(self.id_index@, id);
        }
        None
    }
}

/// Whether `n` owns a direct child with the given identifier.
fn has_child_with_id(n: &Node, id: u64) -> (r: bool)
    ensures
        r == is_parent_of(*n, id),
{
    let mut c: usize = 0;
    while c < n.children.len()
        invariant
            c <= n.children@.len(),
            forall|m: int| 0 <= m < c ==> (#[trigger] n.children@[m]).id != id,
        decreases n.children@.len() - c,
    {
        if n.children[c].id == id {
            proof {
                assert(n.children@[c as int].id == id);
            }
            return true;
        }
        c = c + 1;
    }
    false
}

/// Construction is idempotent: two well-formed contexts built from equal
/// inputs hold equal index contents and answer every kind query with the same
/// sequence.
pub proof fn lemma_build_idempotent(a: WorkspaceContext, b: WorkspaceContext)
    requires
        a.wf(),
        b.wf(),
        a.units_view() == b.units_view(),
    ensures
        a.index_view() == b.index_view(),
        forall|k: NodeKind|
            #[trigger] workspace_of_kind(a.units_view(), k) == workspace_of_kind(
                b.units_view(),
                k,
            ),
{
    a.lemma_wf();
    b.lemma_wf();
}

} // verus!
