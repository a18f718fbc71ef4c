//! The finding ledger: the deduplicating, ordered collection a detector
//! accumulates.
//!
//! A ledger maps a composite key — enclosing contract (or file) name, source
//! line, detector name — to the identifier of the node that triggered the
//! finding. Inserting under a key that is already present overwrites the
//! previous entry (last write wins), so the ledger's length, not the number
//! of distinct flagged nodes, is what callers observe as the instance count.

use vstd::prelude::*;

verus! {

/// The mathematical form of a composite finding key: contract-or-file name,
/// source line, detector name.
pub type KeyView = (Seq<char>, nat, Seq<char>);

/// The composite key under which one finding is recorded.
pub struct FindingKey {
    pub contract: String,
    pub line: usize,
    pub detector: String,
}

impl View for FindingKey {
    type V = KeyView;

    open spec fn view(&self) -> KeyView {
        (self.contract@, self.line as nat, self.detector@)
    }
}

/// The mathematical model of a ledger: the key-to-node mapping together with
/// the deterministic order in which distinct keys were first recorded.
#[verifier::ext_equal]
pub ghost struct LedgerModel {
    pub map: Map<KeyView, u64>,
    pub order: Seq<KeyView>,
}

impl LedgerModel {
    /// The model of a ledger with nothing recorded.
    pub open spec fn empty() -> LedgerModel {
        LedgerModel { map: Map::empty(), order: Seq::empty() }
    }

    /// Recording a finding: the key now maps to `id`; a key seen before keeps
    /// its place in the order, a fresh key goes to the end.
    pub open spec fn spec_insert(self, k: KeyView, id: u64) -> LedgerModel {
        LedgerModel {
            map: self.map.insert(k, id),
            order: if self.order.contains(k) {
                self.order
            } else {
                self.order.push(k)
            },
        }
    }

    /// The number of instances a caller observes.
    pub open spec fn len(self) -> nat {
        self.order.len()
    }
}

/// Overwrite law: recording two findings under colliding keys leaves exactly
/// one entry for that key, holding the most recently inserted node
/// identifier — the second insertion fully absorbs the first.
pub proof fn lemma_ledger_overwrite(m: LedgerModel, k: KeyView, id1: u64, id2: u64)
    ensures
        m.spec_insert(k, id1).spec_insert(k, id2) == m.spec_insert(k, id2),
{
    assert(m.map.insert(k, id1).insert(k, id2) =~= m.map.insert(k, id2));
    assert(m.spec_insert(k, id1).order.contains(k)) by {
        if !m.order.contains(k) {
            assert(m.spec_insert(k, id1).order[m.order.len() as int] == k);
        }
    }
    assert(m.spec_insert(k, id1).spec_insert(k, id2) =~= m.spec_insert(k, id2));
}

/// The key-to-node mapping held by a sequence of ledger entries, later
/// entries overwriting earlier ones.
pub open spec fn entries_map(s: Seq<(FindingKey, u64)>) -> Map<KeyView, u64>
    decreases s.len(),
{
    if s.len() == 0 {
        Map::empty()
    } else {
        entries_map(s.drop_last()).insert(s.last().0@, s.last().1)
    }
}

/// The key views of a sequence of ledger entries, in entry order.
pub open spec fn entries_order(s: Seq<(FindingKey, u64)>) -> Seq<KeyView> {
    s.map_values(|e: (FindingKey, u64)| e.0@)
}

/// A key is in the map of an entry sequence exactly when some entry holds it.
pub proof fn lemma_entries_map_dom(s: Seq<(FindingKey, u64)>, k: KeyView)
    ensures
        entries_map(s).contains_key(k) <==> exists|i: int| 0 <= i < s.len() && s[i].0@ == k,
    decreases s.len(),
{
    if s.len() > 0 {
        lemma_entries_map_dom(s.drop_last(), k);
        if s.last().0@ == k {
            assert(s[s.len() - 1].0@ == k);
        } else if entries_map(s).contains_key(k) {
            let i = choose|i: int| 0 <= i < s.drop_last().len() && s.drop_last()[i].0@ == k;
            assert(s[i].0@ == k);
        } else {
            assert forall|i: int| 0 <= i < s.len() implies s[i].0@ != k by {
                if i < s.len() - 1 {
                    assert(s.drop_last()[i].0@ != k);
                }
            }
        }
    }
}

/// Under distinct keys, each entry's key maps to that entry's node.
pub proof fn lemma_entries_map_at(s: Seq<(FindingKey, u64)>, i: int)
    requires
        0 <= i < s.len(),
        forall|p: int, q: int|
            0 <= p < q < s.len() ==> (#[trigger] s[p].0@) != (#[trigger] s[q].0@),
    ensures
        entries_map(s).contains_key(s[i].0@),
        entries_map(s)[s[i].0@] == s[i].1,
    decreases s.len(),
{
    if i == s.len() - 1 {
    } else {
        assert(s.drop_last()[i] == s[i]);
        lemma_entries_map_at(s.drop_last(), i);
        assert(s[i].0@ != s[s.len() - 1].0@);
    }
}

/// Rewriting the entry that alone holds key `k` updates the map at `k` and
/// nothing else.
pub proof fn lemma_entries_map_update(s: Seq<(FindingKey, u64)>, i: int, e: (FindingKey, u64))
    requires
        0 <= i < s.len(),
        s[i].0@ == e.0@,
        forall|p: int, q: int|
            0 <= p < q < s.len() ==> (#[trigger] s[p].0@) != (#[trigger] s[q].0@),
    ensures
        entries_map(s.update(i, e)) == entries_map(s).insert(e.0@, e.1),
    decreases s.len(),
{
    let t = s.update(i, e);
    if i == s.len() - 1 {
        assert(t.drop_last() =~= s.drop_last());
        assert(entries_map(t) =~= entries_map(s).insert(e.0@, e.1));
    } else {
        assert(t.drop_last() =~= s.drop_last().update(i, e));
        assert(s.drop_last()[i] == s[i]);
        lemma_entries_map_update(s.drop_last(), i, e);
        assert(s[i].0@ != s[s.len() - 1].0@);
        assert(t.last() == s.last());
        assert(entries_map(t) =~= entries_map(s).insert(e.0@, e.1));
    }
}

/// The deduplicating, ordered collection of one detector's findings.
pub struct FindingLedger {
    entries: Vec<(FindingKey, u64)>,
}

impl View for FindingLedger {
    type V = LedgerModel;

    closed spec fn view(&self) -> LedgerModel {
        LedgerModel { map: entries_map(self.entries@), order: entries_order(self.entries@) }
    }
}

/// Exact key comparison, by contents.
fn keys_equal(a: &FindingKey, b: &FindingKey) -> (r: bool)
    ensures
        r == (a@ == b@),
{
    a.contract == b.contract && a.line == b.line && a.detector == b.detector
}

impl FindingLedger {
    /// No two entries share a key: the structural invariant every operation
    /// preserves.
    pub closed spec fn wf(&self) -> bool {
        forall|p: int, q: int|
            0 <= p < q < self.entries@.len() ==> (#[trigger] self.entries@[p].0@) != (
            #[trigger] self.entries@[q].0@)
    }

    /// An empty ledger.
    pub fn new() -> (r: FindingLedger)
        ensures
            r.wf(),
            r@ == LedgerModel::empty(),
    {
        let r = FindingLedger { entries: Vec::new() };
        proof {
            assert(r@.order =~= LedgerModel::empty().order);
            assert(r@ =~= LedgerModel::empty());
        }
        r
    }

    /// The number of recorded instances.
    pub fn len(&self) -> (n: usize)
        ensures
            n == self@.len(),
    {
        self.entries.len()
    }

    /// Whether nothing has been recorded.
    pub fn is_empty(&self) -> (b: bool)
        ensures
            b == (self@.len() == 0),
    {
        self.entries.len() == 0
    }

    /// Record a finding: overwrite the entry holding this key if one exists,
    /// append a fresh entry otherwise.
    pub fn insert(&mut self, key: FindingKey, id: u64)
        requires
            old(self).wf(),
        ensures
            final(self).wf(),
            final(self)@ == old(self)@.spec_insert(key@, id),
    {
        let ghost s0 = self.entries@;
        let ghost kv = key@;
        let mut i: usize = 0;
        while i < self.entries.len()
            invariant
                i <= self.entries@.len(),
                self.entries@ == s0,
                s0 == old(self).entries@,
                forall|j: int| 0 <= j < i ==> (#[trigger] s0[j].0@) != kv,
                old(self).wf(),
                kv == key@,
            decreases self.entries@.len() - i,
        {
            if keys_equal(&self.entries[i].0, &key) {
                self.entries[i] = (key, id);
                proof {
                    lemma_entries_map_update(s0, i as int, (key, id));
                    assert(entries_order(self.entries@) =~= entries_order(s0));
                    assert(entries_order(s0).contains(kv)) by {
                        assert(entries_order(s0)[i as int] == kv);
                    }
                    assert(final(self)@ =~= old(self)@.spec_insert(kv, id));
                }
                return ;
            }
            i = i + 1;
        }
        proof {
            assert forall|k1: int| 0 <= k1 < s0.len() implies (#[trigger] s0[k1].0@) != kv by {}
        }
        self.entries.push((key, id));
        proof {
            assert(self.entries@.drop_last() =~= s0);
            assert(!entries_order(s0).contains(kv)) by {
                if entries_order(s0).contains(kv) {
                    let j = choose|j: int|
                        0 <= j < entries_order(s0).len() && entries_order(s0)[j] == kv;
                    assert(s0[j].0@ == kv);
                }
            }
            assert(entries_order(self.entries@) =~= entries_order(s0).push(kv));
            assert(final(self)@ =~= old(self)@.spec_insert(kv, id));
        }
    }

    /// The node identifier recorded under a key, if any.
    pub fn get(&self, key: &FindingKey) -> (r: Option<u64>)
        requires
            self.wf(),
        ensures
            match r {
                Some(id) => self@.map.contains_key(key@) && self@.map[key@] == id,
                None => !self@.map.contains_key(key@),
            },
    {
        let mut i: usize = 0;
        while i < self.entries.len()
            invariant
                i <= self.entries@.len(),
                self.wf(),
                forall|j: int| 0 <= j < i ==> (#[trigger] self.entries@[j].0@) != key@,
            decreases self.entries@.len() - i,
        {
            if keys_equal(&self.entries[i].0, key) {
                proof {
                    lemma_entries_map_at(self.entries@, i as int);
                }
                return Some(self.entries[i].1);
            }
            i = i + 1;
        }
        proof {
            lemma_entries_map_dom(self.entries@, key@);
        }
        None
    }

    /// The key recorded at one position of the order.
    pub fn key_at(&self, i: usize) -> (r: &FindingKey)
        requires
            i < self@.len(),
        ensures
            r@ == self@.order[i as int],
    {
        &self.entries[i].0
    }

    /// The node identifier recorded at one position of the order.
    pub fn id_at(&self, i: usize) -> (r: u64)
        requires
            self.wf(),
            i < self@.len(),
        ensures
            self@.map.contains_key(self@.order[i as int]),
            r == self@.map[self@.order[i as int]],
    {
        proof {
            lemma_entries_map_at(self.entries@, i as int);
        }
        self.entries[i].1
    }

    /// A read-only copy of the accumulated findings.
    pub fn snapshot(&self) -> (r: FindingLedger)
        requires
            self.wf(),
        ensures
            r.wf(),
            r@ == self@,
    {
        let mut entries: Vec<(FindingKey, u64)> = Vec::new();
        let mut i: usize = 0;
        while i < self.entries.len()
            invariant
                i <= self.entries@.len(),
                entries@ =~= self.entries@.subrange(0, i as int),
            decreases self.entries@.len() - i,
        {
            let e = &self.entries[i];
            let copy = FindingKey {
                contract: e.0.contract.clone(),
                line: e.0.line,
                detector: e.0.detector.clone(),
            };
            entries.push((copy, e.1));
            proof {
                assert(entries@ =~= self.entries@.subrange(0, i + 1 as int));
            }
            i = i + 1;
        }
        proof {
            assert(entries@ =~= self.entries@);
        }
        FindingLedger { entries }
    }
}

} // verus!
