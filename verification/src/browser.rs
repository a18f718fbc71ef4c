//! The traversal engine: deterministic pre-order extraction queries.
//!
//! One parametric depth-first walker, [`preorder_nodes`], visits a subtree in
//! pre-order; [`extract_of_kind`] keeps the visited nodes of one target kind.
//! Both are pure functions of the subtree they are given, so a query can be
//! re-rooted at any element of a previous result, and repeated queries over
//! an unchanged graph return identical sequences.

use vstd::prelude::*;

use crate::ast::{preorder, preorder_all, Node, NodeKind};
use vstd::string::StringExecFns;

verus! {

/// The selector predicate for nodes of kind `k`.
pub open spec fn of_kind(k: NodeKind) -> spec_fn(Node) -> bool {
    |m: Node| m.kind == k
}

/// The selector predicate for nodes carrying the name `nm`.
pub open spec fn named(nm: Seq<char>) -> spec_fn(Node) -> bool {
    |m: Node| m.name matches Some(s) && s@ == nm
}

/// Exact comparison of a string against a borrowed string slice, by
/// contents.
pub fn string_eq_str(s: &String, lit: &str) -> (r: bool)
    ensures
        r == (s@ == lit@),
{
    let other = String::from_str(lit);
    *s == other
}

/// The node values behind a sequence of node references.
pub open spec fn derefs(s: Seq<&Node>) -> Seq<Node> {
    s.map_values(|r: &Node| *r)
}

/// What an extraction query answers: the pre-order sequence of the subtree
/// rooted at `n`, restricted to nodes of kind `k` (the root included when it
/// matches).
pub open spec fn extract_spec(n: Node, k: NodeKind) -> Seq<Node> {
    preorder(n).filter(of_kind(k))
}

/// Appending one tree to a forest appends its pre-order sequence.
pub proof fn lemma_preorder_all_push(s: Seq<Node>, x: Node)
    ensures
        preorder_all(s.push(x)) == preorder_all(s) + preorder(x),
    decreases s.len(),
{
    if s.len() == 0 {
        assert(preorder_all(s.push(x).drop_first()) == Seq::<Node>::empty()) by {
            assert(s.push(x).drop_first() =~= Seq::<Node>::empty());
        }
        assert(preorder_all(s.push(x)) =~= preorder_all(s) + preorder(x));
    } else {
        assert(s.push(x).drop_first() =~= s.drop_first().push(x));
        lemma_preorder_all_push(s.drop_first(), x);
        assert(preorder_all(s.push(x)) =~= preorder_all(s) + preorder(x));
    }
}

/// The parametric depth-first walker: every node of the subtree rooted at
/// `n`, in pre-order, children in declaration order.
pub fn preorder_nodes<'a>(n: &'a Node) -> (out: Vec<&'a Node>)
    ensures
        derefs(out@) == preorder(*n),
    decreases *n,
{
    let mut out: Vec<&'a Node> = Vec::new();
    out.push(n);
    assert(derefs(out@) =~= seq![*n] + preorder_all(n.children@.subrange(0, 0)));
    let mut i: usize = 0;
    while i < n.children.len()
        invariant
            i <= n.children@.len(),
            derefs(out@) == seq![*n] + preorder_all(n.children@.subrange(0, i as int)),
        decreases n.children@.len() - i,
    {
        proof {
            assert(decreases_to!(*n => n.children@[i as int]));
        }
        let mut sub = preorder_nodes(&n.children[i]);
        let ghost prefix = out@;
        out.append(&mut sub);
        proof {
            assert(derefs(out@) =~= derefs(prefix) + preorder(n.children@[i as int]));
            assert(n.children@.subrange(0, i + 1 as int) =~= n.children@.subrange(
                0,
                i as int,
            ).push(n.children@[i as int]));
            lemma_preorder_all_push(n.children@.subrange(0, i as int), n.children@[i as int]);
            assert(derefs(out@) =~= seq![*n] + preorder_all(n.children@.subrange(0, i + 1 as int)));
        }
        i = i + 1;
    }
    proof {
        assert(n.children@.subrange(0, n.children@.len() as int) =~= n.children@);
    }
    out
}

/// Restricting a pre-order sequence one element at a time: filtering a
/// sequence extended by `x` keeps the filtered prefix and appends `x` when it
/// satisfies the predicate.
pub proof fn lemma_filter_push<A>(s: Seq<A>, x: A, pred: spec_fn(A) -> bool)
    ensures
        s.push(x).filter(pred) == s.filter(pred) + if pred(x) {
            seq![x]
        } else {
            Seq::empty()
        },
{
    reveal(Seq::filter);
    assert(s.push(x).drop_last() =~= s);
    if pred(x) {
        assert(s.push(x).filter(pred) =~= s.filter(pred) + seq![x]);
    } else {
        assert(s.push(x).filter(pred) =~= s.filter(pred) + Seq::<A>::empty());
    }
}

/// Every element of a filtered sequence is an element of the sequence.
pub proof fn lemma_filter_elements<A>(s: Seq<A>, pred: spec_fn(A) -> bool)
    ensures
        forall|i: int|
            0 <= i < s.filter(pred).len() ==> s.contains(#[trigger] s.filter(pred)[i]),
    decreases s.len(),
{
    reveal(Seq::filter);
    if s.len() > 0 {
        lemma_filter_elements(s.drop_last(), pred);
        assert forall|i: int| 0 <= i < s.filter(pred).len() implies s.contains(
            #[trigger] s.filter(pred)[i],
        ) by {
            let f = s.filter(pred);
            let fd = s.drop_last().filter(pred);
            if i < fd.len() {
                assert(f[i] == fd[i]);
                let j = choose|j: int| 0 <= j < s.drop_last().len() && s.drop_last()[j] == fd[i];
                assert(s[j] == fd[i]);
            } else {
                assert(f[i] == s.last());
                assert(s[s.len() - 1] == s.last());
            }
        }
    }
}

/// A node of a forest's pre-order lies in the pre-order of one of its trees.
pub proof fn lemma_preorder_all_member(s: Seq<Node>, m: Node)
    requires
        preorder_all(s).contains(m),
    ensures
        exists|c: int| 0 <= c < s.len() && preorder(#[trigger] s[c]).contains(m),
    decreases s.len(),
{
    let i = choose|i: int| 0 <= i < preorder_all(s).len() && preorder_all(s)[i] == m;
    if i < preorder(s[0]).len() {
        assert(preorder(s[0])[i] == m);
        assert(preorder(s[0]).contains(m));
    } else {
        assert(preorder_all(s.drop_first())[i - preorder(s[0]).len()] == m);
        assert(preorder_all(s.drop_first()).contains(m));
        lemma_preorder_all_member(s.drop_first(), m);
        let c = choose|c: int|
            0 <= c < s.drop_first().len() && preorder(#[trigger] s.drop_first()[c]).contains(m);
        assert(s[c + 1] == s.drop_first()[c]);
    }
}

/// A node of one tree's pre-order lies in the pre-order of the whole forest.
pub proof fn lemma_preorder_all_covers(s: Seq<Node>, c: int, m: Node)
    requires
        0 <= c < s.len(),
        preorder(s[c]).contains(m),
    ensures
        preorder_all(s).contains(m),
    decreases s.len(),
{
    if c == 0 {
        let i = choose|i: int| 0 <= i < preorder(s[0]).len() && preorder(s[0])[i] == m;
        assert(preorder_all(s)[i] == m);
    } else {
        lemma_preorder_all_covers(s.drop_first(), c - 1, m);
        let i = choose|i: int|
            0 <= i < preorder_all(s.drop_first()).len() && preorder_all(s.drop_first())[i] == m;
        assert(preorder_all(s)[preorder(s[0]).len() + i] == m);
    }
}

/// Pre-order membership is transitive: what lies under a node lies under
/// every ancestor of that node.
pub proof fn lemma_preorder_trans(root: Node, n: Node, m: Node)
    requires
        preorder(root).contains(n),
        preorder(n).contains(m),
    ensures
        preorder(root).contains(m),
    decreases root,
{
    if n == root {
    } else {
        let i = choose|i: int| 0 <= i < preorder(root).len() && preorder(root)[i] == n;
        assert(i != 0) by {
            assert(preorder(root)[0] == root);
        }
        assert(preorder_all(root.children@)[i - 1] == n);
        assert(preorder_all(root.children@).contains(n));
        lemma_preorder_all_member(root.children@, n);
        let c = choose|c: int|
            0 <= c < root.children@.len() && preorder(#[trigger] root.children@[c]).contains(n);
        assert(decreases_to!(root => root.children@[c]));
        lemma_preorder_trans(root.children@[c], n, m);
        lemma_preorder_all_covers(root.children@, c, m);
        let j = choose|j: int|
            0 <= j < preorder_all(root.children@).len() && preorder_all(root.children@)[j] == m;
        assert(preorder(root)[1 + j] == m);
    }
}

/// One extraction query: the ordered sequence of all nodes of kind `k` in the
/// subtree rooted at `n`, the root included when its kind is `k`.
pub fn extract_of_kind<'a>(n: &'a Node, k: NodeKind) -> (out: Vec<&'a Node>)
    ensures
        derefs(out@) == extract_spec(*n, k),
{
    let all = preorder_nodes(n);
    let mut out: Vec<&'a Node> = Vec::new();
    assert(derefs(all@.subrange(0, 0)).filter(of_kind(k)) =~= derefs(out@)) by {
        reveal(Seq::filter);
        assert(derefs(all@.subrange(0, 0)) =~= Seq::<Node>::empty());
    }
    let mut i: usize = 0;
    while i < all.len()
        invariant
            i <= all@.len(),
            derefs(all@) == preorder(*n),
            derefs(out@) == derefs(all@.subrange(0, i as int)).filter(of_kind(k)),
        decreases all@.len() - i,
    {
        let ghost prefix = derefs(all@.subrange(0, i as int));
        proof {
            assert(derefs(all@.subrange(0, i + 1 as int)) =~= prefix.push(*all@[i as int]));
            lemma_filter_push(prefix, *all@[i as int], of_kind(k));
        }
        if all[i].kind == k {
            out.push(all[i]);
            assert(derefs(out@) =~= prefix.filter(of_kind(k)) + seq![*all@[i as int]]);
        } else {
            assert(derefs(out@) =~= prefix.filter(of_kind(k)) + Seq::<Node>::empty());
        }
        i = i + 1;
    }
    proof {
        assert(all@.subrange(0, all@.len() as int) =~= all@);
    }
    out
}

/// One named-selector query: the ordered sequence of all nodes in the
/// subtree rooted at `n` that carry the name `nm`, whatever their kind.
pub fn extract_named<'a>(n: &'a Node, nm: &str) -> (out: Vec<&'a Node>)
    ensures
        derefs(out@) == preorder(*n).filter(named(nm@)),
{
    let all = preorder_nodes(n);
    let mut out: Vec<&'a Node> = Vec::new();
    assert(derefs(all@.subrange(0, 0)).filter(named(nm@)) =~= derefs(out@)) by {
        reveal(Seq::filter);
        assert(derefs(all@.subrange(0, 0)) =~= Seq::<Node>::empty());
    }
    let mut i: usize = 0;
    while i < all.len()
        invariant
            i <= all@.len(),
            derefs(all@) == preorder(*n),
            derefs(out@) == derefs(all@.subrange(0, i as int)).filter(named(nm@)),
        decreases all@.len() - i,
    {
        let ghost prefix = derefs(all@.subrange(0, i as int));
        proof {
            assert(derefs(all@.subrange(0, i + 1 as int)) =~= prefix.push(*all@[i as int]));
            lemma_filter_push(prefix, *all@[i as int], named(nm@));
        }
        let mut is_named = false;
        match &all[i].name {
            Some(s) => {
                is_named = string_eq_str(s, nm);
            },
            None => {},
        }
        proof {
            assert(is_named == named(nm@)(*all@[i as int]));
        }
        if is_named {
            out.push(all[i]);
            assert(derefs(out@) =~= prefix.filter(named(nm@)) + seq![*all@[i as int]]);
        } else {
            assert(derefs(out@) =~= prefix.filter(named(nm@)) + Seq::<Node>::empty());
        }
        i = i + 1;
    }
    proof {
        assert(all@.subrange(0, all@.len() as int) =~= all@);
    }
    out
}

/// The one-level selector: the immediate children of `n`, in declaration
/// order, without recursion — for rules that must distinguish direct from
/// transitive containment.
pub fn immediate_children<'a>(n: &'a Node) -> (out: Vec<&'a Node>)
    ensures
        derefs(out@) == n.children@,
{
    let mut out: Vec<&'a Node> = Vec::new();
    let mut i: usize = 0;
    while i < n.children.len()
        invariant
            i <= n.children@.len(),
            derefs(out@) == n.children@.subrange(0, i as int),
        decreases n.children@.len() - i,
    {
        let ghost prev = out@;
        out.push(&n.children[i]);
        proof {
            assert(out@ =~= prev.push(&n.children[i as int]));
            assert(derefs(out@) =~= derefs(prev).push(n.children@[i as int]));
            assert(derefs(out@) =~= n.children@.subrange(0, i + 1 as int));
        }
        i = i + 1;
    }
    proof {
        assert(n.children@.subrange(0, n.children@.len() as int) =~= n.children@);
    }
    out
}

/// The number of descendants of `n` (the node itself included) whose kind
/// is `k`, as a plain order-independent count over the tree.
pub open spec fn count_of_kind(n: Node, k: NodeKind) -> nat
    decreases n,
{
    (if n.kind == k {
        1nat
    } else {
        0nat
    }) + count_in_forest(n.children@, k)
}

/// The same count, summed over a forest.
pub open spec fn count_in_forest(s: Seq<Node>, k: NodeKind) -> nat
    decreases s,
{
    if s.len() == 0 {
        0nat
    } else {
        count_of_kind(s[0], k) + count_in_forest(s.drop_first(), k)
    }
}

/// The number of results an extraction query returns for kind `k`, rooted at
/// `n`, equals the number of descendants of `n` (inclusive) whose kind is
/// `k` — a count that does not depend on any traversal order.
pub proof fn lemma_extract_count(n: Node, k: NodeKind)
    ensures
        extract_spec(n, k).len() == count_of_kind(n, k),
    decreases n,
{
    Seq::filter_distributes_over_add(seq![n], preorder_all(n.children@), of_kind(k));
    assert(seq![n].filter(of_kind(k)).len() == if n.kind == k {
        1nat
    } else {
        0nat
    }) by {
        reveal_with_fuel(Seq::filter, 3);
        assert(seq![n].drop_last() =~= Seq::<Node>::empty());
        assert(Seq::<Node>::empty().filter(of_kind(k)) =~= Seq::<Node>::empty());
    }
    lemma_forest_count(n.children@, k);
}

/// The filtered pre-order sequence of a forest is as long as the forest's
/// descendant count for that kind.
pub proof fn lemma_forest_count(s: Seq<Node>, k: NodeKind)
    ensures
        preorder_all(s).filter(of_kind(k)).len() == count_in_forest(s, k),
    decreases s,
{
    if s.len() > 0 {
        Seq::filter_distributes_over_add(preorder(s[0]), preorder_all(s.drop_first()), of_kind(k));
        lemma_extract_count(s[0], k);
        lemma_forest_count(s.drop_first(), k);
    }
}

/// Extraction is deterministic: any two results of the same query over the
/// same subtree are the same sequence, in the same order.
pub proof fn lemma_extraction_deterministic(n: Node, k: NodeKind, out1: Seq<Node>, out2: Seq<Node>)
    requires
        out1 == extract_spec(n, k),
        out2 == extract_spec(n, k),
    ensures
        out1 == out2,
{
}

} // verus!
