//! The dependency graph over declared schemas: nodes are schema names with
//! their desired definitions, and an edge (target, dependent) means the
//! target must be resolved before the dependent. Sorting yields a
//! deterministic dependency order or reports a cycle.

use vstd::prelude::*;
use crate::error::Error;
use crate::names::find_key;
use crate::names::find_key_at;
use crate::names::keys_unique;
use crate::names::lemma_find_key_at_spec;
use crate::schema::Schema;

verus! {

/// Directed graph of schema names, in declaration order.
pub struct DependencyGraph {
    /// Registered schemas, in the order they were added.
    pub nodes: Vec<(String, Schema)>,
    /// Edges (target, dependent) by node index: `.0` must precede `.1`.
    pub edges: Vec<(usize, usize)>,
}

/// Every edge endpoint indexes a node.
pub open spec fn edges_wf(edges: Seq<(usize, usize)>, n: int) -> bool {
    forall|e: int| 0 <= e < edges.len() ==> (#[trigger] edges[e]).0 < n && edges[e].1 < n
}

/// Wherever a target and its dependent stand in `order`, the target stands
/// strictly earlier. A self-edge can never satisfy this.
pub open spec fn respects_edges(order: Seq<usize>, edges: Seq<(usize, usize)>) -> bool {
    forall|k1: int, k2: int, e: int|
        #![trigger order[k1], order[k2], edges[e]]
        0 <= k1 < order.len() && 0 <= k2 < order.len() && 0 <= e < edges.len() && order[k1]
            == edges[e].0 && order[k2] == edges[e].1 ==> k1 < k2
}

/// A complete, duplicate-free ordering of all `n` nodes in which every
/// edge's target precedes its dependent.
pub open spec fn is_valid_order(order: Seq<usize>, n: int, edges: Seq<(usize, usize)>) -> bool {
    &&& order.len() == n
    &&& forall|k: int| 0 <= k < order.len() ==> (#[trigger] order[k]) < n
    &&& forall|v: usize| v < n ==> order.contains(v)
    &&& order.no_duplicates()
    &&& respects_edges(order, edges)
}

/// A closed walk along edges: consecutive entries are joined by an edge,
/// as are the last and the first.
#[verifier::opaque]
pub open spec fn is_cycle(c: Seq<usize>, edges: Seq<(usize, usize)>) -> bool {
    &&& c.len() >= 1
    &&& forall|i: int|
        #![trigger c[i]]
        0 <= i < c.len() - 1 ==> exists|e: int|
            0 <= e < edges.len() && (#[trigger] edges[e]) == (c[i], c[i + 1])
    &&& exists|e: int| 0 <= e < edges.len() && (#[trigger] edges[e]) == (c[c.len() - 1], c[0])
}

/// Node `v` is ready at step `k` of `order`: not placed among the first
/// `k` entries, and every edge into it has its target already placed.
pub open spec fn ready_at(order: Seq<usize>, k: int, v: usize, edges: Seq<(usize, usize)>) -> bool {
    &&& !order.take(k).contains(v)
    &&& forall|e: int|
        0 <= e < edges.len() && (#[trigger] edges[e]).1 == v ==> order.take(k).contains(
            edges[e].0,
        )
}

/// At every step the order picks the lowest-indexed ready node: the
/// registration-order tie-break, which makes the order a function of the
/// registered schemas and edges alone.
pub open spec fn canonical_order(order: Seq<usize>, edges: Seq<(usize, usize)>) -> bool {
    forall|k: int|
        0 <= k < order.len() ==> ready_at(order, k, #[trigger] order[k], edges) && (forall|
            w: usize,
        |
            w < order[k] ==> !ready_at(order, k, w, edges))
}

/// Two complete canonical orders of one graph agree on every prefix.
proof fn lemma_canonical_prefix(a: Seq<usize>, b: Seq<usize>, edges: Seq<(usize, usize)>, k: int)
    requires
        a.len() == b.len(),
        canonical_order(a, edges),
        canonical_order(b, edges),
        0 <= k <= a.len(),
    ensures
        a.take(k) == b.take(k),
    decreases k,
{
    if k > 0 {
        lemma_canonical_prefix(a, b, edges, k - 1);
        assert forall|v: usize|
            #![trigger ready_at(a, k - 1, v, edges)]
            ready_at(a, k - 1, v, edges) == ready_at(b, k - 1, v, edges) by {
            assert(a.take(k - 1) == b.take(k - 1));
        }
        assert(ready_at(a, k - 1, a[k - 1], edges));
        assert(ready_at(b, k - 1, b[k - 1], edges));
        assert(a[k - 1] == b[k - 1]) by {
            if a[k - 1] < b[k - 1] {
                assert(!ready_at(b, k - 1, a[k - 1], edges));
                assert(false);
            }
            if b[k - 1] < a[k - 1] {
                assert(!ready_at(a, k - 1, b[k - 1], edges));
                assert(false);
            }
        }
        assert forall|t: int| 0 <= t < k implies a.take(k)[t] == b.take(k)[t] by {
            if t < k - 1 {
                assert(a.take(k)[t] == a.take(k - 1)[t]);
                assert(b.take(k)[t] == b.take(k - 1)[t]);
            }
        }
        assert(a.take(k) =~= b.take(k));
    } else {
        assert(a.take(0) =~= b.take(0));
    }
}

/// Two complete canonical orders of one graph are equal: sorting equal
/// declarations yields the same order on every run.
pub proof fn lemma_canonical_order_unique(a: Seq<usize>, b: Seq<usize>, edges: Seq<(usize, usize)>)
    requires
        a.len() == b.len(),
        canonical_order(a, edges),
        canonical_order(b, edges),
    ensures
        a == b,
{
    lemma_canonical_prefix(a, b, edges, a.len() as int);
    assert(a.take(a.len() as int) =~= a);
    assert(b.take(b.len() as int) =~= b);
}

/// Appending the lowest-indexed ready node keeps an order canonical.
#[verifier::spinoff_prover]
proof fn lemma_canonical_push(
    order: Seq<usize>,
    pick: usize,
    edges: Seq<(usize, usize)>,
    placed: Seq<bool>,
    n: int,
)
    requires
        placed.len() == n,
        forall|k: int| 0 <= k < order.len() ==> placed[(#[trigger] order[k]) as int],
        forall|v: usize| v < n && placed[v as int] ==> order.contains(v),
        forall|k: int| 0 <= k < order.len() ==> (#[trigger] order[k]) < n,
        edges_wf(edges, n),
        canonical_order(order, edges),
        pick < n,
        !placed[pick as int],
        forall|e: int|
            0 <= e < edges.len() && (#[trigger] edges[e]).1 == pick ==> placed[edges[e].0 as int],
        forall|w: usize|
            w < pick && !placed[w as int] ==> exists|e: int|
                0 <= e < edges.len() && (#[trigger] edges[e]).1 == w && !placed[edges[e].0 as int],
    ensures
        canonical_order(order.push(pick), edges),
{
    let new = order.push(pick);
    assert(new.take(order.len() as int) =~= order);
    assert forall|k: int|
        0 <= k < new.len() implies ready_at(new, k, #[trigger] new[k], edges) && (forall|w: usize|
        w < new[k] ==> !ready_at(new, k, w, edges)) by {
        if k < order.len() {
            assert forall|v: usize|
                #![trigger ready_at(new, k, v, edges)]
                ready_at(new, k, v, edges) == ready_at(order, k, v, edges) by {
                assert(new.take(k) =~= order.take(k));
            }
            assert(new[k] == order[k]);
            assert(ready_at(order, k, order[k], edges));
            assert forall|w: usize| w < new[k] implies !ready_at(new, k, w, edges) by {
                assert(!ready_at(order, k, w, edges));
            }
        } else {
            assert(new[k] == pick);
            assert(new.take(k) =~= order);
            assert(!order.contains(pick)) by {
                if order.contains(pick) {
                    let t = choose|t: int| 0 <= t < order.len() && order[t] == pick;
                    assert(placed[(order[t]) as int]);
                    assert(false);
                }
            }
            assert forall|e: int|
                0 <= e < edges.len() && (#[trigger] edges[e]).1 == pick implies new.take(
                k,
            ).contains(edges[e].0) by {
                assert(placed[edges[e].0 as int]);
                assert(order.contains(edges[e].0));
            }
            assert(ready_at(new, k, pick, edges));
            assert forall|w: usize| w < pick implies !ready_at(new, k, w, edges) by {
                if placed[w as int] {
                    assert(order.contains(w));
                    assert(new.take(k).contains(w));
                } else {
                    let e = choose|e: int|
                        0 <= e < edges.len() && (#[trigger] edges[e]).1 == w
                            && !placed[edges[e].0 as int];
                    assert(!order.contains(edges[e].0)) by {
                        if order.contains(edges[e].0) {
                            let t = choose|t: int|
                                0 <= t < order.len() && order[t] == edges[e].0;
                            assert(placed[(order[t]) as int]);
                            assert(false);
                        }
                    }
                    assert(!new.take(k).contains(edges[e].0));
                }
            }
        }
    }
}

/// Consecutive walk entries are joined backwards by an edge: each entry's
/// successor in the sequence is one of its predecessors in the graph.
spec fn walk_linked(walk: Seq<usize>, edges: Seq<(usize, usize)>) -> bool {
    forall|k: int|
        #![trigger walk[k]]
        0 <= k < walk.len() - 1 ==> exists|e: int|
            0 <= e < edges.len() && (#[trigger] edges[e]) == (walk[k + 1], walk[k])
}

/// How many entries of `s` are true.
pub open spec fn count_true(s: Seq<bool>) -> int
    decreases s.len(),
{
    if s.len() == 0 {
        0
    } else {
        count_true(s.drop_last()) + if s.last() {
            1int
        } else {
            0int
        }
    }
}

proof fn lemma_count_true_bound(s: Seq<bool>)
    ensures
        0 <= count_true(s) <= s.len(),
    decreases s.len(),
{
    if s.len() > 0 {
        lemma_count_true_bound(s.drop_last());
    }
}

/// When every entry is true the count is the length.
proof fn lemma_count_true_all(s: Seq<bool>)
    requires
        forall|i: int| 0 <= i < s.len() ==> s[i],
    ensures
        count_true(s) == s.len(),
    decreases s.len(),
{
    if s.len() > 0 {
        assert(forall|i: int| 0 <= i < s.len() - 1 ==> s.drop_last()[i] == s[i]);
        lemma_count_true_all(s.drop_last());
    }
}

/// When the count is the length, every entry is true.
proof fn lemma_count_true_full(s: Seq<bool>)
    requires
        count_true(s) == s.len(),
    ensures
        forall|i: int| 0 <= i < s.len() ==> s[i],
    decreases s.len(),
{
    if s.len() > 0 {
        lemma_count_true_bound(s.drop_last());
        lemma_count_true_full(s.drop_last());
        assert(forall|i: int| 0 <= i < s.len() - 1 ==> s[i] == s.drop_last()[i]);
    }
}

/// When every entry is false the count is zero.
proof fn lemma_count_true_none(s: Seq<bool>)
    requires
        forall|i: int| 0 <= i < s.len() ==> !s[i],
    ensures
        count_true(s) == 0,
    decreases s.len(),
{
    if s.len() > 0 {
        assert(forall|i: int| 0 <= i < s.len() - 1 ==> s.drop_last()[i] == s[i]);
        lemma_count_true_none(s.drop_last());
    }
}

/// Setting a false entry true raises the count by one.
proof fn lemma_count_true_update(s: Seq<bool>, i: int)
    requires
        0 <= i < s.len(),
        !s[i],
    ensures
        count_true(s.update(i, true)) == count_true(s) + 1,
    decreases s.len(),
{
    let t = s.update(i, true);
    if i == s.len() - 1 {
        assert(t.drop_last() =~= s.drop_last());
    } else {
        assert(t.drop_last() =~= s.drop_last().update(i, true));
        lemma_count_true_update(s.drop_last(), i);
    }
}

/// The first position at or before `k0` whose node is unplaced.
proof fn first_unplaced_pos(ord: Seq<usize>, placed: Seq<bool>, k0: int) -> (j: int)
    requires
        0 <= k0 < ord.len(),
        forall|k: int| 0 <= k < ord.len() ==> (#[trigger] ord[k]) < placed.len(),
        !placed[ord[k0] as int],
    ensures
        0 <= j <= k0,
        !placed[ord[j] as int],
        forall|i: int| 0 <= i < j ==> placed[ord[i] as int],
    decreases k0,
{
    if placed[ord[0] as int] {
        let j0 = first_unplaced_pos(ord.drop_first(), placed, k0 - 1);
        assert(forall|k: int| 0 <= k < ord.len() - 1 ==> ord.drop_first()[k] == ord[k + 1]);
        let j = j0 + 1;
        assert(!placed[ord[j] as int]);
        assert forall|i: int| 0 <= i < j implies placed[ord[i] as int] by {
            if i > 0 {
                assert(ord.drop_first()[i - 1] == ord[i]);
            }
        }
        j
    } else {
        0
    }
}

/// When every unplaced node is blocked by an unplaced target, no complete
/// dependency order can exist.
proof fn lemma_stuck_no_valid_order(
    n: int,
    edges: Seq<(usize, usize)>,
    placed: Seq<bool>,
    witness: usize,
)
    requires
        placed.len() == n,
        edges_wf(edges, n),
        witness < n,
        !placed[witness as int],
        forall|v: usize|
            v < n && !placed[v as int] ==> exists|e: int|
                0 <= e < edges.len() && (#[trigger] edges[e]).1 == v && !placed[edges[e].0 as int],
    ensures
        forall|order: Seq<usize>| !is_valid_order(order, n, edges),
{
    assert forall|order: Seq<usize>| !is_valid_order(order, n, edges) by {
        if is_valid_order(order, n, edges) {
            assert(order.contains(witness));
            let k0 = choose|k: int| 0 <= k < order.len() && order[k] == witness;
            let j = first_unplaced_pos(order, placed, k0);
            let v = order[j];
            let e = choose|e: int|
                0 <= e < edges.len() && (#[trigger] edges[e]).1 == v && !placed[edges[e].0 as int];
            let u = edges[e].0;
            assert(order.contains(u));
            let ku = choose|k: int| 0 <= k < order.len() && order[k] == u;
            assert(order[ku] == edges[e].0 && order[j] == edges[e].1);
            assert(ku < j);
            assert(placed[order[ku] as int]);
            assert(false);
        }
    }
}

/// A cycle among the nodes rules out every complete dependency order: no
/// sorting of the schemas can put each cycle member after its target.
#[verifier::rlimit(100)]
pub proof fn lemma_cycle_no_valid_order(c: Seq<usize>, n: int, edges: Seq<(usize, usize)>)
    requires
        is_cycle(c, edges),
        edges_wf(edges, n),
        forall|i: int| 0 <= i < c.len() ==> (#[trigger] c[i]) < n,
    ensures
        forall|order: Seq<usize>| !is_valid_order(order, n, edges),
{
    assert(c.len() >= 1) by {
        reveal(is_cycle);
    }
    assert forall|v: usize| c.contains(v) implies exists|e: int|
        0 <= e < edges.len() && (#[trigger] edges[e]).1 == v && c.contains(edges[e].0) by {
        lemma_cycle_blocked(c, edges, v);
    }
    assert(c.contains(c[0]));
    lemma_blocked_set_no_valid_order(c, n, edges);
}

/// When a nonempty set of nodes, given as a sequence, has each member
/// depending on another member, no complete dependency order exists.
proof fn lemma_blocked_set_no_valid_order(c: Seq<usize>, n: int, edges: Seq<(usize, usize)>)
    requires
        edges_wf(edges, n),
        c.len() >= 1,
        forall|i: int| 0 <= i < c.len() ==> (#[trigger] c[i]) < n,
        forall|v: usize|
            c.contains(v) ==> exists|e: int|
                0 <= e < edges.len() && (#[trigger] edges[e]).1 == v && c.contains(edges[e].0),
    ensures
        forall|order: Seq<usize>| !is_valid_order(order, n, edges),
{
    let placed = Seq::new(n as nat, |v: int| !c.contains(v as usize));
    assert(!placed[c[0] as int]) by {
        assert(c.contains(c[0]));
    }
    assert forall|v: usize| v < n && !placed[v as int] implies exists|e: int|
        0 <= e < edges.len() && (#[trigger] edges[e]).1 == v && !placed[edges[e].0 as int] by {
        assert(c.contains(v));
        let e = choose|e: int|
            0 <= e < edges.len() && (#[trigger] edges[e]).1 == v && c.contains(edges[e].0);
        assert(edges[e].0 < n);
        assert(!placed[edges[e].0 as int]);
    }
    lemma_stuck_no_valid_order(n, edges, placed, c[0]);
}

/// Every cycle member is the dependent of an edge whose target is also a
/// cycle member.
proof fn lemma_cycle_blocked(c: Seq<usize>, edges: Seq<(usize, usize)>, v: usize)
    requires
        is_cycle(c, edges),
        c.contains(v),
    ensures
        exists|e: int|
            0 <= e < edges.len() && (#[trigger] edges[e]).1 == v && c.contains(edges[e].0),
{
    reveal(is_cycle);
    let i = choose|i: int| 0 <= i < c.len() && c[i] == v;
    if i == 0 {
        let e = choose|e: int|
            0 <= e < edges.len() && (#[trigger] edges[e]) == (c[c.len() - 1], c[0]);
        assert(c.contains(c[c.len() - 1]));
        assert(edges[e].1 == v && c.contains(edges[e].0));
    } else {
        assert(exists|e: int| 0 <= e < edges.len() && (#[trigger] edges[e]) == (c[i - 1], c[i]));
        let e = choose|e: int| 0 <= e < edges.len() && (#[trigger] edges[e]) == (c[i - 1], c[i]);
        assert(c.contains(c[i - 1]));
        assert(edges[e].1 == v && c.contains(edges[e].0));
    }
}


/// A backwards-linked walk whose last entry has entry `a` among its
/// predecessors closes a cycle through its last entry.
#[verifier::spinoff_prover]
proof fn lemma_walk_closes_cycle(walk: Seq<usize>, edges: Seq<(usize, usize)>, a: int)
    requires
        walk_linked(walk, edges),
        0 <= a < walk.len(),
        exists|e: int|
            0 <= e < edges.len() && (#[trigger] edges[e]) == (walk[a], walk[walk.len() - 1]),
    ensures
        exists|c: Seq<usize>, t: int|
            #![trigger is_cycle(c, edges), c[t]]
            is_cycle(c, edges) && 0 <= t < c.len() && c[t] == walk[walk.len() - 1],
{
    reveal(is_cycle);
    let len = walk.len() as int;
    let c = Seq::new((len - a) as nat, |i: int| walk[len - 1 - i]);
    assert(c.len() >= 1);
    assert forall|i: int|
        #![trigger c[i]]
        0 <= i < c.len() - 1 implies exists|e2: int|
        0 <= e2 < edges.len() && (#[trigger] edges[e2]) == (c[i], c[i + 1]) by {
        assert(c[i] == walk[len - 1 - i]);
        assert(c[i + 1] == walk[len - 2 - i]);
    }
    assert(c[c.len() - 1] == walk[a]);
    assert(c[0] == walk[len - 1]);
    assert(exists|e2: int|
        0 <= e2 < edges.len() && (#[trigger] edges[e2]) == (c[c.len() - 1], c[0]));
    assert(is_cycle(c, edges));
}

/// Walks unplaced predecessors from `u` until a node repeats, which
/// closes a concrete cycle; reports a node lying on it.
#[verifier::rlimit(100)]
#[verifier::spinoff_prover]
fn find_cycle_member(edges: &Vec<(usize, usize)>, placed: &Vec<bool>, n: usize, u: usize) -> (named:
    usize)
    requires
        edges_wf(edges@, n as int),
        placed@.len() == n,
        u < n,
        !placed@[u as int],
        forall|w2: usize|
            w2 < n && !placed@[w2 as int] ==> exists|e: int|
                0 <= e < edges@.len() && (#[trigger] edges@[e]).1 == w2 && !placed@[edges@[e].0 as int],
    ensures
        named < n,
        exists|c: Seq<usize>, t: int|
            #![trigger is_cycle(c, edges@), c[t]]
            is_cycle(c, edges@) && 0 <= t < c.len() && c[t] == named,
{
        let mut seen: Vec<bool> = Vec::new();
        while seen.len() < n
            invariant
                seen@.len() <= n,
                forall|k: int| 0 <= k < seen@.len() ==> !seen@[k],
            decreases n - seen@.len(),
        {
            seen.push(false);
        }
        let mut pos: Vec<usize> = Vec::new();
        while pos.len() < n
            invariant
                pos@.len() <= n,
            decreases n - pos@.len(),
        {
            pos.push(0);
        }
        proof {
            lemma_count_true_none(seen@);
            lemma_count_true_update(seen@, u as int);
        }
        let mut walk: Vec<usize> = Vec::new();
        walk.push(u);
        seen.set(u, true);
        pos.set(u, 0);
        let mut steps: usize = 0;
        while steps <= n
            invariant
                edges_wf(edges@, n as int),
                placed@.len() == n,
                forall|w2: usize|
                    w2 < n && !placed@[w2 as int] ==> exists|e: int|
                        0 <= e < edges@.len() && (#[trigger] edges@[e]).1 == w2
                            && !placed@[edges@[e].0 as int],
                seen@.len() == n,
                pos@.len() == n,
                0 <= steps <= n + 1,
                walk@.len() == steps + 1,
                count_true(seen@) == walk@.len(),
                forall|k: int|
                    0 <= k < walk@.len() ==> (#[trigger] walk@[k]) < n
                        && !placed@[walk@[k] as int],
                walk_linked(walk@, edges@),
                forall|x: usize|
                    x < n && seen@[x as int] ==> pos@[x as int] < walk@.len()
                        && walk@[pos@[x as int] as int] == x,
            decreases n + 1 - steps,
        {
            let w = walk[walk.len() - 1];
            let m = edges.len();
            let mut e: usize = 0;
            let mut found_pred: bool = false;
            let mut pred: usize = 0;
            while e < m && !found_pred
                invariant
                    edges_wf(edges@, n as int),
                    edges_wf(edges@, n as int),
                    placed@.len() == n,
                    m == edges@.len(),
                    w < n,
                    !placed@[w as int],
                    0 <= e <= m,
                    !found_pred ==> forall|f: int|
                        0 <= f < e ==> !((#[trigger] edges@[f]).1 == w
                            && !placed@[edges@[f].0 as int]),
                    found_pred ==> pred < n && !placed@[pred as int] && exists|f: int|
                        0 <= f < m && (#[trigger] edges@[f]) == (pred, w),
                decreases m - e,
            {
                if edges[e].1 == w && !placed[edges[e].0] {
                    found_pred = true;
                    pred = edges[e].0;
                }
                e = e + 1;
            }
            if !found_pred {
                proof {
                    let f = choose|f: int|
                        0 <= f < edges@.len() && (#[trigger] edges@[f]).1 == w
                            && !placed@[edges@[f].0 as int];
                    assert(false);
                }
                return u;
            }
            if seen[pred] {
                let ghost a = pos@[pred as int] as int;
                proof {
                    assert(walk@[a] == pred);
                    lemma_walk_closes_cycle(walk@, edges@, a);
                }
                return walk[walk.len() - 1];
            }
            let ghost oldseen = seen@;
            let ghost oldpos = pos@;
            let ghost oldwalk = walk@;
            proof {
                lemma_count_true_update(seen@, pred as int);
            }
            seen.set(pred, true);
            pos.set(pred, walk.len());
            walk.push(pred);
            proof {
                assert(walk@ == oldwalk.push(pred));
                assert forall|k: int|
                    #![trigger walk@[k]]
                    0 <= k < walk@.len() - 1 implies exists|e2: int|
                    0 <= e2 < edges@.len() && (#[trigger] edges@[e2]) == (
                    walk@[k + 1],
                    walk@[k],
                ) by {
                    if k < oldwalk.len() - 1 {
                        assert(walk@[k] == oldwalk[k]);
                        assert(walk@[k + 1] == oldwalk[k + 1]);
                    } else {
                        assert(walk@[k] == oldwalk[oldwalk.len() - 1]);
                        assert(walk@[k + 1] == pred);
                    }
                }
                assert forall|x: usize|
                    x < n && seen@[x as int] implies pos@[x as int] < walk@.len()
                    && walk@[pos@[x as int] as int] == x by {
                    if x == pred {
                        assert(pos@[x as int] == oldwalk.len());
                        assert(walk@[oldwalk.len() as int] == pred);
                    } else {
                        assert(seen@[x as int] == oldseen[x as int]);
                        assert(pos@[x as int] == oldpos[x as int]);
                        assert(walk@[oldpos[x as int] as int] == oldwalk[oldpos[
                            x as int
                        ] as int]);
                    }
                }
            }
            steps = steps + 1;
        }
        proof {
            lemma_count_true_bound(seen@);
            assert(false);
        }
    u
}

impl DependencyGraph {
    /// Node names are unique and edges stay in range.
    pub open spec fn wf(self) -> bool {
        &&& keys_unique(self.nodes@)
        &&& edges_wf(self.edges@, self.nodes@.len() as int)
    }

    /// An empty graph.
    pub fn new() -> (r: DependencyGraph)
        ensures
            r.wf(),
            r.nodes@.len() == 0,
            r.edges@.len() == 0,
    {
        DependencyGraph { nodes: Vec::new(), edges: Vec::new() }
    }

    /// Registers a schema under `name`. Fails when a schema of that name is
    /// already registered, naming the duplicate.
    pub fn add_schema(&mut self, name: &String, data: &Schema) -> (r: Result<(), Error>)
        requires
            old(self).wf(),
        ensures
            final(self).wf(),
            final(self).edges@ == old(self).edges@,
            match r {
                Ok(()) => {
                    &&& find_key_at(old(self).nodes@, name@) == -1
                    &&& final(self).nodes@.len() == old(self).nodes@.len() + 1
                    &&& forall|k: int|
                        0 <= k < old(self).nodes@.len() ==> final(self).nodes@[k] == old(
                            self,
                        ).nodes@[k]
                    &&& final(self).nodes@.last().0@ == name@
                    &&& final(self).nodes@.last().1.name@ == data.name@
                    &&& final(self).nodes@.last().1.description@ == data.description@
                    &&& final(self).nodes@.last().1.fields.0@ == data.fields.0@
                },
                Err(e) => {
                    &&& find_key_at(old(self).nodes@, name@) != -1
                    &&& *final(self) == *old(self)
                    &&& e matches Error::DuplicateSchemaName { name: n } && n@ == name@
                },
            },
    {
        match find_key(&self.nodes, name) {
            Some(_) => Err(Error::DuplicateSchemaName { name: name.clone() }),
            None => {
                let ghost orig = self.nodes@;
                self.nodes.push((name.clone(), data.clone()));
                proof {
                    lemma_find_key_at_spec(orig, name@);
                    assert forall|i: int, j: int|
                        0 <= i < j < self.nodes@.len() implies self.nodes@[i].0@
                        != self.nodes@[j].0@ by {
                        if j < orig.len() {
                            assert(self.nodes@[i] == orig[i]);
                            assert(self.nodes@[j] == orig[j]);
                        } else {
                            assert(self.nodes@[i] == orig[i]);
                            assert(self.nodes@[j].0@ == name@);
                        }
                    }
                }
                Ok(())
            },
        }
    }

    /// Adds the edge saying `target` must be resolved before `dependent`.
    /// Both must already be registered.
    pub fn add_dependency(&mut self, target: &String, dependent: &String) -> (r: Result<
        (),
        Error,
    >)
        requires
            old(self).wf(),
            find_key_at(old(self).nodes@, target@) != -1,
            find_key_at(old(self).nodes@, dependent@) != -1,
        ensures
            final(self).wf(),
            final(self).nodes@ == old(self).nodes@,
            r is Ok,
            final(self).edges@ == old(self).edges@.push(
                (
                    find_key_at(old(self).nodes@, target@) as usize,
                    find_key_at(old(self).nodes@, dependent@) as usize,
                ),
            ),
    {
        proof {
            lemma_find_key_at_spec(self.nodes@, target@);
            lemma_find_key_at_spec(self.nodes@, dependent@);
        }
        let t = match find_key(&self.nodes, target) {
            Some(t) => t,
            None => {
                proof {
                    assert(false);
                }
                0
            },
        };
        let d = match find_key(&self.nodes, dependent) {
            Some(d) => d,
            None => {
                proof {
                    assert(false);
                }
                0
            },
        };
        self.edges.push((t, d));
        Ok(())
    }

    /// Produces a dependency order of all registered schemas: every edge's
    /// target comes before its dependent, ties are broken by registration
    /// order, so equal inputs sort equally on every run. When the edges
    /// admit no such order the graph holds a cycle, and the error names a
    /// schema that cannot be resolved.
    pub fn sort(&self) -> (r: Result<Vec<usize>, Error>)
        requires
            self.wf(),
        ensures
            match r {
                Ok(order) => is_valid_order(order@, self.nodes@.len() as int, self.edges@)
                    && canonical_order(order@, self.edges@),
                Err(e) => {
                    &&& forall|order: Seq<usize>|
                        !is_valid_order(order, self.nodes@.len() as int, self.edges@)
                    &&& e matches Error::CyclicDependency { name } && (exists|i: int|
                        0 <= i < self.nodes@.len() && name@ == (#[trigger] self.nodes@[i]).0@)
                        && (exists|c: Seq<usize>, t: int|
                        #![trigger is_cycle(c, self.edges@), c[t]]
                        is_cycle(c, self.edges@) && 0 <= t < c.len() && c[t]
                            < self.nodes@.len() && name@ == self.nodes@[c[t] as int].0@)
                },
            },
    {
        let n = self.nodes.len();
        let mut placed: Vec<bool> = Vec::new();
        while placed.len() < n
            invariant
                placed@.len() <= n,
                forall|k: int| 0 <= k < placed@.len() ==> !placed@[k],
            decreases n - placed@.len(),
        {
            placed.push(false);
        }
        proof {
            lemma_count_true_none(placed@);
        }
        let mut order: Vec<usize> = Vec::new();
        while order.len() < n
            invariant
                n == self.nodes@.len(),
                edges_wf(self.edges@, n as int),
                placed@.len() == n,
                order@.len() <= n,
                count_true(placed@) == order@.len(),
                forall|k: int| 0 <= k < order@.len() ==> (#[trigger] order@[k]) < n,
                order@.no_duplicates(),
                canonical_order(order@, self.edges@),
                forall|k: int| 0 <= k < order@.len() ==> placed@[(#[trigger] order@[k]) as int],
                forall|v: usize| v < n && placed@[v as int] ==> order@.contains(v),
                forall|e: int, k2: int|
                    #![trigger self.edges@[e], order@[k2]]
                    0 <= e < self.edges@.len() && 0 <= k2 < order@.len() && order@[k2]
                        == self.edges@[e].1 ==> exists|k1: int|
                        0 <= k1 < k2 && order@[k1] == self.edges@[e].0,
            decreases n - order@.len(),
        {
            let mut v: usize = 0;
            let mut found: bool = false;
            let mut pick: usize = 0;
            while v < n && !found
                invariant
                    n == self.nodes@.len(),
                    edges_wf(self.edges@, n as int),
                    placed@.len() == n,
                    0 <= v <= n,
                    !found ==> forall|w: usize|
                        w < v && !placed@[w as int] ==> exists|e: int|
                            0 <= e < self.edges@.len() && (#[trigger] self.edges@[e]).1 == w
                                && !placed@[self.edges@[e].0 as int],
                    found ==> pick < n && !placed@[pick as int] && (forall|e: int|
                        0 <= e < self.edges@.len() && (#[trigger] self.edges@[e]).1 == pick
                            ==> placed@[self.edges@[e].0 as int]) && (forall|w: usize|
                        w < pick && !placed@[w as int] ==> exists|e: int|
                            0 <= e < self.edges@.len() && (#[trigger] self.edges@[e]).1 == w
                                && !placed@[self.edges@[e].0 as int]),
                decreases n - v,
            {
                if !placed[v] {
                    let m = self.edges.len();
                    let mut e: usize = 0;
                    let mut ready = true;
                    while e < m && ready
                        invariant
                            n == self.nodes@.len(),
                            edges_wf(self.edges@, n as int),
                            placed@.len() == n,
                            v < n,
                            m == self.edges@.len(),
                            0 <= e <= m,
                            ready ==> forall|f: int|
                                0 <= f < e && (#[trigger] self.edges@[f]).1 == v
                                    ==> placed@[self.edges@[f].0 as int],
                            !ready ==> exists|f: int|
                                0 <= f < m && (#[trigger] self.edges@[f]).1 == v
                                    && !placed@[self.edges@[f].0 as int],
                        decreases m - e,
                    {
                        if self.edges[e].1 == v && !placed[self.edges[e].0] {
                            ready = false;
                        }
                        e = e + 1;
                    }
                    if ready {
                        found = true;
                        pick = v;
                    }
                }
                v = v + 1;
            }
            if found {
                let ghost oldplaced = placed@;
                let ghost oldorder = order@;
                proof {
                    lemma_count_true_update(placed@, pick as int);
                }
                placed.set(pick, true);
                order.push(pick);
                proof {
                    assert(order@ == oldorder.push(pick));
                    lemma_canonical_push(oldorder, pick, self.edges@, oldplaced, n as int);
                    assert forall|k: int|
                        0 <= k < order@.len() implies placed@[(#[trigger] order@[k]) as int] by {
                        if k < oldorder.len() {
                            assert(order@[k] == oldorder[k]);
                            assert(oldplaced[oldorder[k] as int]);
                        } else {
                            assert(order@[k] == pick);
                        }
                    }
                    assert(order@.no_duplicates()) by {
                        assert forall|i: int, j: int|
                            0 <= i < j < order@.len() implies order@[i] != order@[j] by {
                            if j < oldorder.len() {
                                assert(order@[i] == oldorder[i] && order@[j] == oldorder[j]);
                            } else {
                                assert(order@[j] == pick);
                                assert(order@[i] == oldorder[i]);
                                if oldorder[i] == pick {
                                    assert(oldplaced[pick as int]);
                                    assert(false);
                                }
                            }
                        }
                    }
                    assert forall|w: usize|
                        w < n && placed@[w as int] implies order@.contains(w) by {
                        if w == pick {
                            assert(order@[order@.len() - 1] == w);
                        } else {
                            assert(oldplaced[w as int]);
                            let k = choose|k: int| 0 <= k < oldorder.len() && oldorder[k] == w;
                            assert(order@[k] == w);
                        }
                    }
                    assert forall|e: int, k2: int|
                        #![trigger self.edges@[e], order@[k2]]
                        0 <= e < self.edges@.len() && 0 <= k2 < order@.len() && order@[k2]
                            == self.edges@[e].1 implies exists|k1: int|
                        0 <= k1 < k2 && order@[k1] == self.edges@[e].0 by {
                        if k2 < oldorder.len() {
                            assert(oldorder[k2] == self.edges@[e].1);
                            let k1 = choose|k1: int|
                                0 <= k1 < k2 && oldorder[k1] == self.edges@[e].0;
                            assert(order@[k1] == self.edges@[e].0);
                        } else {
                            assert(order@[k2] == pick);
                            assert(oldplaced[self.edges@[e].0 as int]);
                            assert(oldorder.contains(self.edges@[e].0));
                            let k1 = choose|k1: int|
                                0 <= k1 < oldorder.len() && oldorder[k1] == self.edges@[e].0;
                            assert(order@[k1] == self.edges@[e].0);
                        }
                    }
                }
            } else {
                proof {
                    if forall|w: int| 0 <= w < n ==> placed@[w] {
                        lemma_count_true_all(placed@);
                        assert(false);
                    }
                }
                let ghost wg = choose|w: int| 0 <= w < n && !placed@[w];
                let mut u: usize = 0;
                while placed[u]
                    invariant
                        n == self.nodes@.len(),
                        placed@.len() == n,
                        0 <= wg < n,
                        !placed@[wg],
                        0 <= u <= wg,
                        forall|k: int| 0 <= k < u ==> placed@[k],
                    decreases n - u,
                {
                    u = u + 1;
                }
                proof {
                    lemma_stuck_no_valid_order(n as int, self.edges@, placed@, u);
                }
                let named = find_cycle_member(&self.edges, &placed, n, u);
                return Err(Error::CyclicDependency { name: self.nodes[named].0.clone() });
            }
        }
        proof {
            lemma_count_true_full(placed@);
            assert forall|v: usize| v < n implies order@.contains(v) by {
                assert(placed@[v as int]);
            }
            assert(respects_edges(order@, self.edges@)) by {
                assert forall|k1: int, k2: int, e: int|
                    #![trigger order@[k1], order@[k2], self.edges@[e]]
                    0 <= k1 < order@.len() && 0 <= k2 < order@.len() && 0 <= e
                        < self.edges@.len() && order@[k1] == self.edges@[e].0 && order@[k2]
                        == self.edges@[e].1 implies k1 < k2 by {
                    let k1x = choose|k: int| 0 <= k < k2 && order@[k] == self.edges@[e].0;
                    if k1x != k1 {
                        assert(order@[k1x] == order@[k1]);
                        assert(false);
                    }
                }
            }
        }
        Ok(order)
    }
}

} // verus!
