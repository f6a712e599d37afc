use vstd::prelude::*;

use crate::graph::{simple_graph, Graph};

verus! {

broadcast use vstd::seq_lib::lemma_seq_contains_after_push;

/// The unordered pairs of `0..n`, each once as `(i, j)` with `i < j`: first
/// the pairs of `0..n-1`, then those that end in `n - 1`.
pub open spec fn pair_seq(n: nat) -> Seq<(usize, usize)>
    decreases n,
{
    if n == 0 {
        Seq::empty()
    } else {
        pair_seq((n - 1) as nat) + Seq::new((n - 1) as nat, |i: int| (i as usize, (n - 1) as usize))
    }
}

/// Whether the candidate list offers the unordered pair `{a, b}` at a
/// position whose flag is set.
pub open spec fn chosen(cands: Seq<(usize, usize)>, keep: Seq<bool>, a: usize, b: usize) -> bool {
    exists|k: int|
        0 <= k < cands.len() && keep[k] && (#[trigger] cands[k] == (a, b) || cands[k] == (b, a))
}

/// The pair sequence holds each pair `i < j < n` exactly once and nothing
/// else, and there are `n (n - 1) / 2` of them.
pub proof fn lemma_pair_seq(n: nat)
    requires
        n <= usize::MAX,
    ensures
        pair_seq(n).len() == n * (n - 1) / 2,
        pair_seq(n).no_duplicates(),
        forall|k: int|
            0 <= k < pair_seq(n).len() ==> #[trigger] pair_seq(n)[k].0 < pair_seq(n)[k].1
                && (pair_seq(n)[k].1 as int) < n,
        forall|i: usize, j: usize| i < j && j < n ==> #[trigger] pair_seq(n).contains((i, j)),
    decreases n,
{
    if n > 0 {
        let m = (n - 1) as nat;
        lemma_pair_seq(m);
        let p = pair_seq(m);
        let q = Seq::new(m, |i: int| (i as usize, m as usize));
        assert(pair_seq(n) == p + q);
        assert forall|k: int| 0 <= k < p.len() implies (#[trigger] p[k]).1 < m by {
            assert(pair_seq(m)[k].0 < pair_seq(m)[k].1);
        }
        assert forall|k: int| 0 <= k < q.len() implies (#[trigger] q[k]).1 == m by {}
        assert forall|k: int| 0 <= k < (p + q).len() implies #[trigger] (p + q)[k].0 < (p + q)[k].1
            && ((p + q)[k].1 as int) < n by {
            if k < p.len() {
                assert((p + q)[k] == p[k]);
                assert(p[k].0 < p[k].1);
            } else {
                assert((p + q)[k] == q[k - p.len()]);
            }
        }
        assert(n * (n - 1) / 2 == m * (m - 1) / 2 + m) by (nonlinear_arith)
            requires
                m == n - 1,
                n >= 1,
        ;
        assert forall|x: int, y: int|
            0 <= x < (p + q).len() && 0 <= y < (p + q).len() && x != y implies (p + q)[x] != (
            p + q)[y] by {
            if x < p.len() && y >= p.len() {
                assert((p + q)[x] == p[x]);
                assert(p[x].0 < p[x].1 && p[x].1 < m);
                assert((p + q)[y] == q[y - p.len()]);
            } else if y < p.len() && x >= p.len() {
                assert((p + q)[y] == p[y]);
                assert(p[y].0 < p[y].1 && p[y].1 < m);
                assert((p + q)[x] == q[x - p.len()]);
            } else if x < p.len() && y < p.len() {
                assert((p + q)[x] == p[x] && (p + q)[y] == p[y]);
            } else {
                assert((p + q)[x] == q[x - p.len()] && (p + q)[y] == q[y - p.len()]);
            }
        }
        assert forall|i: usize, j: usize| i < j && j < n implies #[trigger] pair_seq(n).contains(
            (i, j),
        ) by {
            if j < m {
                assert(p.contains((i, j)));
                let k = choose|k: int| 0 <= k < p.len() && p[k] == (i, j);
                assert((p + q)[k] == (i, j));
            } else {
                assert((p + q)[p.len() + i] == (i, j));
            }
        }
    }
}

/// All unordered pairs of `0..n`, in the order of `pair_seq`.
pub fn all_pairs(n: usize) -> (r: Vec<(usize, usize)>)
    ensures
        r@ == pair_seq(n as nat),
{
    let mut r: Vec<(usize, usize)> = Vec::new();
    let mut j: usize = 0;
    while j < n
        invariant
            j <= n,
            r@ == pair_seq(j as nat),
        decreases n - j,
    {
        let mut i: usize = 0;
        while i < j
            invariant
                i <= j,
                j < n,
                r@ == pair_seq(j as nat) + Seq::new(i as nat, |t: int| (t as usize, j)),
            decreases j - i,
        {
            r.push((i, j));
            assert(r@ =~= pair_seq(j as nat) + Seq::new((i + 1) as nat, |t: int| (t as usize, j)));
            i = i + 1;
        }
        assert(pair_seq((j + 1) as nat) == pair_seq(j as nat) + Seq::new(
            j as nat,
            |t: int| (t as usize, j),
        ));
        assert(r@ =~= pair_seq((j + 1) as nat));
        j = j + 1;
    }
    r
}

/// The graph on `n` nodes whose edges are the candidates whose flag is set.
/// A candidate that joins a node to itself is passed over, and a pair
/// offered twice gives one edge.
pub fn graph_from_candidates(n: usize, cands: &Vec<(usize, usize)>, keep: &Vec<bool>) -> (g: Graph)
    requires
        keep@.len() == cands@.len(),
        forall|k: int| 0 <= k < cands@.len() ==> #[trigger] cands@[k].0 < n && cands@[k].1 < n,
    ensures
        g.wf(),
        simple_graph(g@),
        g@.len() == n,
        forall|a: usize, b: usize|
            #[trigger] g.adjacent(a, b) <==> a != b && chosen(cands@, keep@, a, b),
{
    let mut g = Graph::new(n);
    let mut k: usize = 0;
    while k < cands.len()
        invariant
            keep@.len() == cands@.len(),
            forall|k: int| 0 <= k < cands@.len() ==> #[trigger] cands@[k].0 < n && cands@[k].1 < n,
            k <= cands@.len(),
            g.wf(),
            simple_graph(g@),
            g@.len() == n,
            forall|a: usize, b: usize|
                #[trigger] g.adjacent(a, b) <==> a != b && chosen(
                    cands@.subrange(0, k as int),
                    keep@.subrange(0, k as int),
                    a,
                    b,
                ),
        decreases cands@.len() - k,
    {
        let (c0, c1) = cands[k];
        let ghost old_g = g;
        if keep[k] {
            g.add_edge(c0, c1);
        }
        proof {
            let cs = cands@.subrange(0, k + 1);
            let ks = keep@.subrange(0, k + 1);
            let cs0 = cands@.subrange(0, k as int);
            let ks0 = keep@.subrange(0, k as int);
            assert forall|a: usize, b: usize|
                #[trigger] g.adjacent(a, b) <==> a != b && chosen(cs, ks, a, b) by {
                if chosen(cs0, ks0, a, b) {
                    let w = choose|w: int|
                        0 <= w < cs0.len() && ks0[w] && (#[trigger] cs0[w] == (a, b) || cs0[w]
                            == (b, a));
                    assert(cs[w] == cs0[w] && ks[w] == ks0[w]);
                }
                if chosen(cs, ks, a, b) {
                    let w = choose|w: int|
                        0 <= w < cs.len() && ks[w] && (#[trigger] cs[w] == (a, b) || cs[w] == (
                        b,
                        a,
                    ));
                    if w < k {
                        assert(cs0[w] == cs[w] && ks0[w] == ks[w]);
                    }
                }
                if a != b && old_g.adjacent(a, b) {
                    assert(chosen(cs0, ks0, a, b));
                }
                if keep@[k as int] && a != b && ((a, b) == cands@[k as int] || (b, a)
                    == cands@[k as int]) {
                    assert(cs[k as int] == cands@[k as int]);
                }
            }
        }
        k = k + 1;
    }
    assert(cands@.subrange(0, cands@.len() as int) == cands@);
    assert(keep@.subrange(0, keep@.len() as int) == keep@);
    g
}

} // verus!
