use vstd::prelude::*;

use crate::generators::{toss_coins, GenerationError, Probability};
use crate::geometry::GridPoint;
use crate::graph::{simple_graph, Graph};
use crate::pairs::{chosen, graph_from_candidates};

verus! {

/// The node that stands at grid position `p`: the last one placed there, or
/// -1 where there is none. A triangulation keeps one vertex per position,
/// and the node placed last at a position owns it.
pub open spec fn node_at(pts: Seq<GridPoint>, p: GridPoint) -> int
    decreases pts.len(),
{
    if pts.len() == 0 {
        -1
    } else if pts.last() == p {
        pts.len() - 1
    } else {
        node_at(pts.drop_last(), p)
    }
}

/// The segment `s` runs between nodes `a` and `b`, in either direction.
pub open spec fn segment_joins(pts: Seq<GridPoint>, s: (GridPoint, GridPoint), a: usize, b: usize) -> bool {
    (node_at(pts, s.0) == a && node_at(pts, s.1) == b) || (node_at(pts, s.0) == b && node_at(
        pts,
        s.1,
    ) == a)
}

/// Some segment runs between nodes `a` and `b`.
pub open spec fn segment_offered(pts: Seq<GridPoint>, segs: Seq<(GridPoint, GridPoint)>, a: usize, b: usize) -> bool {
    exists|k: int| 0 <= k < segs.len() && segment_joins(pts, #[trigger] segs[k], a, b)
}

/// Some segment whose coin shows `true` runs between nodes `a` and `b`.
pub open spec fn segment_chosen(
    pts: Seq<GridPoint>,
    segs: Seq<(GridPoint, GridPoint)>,
    coins: Seq<bool>,
    a: usize,
    b: usize,
) -> bool {
    exists|k: int| 0 <= k < segs.len() && coins[k] && segment_joins(pts, #[trigger] segs[k], a, b)
}

proof fn lemma_node_at(pts: Seq<GridPoint>, p: GridPoint)
    ensures
        -1 <= node_at(pts, p) < pts.len(),
        node_at(pts, p) >= 0 ==> pts[node_at(pts, p)] == p,
    decreases pts.len(),
{
    if pts.len() > 0 && pts.last() != p {
        lemma_node_at(pts.drop_last(), p);
    }
}

/// The node that stands at `p`, where there is one.
pub fn find_node(pts: &Vec<GridPoint>, p: GridPoint) -> (r: Option<usize>)
    ensures
        r matches Some(i) ==> i == node_at(pts@, p),
        r is None ==> node_at(pts@, p) == -1,
{
    let mut found: Option<usize> = None;
    let mut i: usize = 0;
    while i < pts.len()
        invariant
            i <= pts@.len(),
            found matches Some(f) ==> f == node_at(pts@.take(i as int), p),
            found is None ==> node_at(pts@.take(i as int), p) == -1,
        decreases pts@.len() - i,
    {
        assert(pts@.take(i + 1).drop_last() =~= pts@.take(i as int));
        assert(pts@.take(i + 1).last() == pts@[i as int]);
        if pts[i] == p {
            found = Some(i);
        }
        i = i + 1;
    }
    assert(pts@.take(pts@.len() as int) =~= pts@);
    found
}

/// The graph on the nodes `pts` that joins the two nodes at the ends of the
/// `k`-th segment exactly when `coins[k]` is set. A segment with an end at
/// no node, or with both ends at one node, gives no edge.
pub fn delaunay_graph(
    pts: &Vec<GridPoint>,
    segs: &Vec<(GridPoint, GridPoint)>,
    coins: &Vec<bool>,
) -> (g: Graph)
    requires
        coins@.len() == segs@.len(),
    ensures
        g.wf(),
        simple_graph(g@),
        g@.len() == pts@.len(),
        forall|a: usize, b: usize|
            #[trigger] g.adjacent(a, b) <==> a != b && segment_chosen(pts@, segs@, coins@, a, b),
{
    let n = pts.len();
    if n == 0 {
        let g = Graph::new(0);
        assert forall|a: usize, b: usize|
            #[trigger] g.adjacent(a, b) <==> a != b && segment_chosen(pts@, segs@, coins@, a, b) by {
            if segment_chosen(pts@, segs@, coins@, a, b) {
                let k = choose|k: int|
                    0 <= k < segs@.len() && coins@[k] && segment_joins(pts@, #[trigger] segs@[k], a, b);
                lemma_node_at(pts@, segs@[k].0);
            }
        }
        return g;
    }
    let mut cands: Vec<(usize, usize)> = Vec::new();
    let mut keep: Vec<bool> = Vec::new();
    let mut k: usize = 0;
    while k < segs.len()
        invariant
            n == pts@.len(),
            n > 0,
            coins@.len() == segs@.len(),
            k <= segs@.len(),
            cands@.len() == k,
            keep@.len() == k,
            forall|t: int| 0 <= t < k ==> #[trigger] cands@[t].0 < n && cands@[t].1 < n,
            forall|t: int|
                0 <= t < k ==> #[trigger] keep@[t] == (coins@[t] && node_at(pts@, segs@[t].0) >= 0
                    && node_at(pts@, segs@[t].1) >= 0),
            forall|t: int|
                0 <= t < k && #[trigger] keep@[t] ==> cands@[t] == (
                    node_at(pts@, segs@[t].0) as usize,
                    node_at(pts@, segs@[t].1) as usize,
                ),
        decreases segs@.len() - k,
    {
        let (p, q) = segs[k];
        proof {
            lemma_node_at(pts@, p);
            lemma_node_at(pts@, q);
        }
        match (find_node(pts, p), find_node(pts, q)) {
            (Some(x), Some(y)) => {
                cands.push((x, y));
                keep.push(coins[k]);
            },
            _ => {
                cands.push((0, 0));
                keep.push(false);
            },
        }
        k = k + 1;
    }
    let g = graph_from_candidates(n, &cands, &keep);
    proof {
        assert forall|a: usize, b: usize|
            #[trigger] g.adjacent(a, b) <==> a != b && segment_chosen(pts@, segs@, coins@, a, b) by {
            if a != b && chosen(cands@, keep@, a, b) {
                let t = choose|t: int|
                    0 <= t < cands@.len() && keep@[t] && (#[trigger] cands@[t] == (a, b) || cands@[t]
                        == (b, a));
                lemma_node_at(pts@, segs@[t].0);
                lemma_node_at(pts@, segs@[t].1);
                assert(segment_joins(pts@, segs@[t], a, b));
            }
            if a != b && segment_chosen(pts@, segs@, coins@, a, b) {
                let t = choose|t: int|
                    0 <= t < segs@.len() && coins@[t] && segment_joins(pts@, #[trigger] segs@[t], a, b);
                assert(keep@[t]);
                assert(cands@[t] == (a, b) || cands@[t] == (b, a));
            }
        }
    }
    g
}

/// Builds the graph over the nodes `pts` from the undirected edges `segs`
/// of their Delaunay triangulation, keeping each edge independently with
/// probability `p`.
pub fn make_graph_delaunay(
    pts: &Vec<GridPoint>,
    segs: &Vec<(GridPoint, GridPoint)>,
    p: Probability,
    rng: &mut rand::rngs::StdRng,
) -> (r: Result<Graph, GenerationError>)
    ensures
        pts@.len() == 0 ==> r == Err::<Graph, GenerationError>(GenerationError::NoNodes),
        pts@.len() > 0 && !p.valid() ==> r == Err::<Graph, GenerationError>(
            GenerationError::InvalidProbability,
        ),
        pts@.len() > 0 && p.valid() ==> r is Ok,
        r matches Ok(g) ==> {
            &&& g.wf()
            &&& simple_graph(g@)
            &&& g@.len() == pts@.len()
            &&& forall|a: usize, b: usize| #[trigger]
                g.adjacent(a, b) ==> a != b && segment_offered(pts@, segs@, a, b)
            &&& p.certain() ==> forall|a: usize, b: usize| #[trigger]
                g.adjacent(a, b) <==> a != b && segment_offered(pts@, segs@, a, b)
            &&& p.num == 0 ==> forall|a: usize, b: usize| !#[trigger] g.adjacent(a, b)
        },
{
    if pts.len() == 0 {
        return Err(GenerationError::NoNodes);
    }
    if p.den == 0 || p.num > p.den {
        return Err(GenerationError::InvalidProbability);
    }
    let coins = toss_coins(segs.len(), p, rng);
    let g = delaunay_graph(pts, segs, &coins);
    proof {
        assert forall|a: usize, b: usize| #[trigger] g.adjacent(a, b) implies a != b
            && segment_offered(pts@, segs@, a, b) by {
            let k = choose|k: int|
                0 <= k < segs@.len() && coins@[k] && segment_joins(pts@, #[trigger] segs@[k], a, b);
        }
        if p.certain() {
            assert forall|a: usize, b: usize| a != b && segment_offered(pts@, segs@, a, b) implies
                #[trigger] g.adjacent(a, b) by {
                let k = choose|k: int| 0 <= k < segs@.len() && segment_joins(pts@, #[trigger] segs@[k], a, b);
                assert(coins@[k]);
            }
        }
        if p.num == 0 {
            assert forall|a: usize, b: usize| !#[trigger] g.adjacent(a, b) by {
                if segment_chosen(pts@, segs@, coins@, a, b) {
                    let k = choose|k: int|
                        0 <= k < segs@.len() && coins@[k] && segment_joins(pts@, #[trigger] segs@[k], a, b);
                }
            }
        }
    }
    Ok(g)
}

} // verus!
