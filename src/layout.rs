use vstd::prelude::*;

use crate::graph::Graph;
use crate::pairs::{all_pairs, lemma_pair_seq, pair_seq};
use crate::random::draw_between;

verus! {

/// Why a layout configuration cannot run.
#[derive(Clone, Copy, Debug, PartialEq, Eq, Structural)]
pub enum LayoutError {
    /// More nodes are to be anchored than the graph has.
    TooManyAnchored,
    /// Barycenter steps are asked for, but every node is anchored.
    NoFreeNode,
}

/// Checks a layout configuration once, before the first tick: the first
/// `anchored` nodes are pinned to a circle, and with `barycenters` set each
/// tick moves one node that is not pinned.
pub fn check_layout(n: usize, anchored: usize, barycenters: bool) -> (r: Result<(), LayoutError>)
    ensures
        anchored > n <==> r == Err::<(), LayoutError>(LayoutError::TooManyAnchored),
        anchored <= n && barycenters && anchored == n <==> r == Err::<(), LayoutError>(
            LayoutError::NoFreeNode,
        ),
        r is Ok <==> anchored <= n && (barycenters ==> anchored < n),
{
    if anchored > n {
        Err(LayoutError::TooManyAnchored)
    } else if barycenters && anchored == n {
        Err(LayoutError::NoFreeNode)
    } else {
        Ok(())
    }
}

/// One unordered pair of nodes that the force field visits in a tick, and
/// whether a spring joins them.
#[derive(Clone, Copy, Debug, PartialEq, Eq, Structural)]
pub struct Interaction {
    pub a: usize,
    pub b: usize,
    pub spring: bool,
}

/// Every unordered pair of nodes once, in the order of `pair_seq`, each
/// marked with whether the graph joins it. Repulsion acts on every pair,
/// the spring only on the marked ones.
pub fn pair_interactions(g: &Graph) -> (r: Vec<Interaction>)
    requires
        g.wf(),
    ensures
        r@.len() == pair_seq(g@.len()).len(),
        forall|k: int|
            0 <= k < r@.len() ==> (#[trigger] r@[k]).a == pair_seq(g@.len())[k].0 && r@[k].b
                == pair_seq(g@.len())[k].1 && r@[k].spring == g.adjacent(r@[k].a, r@[k].b),
{
    let n = g.node_count();
    let pairs = all_pairs(n);
    let mut r: Vec<Interaction> = Vec::new();
    let mut k: usize = 0;
    while k < pairs.len()
        invariant
            g.wf(),
            n == g@.len(),
            pairs@ == pair_seq(n as nat),
            k <= pairs@.len(),
            r@.len() == k,
            forall|t: int|
                0 <= t < k ==> (#[trigger] r@[t]).a == pairs@[t].0 && r@[t].b == pairs@[t].1
                    && r@[t].spring == g.adjacent(r@[t].a, r@[t].b),
        decreases pairs@.len() - k,
    {
        let (a, b) = pairs[k];
        let spring = g.has_edge(a, b);
        r.push(Interaction { a, b, spring });
        k = k + 1;
    }
    r
}

/// What a barycenter step does with node `v`: `None` where `v` has no
/// neighbour, so that its position stays as it is; else the neighbours whose
/// mean position becomes its own.
pub fn barycenter_sources(g: &Graph, v: usize) -> (r: Option<Vec<usize>>)
    requires
        g.wf(),
        v < g@.len(),
    ensures
        g@[v as int].len() == 0 <==> r is None,
        r matches Some(ns) ==> ns@.to_set() == g@[v as int] && ns@.no_duplicates(),
{
    let list = g.neighbors(v);
    proof {
        list@.unique_seq_to_set();
    }
    if list.len() == 0 {
        return None;
    }
    let mut ns: Vec<usize> = Vec::new();
    let mut t: usize = 0;
    while t < list.len()
        invariant
            t <= list@.len(),
            ns@ == list@.take(t as int),
        decreases list@.len() - t,
    {
        ns.push(list[t]);
        assert(ns@ =~= list@.take(t + 1));
        t = t + 1;
    }
    assert(list@.take(list@.len() as int) =~= list@);
    Some(ns)
}

/// Picks, uniformly at random, the node that this tick's barycenter step
/// moves: one of the nodes after the `anchored` pinned ones.
pub fn pick_free_node(n: usize, anchored: usize, rng: &mut rand::rngs::StdRng) -> (r: usize)
    requires
        anchored < n,
        n <= i64::MAX,
    ensures
        anchored <= r < n,
{
    let v = draw_between(rng, anchored as i64, n as i64);
    v as usize
}

/// One barycenter step: picks a node that is not pinned and reports it with
/// its neighbours, or `None` where the picked node has none and nothing
/// moves. `None` therefore only comes where some free node is isolated.
pub fn barycenter_step(g: &Graph, anchored: usize, rng: &mut rand::rngs::StdRng) -> (r: Option<
    (usize, Vec<usize>),
>)
    requires
        g.wf(),
        anchored < g@.len(),
        g@.len() <= i64::MAX,
    ensures
        r matches Some((v, ns)) ==> anchored <= v < g@.len() && ns@.len() > 0 && ns@.to_set()
            == g@[v as int] && ns@.no_duplicates(),
        r is None ==> exists|v: int| anchored <= v < g@.len() && #[trigger] g@[v].len() == 0,
{
    let v = pick_free_node(g.node_count(), anchored, rng);
    match barycenter_sources(g, v) {
        Some(ns) => {
            proof {
                if ns@.len() == 0 {
                    assert(ns@.to_set() =~= Set::<usize>::empty());
                }
            }
            Some((v, ns))
        },
        None => {
            assert(g@[v as int].len() == 0);
            None
        },
    }
}

} // verus!
