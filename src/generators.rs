use vstd::prelude::*;

use crate::geometry::{lemma_sq_dist_symmetric, sq_dist, squared_distance, GridPoint};
use crate::graph::{simple_graph, Graph};
use crate::pairs::{all_pairs, chosen, graph_from_candidates, lemma_pair_seq, pair_seq};
use crate::random::{draw_between, toss};

verus! {

broadcast use vstd::seq_lib::lemma_seq_contains_after_push;

/// Why a generator refused its parameters.
#[derive(Clone, Copy, Debug, PartialEq, Eq, Structural)]
pub enum GenerationError {
    /// The graph would have no nodes.
    NoNodes,
    /// The edge probability is not a fraction in `[0, 1]`.
    InvalidProbability,
    /// A half extent of the placement window is not positive.
    InvalidWindow,
    /// The proximity factor has a zero denominator.
    InvalidFactor,
}

/// A probability written as the fraction `num / den`.
#[derive(Clone, Copy, Debug, PartialEq, Eq, Structural)]
pub struct Probability {
    pub num: u32,
    pub den: u32,
}

impl Probability {
    pub open spec fn valid(self) -> bool {
        0 < self.den && self.num <= self.den
    }

    /// The probability is one.
    pub open spec fn certain(self) -> bool {
        self.num == self.den
    }
}

/// The rectangle `[-half_width, half_width) x [-half_height, half_height)`
/// in which nodes are first placed.
#[derive(Clone, Copy, Debug, PartialEq, Eq, Structural)]
pub struct Window {
    pub half_width: i32,
    pub half_height: i32,
}

impl Window {
    pub open spec fn valid(self) -> bool {
        0 < self.half_width && 0 < self.half_height
    }

    pub open spec fn inside(self, p: GridPoint) -> bool {
        -self.half_width <= p.x < self.half_width && -self.half_height <= p.y < self.half_height
    }
}

/// A distance factor written as the fraction `num / den`.
#[derive(Clone, Copy, Debug, PartialEq, Eq, Structural)]
pub struct ProximityFactor {
    pub num: u16,
    pub den: u16,
}

impl ProximityFactor {
    pub open spec fn valid(self) -> bool {
        0 < self.den
    }
}

/// Tosses `count` independent coins that each show `true` with probability `p`.
pub(crate) fn toss_coins(count: usize, p: Probability, rng: &mut rand::rngs::StdRng) -> (r: Vec<bool>)
    requires
        p.valid(),
    ensures
        r@.len() == count,
        p.certain() ==> forall|k: int| 0 <= k < count ==> #[trigger] r@[k],
        p.num == 0 ==> forall|k: int| 0 <= k < count ==> !#[trigger] r@[k],
{
    let mut r: Vec<bool> = Vec::new();
    let mut k: usize = 0;
    while k < count
        invariant
            p.valid(),
            k <= count,
            r@.len() == k,
            p.certain() ==> forall|t: int| 0 <= t < k ==> #[trigger] r@[t],
            p.num == 0 ==> forall|t: int| 0 <= t < k ==> !#[trigger] r@[t],
        decreases count - k,
    {
        let c = toss(rng, p.num, p.den);
        r.push(c);
        k = k + 1;
    }
    r
}

/// Places `n` nodes uniformly at random on the grid points of `window`.
pub fn make_nodes(n: usize, window: Window, rng: &mut rand::rngs::StdRng) -> (r: Result<
    Vec<GridPoint>,
    GenerationError,
>)
    ensures
        n == 0 ==> r == Err::<Vec<GridPoint>, GenerationError>(GenerationError::NoNodes),
        n > 0 && !window.valid() ==> r == Err::<Vec<GridPoint>, GenerationError>(
            GenerationError::InvalidWindow,
        ),
        n > 0 && window.valid() ==> r is Ok,
        r matches Ok(v) ==> v@.len() == n && forall|k: int|
            0 <= k < n ==> #[trigger] window.inside(v@[k]),
{
    if n == 0 {
        return Err(GenerationError::NoNodes);
    }
    if window.half_width <= 0 || window.half_height <= 0 {
        return Err(GenerationError::InvalidWindow);
    }
    let w = window.half_width as i64;
    let h = window.half_height as i64;
    let mut v: Vec<GridPoint> = Vec::new();
    let mut k: usize = 0;
    while k < n
        invariant
            window.valid(),
            w == window.half_width,
            h == window.half_height,
            k <= n,
            v@.len() == k,
            forall|t: int| 0 <= t < k ==> #[trigger] window.inside(v@[t]),
        decreases n - k,
    {
        let x = draw_between(rng, -w, w);
        let y = draw_between(rng, -h, h);
        v.push(GridPoint::new(x as i32, y as i32));
        k = k + 1;
    }
    Ok(v)
}

/// The graph on `n` nodes that holds the `k`-th pair of `pair_seq(n)`
/// exactly when `coins[k]` is set.
pub fn bernoulli_graph(n: usize, coins: &Vec<bool>) -> (g: Graph)
    requires
        coins@.len() == pair_seq(n as nat).len(),
    ensures
        g.wf(),
        simple_graph(g@),
        g@.len() == n,
        forall|a: usize, b: usize|
            #[trigger] g.adjacent(a, b) <==> a != b && chosen(pair_seq(n as nat), coins@, a, b),
{
    let pairs = all_pairs(n);
    proof {
        lemma_pair_seq(n as nat);
    }
    graph_from_candidates(n, &pairs, coins)
}

/// Joins each unordered pair of the `n` nodes independently with
/// probability `p`.
pub fn make_edges(n: usize, p: Probability, rng: &mut rand::rngs::StdRng) -> (r: Result<
    Graph,
    GenerationError,
>)
    ensures
        n == 0 ==> r == Err::<Graph, GenerationError>(GenerationError::NoNodes),
        n > 0 && !p.valid() ==> r == Err::<Graph, GenerationError>(
            GenerationError::InvalidProbability,
        ),
        n > 0 && p.valid() ==> r is Ok,
        r matches Ok(g) ==> {
            &&& g.wf()
            &&& simple_graph(g@)
            &&& g@.len() == n
            &&& forall|a: usize, b: usize| #[trigger]
                g.adjacent(a, b) ==> a != b && a < n && b < n && (a < b ==> pair_seq(
                    n as nat,
                ).contains((a, b)))
            &&& p.certain() ==> forall|a: usize, b: usize|
                a != b && a < n && b < n ==> #[trigger] g.adjacent(a, b)
            &&& p.num == 0 ==> forall|a: usize, b: usize| !#[trigger] g.adjacent(a, b)
        },
{
    if n == 0 {
        return Err(GenerationError::NoNodes);
    }
    if p.den == 0 || p.num > p.den {
        return Err(GenerationError::InvalidProbability);
    }
    let pairs = all_pairs(n);
    let coins = toss_coins(pairs.len(), p, rng);
    let g = bernoulli_graph(n, &coins);
    proof {
        lemma_pair_seq(n as nat);
        let ps = pair_seq(n as nat);
        assert forall|a: usize, b: usize| #[trigger] g.adjacent(a, b) implies a != b && a < n && b
            < n && (a < b ==> ps.contains((a, b))) by {}
        if p.certain() {
            assert forall|a: usize, b: usize| a != b && a < n && b < n implies #[trigger] g.adjacent(
                a,
                b,
            ) by {
                if a < b {
                    assert(ps.contains((a, b)));
                    let k = choose|k: int| 0 <= k < ps.len() && ps[k] == (a, b);
                    assert(coins@[k]);
                } else {
                    assert(ps.contains((b, a)));
                    let k = choose|k: int| 0 <= k < ps.len() && ps[k] == (b, a);
                    assert(coins@[k]);
                }
            }
        }
    }
    Ok(g)
}

/// `m` is the least squared distance between two distinct nodes.
pub open spec fn is_min_sq_dist(pts: Seq<GridPoint>, m: int) -> bool {
    &&& exists|i: int, j: int|
        0 <= i < j < pts.len() && #[trigger] sq_dist(pts[i], pts[j]) == m
    &&& forall|i: int, j: int|
        0 <= i < pts.len() && 0 <= j < pts.len() && i != j ==> m <= #[trigger] sq_dist(
            pts[i],
            pts[j],
        )
}

/// The least squared distance between two distinct nodes, where there are
/// at least two.
pub open spec fn min_sq_dist(pts: Seq<GridPoint>) -> int {
    choose|m: int| is_min_sq_dist(pts, m)
}

/// Whether nodes `a` and `b` are closer than `factor` times the closest
/// pair, compared on squares: `den² d² < num² d_min²`.
pub open spec fn within_factor(pts: Seq<GridPoint>, factor: ProximityFactor, a: int, b: int) -> bool {
    (factor.den * factor.den) * sq_dist(pts[a], pts[b]) < (factor.num * factor.num) * min_sq_dist(
        pts,
    )
}

proof fn lemma_min_unique(pts: Seq<GridPoint>, m: int)
    requires
        is_min_sq_dist(pts, m),
    ensures
        min_sq_dist(pts) == m,
{
    let c = min_sq_dist(pts);
    assert(is_min_sq_dist(pts, c));
    let (i, j) = choose|i: int, j: int| 0 <= i < j < pts.len() && #[trigger] sq_dist(pts[i], pts[j]) == m;
    let (x, y) = choose|x: int, y: int| 0 <= x < y < pts.len() && #[trigger] sq_dist(pts[x], pts[y]) == c;
    assert(c <= sq_dist(pts[i], pts[j]));
    assert(m <= sq_dist(pts[x], pts[y]));
}

/// The least squared distance between two distinct nodes.
pub fn closest_pair_sq(pts: &Vec<GridPoint>) -> (m: u128)
    requires
        pts@.len() >= 2,
    ensures
        is_min_sq_dist(pts@, m as int),
        m == min_sq_dist(pts@),
        m <= 0x2_0000_0000_0000_0000u128,
{
    let n = pts.len();
    let pairs = all_pairs(n);
    proof {
        lemma_pair_seq(n as nat);
        assert(pairs@.contains((0usize, 1usize)));
    }
    let (i0, j0) = pairs[0];
    let mut m = squared_distance(&pts[i0], &pts[j0]);
    let mut k: usize = 1;
    while k < pairs.len()
        invariant
            pairs@ == pair_seq(n as nat),
            n == pts@.len(),
            1 <= k <= pairs@.len(),
            m <= 0x2_0000_0000_0000_0000u128,
            forall|t: int|
                0 <= t < pairs@.len() ==> #[trigger] pairs@[t].0 < pairs@[t].1 && (pairs@[t].1 as int)
                    < n,
            exists|t: int|
                0 <= t < k && m == #[trigger] sq_dist(pts@[pairs@[t].0 as int], pts@[pairs@[t].1 as int]),
            forall|t: int|
                0 <= t < k ==> m <= #[trigger] sq_dist(pts@[pairs@[t].0 as int], pts@[pairs@[t].1 as int]),
        decreases pairs@.len() - k,
    {
        let (i, j) = pairs[k];
        assert(pairs@[k as int].0 < pairs@[k as int].1);
        let d = squared_distance(&pts[i], &pts[j]);
        if d < m {
            m = d;
        }
        k = k + 1;
    }
    proof {
        let t = choose|t: int|
            0 <= t < k && m == #[trigger] sq_dist(pts@[pairs@[t].0 as int], pts@[pairs@[t].1 as int]);
        assert(pairs@[t].0 < pairs@[t].1);
        assert(sq_dist(pts@[pairs@[t].0 as int], pts@[pairs@[t].1 as int]) == m);
        assert forall|i: int, j: int|
            0 <= i < pts@.len() && 0 <= j < pts@.len() && i != j implies m <= #[trigger] sq_dist(
            pts@[i],
            pts@[j],
        ) by {
            let (a, b) = if i < j { (i as usize, j as usize) } else { (j as usize, i as usize) };
            assert(pairs@.contains((a, b)));
            let s = choose|s: int| 0 <= s < pairs@.len() && pairs@[s] == (a, b);
            assert(m <= sq_dist(pts@[pairs@[s].0 as int], pts@[pairs@[s].1 as int]));
            lemma_sq_dist_symmetric(pts@[i], pts@[j]);
        }
        lemma_min_unique(pts@, m as int);
    }
    m
}

/// Joins every pair of nodes that are closer than `factor` times the
/// distance of the closest pair.
pub fn make_edges_by_proximity(pts: &Vec<GridPoint>, factor: ProximityFactor) -> (r: Result<
    Graph,
    GenerationError,
>)
    ensures
        pts@.len() == 0 ==> r == Err::<Graph, GenerationError>(GenerationError::NoNodes),
        pts@.len() > 0 && !factor.valid() ==> r == Err::<Graph, GenerationError>(
            GenerationError::InvalidFactor,
        ),
        pts@.len() > 0 && factor.valid() ==> r is Ok,
        r matches Ok(g) ==> {
            &&& g.wf()
            &&& simple_graph(g@)
            &&& g@.len() == pts@.len()
            &&& forall|a: usize, b: usize| #[trigger]
                g.adjacent(a, b) <==> a != b && a < pts@.len() && b < pts@.len() && within_factor(
                    pts@,
                    factor,
                    a as int,
                    b as int,
                )
            &&& factor.num > factor.den && min_sq_dist(pts@) > 0 ==> forall|a: usize, b: usize|
                a != b && a < pts@.len() && b < pts@.len() && sq_dist(pts@[a as int], pts@[b as int])
                    == min_sq_dist(pts@) ==> #[trigger] g.adjacent(a, b)
        },
{
    let n = pts.len();
    if n == 0 {
        return Err(GenerationError::NoNodes);
    }
    if factor.den == 0 {
        return Err(GenerationError::InvalidFactor);
    }
    if n == 1 {
        let g = Graph::new(1);
        return Ok(g);
    }
    let m = closest_pair_sq(pts);
    let pairs = all_pairs(n);
    proof {
        lemma_pair_seq(n as nat);
    }
    let num = factor.num as u128;
    let den = factor.den as u128;
    let mut keep: Vec<bool> = Vec::new();
    let mut k: usize = 0;
    while k < pairs.len()
        invariant
            pairs@ == pair_seq(n as nat),
            n == pts@.len(),
            num == factor.num,
            den == factor.den,
            m == min_sq_dist(pts@),
            m <= 0x2_0000_0000_0000_0000u128,
            k <= pairs@.len(),
            keep@.len() == k,
            forall|t: int|
                0 <= t < pairs@.len() ==> #[trigger] pairs@[t].0 < pairs@[t].1 && (pairs@[t].1 as int)
                    < n,
            forall|t: int|
                0 <= t < k ==> #[trigger] keep@[t] == within_factor(
                    pts@,
                    factor,
                    pairs@[t].0 as int,
                    pairs@[t].1 as int,
                ),
        decreases pairs@.len() - k,
    {
        let (i, j) = pairs[k];
        assert(pairs@[k as int].0 < pairs@[k as int].1);
        let d = squared_distance(&pts[i], &pts[j]);
        assert(den * den <= 0x1_0000_0000u128 && num * num <= 0x1_0000_0000u128) by (nonlinear_arith)
            requires
                den < 0x10000u128,
                num < 0x10000u128,
        ;
        assert((den * den) * d <= 0x1_0000_0000u128 * 0x4_0000_0000_0000_0000u128) by (nonlinear_arith)
            requires
                den * den <= 0x1_0000_0000u128,
                d <= 0x4_0000_0000_0000_0000u128,
        ;
        assert((num * num) * m <= 0x1_0000_0000u128 * 0x4_0000_0000_0000_0000u128) by (nonlinear_arith)
            requires
                num * num <= 0x1_0000_0000u128,
                m <= 0x4_0000_0000_0000_0000u128,
        ;
        keep.push((den * den) * d < (num * num) * m);
        k = k + 1;
    }
    assert forall|t: int| 0 <= t < pairs@.len() implies #[trigger] pairs@[t].0 < n && pairs@[t].1 < n by {
        assert(pairs@[t].0 < pairs@[t].1);
    }
    let g = graph_from_candidates(n, &pairs, &keep);
    proof {
        let ps = pair_seq(n as nat);
        assert forall|a: usize, b: usize| #[trigger]
            g.adjacent(a, b) <==> a != b && a < n && b < n && within_factor(
                pts@,
                factor,
                a as int,
                b as int,
            ) by {
            lemma_sq_dist_symmetric(pts@[a as int], pts@[b as int]);
            if g.adjacent(a, b) {
                let t = choose|t: int|
                    0 <= t < ps.len() && keep@[t] && (#[trigger] ps[t] == (a, b) || ps[t] == (b, a));
                assert(ps[t].0 < ps[t].1);
            }
            if a != b && a < n && b < n && within_factor(pts@, factor, a as int, b as int) {
                let (x, y) = if a < b { (a, b) } else { (b, a) };
                assert(ps.contains((x, y)));
                let t = choose|t: int| 0 <= t < ps.len() && ps[t] == (x, y);
                assert(keep@[t]);
            }
        }
        if factor.num > factor.den && min_sq_dist(pts@) > 0 {
            assert forall|a: usize, b: usize|
                a != b && a < n && b < n && sq_dist(pts@[a as int], pts@[b as int]) == min_sq_dist(
                    pts@,
                ) implies #[trigger] g.adjacent(a, b) by {
                let q = min_sq_dist(pts@);
                assert((den * den) * q < (num * num) * q) by (nonlinear_arith)
                    requires
                        0 <= den < num,
                        q > 0,
                ;
            }
        }
    }
    Ok(g)
}

} // verus!
