use vstd::prelude::*;

verus! {

/// A position on the integer grid on which nodes are first placed.
#[derive(Clone, Copy, Debug, PartialEq, Eq, Structural)]
pub struct GridPoint {
    pub x: i32,
    pub y: i32,
}

/// The squared Euclidean distance between two grid points.
pub open spec fn sq_dist(a: GridPoint, b: GridPoint) -> int {
    (a.x - b.x) * (a.x - b.x) + (a.y - b.y) * (a.y - b.y)
}

/// The squared distance does not depend on the order of the two points.
pub proof fn lemma_sq_dist_symmetric(a: GridPoint, b: GridPoint)
    ensures
        sq_dist(a, b) == sq_dist(b, a),
{
    assert((a.x - b.x) * (a.x - b.x) == (b.x - a.x) * (b.x - a.x)) by (nonlinear_arith);
    assert((a.y - b.y) * (a.y - b.y) == (b.y - a.y) * (b.y - a.y)) by (nonlinear_arith);
}

impl GridPoint {
    pub fn new(x: i32, y: i32) -> (r: GridPoint)
        ensures
            r.x == x,
            r.y == y,
    {
        GridPoint { x, y }
    }
}

/// The squared Euclidean distance between `a` and `b`, computed exactly.
pub fn squared_distance(a: &GridPoint, b: &GridPoint) -> (r: u128)
    ensures
        r == sq_dist(*a, *b),
        r <= 0x2_0000_0000_0000_0000u128,
{
    let dx: i64 = a.x as i64 - b.x as i64;
    let dy: i64 = a.y as i64 - b.y as i64;
    let ax: u128 = if dx < 0 { (-dx) as u128 } else { dx as u128 };
    let ay: u128 = if dy < 0 { (-dy) as u128 } else { dy as u128 };
    assert(ax * ax == dx * dx && ay * ay == dy * dy) by (nonlinear_arith)
        requires
            ax == if dx < 0 { -dx } else { dx as int },
            ay == if dy < 0 { -dy } else { dy as int },
    ;
    assert(ax * ax <= 0x1_0000_0000u128 * 0x1_0000_0000u128) by (nonlinear_arith)
        requires
            ax <= 0x1_0000_0000u128,
    ;
    assert(ay * ay <= 0x1_0000_0000u128 * 0x1_0000_0000u128) by (nonlinear_arith)
        requires
            ay <= 0x1_0000_0000u128,
    ;
    ax * ax + ay * ay
}

} // verus!
