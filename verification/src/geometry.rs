//! Points with exact integer coordinates and the orientation (cross product)
//! test on them.

use vstd::prelude::*;

verus! {

/// Largest coordinate magnitude the library accepts. The bound leaves enough
/// headroom that every cross product of in-bounds points fits in an `i128`
/// and every chain key fits in an `i64`.
pub const COORD_BOUND: i64 = 0x2000_0000_0000_0000;

/// A point of the plane with exact integer coordinates.
#[derive(Clone, Copy, PartialEq, Eq, Structural, Debug)]
pub struct Point {
    pub x: i64,
    pub y: i64,
}

/// One value yielded by a point source: either a real point or a placeholder
/// for a point whose coordinates were not finite. Non-real points never take
/// part in the hull computation, but keep their identifier slot.
#[derive(Clone, Copy, PartialEq, Eq, Structural, Debug)]
pub enum PointValue {
    Real(Point),
    NonReal,
}

impl PointValue {
    /// Builds a real point value.
    pub fn real_point(x: i64, y: i64) -> (r: PointValue)
        ensures
            r == PointValue::Real(Point { x, y }),
    {
        PointValue::Real(Point { x, y })
    }

    /// Builds the placeholder for a non-real point.
    pub fn non_real() -> (r: PointValue)
        ensures
            r == PointValue::NonReal,
    {
        PointValue::NonReal
    }
}

/// Whether a point value is a real point.
pub open spec fn is_real(v: PointValue) -> bool {
    v is Real
}

/// The point carried by a real point value (arbitrary default otherwise).
pub open spec fn point_of(v: PointValue) -> Point {
    match v {
        PointValue::Real(p) => p,
        PointValue::NonReal => Point { x: 0, y: 0 },
    }
}

/// Whether both coordinates are within the accepted magnitude.
pub open spec fn in_bounds(p: Point) -> bool {
    -COORD_BOUND <= p.x <= COORD_BOUND && -COORD_BOUND <= p.y <= COORD_BOUND
}

/// One (identifier, point value) entry of a point source.
pub type Entry = (usize, PointValue);

/// Every real point of the sequence is within the accepted coordinate bound.
pub open spec fn entries_wf(s: Seq<Entry>) -> bool {
    forall|i: int| 0 <= i < s.len() ==> is_real(#[trigger] s[i].1) ==> in_bounds(point_of(s[i].1))
}

/// The cross product of the vectors A->B and A->C. Positive means C lies
/// strictly left of the directed line A->B, zero means collinear, negative
/// means strictly right.
pub open spec fn cross(a: Point, b: Point, c: Point) -> int {
    (b.x - a.x) * (c.y - a.y) - (b.y - a.y) * (c.x - a.x)
}

/// Computes the cross product of A->B and A->C exactly.
pub fn cross_exec(a: Point, b: Point, c: Point) -> (r: i128)
    requires
        in_bounds(a),
        in_bounds(b),
        in_bounds(c),
    ensures
        r == cross(a, b, c),
{
    let bax: i128 = (b.x as i128) - (a.x as i128);
    let cay: i128 = (c.y as i128) - (a.y as i128);
    let bay: i128 = (b.y as i128) - (a.y as i128);
    let cax: i128 = (c.x as i128) - (a.x as i128);
    proof {
        let m = 2 * COORD_BOUND as int;
        assert(-m <= bax <= m && -m <= cay <= m && -m <= bay <= m && -m <= cax <= m);
        assert(bax * cay <= m * m && bax * cay >= -(m * m)) by (nonlinear_arith)
            requires -m <= bax <= m && -m <= cay <= m && m > 0;
        assert(bay * cax <= m * m && bay * cax >= -(m * m)) by (nonlinear_arith)
            requires -m <= bay <= m && -m <= cax <= m && m > 0;
    }
    bax * cay - bay * cax
}

} // verus!
