//! Vertices and triangles.
use vstd::prelude::*;

verus! {

/// A point in space; each coordinate is the bit pattern of a single-precision value.
#[derive(Debug, Clone, Copy, PartialEq, Eq, Structural)]
pub struct Point {
    pub x: u32,
    pub y: u32,
    pub z: u32,
}

/// A triangle; the order of its vertices (the winding) fixes the side its normal faces.
#[derive(Debug, Clone, Copy, PartialEq, Eq, Structural)]
pub struct Triangle {
    pub a: Point,
    pub b: Point,
    pub c: Point,
}

/// A quadrilateral `c0 c1 c2 c3` split along the diagonal `c0 c2`.
pub open spec fn quad(c0: Point, c1: Point, c2: Point, c3: Point) -> Seq<Triangle> {
    seq![Triangle { a: c0, b: c1, c: c2 }, Triangle { a: c0, b: c2, c: c3 }]
}

/// Appends the two triangles of the quadrilateral `c0 c1 c2 c3` to `triangles`.
pub fn add_rect(triangles: &mut Vec<Triangle>, c0: Point, c1: Point, c2: Point, c3: Point)
    ensures
        final(triangles)@ == old(triangles)@ + quad(c0, c1, c2, c3),
{
    triangles.push(Triangle { a: c0, b: c1, c: c2 });
    triangles.push(Triangle { a: c0, b: c2, c: c3 });
    assert(final(triangles)@ =~= old(triangles)@ + quad(c0, c1, c2, c3));
}

} // verus!
