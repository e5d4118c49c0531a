//! Single-precision values as bit patterns, and the few float computations
//! that the library hands to nalgebra-glm and to std.
use vstd::prelude::*;
use crate::triangle::{Point, Triangle};

verus! {

/// Bit pattern of `1.0`.
pub const ONE_BITS: u32 = 0x3F80_0000;

/// Bit pattern of positive infinity; every pattern above it (sign bit clear) is a NaN.
pub const INFINITY_BITS: u32 = 0x7F80_0000;

/// Bit pattern of the quiet NaN that stands for every NaN read from text.
pub const QUIET_NAN_BITS: u32 = 0x7FC0_0000;

/// The value with bit pattern `b` compares greater than zero:
/// sign bit clear, not `+0.0`, and not a NaN.
pub open spec fn is_positive_bits(b: u32) -> bool {
    0 < b && b <= INFINITY_BITS
}

/// The value with bit pattern `b` is a NaN (exponent all ones, non-zero mantissa).
pub open spec fn is_nan_bits(b: u32) -> bool {
    b % 0x8000_0000 > INFINITY_BITS
}

/// The value with bit pattern `b` is finite: neither infinite nor a NaN.
pub open spec fn is_finite_bits(b: u32) -> bool {
    b % 0x8000_0000 < INFINITY_BITS
}

/// Whether the value with bit pattern `b` is finite.
pub fn is_finite(b: u32) -> (r: bool)
    ensures
        r == is_finite_bits(b),
{
    b % 0x8000_0000 < INFINITY_BITS
}

/// Whether the value with bit pattern `b` is greater than zero.
pub fn is_positive(b: u32) -> (r: bool)
    ensures
        r == is_positive_bits(b),
{
    0 < b && b <= INFINITY_BITS
}

/// Whether the value with bit pattern `b` is a NaN.
pub fn is_nan(b: u32) -> (r: bool)
    ensures
        r == is_nan_bits(b),
{
    b % 0x8000_0000 > INFINITY_BITS
}

/// Bit pattern of the single-precision product `k * s`, where the grid index `k`
/// is first converted to single precision and `s` is the bit pattern of a
/// finite scale (so that the product is never a NaN).
pub uninterp spec fn grid_coordinate(k: int, s: u32) -> u32;

/// Relies on `nalgebra_glm::matrix_comp_mult`, the component-wise product of two
/// vectors: it places the grid index pair `(col, row)` at `(col * scale_x, row * scale_y)`.
#[verifier::external_body]
pub(crate) fn grid_point(col: i64, row: i64, scale_x: u32, scale_y: u32) -> (r: (u32, u32))
    requires
        is_finite_bits(scale_x),
        is_finite_bits(scale_y),
    ensures
        r.0 == grid_coordinate(col as int, scale_x),
        r.1 == grid_coordinate(row as int, scale_y),
{
    let index: nalgebra_glm::Vec2 = nalgebra_glm::convert(nalgebra_glm::vec2(col, row));
    let scale = nalgebra_glm::uint_bits_to_float(&nalgebra_glm::vec2(scale_x, scale_y));
    let r = nalgebra_glm::float_bits_to_uint_vec(&nalgebra_glm::matrix_comp_mult(&index, &scale));
    (r.x, r.y)
}

/// Bit patterns of the unit normal `normalize(cross(b - a, c - a))` of the
/// triangle `a b c`, computed in single precision. Where a component is a NaN
/// (a zero cross product gives `0 / 0`), only that it is one is meaningful:
/// the machine picks the NaN's sign and payload.
pub uninterp spec fn unit_normal(a: Point, b: Point, c: Point) -> Point;

/// The value `r` agrees with the computed value `u`: both are NaNs, or they are equal.
pub open spec fn same_unless_nan(r: u32, u: u32) -> bool {
    &&& is_nan_bits(r) == is_nan_bits(u)
    &&& !is_nan_bits(r) ==> r == u
}

/// Relies on `nalgebra_glm::triangle_normal`, the normalized cross product of the
/// triangle's two edges from its first vertex.
#[verifier::external_body]
pub(crate) fn triangle_normal(t: &Triangle) -> (r: Point)
    ensures
        same_unless_nan(r.x, unit_normal(t.a, t.b, t.c).x),
        same_unless_nan(r.y, unit_normal(t.a, t.b, t.c).y),
        same_unless_nan(r.z, unit_normal(t.a, t.b, t.c).z),
{
    let a = nalgebra_glm::uint_bits_to_float(&nalgebra_glm::vec3(t.a.x, t.a.y, t.a.z));
    let b = nalgebra_glm::uint_bits_to_float(&nalgebra_glm::vec3(t.b.x, t.b.y, t.b.z));
    let c = nalgebra_glm::uint_bits_to_float(&nalgebra_glm::vec3(t.c.x, t.c.y, t.c.z));
    let n = nalgebra_glm::float_bits_to_uint_vec(&nalgebra_glm::triangle_normal(&a, &b, &c));
    Point { x: n.x, y: n.y, z: n.z }
}

/// Bit pattern of the single-precision value that std's `FromStr` reads from the
/// text `t`, or `None` where it reports an error (or `t` is not UTF-8). Where
/// the value is a NaN, only that it is one is meaningful.
pub uninterp spec fn float_token(t: Seq<u8>) -> Option<u32>;

/// The number that the text `t` writes, with every NaN read as `QUIET_NAN_BITS`.
pub open spec fn number_token(t: Seq<u8>) -> Option<u32> {
    match float_token(t) {
        Some(v) => Some(if is_nan_bits(v) { QUIET_NAN_BITS } else { v }),
        None => None,
    }
}

/// Relies on std's `FromStr` for single-precision values (`str::parse`), with
/// `nalgebra_glm::float_bits_to_uint` handing back the value's bit pattern.
#[verifier::external_body]
pub(crate) fn parse_float(t: &[u8]) -> (r: Option<u32>)
    ensures
        r.is_some() == float_token(t@).is_some(),
        r matches Some(v) ==> same_unless_nan(v, float_token(t@).unwrap()),
{
    std::str::from_utf8(t).ok().and_then(|s| s.parse().ok()).map(nalgebra_glm::float_bits_to_uint)
}

} // verus!
