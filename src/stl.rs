//! The binary STL format: an 80-byte header, a little-endian `u32` triangle
//! count, then one 50-byte record per triangle (normal, three vertices, two
//! attribute bytes).
use vstd::prelude::*;
use vstd::bytes::{
    lemma_auto_spec_u32_to_from_le_bytes, spec_u32_from_le_bytes, spec_u32_to_le_bytes,
    u32_from_le_bytes, u32_to_le_bytes,
};
use vstd::slice::slice_subrange;
use crate::error::ReadError;
use crate::float_bits::{is_finite, is_finite_bits, triangle_normal, unit_normal};
use crate::triangle::{Point, Triangle};

verus! {

/// Length of the header.
pub const HEADER_LEN: usize = 80;

/// Length of one triangle record.
pub const RECORD_LEN: usize = 50;

/// The normal stored for `t`: its unit normal, or the zero vector where that
/// has a component that is not finite. Normalizing divides by the cross
/// product's length, so this is exactly where that length is computed as zero
/// (a degenerate triangle, or a cross product whose squares underflow) or
/// overflows.
pub open spec fn stored_normal(t: Triangle) -> Point {
    let n = unit_normal(t.a, t.b, t.c);
    if !is_finite_bits(n.x) || !is_finite_bits(n.y) || !is_finite_bits(n.z) {
        Point { x: 0, y: 0, z: 0 }
    } else {
        n
    }
}

/// The three coordinates of `p`, each as four little-endian bytes.
pub open spec fn point_bytes(p: Point) -> Seq<u8> {
    spec_u32_to_le_bytes(p.x) + spec_u32_to_le_bytes(p.y) + spec_u32_to_le_bytes(p.z)
}

/// The record of `t`: normal, vertices in winding order, two zero attribute bytes.
pub open spec fn record_bytes(t: Triangle) -> Seq<u8> {
    point_bytes(stored_normal(t)) + point_bytes(t.a) + point_bytes(t.b) + point_bytes(t.c)
        + seq![0u8, 0u8]
}

/// The records of `ts`, in order.
pub open spec fn records_bytes(ts: Seq<Triangle>) -> Seq<u8>
    decreases ts.len(),
{
    if ts.len() == 0 {
        Seq::empty()
    } else {
        records_bytes(ts.drop_last()) + record_bytes(ts.last())
    }
}

/// The whole file for `ts`.
pub open spec fn stl_bytes(ts: Seq<Triangle>) -> Seq<u8> {
    Seq::new(HEADER_LEN as nat, |k: int| 0u8) + spec_u32_to_le_bytes(ts.len() as u32)
        + records_bytes(ts)
}

/// The little-endian `u32` at `off`.
pub open spec fn u32_at(b: Seq<u8>, off: int) -> u32 {
    spec_u32_from_le_bytes(b.subrange(off, off + 4))
}

/// The point whose coordinates start at `off`.
pub open spec fn point_at(b: Seq<u8>, off: int) -> Point {
    Point { x: u32_at(b, off), y: u32_at(b, off + 4), z: u32_at(b, off + 8) }
}

/// The triangle of the record at `off` (its stored normal is skipped).
pub open spec fn triangle_at(b: Seq<u8>, off: int) -> Triangle {
    Triangle { a: point_at(b, off + 12), b: point_at(b, off + 24), c: point_at(b, off + 36) }
}

/// The triangle count that the file declares.
pub open spec fn declared_count(b: Seq<u8>) -> int {
    u32_at(b, HEADER_LEN as int) as int
}

/// The bytes hold a header, a count, and at least as many records as declared.
pub open spec fn stl_complete(b: Seq<u8>) -> bool {
    b.len() >= HEADER_LEN + 4 && b.len() >= HEADER_LEN + 4 + RECORD_LEN * declared_count(b)
}

/// The triangles of the declared records, in order.
pub open spec fn stl_triangles(b: Seq<u8>) -> Seq<Triangle> {
    Seq::new(declared_count(b) as nat, |k: int| triangle_at(b, HEADER_LEN + 4 + RECORD_LEN * k))
}

fn push_u32(out: &mut Vec<u8>, x: u32)
    ensures
        final(out)@ == old(out)@ + spec_u32_to_le_bytes(x),
{
    let mut bytes = u32_to_le_bytes(x);
    out.append(&mut bytes);
}

fn push_point(out: &mut Vec<u8>, p: Point)
    ensures
        final(out)@ == old(out)@ + point_bytes(p),
{
    push_u32(out, p.x);
    push_u32(out, p.y);
    push_u32(out, p.z);
    assert(final(out)@ =~= old(out)@ + point_bytes(p));
}

/// The normal stored for `t` (see `stored_normal`).
pub fn facet_normal(t: &Triangle) -> (r: Point)
    ensures
        r == stored_normal(*t),
{
    let n = triangle_normal(t);
    if !is_finite(n.x) || !is_finite(n.y) || !is_finite(n.z) {
        Point { x: 0, y: 0, z: 0 }
    } else {
        n
    }
}

/// Encodes `triangles` as a binary STL file: a zero header, the count, and
/// one record per triangle with its normal recomputed from the vertices.
pub fn write_stl_binary(triangles: &Vec<Triangle>) -> (r: Vec<u8>)
    requires
        triangles@.len() <= u32::MAX,
    ensures
        r@ == stl_bytes(triangles@),
        r@.len() == HEADER_LEN + 4 + RECORD_LEN * triangles@.len(),
{
    let mut out: Vec<u8> = Vec::new();
    let mut k: usize = 0;
    while k < HEADER_LEN
        invariant
            k <= HEADER_LEN,
            out@ == Seq::new(k as nat, |i: int| 0u8),
        decreases HEADER_LEN - k,
    {
        out.push(0u8);
        k = k + 1;
        assert(out@ =~= Seq::new(k as nat, |i: int| 0u8));
    }
    push_u32(&mut out, triangles.len() as u32);
    proof {
        lemma_auto_spec_u32_to_from_le_bytes();
    }
    let ghost head = out@;
    let mut t: usize = 0;
    while t < triangles.len()
        invariant
            t <= triangles@.len(),
            head.len() == HEADER_LEN + 4,
            out@ == head + records_bytes(triangles@.subrange(0, t as int)),
        decreases triangles@.len() - t,
    {
        let tri = triangles[t];
        let ghost before = out@;
        push_point(&mut out, facet_normal(&tri));
        push_point(&mut out, tri.a);
        push_point(&mut out, tri.b);
        push_point(&mut out, tri.c);
        out.push(0u8);
        out.push(0u8);
        proof {
            let done = triangles@.subrange(0, t + 1);
            assert(done.drop_last() =~= triangles@.subrange(0, t as int));
            assert(out@ =~= before + record_bytes(tri));
            assert(out@ =~= head + records_bytes(done));
        }
        t = t + 1;
    }
    proof {
        assert(triangles@.subrange(0, triangles@.len() as int) =~= triangles@);
        lemma_records_layout(triangles@);
    }
    out
}

/// `records_bytes(ts)` is one 50-byte record per triangle, in order.
pub proof fn lemma_records_layout(ts: Seq<Triangle>)
    ensures
        records_bytes(ts).len() == RECORD_LEN * ts.len(),
        forall|k: int| 0 <= k < ts.len() ==>
            #[trigger] records_bytes(ts).subrange(RECORD_LEN * k, RECORD_LEN * k + RECORD_LEN)
                == record_bytes(ts[k]),
    decreases ts.len(),
{
    lemma_auto_spec_u32_to_from_le_bytes();
    if ts.len() > 0 {
        let init = ts.drop_last();
        lemma_records_layout(init);
        let r = records_bytes(ts);
        let n = ts.len() - 1;
        assert(record_bytes(ts.last()).len() == RECORD_LEN);
        assert forall|k: int| 0 <= k < ts.len() implies
            #[trigger] records_bytes(ts).subrange(RECORD_LEN * k, RECORD_LEN * k + RECORD_LEN)
                == record_bytes(ts[k]) by {
            if k < n {
                assert(init[k] == ts[k]);
                assert(RECORD_LEN * k + RECORD_LEN <= RECORD_LEN * n) by (nonlinear_arith)
                    requires k < n;
                assert(r.subrange(RECORD_LEN * k, RECORD_LEN * k + RECORD_LEN)
                    =~= records_bytes(init).subrange(RECORD_LEN * k, RECORD_LEN * k + RECORD_LEN));
            } else {
                assert(r.subrange(RECORD_LEN * k, RECORD_LEN * k + RECORD_LEN) =~= record_bytes(ts.last()));
            }
        }
    }
}


fn read_u32(b: &[u8], off: usize) -> (r: u32)
    requires
        off + 4 <= b@.len(),
    ensures
        r == u32_at(b@, off as int),
{
    let _len = b.len();
    u32_from_le_bytes(slice_subrange(b, off, off + 4))
}

fn read_point(b: &[u8], off: usize) -> (r: Point)
    requires
        off + 12 <= b@.len(),
    ensures
        r == point_at(b@, off as int),
{
    let _len = b.len();
    Point { x: read_u32(b, off), y: read_u32(b, off + 4), z: read_u32(b, off + 8) }
}

/// Decodes a binary STL file into its triangles, in file order; header,
/// stored normals and attribute bytes are skipped. Fails with `ReadError::IO`
/// exactly when the bytes end before the header, the count, or the last
/// declared record. Bytes after the last record are ignored.
pub fn read_stl_binary(bytes: &[u8]) -> (r: Result<Vec<Triangle>, ReadError>)
    ensures
        r.is_ok() <==> stl_complete(bytes@),
        r matches Ok(ts) ==> ts@ == stl_triangles(bytes@),
        r matches Err(e) ==> e == ReadError::IO,
{
    if bytes.len() < HEADER_LEN + 4 {
        return Err(ReadError::IO);
    }
    let count = read_u32(bytes, HEADER_LEN);
    let needed: u64 = (HEADER_LEN + 4) as u64 + RECORD_LEN as u64 * count as u64;
    if (bytes.len() as u64) < needed {
        return Err(ReadError::IO);
    }
    let n: usize = count as usize;
    let mut ts: Vec<Triangle> = Vec::new();
    let mut k: usize = 0;
    while k < n
        invariant
            n == declared_count(bytes@),
            stl_complete(bytes@),
            bytes@.len() <= usize::MAX,
            k <= n,
            ts@ == stl_triangles(bytes@).subrange(0, k as int),
        decreases n - k,
    {
        proof {
            let (kk, nn) = (k as int, n as int);
            assert(RECORD_LEN * kk + RECORD_LEN <= RECORD_LEN * nn) by (nonlinear_arith)
                requires kk < nn;
            assert(RECORD_LEN * kk >= 0) by (nonlinear_arith)
                requires kk >= 0;
        }
        let off: usize = HEADER_LEN + 4 + RECORD_LEN * k;
        let t = Triangle {
            a: read_point(bytes, off + 12),
            b: read_point(bytes, off + 24),
            c: read_point(bytes, off + 36),
        };
        ts.push(t);
        k = k + 1;
        assert(ts@ =~= stl_triangles(bytes@).subrange(0, k as int));
    }
    assert(ts@ =~= stl_triangles(bytes@));
    Ok(ts)
}

proof fn lemma_point_read(b: Seq<u8>, off: int, p: Point)
    requires
        0 <= off,
        off + 12 <= b.len(),
        b.subrange(off, off + 12) == point_bytes(p),
    ensures
        point_at(b, off) == p,
{
    lemma_auto_spec_u32_to_from_le_bytes();
    let q = point_bytes(p);
    assert(b.subrange(off, off + 4) =~= q.subrange(0, 4));
    assert(b.subrange(off + 4, off + 8) =~= q.subrange(4, 8));
    assert(b.subrange(off + 8, off + 12) =~= q.subrange(8, 12));
    assert(q.subrange(0, 4) =~= spec_u32_to_le_bytes(p.x));
    assert(q.subrange(4, 8) =~= spec_u32_to_le_bytes(p.y));
    assert(q.subrange(8, 12) =~= spec_u32_to_le_bytes(p.z));
}

proof fn lemma_record_read(b: Seq<u8>, off: int, t: Triangle)
    requires
        0 <= off,
        off + RECORD_LEN <= b.len(),
        b.subrange(off, off + RECORD_LEN) == record_bytes(t),
    ensures
        triangle_at(b, off) == t,
{
    lemma_auto_spec_u32_to_from_le_bytes();
    let r = record_bytes(t);
    assert(b.subrange(off + 12, off + 24) =~= r.subrange(12, 24));
    assert(b.subrange(off + 24, off + 36) =~= r.subrange(24, 36));
    assert(b.subrange(off + 36, off + 48) =~= r.subrange(36, 48));
    assert(r.subrange(12, 24) =~= point_bytes(t.a));
    assert(r.subrange(24, 36) =~= point_bytes(t.b));
    assert(r.subrange(36, 48) =~= point_bytes(t.c));
    lemma_point_read(b, off + 12, t.a);
    lemma_point_read(b, off + 24, t.b);
    lemma_point_read(b, off + 36, t.c);
}

/// Decoding what `write_stl_binary` encodes gives back the same triangles,
/// vertex for vertex and in the same order: the stored normals play no part.
pub proof fn lemma_stl_round_trip(ts: Seq<Triangle>)
    requires
        ts.len() <= u32::MAX,
    ensures
        stl_complete(stl_bytes(ts)),
        stl_triangles(stl_bytes(ts)) == ts,
{
    lemma_auto_spec_u32_to_from_le_bytes();
    lemma_records_layout(ts);
    let b = stl_bytes(ts);
    let recs = records_bytes(ts);
    let start = (HEADER_LEN + 4) as int;
    assert(b.subrange(HEADER_LEN as int, start) =~= spec_u32_to_le_bytes(ts.len() as u32));
    assert(declared_count(b) == ts.len());
    assert forall|k: int| 0 <= k < ts.len() implies #[trigger] stl_triangles(b)[k] == ts[k] by {
        let off = start + RECORD_LEN * k;
        assert(RECORD_LEN * k + RECORD_LEN <= RECORD_LEN * ts.len()) by (nonlinear_arith)
            requires k < ts.len();
        assert(RECORD_LEN * k >= 0) by (nonlinear_arith)
            requires k >= 0;
        assert(recs.subrange(RECORD_LEN * k, RECORD_LEN * k + RECORD_LEN) == record_bytes(ts[k]));
        assert(b.subrange(off, off + RECORD_LEN)
            =~= recs.subrange(RECORD_LEN * k, RECORD_LEN * k + RECORD_LEN));
        lemma_record_read(b, off, ts[k]);
    }
    assert(stl_triangles(b) =~= ts);
}

} // verus!
