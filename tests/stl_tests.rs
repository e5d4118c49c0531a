use heightmap_stl::error::ReadError;
use heightmap_stl::stl::{facet_normal, read_stl_binary, write_stl_binary};
use heightmap_stl::triangle::{Point, Triangle};

fn pt(x: f32, y: f32, z: f32) -> Point {
    Point { x: x.to_bits(), y: y.to_bits(), z: z.to_bits() }
}

fn sample_triangles() -> Vec<Triangle> {
    vec![
        Triangle { a: pt(0.0, 0.0, 0.0), b: pt(1.0, 0.0, 0.0), c: pt(0.0, 1.0, 0.0) },
        Triangle { a: pt(1.5, -2.0, 3.25), b: pt(4.0, 5.0, 6.0), c: pt(-7.0, 8.5, 9.0) },
        Triangle { a: pt(1.0, 1.0, 1.0), b: pt(1.0, 1.0, 1.0), c: pt(2.0, 2.0, 2.0) },
    ]
}

#[test]
fn encoding_layout() {
    let tris = sample_triangles();
    let bytes = write_stl_binary(&tris);
    assert_eq!(bytes.len(), 80 + 4 + 50 * 3);
    assert!(bytes[..80].iter().all(|&b| b == 0));
    assert_eq!(&bytes[80..84], &3u32.to_le_bytes());
    // first record: normal (0, 0, 1), then the vertices, then two zero bytes
    assert_eq!(&bytes[84..88], &0.0f32.to_le_bytes());
    assert_eq!(&bytes[92..96], &1.0f32.to_le_bytes());
    assert_eq!(&bytes[108..112], &1.0f32.to_le_bytes());
    assert_eq!(&bytes[132..134], &[0, 0]);
    // second record's first vertex
    assert_eq!(&bytes[146..150], &1.5f32.to_le_bytes());
    assert_eq!(&bytes[150..154], &(-2.0f32).to_le_bytes());
}

#[test]
fn empty_mesh_encoding() {
    let bytes = write_stl_binary(&Vec::new());
    assert_eq!(bytes.len(), 84);
    assert!(bytes.iter().all(|&b| b == 0));
    assert_eq!(read_stl_binary(&bytes), Ok(Vec::new()));
}

#[test]
fn round_trip_keeps_triangles() {
    let tris = sample_triangles();
    let bytes = write_stl_binary(&tris);
    assert_eq!(read_stl_binary(&bytes), Ok(tris));
}

#[test]
fn normal_of_counter_clockwise_triangle() {
    let t = Triangle { a: pt(0.0, 0.0, 0.0), b: pt(1.0, 0.0, 0.0), c: pt(0.0, 1.0, 0.0) };
    assert_eq!(facet_normal(&t), pt(0.0, 0.0, 1.0));
    let flipped = Triangle { a: pt(0.0, 0.0, 0.0), b: pt(0.0, 1.0, 0.0), c: pt(1.0, 0.0, 0.0) };
    assert_eq!(facet_normal(&flipped), pt(0.0, 0.0, -1.0));
    let scaled = Triangle { a: pt(0.0, 0.0, 0.0), b: pt(0.0, 4.0, 0.0), c: pt(0.0, 0.0, 4.0) };
    assert_eq!(facet_normal(&scaled), pt(1.0, 0.0, 0.0));
}

#[test]
fn degenerate_triangle_gets_zero_normal() {
    let t = Triangle { a: pt(1.0, 1.0, 1.0), b: pt(1.0, 1.0, 1.0), c: pt(2.0, 2.0, 2.0) };
    assert_eq!(facet_normal(&t), Point { x: 0, y: 0, z: 0 });
    let bytes = write_stl_binary(&vec![t]);
    assert!(bytes[84..96].iter().all(|&b| b == 0));
}

#[test]
fn truncated_input_fails() {
    let bytes = write_stl_binary(&sample_triangles());
    assert_eq!(read_stl_binary(&bytes[..bytes.len() - 1]), Err(ReadError::IO));
    assert_eq!(read_stl_binary(&bytes[..83]), Err(ReadError::IO));
    assert_eq!(read_stl_binary(&[]), Err(ReadError::IO));
}

#[test]
fn trailing_bytes_are_ignored() {
    let tris = sample_triangles();
    let mut bytes = write_stl_binary(&tris);
    bytes.extend_from_slice(&[7, 7, 7]);
    assert_eq!(read_stl_binary(&bytes), Ok(tris));
}

#[test]
fn stored_normals_are_not_checked() {
    let tris = sample_triangles();
    let mut bytes = write_stl_binary(&tris);
    for b in &mut bytes[84..96] {
        *b = 0xAB;
    }
    assert_eq!(read_stl_binary(&bytes), Ok(tris));
}

fn to_f32(p: Point) -> [f32; 3] {
    [f32::from_bits(p.x), f32::from_bits(p.y), f32::from_bits(p.z)]
}

fn read_f32(bytes: &[u8], off: usize) -> f32 {
    f32::from_le_bytes([bytes[off], bytes[off + 1], bytes[off + 2], bytes[off + 3]])
}

#[test]
fn round_trip_preserves_every_bit() {
    let tris = vec![
        Triangle { a: Point { x: 1, y: 0x8000_0000, z: 0x7F80_0000 }, b: pt(-0.0, 1e-30, 3.5), c: pt(1e30, -1e-40, 2.0) },
        Triangle { a: pt(0.1, 0.2, 0.3), b: pt(0.4, 0.5, 0.6), c: pt(0.7, 0.8, 1.9) },
    ];
    let back = read_stl_binary(&write_stl_binary(&tris)).expect("complete file");
    assert_eq!(back.len(), tris.len());
    for (t, u) in tris.iter().zip(back.iter()) {
        for (p, q) in [(t.a, u.a), (t.b, u.b), (t.c, u.c)] {
            assert_eq!((p.x, p.y, p.z), (q.x, q.y, q.z));
        }
    }
}

#[test]
fn stored_normal_matches_recomputed_normal() {
    let tris = vec![
        Triangle { a: pt(0.1, 0.2, 0.3), b: pt(4.0, 0.5, -0.6), c: pt(0.7, 8.0, 1.9) },
        Triangle { a: pt(1.0, 2.0, 3.0), b: pt(-2.0, 1.0, 0.5), c: pt(0.0, 0.0, 7.0) },
    ];
    let bytes = write_stl_binary(&tris);
    let back = read_stl_binary(&bytes).expect("complete file");
    for (k, t) in back.iter().enumerate() {
        let [a, b, c] = [to_f32(t.a), to_f32(t.b), to_f32(t.c)];
        let e1 = [b[0] - a[0], b[1] - a[1], b[2] - a[2]];
        let e2 = [c[0] - a[0], c[1] - a[1], c[2] - a[2]];
        let n = [e1[1] * e2[2] - e1[2] * e2[1], e1[2] * e2[0] - e1[0] * e2[2], e1[0] * e2[1] - e1[1] * e2[0]];
        let len = (n[0] * n[0] + n[1] * n[1] + n[2] * n[2]).sqrt();
        for m in 0..3 {
            let stored = read_f32(&bytes, 84 + 50 * k + 4 * m);
            assert!((stored - n[m] / len).abs() <= 4.0 * f32::EPSILON, "{} {}", stored, n[m] / len);
        }
    }
}

#[test]
fn underflowing_normal_is_zero() {
    let a = 3e-13f32;
    let t = Triangle { a: pt(0.0, 0.0, 0.0), b: pt(a, 0.0, a), c: pt(0.0, a, a) };
    assert_eq!(facet_normal(&t), Point { x: 0, y: 0, z: 0 });
    let tiny = Triangle { a: pt(0.0, 0.0, 0.0), b: pt(1e-30, 0.0, 0.0), c: pt(0.0, 1e-30, 0.0) };
    assert_eq!(facet_normal(&tiny), Point { x: 0, y: 0, z: 0 });
}
