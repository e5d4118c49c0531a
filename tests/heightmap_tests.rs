use heightmap_stl::heightmap::Heightmap;
use heightmap_stl::text::read_heightmap;
use heightmap_stl::triangle::{Point, Triangle};

fn bits(v: f32) -> u32 {
    v.to_bits()
}

fn field(width: i32, height: i32, samples: &[f32], invert_y: bool) -> Heightmap {
    Heightmap::new(width, height, bits(1.0), bits(1.0), samples.iter().map(|v| v.to_bits()).collect(), invert_y)
        .expect("well-formed field")
}

fn pt(x: f32, y: f32, z: f32) -> Point {
    Point { x: bits(x), y: bits(y), z: bits(z) }
}

#[test]
fn sample_off_grid_is_zero() {
    let hm = field(2, 3, &[1.0, 2.0, 3.0, 4.0, 5.0, 6.0], false);
    for (i, j) in [(-1, 0), (0, -1), (2, 0), (0, 3), (i32::MIN, i32::MAX), (i32::MAX, 1)] {
        assert_eq!(hm.sample(i, j), 0);
    }
    let empty = field(0, 0, &[], false);
    for (i, j) in [(0, 0), (-1, -1), (1, 1)] {
        assert_eq!(empty.sample(i, j), 0);
    }
}

#[test]
fn sample_reads_rows_in_order() {
    let hm = field(2, 3, &[1.0, 2.0, 3.0, 4.0, 5.0, 6.0], false);
    assert_eq!(hm.sample(0, 0), bits(1.0));
    assert_eq!(hm.sample(1, 0), bits(2.0));
    assert_eq!(hm.sample(0, 2), bits(5.0));
    assert_eq!(hm.sample(1, 2), bits(6.0));
}

#[test]
fn sample_mirrors_inverted_rows() {
    let hm = field(2, 3, &[1.0, 2.0, 3.0, 4.0, 5.0, 6.0], true);
    assert_eq!(hm.sample(0, 0), bits(5.0));
    assert_eq!(hm.sample(1, 0), bits(6.0));
    assert_eq!(hm.sample(0, 1), bits(3.0));
    assert_eq!(hm.sample(1, 2), bits(2.0));
}

#[test]
fn new_checks_shape() {
    assert!(Heightmap::new(2, 2, 0, 0, vec![0; 3], false).is_none());
    assert!(Heightmap::new(-1, 0, 0, 0, vec![], false).is_none());
    assert!(Heightmap::new(0, -3, 0, 0, vec![], false).is_none());
    assert!(Heightmap::new(0, 7, 0, 0, vec![], false).is_some());
    assert!(Heightmap::new(3, 2, 0, 0, vec![0; 6], true).is_some());
    assert!(Heightmap::new(1, 1, f32::INFINITY.to_bits(), 0, vec![0], false).is_none());
    assert!(Heightmap::new(1, 1, 0, f32::NAN.to_bits(), vec![0], false).is_none());
}

/// Every directed edge of a real (non-degenerate) triangle is matched by the
/// same edge walked the other way: the surface is closed and consistently wound.
fn is_closed(tris: &[Triangle]) -> bool {
    let mut edges: Vec<(Point, Point)> = Vec::new();
    for t in tris {
        if t.a == t.b || t.b == t.c || t.a == t.c {
            continue;
        }
        edges.push((t.a, t.b));
        edges.push((t.b, t.c));
        edges.push((t.c, t.a));
    }
    edges.iter().all(|&(p, q)| {
        let forward = edges.iter().filter(|&&e| e == (p, q)).count();
        let backward = edges.iter().filter(|&&e| e == (q, p)).count();
        forward == backward
    })
}

#[test]
fn single_raised_cell() {
    let hm = read_heightmap(b"2,2\n1,1\n0\n0\n0\n1").expect("valid text");
    let tris = hm.get_triangles();
    assert!(tris.len() >= 2);
    // nine cells with two walls each, plus one run with top and floor
    assert_eq!(tris.len(), 9 * 4 + 4);
    let top: Vec<&Triangle> = tris
        .iter()
        .filter(|t| t.a.z == bits(1.0) && t.b.z == bits(1.0) && t.c.z == bits(1.0))
        .collect();
    assert_eq!(top.len(), 2);
    assert_eq!(*top[0], Triangle { a: pt(1.0, 1.0, 1.0), b: pt(2.0, 1.0, 1.0), c: pt(2.0, 2.0, 1.0) });
    assert_eq!(*top[1], Triangle { a: pt(1.0, 1.0, 1.0), b: pt(2.0, 2.0, 1.0), c: pt(1.0, 2.0, 1.0) });
    // the four walls around the raised cell have area
    let walls: Vec<&Triangle> = tris
        .iter()
        .filter(|t| {
            let zs = [t.a.z, t.b.z, t.c.z];
            zs.contains(&bits(1.0)) && zs.contains(&0)
        })
        .collect();
    assert_eq!(walls.len(), 8);
    assert!(walls.contains(&&Triangle { a: pt(1.0, 1.0, 0.0), b: pt(2.0, 1.0, 0.0), c: pt(2.0, 1.0, 1.0) }));
    assert!(walls.contains(&&Triangle { a: pt(1.0, 2.0, 0.0), b: pt(1.0, 1.0, 0.0), c: pt(1.0, 1.0, 1.0) }));
    assert!(is_closed(&tris));
}

#[test]
fn equal_neighbours_merge_into_one_run() {
    let hm = read_heightmap(b"3,1\n1,1\n2\n2\n2").expect("valid text");
    let tris = hm.get_triangles();
    // four cells by two rows of walls, plus one run
    assert_eq!(tris.len(), 4 * 2 * 4 + 4);
    assert_eq!(tris[0], Triangle { a: pt(0.0, 0.0, 2.0), b: pt(3.0, 0.0, 2.0), c: pt(3.0, 1.0, 2.0) });
    assert_eq!(tris[1], Triangle { a: pt(0.0, 0.0, 2.0), b: pt(3.0, 1.0, 2.0), c: pt(0.0, 1.0, 2.0) });
    assert_eq!(tris[2], Triangle { a: pt(3.0, 0.0, 0.0), b: pt(0.0, 0.0, 0.0), c: pt(0.0, 1.0, 0.0) });
    assert_eq!(tris[3], Triangle { a: pt(3.0, 0.0, 0.0), b: pt(0.0, 1.0, 0.0), c: pt(3.0, 1.0, 0.0) });
}

#[test]
fn distinct_heights_split_runs() {
    let hm = read_heightmap(b"3,1\n1,1\n1\n2\n2").expect("valid text");
    let tris = hm.get_triangles();
    assert_eq!(tris.len(), 4 * 2 * 4 + 2 * 4);
    let tops: Vec<&Triangle> = tris
        .iter()
        .filter(|t| t.a.z != 0 && t.a.z == t.b.z && t.b.z == t.c.z)
        .filter(|t| t.a != t.b && t.b != t.c && t.a != t.c)
        .collect();
    assert_eq!(tops.len(), 4);
    assert_eq!(tops[2].b, pt(3.0, 0.0, 2.0));
}

#[test]
fn zero_cells_get_no_top() {
    let hm = field(2, 1, &[0.0, 0.0], false);
    let tris = hm.get_triangles();
    assert_eq!(tris.len(), 3 * 2 * 4);
    assert!(tris.iter().all(|t| t.a.z == 0 && t.b.z == 0 && t.c.z == 0));
}

#[test]
fn scale_places_vertices() {
    let hm = Heightmap::new(1, 1, bits(0.5), bits(3.0), vec![bits(1.0)], false).expect("valid");
    let tris = hm.get_triangles();
    assert_eq!(tris[0], Triangle { a: pt(0.0, 0.0, 1.0), b: pt(0.5, 0.0, 1.0), c: pt(0.5, 3.0, 1.0) });
    assert!(is_closed(&tris));
}

#[test]
fn triangulation_is_repeatable() {
    let hm = read_heightmap(b"3,2\n0.5,2\n0\n1.5\n1.5\n2\n0\n2").expect("valid text");
    let first = hm.get_triangles();
    let second = hm.get_triangles();
    assert_eq!(first, second);
}

#[test]
fn empty_field_has_degenerate_walls_only() {
    let hm = field(0, 0, &[], false);
    let tris = hm.get_triangles();
    assert_eq!(tris.len(), 4);
}

#[test]
fn tallest_empty_field() {
    let hm = Heightmap::new(0, i32::MAX, 0, 0, vec![], true).expect("no samples needed");
    assert_eq!(hm.sample(0, i32::MAX - 1), 0);
    assert_eq!(hm.sample(0, 0), 0);
}
