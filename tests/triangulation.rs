use meshing::triangulation::is_off_edges;
use meshing::{
    build_point, build_triangle, build_vector, deal_with_delaunay_condition, find_current_cell,
    can_scale_back, insert_triangles, mesh_has_vertex, orientation, remove_big_triangle, rescale_vertices,
    scale_back, triangulate, Cell, MeshError, Neighbor, Point, Triangle, GRID_UNIT,
};

fn super_triangle() -> Triangle {
    build_triangle(
        [build_point(-400, -400), build_point(400, 0), build_point(0, 400)],
        [None; 3],
    )
}

fn cell_index(n: Option<Neighbor>) -> Option<usize> {
    match n {
        Some(Neighbor::Cell(j)) => Some(j),
        _ => None,
    }
}

fn assert_symmetric(mesh: &[Triangle]) {
    for (i, t) in mesh.iter().enumerate() {
        for k in 0..3 {
            if let Some(j) = cell_index(t.adjacencies[k]) {
                assert!(j < mesh.len());
                let back = (0..3).filter(|&s| cell_index(mesh[j].adjacencies[s]) == Some(i)).count();
                assert_eq!(back, 1, "triangle {} names {} which does not name it back", i, j);
            }
        }
    }
}

fn all_vertices(mesh: &[Triangle]) -> Vec<Point> {
    let mut out: Vec<Point> = Vec::new();
    for t in mesh {
        for v in t.vertices.iter() {
            if !out.contains(v) {
                out.push(*v);
            }
        }
    }
    out
}

fn assert_delaunay(mesh: &[Triangle]) {
    let vertices = all_vertices(mesh);
    for t in mesh {
        for v in &vertices {
            assert!(!t.is_point_in_circumucircle(v), "a vertex lies inside a circumcircle");
        }
    }
}

#[test]
fn neighbor_default_is_first_cell() {
    assert_eq!(Neighbor::default(), Neighbor::Cell(0));
}

#[test]
fn point_and_vector_arithmetic() {
    let a = build_point(2, 2);
    let b = build_point(4, 3);
    assert_eq!(b.segment_to(&a), build_vector(-2, -1));
    assert_eq!(a.add(&b), build_point(6, 5));
    assert_eq!(a.sub(&b), build_point(-2, -1));
    assert_eq!(build_point(2, 1).dot(&b), 11);
    assert_eq!(build_point(1, 3).scale(2), build_point(2, 6));
    let v = build_vector(4, 2);
    assert_eq!(v.orthogonal_vector(), build_vector(2, -4));
    assert_eq!(build_vector(2, 1).dot_product(&build_vector(4, 3)), 11);
    assert_eq!(v.add(&build_vector(1, 1)), build_vector(5, 3));
    assert_eq!(v.sub(&build_vector(1, 1)), build_vector(3, 1));
    assert_eq!(v.scale(3), build_vector(12, 6));
}

#[test]
fn signed_area_is_twice_the_area() {
    let t = build_triangle([build_point(0, 0), build_point(4, 0), build_point(0, 3)], [None; 3]);
    assert_eq!(t.signed_area(), 12);
    let cw = build_triangle([build_point(0, 0), build_point(0, 3), build_point(4, 0)], [None; 3]);
    assert_eq!(cw.signed_area(), -12);
}

#[test]
fn barycentric_numerators_and_inclusion() {
    let t = build_triangle([build_point(0, 0), build_point(4, 0), build_point(0, 4)], [None; 3]);
    assert_eq!(t.barycentric_coordinates_from(&build_point(1, 1)), (8, 4, 16));
    assert!(t.includes(&build_point(1, 1)));
    assert!(t.includes(&build_point(2, 2)));
    assert!(t.includes(&build_point(0, 0)));
    assert!(!t.includes(&build_point(3, 3)));
    assert!(!t.includes(&build_point(-1, 1)));
    let flat = build_triangle([build_point(0, 0), build_point(1, 1), build_point(2, 2)], [None; 3]);
    assert!(!flat.includes(&build_point(1, 1)));
}

#[test]
fn circumcircle_test_is_strict() {
    let t = build_triangle([build_point(0, 0), build_point(2, 0), build_point(0, 2)], [None; 3]);
    assert!(t.is_point_in_circumucircle(&build_point(1, 1)));
    assert!(!t.is_point_in_circumucircle(&build_point(2, 2)));
    assert!(!t.is_point_in_circumucircle(&build_point(3, 3)));
    assert!(!t.is_point_in_circumucircle(&build_point(0, 0)));
}

#[test]
fn local_lookups() {
    let t = build_triangle(
        [build_point(0, 0), build_point(2, 0), build_point(0, 2)],
        [Some(Neighbor::Cell(5)), None, Some(Neighbor::Boundary)],
    );
    assert_eq!(t.find_point_in_triangle_vertices(&build_point(2, 0)), Some(1));
    assert_eq!(t.find_point_in_triangle_vertices(&build_point(1, 1)), None);
    assert_eq!(t.find_face_opposite_to(2), Some(Neighbor::Cell(5)));
    assert_eq!(t.find_face_opposite_to(0), None);
    assert_eq!(t.find_point_local_id_opposite_to(5), Some(2));
    assert_eq!(t.find_point_local_id_opposite_to(4), None);
}

#[test]
fn face_towards_a_point() {
    let t = build_triangle(
        [build_point(0, 0), build_point(2, 0), build_point(0, 2)],
        [Some(Neighbor::Cell(1)), Some(Neighbor::Cell(2)), None],
    );
    assert_eq!(t.find_face_to_point(&build_point(1, -1)), Ok(0));
    assert_eq!(t.find_face_to_point(&build_point(3, 3)), Ok(1));
    assert_eq!(t.find_face_to_point(&build_point(-1, 1)), Err(MeshError::PointNotLocated));
}

#[test]
fn first_insertion_splits_in_three() {
    let mut mesh = vec![super_triangle()];
    let p = build_point(1, 1);
    let c = find_current_cell(&p, &mesh, 0).unwrap();
    assert_eq!(c, 0);
    let mut stack = insert_triangles(&p, &mut mesh, c);
    assert_eq!(stack, vec![0, 1, 2]);
    assert_eq!(mesh.len(), 3);
    deal_with_delaunay_condition(&mut stack, &mut mesh, &p).unwrap();
    assert!(stack.is_empty());
    for t in &mesh {
        assert!(t.vertices.contains(&p));
        let cells = t.adjacencies.iter().filter(|n| cell_index(**n).is_some()).count();
        assert_eq!(cells, 2);
        assert_eq!(t.adjacencies[0], None);
        assert!(t.signed_area() > 0);
    }
    assert_symmetric(&mesh);
}

#[test]
fn second_insertion_keeps_delaunay() {
    let mut mesh = vec![super_triangle()];
    let mut current = 0;
    for p in [build_point(1, 1), build_point(3, 1)] {
        current = find_current_cell(&p, &mesh, current).unwrap();
        let mut stack = insert_triangles(&p, &mut mesh, current);
        deal_with_delaunay_condition(&mut stack, &mut mesh, &p).unwrap();
        assert_symmetric(&mesh);
    }
    assert_eq!(mesh.len(), 5);
    assert_delaunay(&mesh);
    for t in &mesh {
        assert!(t.signed_area() > 0);
    }
}

#[test]
fn triangle_count_is_two_per_point_plus_one() {
    let points: Vec<Point> = vec![
        build_point(-50, 50),
        build_point(50, 50),
        build_point(-20, 30),
        build_point(30, 10),
        build_point(-40, -10),
        build_point(10, -20),
        build_point(-60, -40),
        build_point(50, -40),
    ];
    let big = build_triangle(
        [build_point(-10000, -10000), build_point(10000, 0), build_point(0, 10000)],
        [None; 3],
    );
    let mesh = triangulate(&points, &big).unwrap();
    assert_eq!(mesh.len(), 2 * points.len() + 1);
    assert_symmetric(&mesh);
    assert_delaunay(&mesh);
}

#[test]
fn grid_triangulation_is_delaunay_and_counted() {
    let mut points = Vec::new();
    for i in 0..6 {
        for j in 0..5 {
            points.push(build_point(i * 7 + (j % 2), j * 5 + (i % 3)));
        }
    }
    let big = super_triangle();
    let mesh = triangulate(&points, &big).unwrap();
    assert_eq!(mesh.len(), 2 * points.len() + 1);
    assert_symmetric(&mesh);
    assert_delaunay(&mesh);
}

#[test]
fn each_point_of_the_box_lies_in_one_triangle() {
    let points = vec![
        build_point(1, 2),
        build_point(41, 3),
        build_point(42, 43),
        build_point(3, 41),
        build_point(13, 21),
        build_point(27, 9),
    ];
    let big = super_triangle();
    let mesh = triangulate(&points, &big).unwrap();
    for x in 3..=40 {
        for y in 3..=40 {
            let p = build_point(x, y);
            let holders: Vec<&Triangle> = mesh.iter().filter(|t| t.includes(&p)).collect();
            assert!(!holders.is_empty());
            let strictly = mesh
                .iter()
                .filter(|t| {
                    let (s, tt, d) = t.barycentric_coordinates_from(&p);
                    (d > 0 && s > 0 && tt > 0 && d - s - tt > 0) || (d < 0 && s < 0 && tt < 0 && d - s - tt < 0)
                })
                .count();
            if strictly > 0 {
                assert_eq!(holders.len(), 1);
            }
        }
    }
}

#[test]
fn removing_the_enclosing_triangle() {
    let points = vec![
        build_point(1, 2),
        build_point(41, 3),
        build_point(42, 43),
        build_point(3, 41),
        build_point(13, 21),
    ];
    let big = super_triangle();
    let mut mesh = triangulate(&points, &big).unwrap();
    remove_big_triangle(&mut mesh, &big);
    assert!(!mesh.is_empty());
    for t in &mesh {
        for v in t.vertices.iter() {
            assert!(!big.vertices.contains(v));
        }
        let gaps = t.adjacencies.iter().filter(|n| cell_index(**n).is_none()).count();
        assert!(gaps <= 3);
    }
    assert_symmetric(&mesh);
    // a quadrilateral with one point inside has at most four triangles
    assert!(mesh.len() <= 4);
}

#[test]
fn point_outside_is_not_located() {
    let mesh = vec![super_triangle()];
    assert_eq!(find_current_cell(&build_point(1000, 1000), &mesh, 0), Err(MeshError::PointNotLocated));
    assert_eq!(
        triangulate(&vec![build_point(1000, 1000)], &super_triangle()).err(),
        Some(MeshError::PointNotLocated)
    );
}

#[test]
fn walk_from_any_start_finds_the_cell() {
    let points = vec![build_point(1, 2), build_point(41, 3), build_point(42, 43), build_point(13, 21)];
    let mesh = triangulate(&points, &super_triangle()).unwrap();
    let target = build_point(30, 5);
    for start in 0..mesh.len() + 2 {
        let c = find_current_cell(&target, &mesh, start).unwrap();
        assert!(mesh[c].includes(&target));
    }
}

#[test]
fn repeated_point_is_degenerate() {
    let points = vec![build_point(1, 1), build_point(1, 1)];
    assert_eq!(triangulate(&points, &super_triangle()).err(), Some(MeshError::DegenerateGeometry));
    let on_edge = vec![build_point(0, 0), build_point(2, 0), build_point(0, 2), build_point(1, 1)];
    assert_eq!(triangulate(&on_edge, &super_triangle()).err(), Some(MeshError::DegenerateGeometry));
}

#[test]
fn empty_stack_is_refused() {
    let mut mesh = vec![super_triangle()];
    let mut stack: Vec<usize> = Vec::new();
    assert_eq!(
        deal_with_delaunay_condition(&mut stack, &mut mesh, &build_point(1, 1)),
        Err(MeshError::EmptyLegalizationStack)
    );
    assert_eq!(mesh.len(), 1);
}

#[test]
fn stack_entry_without_the_point_is_inconsistent() {
    let mut mesh = vec![super_triangle()];
    let mut stack: Vec<usize> = vec![0];
    assert_eq!(
        deal_with_delaunay_condition(&mut stack, &mut mesh, &build_point(1, 1)),
        Err(MeshError::InconsistentAdjacency)
    );
}

#[test]
fn empty_input_leaves_the_seed() {
    let mesh = triangulate(&Vec::new(), &super_triangle()).unwrap();
    assert_eq!(mesh.len(), 1);
    assert_eq!(mesh[0].adjacencies, [None; 3]);
}

#[test]
fn edges_and_vertex_displacements() {
    let t = build_triangle([build_point(0, 0), build_point(4, 0), build_point(0, 3)], [None; 3]);
    assert_eq!(t.edges(), [build_vector(4, 0), build_vector(-4, 3), build_vector(0, -3)]);
    assert_eq!(
        t.vertices_to(&build_point(1, 1)),
        [build_vector(1, 1), build_vector(-3, 1), build_vector(1, -2)]
    );
}

#[test]
fn orientation_sign() {
    assert_eq!(orientation(&build_point(0, 0), &build_point(4, 0), &build_point(0, 3)), 12);
    assert_eq!(orientation(&build_point(0, 0), &build_point(0, 3), &build_point(4, 0)), -12);
    assert_eq!(orientation(&build_point(0, 0), &build_point(1, 1), &build_point(5, 5)), 0);
}

#[test]
fn vertex_lookup_over_the_mesh() {
    let mesh = triangulate(&vec![build_point(1, 1), build_point(3, 1)], &super_triangle()).unwrap();
    assert!(mesh_has_vertex(&mesh, &build_point(3, 1)));
    assert!(mesh_has_vertex(&mesh, &build_point(-400, -400)));
    assert!(!mesh_has_vertex(&mesh, &build_point(2, 2)));
}

#[test]
fn off_edges_test() {
    let t = build_triangle([build_point(0, 0), build_point(4, 0), build_point(0, 4)], [None; 3]);
    assert!(is_off_edges(&t, &build_point(1, 1)));
    assert!(!is_off_edges(&t, &build_point(2, 2)));
    assert!(!is_off_edges(&t, &build_point(2, 0)));
}

#[test]
fn triangulation_vertices_are_the_inputs_and_the_seed() {
    let points = vec![build_point(1, 2), build_point(41, 3), build_point(13, 21)];
    let big = super_triangle();
    let mesh = triangulate(&points, &big).unwrap();
    let vertices = all_vertices(&mesh);
    assert_eq!(vertices.len(), 6);
    for p in points.iter().chain(big.vertices.iter()) {
        assert!(vertices.contains(p));
    }
}

#[test]
fn rescale_maps_the_box_onto_the_grid() {
    let mut points = vec![build_point(-5, 5), build_point(5, 5), build_point(-2, 3), build_point(3, -15)];
    let (lo, hi) = rescale_vertices(&mut points).unwrap();
    assert_eq!(lo, build_point(-5, -15));
    assert_eq!(hi, build_point(5, 5));
    // the larger side is 20: x in [0, 10] maps to [0, GRID_UNIT / 2]
    assert_eq!(points[0], build_point(0, GRID_UNIT));
    assert_eq!(points[1], build_point(GRID_UNIT / 2, GRID_UNIT));
    assert_eq!(points[2], build_point(3 * GRID_UNIT / 20, 18 * GRID_UNIT / 20));
    assert_eq!(points[3], build_point(GRID_UNIT * 8 / 20, 0));
}

#[test]
fn rescale_of_equal_points_is_degenerate() {
    let mut points = vec![build_point(7, -3), build_point(7, -3)];
    assert_eq!(rescale_vertices(&mut points), Err(MeshError::DegenerateGeometry));
    assert_eq!(points, vec![build_point(7, -3), build_point(7, -3)]);
}

#[test]
fn rescale_of_a_flat_cloud() {
    let mut points = vec![build_point(7, -3), build_point(9, -3)];
    let (lo, hi) = rescale_vertices(&mut points).unwrap();
    assert_eq!(lo, build_point(7, -3));
    assert_eq!(hi, build_point(9, -3));
    assert_eq!(points, vec![build_point(0, 0), build_point(GRID_UNIT, 0)]);
}

#[test]
fn scale_back_round_trip() {
    let original = vec![
        build_point(-5_000_000_000, 5_000_000_000),
        build_point(5_000_000_000, 5_000_000_000),
        build_point(-2_000_000_001, 3_000_000_007),
        build_point(3_123_456_789, -1_987_654_321),
        build_point(1, -4_000_000_000),
    ];
    let mut points = original.clone();
    let (lo, hi) = rescale_vertices(&mut points).unwrap();
    let scale = std::cmp::max(hi.x - lo.x, hi.y - lo.y);
    let mut mesh: Vec<Triangle> = vec![build_triangle([points[0], points[1], points[2]], [None; 3])];
    let grid_triangle = mesh[0];
    assert!(can_scale_back(&points, &mesh, (&lo, &hi)));
    scale_back(&mut points, &mut mesh, (&lo, &hi));
    for (p, q) in original.iter().zip(points.iter()) {
        assert!(q.x <= p.x && q.y <= p.y);
        assert!((p.x - q.x) * GRID_UNIT < scale + GRID_UNIT);
        assert!((p.y - q.y) * GRID_UNIT < scale + GRID_UNIT);
    }
    assert_eq!(mesh[0].vertices, [points[0], points[1], points[2]]);
    assert_eq!(mesh[0].adjacencies, grid_triangle.adjacencies);
    // the ends of the longer side of the box come back exactly
    assert_eq!(points[0].x, original[0].x);
    assert_eq!(points[1].x, original[1].x);
    assert_eq!(points[0].y, 4_999_996_185);
}

#[test]
fn rescaled_cloud_fits_the_standard_enclosing_triangle() {
    let mut points = vec![
        build_point(-5, 5),
        build_point(5, 5),
        build_point(-2, 3),
        build_point(3, 1),
        build_point(-4, -1),
        build_point(1, -2),
        build_point(-6, -4),
        build_point(5, -4),
    ];
    let (lo, hi) = rescale_vertices(&mut points).unwrap();
    let big = build_triangle(
        [
            build_point(-100 * GRID_UNIT, -100 * GRID_UNIT),
            build_point(100 * GRID_UNIT, 0),
            build_point(0, 100 * GRID_UNIT),
        ],
        [None; 3],
    );
    let mut mesh = triangulate(&points, &big).unwrap();
    assert_eq!(mesh.len(), 2 * points.len() + 1);
    assert_delaunay(&mesh);
    remove_big_triangle(&mut mesh, &big);
    assert_symmetric(&mesh);
    scale_back(&mut points, &mut mesh, (&lo, &hi));
    for t in &mesh {
        for v in t.vertices.iter() {
            assert!(points.contains(v));
        }
    }
    assert!(points.contains(&build_point(-6, -4)));
}

#[test]
fn scale_back_is_refused_off_the_grid() {
    let lo = build_point(0, 0);
    let hi = build_point(10, 10);
    let mesh = vec![super_triangle()];
    assert!(!can_scale_back(&vec![build_point(1, 1)], &mesh, (&lo, &hi)));
    assert!(can_scale_back(&vec![build_point(1, 1)], &Vec::new(), (&lo, &hi)));
    assert!(!can_scale_back(&vec![build_point(-1, 1)], &Vec::new(), (&lo, &hi)));
    assert!(!can_scale_back(&Vec::new(), &Vec::new(), (&hi, &lo)));
}

#[test]
fn removal_renumbers_and_clears_slots() {
    let points = vec![build_point(1, 2), build_point(41, 3), build_point(42, 43), build_point(3, 41), build_point(13, 21)];
    let big = super_triangle();
    let old = triangulate(&points, &big).unwrap();
    let mut mesh = old.clone();
    remove_big_triangle(&mut mesh, &big);
    // each kept triangle appears once, and its slots name the new index of
    // a kept neighbour or are empty where the neighbour was removed
    let kept: Vec<usize> = (0..old.len())
        .filter(|&o| !old[o].vertices.iter().any(|v| big.vertices.contains(v)))
        .collect();
    assert_eq!(mesh.len(), kept.len());
    let new_index = |o: usize| mesh.iter().position(|t| t.vertices == old[o].vertices);
    for &o in &kept {
        let j = new_index(o).unwrap();
        for k in 0..3 {
            match cell_index(old[o].adjacencies[k]) {
                Some(b) if kept.contains(&b) => {
                    assert_eq!(mesh[j].adjacencies[k], Some(Neighbor::Cell(new_index(b).unwrap())))
                }
                Some(_) => assert_eq!(mesh[j].adjacencies[k], None),
                None => assert_eq!(mesh[j].adjacencies[k], old[o].adjacencies[k]),
            }
        }
    }
}

#[test]
fn removal_without_enclosing_vertices_changes_nothing() {
    let points = vec![build_point(1, 2), build_point(41, 3), build_point(13, 21)];
    let big = super_triangle();
    let mut mesh = triangulate(&points, &big).unwrap();
    let other = build_triangle([build_point(500, 500), build_point(600, 500), build_point(500, 600)], [None; 3]);
    let before = mesh.clone();
    remove_big_triangle(&mut mesh, &other);
    assert_eq!(mesh.len(), before.len());
    for (a, b) in mesh.iter().zip(before.iter()) {
        assert_eq!(a.vertices, b.vertices);
        assert_eq!(a.adjacencies, b.adjacencies);
    }
}

#[test]
fn legalization_without_illegal_edge_changes_nothing() {
    let mut mesh = vec![super_triangle()];
    let p = build_point(1, 1);
    let mut stack = insert_triangles(&p, &mut mesh, 0);
    let before = mesh.clone();
    assert_eq!(deal_with_delaunay_condition(&mut stack, &mut mesh, &p), Ok(()));
    assert!(stack.is_empty());
    for (a, b) in mesh.iter().zip(before.iter()) {
        assert_eq!(a.vertices, b.vertices);
        assert_eq!(a.adjacencies, b.adjacencies);
    }
}

#[test]
fn clockwise_enclosing_triangle_is_degenerate() {
    let cw = build_triangle([build_point(-400, -400), build_point(0, 400), build_point(400, 0)], [None; 3]);
    assert_eq!(triangulate(&vec![build_point(1, 1)], &cw).err(), Some(MeshError::DegenerateGeometry));
}

fn tri(v: [Point; 3], a: [Option<Neighbor>; 3]) -> Triangle {
    build_triangle(v, a)
}

#[test]
fn second_point_flips_one_edge() {
    let s0 = build_point(-400, -400);
    let s1 = build_point(400, 0);
    let s2 = build_point(0, 400);
    let p = build_point(1, 1);
    let q = build_point(3, 1);
    let c = |k: usize| Some(Neighbor::Cell(k));
    let mut mesh = vec![
        tri([s0, s1, p], [None, c(4), c(2)]),
        tri([s1, s2, q], [None, c(3), c(4)]),
        tri([s2, s0, p], [None, c(0), c(3)]),
        tri([s2, p, q], [c(2), c(4), c(1)]),
        tri([p, s1, q], [c(0), c(1), c(3)]),
    ];
    let mut stack = vec![1, 3, 4];
    assert_eq!(deal_with_delaunay_condition(&mut stack, &mut mesh, &q), Ok(()));
    assert!(stack.is_empty());
    let expected = vec![
        tri([q, p, s0], [c(3), c(2), c(4)]),
        tri([s1, s2, q], [None, c(3), c(4)]),
        tri([s2, s0, p], [None, c(0), c(3)]),
        tri([s2, p, q], [c(2), c(0), c(1)]),
        tri([q, s0, s1], [c(0), None, c(1)]),
    ];
    for (a, b) in mesh.iter().zip(expected.iter()) {
        assert_eq!(a.vertices, b.vertices);
        assert_eq!(a.adjacencies, b.adjacencies);
    }
    assert_delaunay(&mesh);
}
