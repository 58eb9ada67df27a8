use triangulation::delaunay::{cavity_boundary, insert_point, purge_super};
use triangulation::geometry::{Segment, Triangle};

fn sorted(mut v: Vec<Triangle>) -> Vec<Triangle> {
    v.sort_by_key(|t| t.points());
    v
}

#[test]
fn boundary_of_one_triangle_is_its_edges() {
    let tris = vec![Triangle::new(0, 1, 2)];
    let b = cavity_boundary(&tris, &vec![true]);
    assert_eq!(b, vec![Segment::new(0, 1), Segment::new(1, 2), Segment::new(0, 2)]);
}

#[test]
fn shared_edge_is_interior_to_the_cavity() {
    let tris = vec![Triangle::new(0, 1, 2), Triangle::new(1, 2, 3)];
    let b = cavity_boundary(&tris, &vec![true, true]);
    assert_eq!(b.len(), 4);
    assert!(!b.contains(&Segment::new(1, 2)));
    assert!(b.contains(&Segment::new(0, 1)));
    assert!(b.contains(&Segment::new(0, 2)));
    assert!(b.contains(&Segment::new(1, 3)));
    assert!(b.contains(&Segment::new(2, 3)));
}

#[test]
fn edge_shared_with_a_valid_triangle_stays_on_the_boundary() {
    let tris = vec![Triangle::new(0, 1, 2), Triangle::new(1, 2, 3)];
    let b = cavity_boundary(&tris, &vec![true, false]);
    assert_eq!(b, vec![Segment::new(0, 1), Segment::new(1, 2), Segment::new(0, 2)]);
}

#[test]
fn nothing_invalidated_gives_empty_boundary() {
    let tris = vec![Triangle::new(0, 1, 2)];
    assert!(cavity_boundary(&tris, &vec![false]).is_empty());
}

#[test]
fn first_insertion_splits_the_super_triangle() {
    let mut tris = vec![Triangle::new(0, 1, 2)];
    insert_point(&mut tris, &vec![true], 3);
    let expected = vec![Triangle::new(3, 0, 1), Triangle::new(3, 1, 2), Triangle::new(3, 2, 0)];
    assert_eq!(sorted(tris), sorted(expected));
}

#[test]
fn insertion_keeps_valid_triangles() {
    let mut tris = vec![Triangle::new(0, 1, 2), Triangle::new(1, 2, 3)];
    insert_point(&mut tris, &vec![false, true], 4);
    let expected = vec![
        Triangle::new(0, 1, 2),
        Triangle::new(4, 1, 3),
        Triangle::new(4, 2, 3),
        Triangle::new(4, 1, 2),
    ];
    assert_eq!(sorted(tris), sorted(expected));
}

#[test]
fn insertion_into_two_triangle_cavity() {
    let mut tris = vec![Triangle::new(0, 1, 2), Triangle::new(1, 2, 3)];
    insert_point(&mut tris, &vec![true, true], 4);
    let expected = vec![
        Triangle::new(4, 0, 1),
        Triangle::new(4, 0, 2),
        Triangle::new(4, 1, 3),
        Triangle::new(4, 2, 3),
    ];
    assert_eq!(sorted(tris), sorted(expected));
}

#[test]
fn purge_removes_triangles_on_super_vertices() {
    let sup = Triangle::new(0, 1, 2);
    let mut tris = vec![
        Triangle::new(0, 1, 3),
        Triangle::new(1, 3, 4),
        Triangle::new(3, 4, 5),
        Triangle::new(2, 0, 5),
    ];
    purge_super(&mut tris, &sup);
    assert_eq!(tris, vec![Triangle::new(3, 4, 5)]);
}

#[test]
fn purge_removes_triangles_on_super_edges() {
    let sup = Triangle::new(0, 1, 2);
    let mut tris = vec![Triangle::new(1, 2, 7), Triangle::new(5, 6, 7)];
    purge_super(&mut tris, &sup);
    assert_eq!(tris, vec![Triangle::new(5, 6, 7)]);
}

#[test]
fn purge_after_insertions_leaves_no_super_vertex() {
    // Super triangle 0, 1, 2; points 3 and 4 inserted in turn.
    let sup = Triangle::new(0, 1, 2);
    let mut tris = vec![sup];
    insert_point(&mut tris, &vec![true], 3);
    let flags: Vec<bool> = tris.iter().map(|t| t.points() == (0, 1, 3)).collect();
    insert_point(&mut tris, &flags, 4);
    assert_eq!(tris.len(), 5);
    purge_super(&mut tris, &sup);
    assert!(tris.is_empty());
}
