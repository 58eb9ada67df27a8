use triangulation::geometry::{Segment, Triangle};

#[test]
fn segment_is_symmetric() {
    assert_eq!(Segment::new(4, 9), Segment::new(9, 4));
    assert_eq!(Segment::new(9, 4).endpoints(), (4, 9));
    assert_eq!(Segment::new(0, 1).endpoints(), (0, 1));
}

#[test]
fn segments_with_different_ends_differ() {
    assert_ne!(Segment::new(1, 2), Segment::new(1, 3));
}

#[test]
fn triangle_ignores_vertex_order() {
    let t = Triangle::new(5, 2, 8);
    assert_eq!(t.points(), (2, 5, 8));
    assert_eq!(t, Triangle::new(8, 5, 2));
    assert_eq!(t, Triangle::new(2, 8, 5));
    assert_eq!(t, Triangle::new(5, 8, 2));
}

#[test]
fn triangle_edges_are_canonical() {
    let t = Triangle::new(7, 3, 1);
    let e = t.edges();
    assert_eq!(e[0], Segment::new(1, 3));
    assert_eq!(e[1], Segment::new(3, 7));
    assert_eq!(e[2], Segment::new(7, 1));
    assert!(t.has_edge(&Segment::new(7, 3)));
    assert!(!t.has_edge(&Segment::new(7, 2)));
}

#[test]
fn triangles_sharing_a_vertex() {
    let t = Triangle::new(0, 1, 2);
    assert!(t.shares_vertex(&Triangle::new(2, 4, 5)));
    assert!(t.shares_vertex(&Triangle::new(7, 1, 5)));
    assert!(!t.shares_vertex(&Triangle::new(3, 4, 5)));
}
