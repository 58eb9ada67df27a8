//! Combinatorial primitives of a triangulation. A vertex is named by its
//! index in the caller's list of points.
use vstd::prelude::*;

verus! {

/// An undirected edge between two distinct vertices.
///
/// The start is always the smaller of the two vertex indices, so the same
/// edge found from two triangles compares equal whatever the order in which
/// they list its ends.
#[derive(Clone, Copy, Debug, PartialEq, Eq, Structural, Hash)]
pub struct Segment {
    start: usize,
    end: usize,
}

/// The canonical segment joining `a` and `b`.
pub closed spec fn seg(a: usize, b: usize) -> Segment {
    if b < a {
        Segment { start: b, end: a }
    } else {
        Segment { start: a, end: b }
    }
}

impl Segment {
    pub closed spec fn spec_start(&self) -> usize {
        self.start
    }

    pub closed spec fn spec_end(&self) -> usize {
        self.end
    }

    /// Create the segment joining two distinct vertices.
    pub fn new(a: usize, b: usize) -> (r: Self)
        requires
            a != b,
        ensures
            r == seg(a, b),
            r.spec_start() == (if a < b { a } else { b }),
            r.spec_end() == (if a < b { b } else { a }),
    {
        if b < a {
            Segment { start: b, end: a }
        } else {
            Segment { start: a, end: b }
        }
    }

    /// Get the endpoints of this segment, the smaller first.
    pub fn endpoints(&self) -> (r: (usize, usize))
        ensures
            r == (self.spec_start(), self.spec_end()),
    {
        (self.start, self.end)
    }
}

/// A triangle on three distinct vertices.
///
/// The vertices are kept in increasing order, so two triangles on the same
/// three vertices are equal whatever the order in which they were given.
#[derive(Clone, Copy, Debug, PartialEq, Eq, Structural, Hash)]
pub struct Triangle {
    a: usize,
    b: usize,
    c: usize,
}

/// The triangle on vertices `a`, `b` and `c`, in increasing order.
pub closed spec fn tri(a: usize, b: usize, c: usize) -> Triangle {
    if a <= b && b <= c {
        Triangle { a: a, b: b, c: c }
    } else if a <= c && c <= b {
        Triangle { a: a, b: c, c: b }
    } else if b <= a && a <= c {
        Triangle { a: b, b: a, c: c }
    } else if b <= c && c <= a {
        Triangle { a: b, b: c, c: a }
    } else if c <= a && a <= b {
        Triangle { a: c, b: a, c: b }
    } else {
        Triangle { a: c, b: b, c: a }
    }
}

impl Triangle {
    pub closed spec fn first(&self) -> usize {
        self.a
    }

    pub closed spec fn second(&self) -> usize {
        self.b
    }

    pub closed spec fn third(&self) -> usize {
        self.c
    }

    /// The vertices are distinct and stored in increasing order.
    pub open spec fn wf(&self) -> bool {
        self.first() < self.second() && self.second() < self.third()
    }

    /// `v` is one of the three vertices.
    pub open spec fn has_vertex(&self, v: usize) -> bool {
        v == self.first() || v == self.second() || v == self.third()
    }

    /// `s` is one of the three edges.
    pub open spec fn edge_of(&self, s: Segment) -> bool {
        s == seg(self.first(), self.second()) || s == seg(self.second(), self.third()) || s
            == seg(self.third(), self.first())
    }

    /// The two triangles have a vertex in common.
    pub open spec fn shares_vertex_with(&self, other: Triangle) -> bool {
        other.has_vertex(self.first()) || other.has_vertex(self.second()) || other.has_vertex(
            self.third(),
        )
    }

    /// Create a new triangle on three distinct vertices.
    pub fn new(a: usize, b: usize, c: usize) -> (r: Self)
        requires
            a != b,
            b != c,
            a != c,
        ensures
            r == tri(a, b, c),
            r.wf(),
            r.first() == (if a <= b && a <= c { a } else if b <= c { b } else { c }),
            r.third() == (if a >= b && a >= c { a } else if b >= c { b } else { c }),
            forall|v: usize| #[trigger] r.has_vertex(v) <==> (v == a || v == b || v == c),
    {
        if a <= b && b <= c {
            Triangle { a: a, b: b, c: c }
        } else if a <= c && c <= b {
            Triangle { a: a, b: c, c: b }
        } else if b <= a && a <= c {
            Triangle { a: b, b: a, c: c }
        } else if b <= c && c <= a {
            Triangle { a: b, b: c, c: a }
        } else if c <= a && a <= b {
            Triangle { a: c, b: a, c: b }
        } else {
            Triangle { a: c, b: b, c: a }
        }
    }

    /// Yields the vertices of the triangle, in increasing order.
    pub fn points(&self) -> (r: (usize, usize, usize))
        ensures
            r == (self.first(), self.second(), self.third()),
    {
        (self.a, self.b, self.c)
    }

    /// The three edges of this triangle.
    pub fn edges(&self) -> (r: [Segment; 3])
        requires
            self.wf(),
        ensures
            r@[0] == seg(self.first(), self.second()),
            r@[1] == seg(self.second(), self.third()),
            r@[2] == seg(self.third(), self.first()),
            r@[0] != r@[1],
            r@[1] != r@[2],
            r@[0] != r@[2],
    {
        [Segment::new(self.a, self.b), Segment::new(self.b, self.c), Segment::new(self.c, self.a)]
    }

    /// Whether `e` is one of the three edges of this triangle.
    pub fn has_edge(&self, e: &Segment) -> (r: bool)
        requires
            self.wf(),
        ensures
            r == self.edge_of(*e),
    {
        let edges = self.edges();
        edges[0] == *e || edges[1] == *e || edges[2] == *e
    }

    /// Whether the two triangles have a vertex in common.
    pub fn shares_vertex(&self, other: &Triangle) -> (r: bool)
        ensures
            r == self.shares_vertex_with(*other),
    {
        let (a, b, c) = other.points();
        self.a == a || self.a == b || self.a == c || self.b == a || self.b == b || self.b == c
            || self.c == a || self.c == b || self.c == c
    }
}

/// The ends of an edge of a well-formed triangle are two distinct vertices
/// of it, the smaller first, and the edge is the segment joining them.
pub proof fn lemma_edge_ends(t: Triangle, s: Segment)
    requires
        t.wf(),
        t.edge_of(s),
    ensures
        s.spec_start() < s.spec_end(),
        t.has_vertex(s.spec_start()),
        t.has_vertex(s.spec_end()),
        s == seg(s.spec_start(), s.spec_end()),
{
}

/// The triangle on three distinct vertices is well formed and has exactly
/// those vertices.
pub proof fn lemma_tri_vertices(a: usize, b: usize, c: usize)
    requires
        a != b,
        b != c,
        a != c,
    ensures
        tri(a, b, c).wf(),
        forall|v: usize| #[trigger] tri(a, b, c).has_vertex(v) <==> (v == a || v == b || v == c),
{
}

/// Two segments with the same ends are equal.
pub proof fn lemma_segment_ext(s1: Segment, s2: Segment)
    requires
        s1.spec_start() == s2.spec_start(),
        s1.spec_end() == s2.spec_end(),
    ensures
        s1 == s2,
{
}

/// Two well-formed triangles on the same vertices are equal, so a list of
/// triangles without repeated elements never holds the same three points
/// twice, in whatever order.
pub proof fn lemma_same_vertices_same_triangle(t1: Triangle, t2: Triangle)
    requires
        t1.wf(),
        t2.wf(),
        forall|v: usize| t1.has_vertex(v) <==> t2.has_vertex(v),
    ensures
        t1 == t2,
{
    assert(t2.has_vertex(t1.first()));
    assert(t2.has_vertex(t1.second()));
    assert(t2.has_vertex(t1.third()));
    assert(t1.has_vertex(t2.first()));
    assert(t1.has_vertex(t2.second()));
    assert(t1.has_vertex(t2.third()));
}

/// A segment is the same whichever end is given first.
pub proof fn lemma_segment_symmetric(a: usize, b: usize)
    requires
        a != b,
    ensures
        seg(a, b) == seg(b, a),
{
}

/// A triangle is the same whatever the order in which its vertices are given.
pub proof fn lemma_triangle_order_free(a: usize, b: usize, c: usize)
    requires
        a != b,
        b != c,
        a != c,
    ensures
        tri(a, b, c) == tri(b, a, c),
        tri(a, b, c) == tri(a, c, b),
        tri(a, b, c) == tri(b, c, a),
        tri(a, b, c) == tri(c, a, b),
        tri(a, b, c) == tri(c, b, a),
{
}

} // verus!
