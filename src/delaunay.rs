//! The combinatorial steps of the Bowyer-Watson algorithm.
//!
//! A triangulation is a list of triangles over vertex indices. The geometric
//! decision of which triangles a new point invalidates (its circumcircle
//! test) is made by the caller, handed in as one flag per triangle or as a
//! closure; from there on all work is on vertex indices alone.
use vstd::prelude::*;
use crate::geometry::{
    Segment, Triangle, seg, tri, lemma_edge_ends, lemma_tri_vertices,
    lemma_same_vertices_same_triangle, lemma_segment_ext,
};

verus! {

/// Every triangle of the list is well formed.
pub open spec fn all_wf(tris: Seq<Triangle>) -> bool {
    forall|i: int| 0 <= i < tris.len() ==> (#[trigger] tris[i]).wf()
}

/// No triangle of the list has `v` as a vertex.
pub open spec fn vertex_absent(tris: Seq<Triangle>, v: usize) -> bool {
    forall|i: int| 0 <= i < tris.len() ==> !(#[trigger] tris[i]).has_vertex(v)
}

/// `s` is an edge of the invalidated triangle at position `i`, and of no
/// other invalidated triangle.
pub open spec fn unique_edge(tris: Seq<Triangle>, flags: Seq<bool>, i: int, s: Segment) -> bool {
    &&& 0 <= i < tris.len()
    &&& flags[i]
    &&& tris[i].edge_of(s)
    &&& forall|j: int|
        0 <= j < tris.len() && j != i && flags[j] ==> !(#[trigger] tris[j]).edge_of(s)
}

/// `s` lies on the boundary of the cavity left by the invalidated triangles:
/// exactly one of them has it as an edge.
pub open spec fn boundary_edge(tris: Seq<Triangle>, flags: Seq<bool>, s: Segment) -> bool {
    exists|i: int| unique_edge(tris, flags, i, s)
}

/// `t` stands in `tris` at a position not flagged as invalidated: an
/// insertion leaves it in place.
pub open spec fn kept(tris: Seq<Triangle>, flags: Seq<bool>, t: Triangle) -> bool {
    exists|i: int| 0 <= i < tris.len() && !flags[i] && tris[i] == t
}

/// The triangle joining `point` to the boundary edge `s`.
pub open spec fn fan(point: usize, s: Segment) -> Triangle {
    tri(point, s.spec_start(), s.spec_end())
}

/// `s` is one of the first `k` segments of `edges`.
pub open spec fn among_first(edges: Seq<Segment>, k: int, s: Segment) -> bool {
    (k > 0 && s == edges[0]) || (k > 1 && s == edges[1]) || (k > 2 && s == edges[2])
}

/// The edges of the invalidated triangles that no other invalidated triangle
/// shares: the boundary of the cavity. Each is listed once.
pub fn cavity_boundary(triangles: &Vec<Triangle>, invalidated: &Vec<bool>) -> (polygon: Vec<Segment>)
    requires
        triangles@.len() == invalidated@.len(),
        all_wf(triangles@),
    ensures
        forall|s: Segment|
            polygon@.contains(s) <==> boundary_edge(triangles@, invalidated@, s),
        polygon@.no_duplicates(),
{
    let ghost tris = triangles@;
    let ghost flags = invalidated@;
    let n = triangles.len();
    let mut polygon: Vec<Segment> = Vec::new();
    let mut i: usize = 0;
    while i < n
        invariant
            n == tris.len(),
            tris == triangles@,
            flags == invalidated@,
            flags.len() == n,
            all_wf(tris),
            i <= n,
            forall|s: Segment|
                polygon@.contains(s) <==> exists|i2: int|
                    0 <= i2 < i && #[trigger] unique_edge(tris, flags, i2, s),
            polygon@.no_duplicates(),
        decreases n - i,
    {
        if invalidated[i] {
            let edges = triangles[i].edges();
            let mut k: usize = 0;
            while k < 3
                invariant
                    n == tris.len(),
                    tris == triangles@,
                    flags == invalidated@,
                    flags.len() == n,
                    all_wf(tris),
                    i < n,
                    flags[i as int],
                    k <= 3,
                    edges@[0] == seg(tris[i as int].first(), tris[i as int].second()),
                    edges@[1] == seg(tris[i as int].second(), tris[i as int].third()),
                    edges@[2] == seg(tris[i as int].third(), tris[i as int].first()),
                    edges@[0] != edges@[1],
                    edges@[1] != edges@[2],
                    edges@[0] != edges@[2],
                    forall|s: Segment|
                        polygon@.contains(s) <==> (exists|i2: int|
                            0 <= i2 < i && #[trigger] unique_edge(tris, flags, i2, s)) || (among_first(edges@, k as int, s)
                            && unique_edge(tris, flags, i as int, s)),
                    polygon@.no_duplicates(),
                decreases 3 - k,
            {
                let e = edges[k];
                let mut shared = false;
                let mut j: usize = 0;
                while j < n
                    invariant
                        n == tris.len(),
                        tris == triangles@,
                        flags == invalidated@,
                        flags.len() == n,
                        all_wf(tris),
                        i < n,
                        j <= n,
                        shared <==> exists|j2: int|
                            0 <= j2 < j && j2 != i && flags[j2] && (#[trigger] tris[j2]).edge_of(
                                e,
                            ),
                    decreases n - j,
                {
                    if j != i && invalidated[j] && triangles[j].has_edge(&e) {
                        shared = true;
                    }
                    j = j + 1;
                }
                proof {
                    assert(tris[i as int].edge_of(e));
                    if shared {
                        assert(!unique_edge(tris, flags, i as int, e));
                    } else {
                        assert(unique_edge(tris, flags, i as int, e));
                    }
                }
                let ghost before = polygon@;
                if !shared {
                    proof {
                        if polygon@.contains(e) {
                            if exists|i2: int| 0 <= i2 < i && #[trigger] unique_edge(tris, flags, i2, e) {
                                let i2 = choose|i2: int| 0 <= i2 < i && #[trigger] unique_edge(tris, flags, i2, e);
                                assert(tris[i2].edge_of(e));
                            }
                            assert(false);
                        }
                    }
                    polygon.push(e);
                }
                proof {
                    assert forall|s: Segment|
                        polygon@.contains(s) <==> (exists|i2: int|
                            0 <= i2 < i && #[trigger] unique_edge(tris, flags, i2, s)) || (among_first(edges@, k + 1, s)
                            && unique_edge(tris, flags, i as int, s)) by {
                        if !shared {
                            assert(polygon@ == before.push(e));
                            if s == e {
                                assert(polygon@[polygon@.len() - 1] == e);
                                assert(among_first(edges@, k + 1, s) && unique_edge(tris, flags, i as int, s));
                            } else {
                                if before.contains(s) {
                                    let idx = choose|idx: int| 0 <= idx < before.len() && before[idx] == s;
                                    assert(polygon@[idx] == s);
                                }
                                if polygon@.contains(s) {
                                    let idx = choose|idx: int| 0 <= idx < polygon@.len() && polygon@[idx] == s;
                                    assert(before[idx] == s);
                                }
                            }
                        } else if s == e {
                            assert(!unique_edge(tris, flags, i as int, e));
                        }
                    }
                }
                k = k + 1;
            }
            proof {
                assert forall|s: Segment|
                    polygon@.contains(s) <==> exists|i2: int|
                        0 <= i2 < i + 1 && #[trigger] unique_edge(tris, flags, i2, s) by {
                    if unique_edge(tris, flags, i as int, s) {
                        assert(tris[i as int].edge_of(s));
                        assert(s == edges@[0] || s == edges@[1] || s == edges@[2]);
                    }
                }
            }
        }
        i = i + 1;
    }
    polygon
}

/// Re-triangulates the cavity that a new vertex `point` opens: removes the
/// triangles flagged as invalidated and joins `point` to each edge of the
/// cavity's boundary.
pub fn insert_point(triangles: &mut Vec<Triangle>, invalidated: &Vec<bool>, point: usize)
    requires
        old(triangles)@.len() == invalidated@.len(),
        all_wf(old(triangles)@),
        vertex_absent(old(triangles)@, point),
    ensures
        all_wf(final(triangles)@),
        forall|t: Triangle|
            final(triangles)@.contains(t) <==> (kept(old(triangles)@, invalidated@, t) || exists|
                s: Segment,
            | #[trigger] boundary_edge(old(triangles)@, invalidated@, s) && t == fan(point, s)),
        old(triangles)@.no_duplicates() ==> final(triangles)@.no_duplicates(),
{
    let ghost tris = triangles@;
    let ghost flags = invalidated@;
    let polygon = cavity_boundary(triangles, invalidated);
    let n = triangles.len();
    let mut result: Vec<Triangle> = Vec::new();
    let mut i: usize = 0;
    while i < n
        invariant
            n == tris.len(),
            tris == triangles@,
            flags == invalidated@,
            flags.len() == n,
            all_wf(tris),
            vertex_absent(tris, point),
            i <= n,
            all_wf(result@),
            vertex_absent(result@, point),
            forall|t: Triangle|
                result@.contains(t) <==> exists|i2: int|
                    0 <= i2 < i && !flags[i2] && #[trigger] tris[i2] == t,
            tris.no_duplicates() ==> result@.no_duplicates(),
        decreases n - i,
    {
        let ghost before = result@;
        if !invalidated[i] {
            let t = triangles[i];
            proof {
                if tris.no_duplicates() && before.contains(t) {
                    let i2 = choose|i2: int| 0 <= i2 < i && !flags[i2] && #[trigger] tris[i2] == t;
                    assert(tris[i2] == tris[i as int]);
                }
            }
            result.push(t);
        }
        proof {
            assert forall|t: Triangle|
                result@.contains(t) <==> exists|i2: int|
                    0 <= i2 < i + 1 && !flags[i2] && #[trigger] tris[i2] == t by {
                if !flags[i as int] {
                    assert(result@ == before.push(tris[i as int]));
                    if t == tris[i as int] {
                        assert(result@[result@.len() - 1] == t);
                    } else {
                        if before.contains(t) {
                            let idx = choose|idx: int| 0 <= idx < before.len() && before[idx] == t;
                            assert(result@[idx] == t);
                        }
                        if result@.contains(t) {
                            let idx = choose|idx: int| 0 <= idx < result@.len() && result@[idx] == t;
                            assert(before[idx] == t);
                        }
                    }
                }
            }
        }
        i = i + 1;
    }
    let ghost n_kept = result@.len();
    let m = polygon.len();
    let mut k: usize = 0;
    while k < m
        invariant
            n == tris.len(),
            flags.len() == n,
            all_wf(tris),
            vertex_absent(tris, point),
            m == polygon@.len(),
            forall|s: Segment| polygon@.contains(s) <==> boundary_edge(tris, flags, s),
            polygon@.no_duplicates(),
            k <= m,
            n_kept <= result@.len(),
            result@.len() == n_kept + k,
            all_wf(result@),
            forall|j: int| 0 <= j < n_kept ==> !(#[trigger] result@[j]).has_vertex(point),
            forall|j: int|
                n_kept <= j < result@.len() ==> #[trigger] result@[j] == fan(
                    point,
                    polygon@[j - n_kept],
                ) && result@[j].has_vertex(point),
            forall|t: Triangle|
                result@.contains(t) <==> (kept(tris, flags, t) || exists|k2: int|
                    0 <= k2 < k && t == fan(point, #[trigger] polygon@[k2])),
            tris.no_duplicates() ==> result@.no_duplicates(),
        decreases m - k,
    {
        let e = polygon[k];
        let (p, q) = e.endpoints();
        proof {
            assert(polygon@.contains(e));
            let i2 = choose|i2: int| unique_edge(tris, flags, i2, e);
            lemma_edge_ends(tris[i2], e);
        }
        let t = Triangle::new(point, p, q);
        let ghost before = result@;
        proof {
            if tris.no_duplicates() && before.contains(t) {
                let idx = choose|idx: int| 0 <= idx < before.len() && before[idx] == t;
                if idx >= n_kept {
                    let e2 = polygon@[idx - n_kept];
                    assert(polygon@.contains(e2));
                    let i3 = choose|i3: int| unique_edge(tris, flags, i3, e2);
                    lemma_edge_ends(tris[i3], e2);
                    lemma_tri_vertices(point, e2.spec_start(), e2.spec_end());
                    assert(t.has_vertex(e2.spec_start()));
                    assert(t.has_vertex(e2.spec_end()));
                    assert(before[idx].has_vertex(p));
                    assert(before[idx].has_vertex(q));
                    lemma_segment_ext(e, e2);
                    assert(polygon@[k as int] == polygon@[idx - n_kept]);
                }
                assert(false);
            }
        }
        result.push(t);
        proof {
            assert(result@ == before.push(t));
            assert forall|t2: Triangle|
                result@.contains(t2) <==> (kept(tris, flags, t2) || exists|k2: int|
                    0 <= k2 < k + 1 && t2 == fan(point, #[trigger] polygon@[k2])) by {
                if t2 == t {
                    assert(result@[result@.len() - 1] == t);
                    assert(t2 == fan(point, polygon@[k as int]));
                } else {
                    if before.contains(t2) {
                        let idx = choose|idx: int| 0 <= idx < before.len() && before[idx] == t2;
                        assert(result@[idx] == t2);
                    }
                    if result@.contains(t2) {
                        let idx = choose|idx: int| 0 <= idx < result@.len() && result@[idx] == t2;
                        assert(before[idx] == t2);
                    }
                }
            }
        }
        k = k + 1;
    }
    proof {
        assert forall|t: Triangle|
            result@.contains(t) <==> (kept(tris, flags, t) || exists|s: Segment|
                #[trigger] boundary_edge(tris, flags, s) && t == fan(point, s)) by {
            if exists|s: Segment| #[trigger] boundary_edge(tris, flags, s) && t == fan(point, s) {
                let s = choose|s: Segment| #[trigger] boundary_edge(tris, flags, s) && t == fan(point, s);
                assert(polygon@.contains(s));
                let k2 = choose|k2: int| 0 <= k2 < polygon@.len() && polygon@[k2] == s;
                assert(t == fan(point, polygon@[k2]));
            }
            if exists|k2: int| 0 <= k2 < m && t == fan(point, #[trigger] polygon@[k2]) {
                let k2 = choose|k2: int| 0 <= k2 < m && t == fan(point, #[trigger] polygon@[k2]);
                assert(polygon@.contains(polygon@[k2]));
            }
        }
    }
    *triangles = result;
}

/// Removes every triangle that has a vertex in common with the enclosing
/// `super_triangle`; this removes in particular every triangle on one of its
/// edges.
pub fn purge_super(triangles: &mut Vec<Triangle>, super_triangle: &Triangle)
    requires
        all_wf(old(triangles)@),
        super_triangle.wf(),
    ensures
        all_wf(final(triangles)@),
        forall|t: Triangle|
            #[trigger] final(triangles)@.contains(t) <==> (old(triangles)@.contains(t)
                && !t.shares_vertex_with(*super_triangle)),
        old(triangles)@.no_duplicates() ==> final(triangles)@.no_duplicates(),
{
    let ghost tris = triangles@;
    let n = triangles.len();
    let mut result: Vec<Triangle> = Vec::new();
    let mut i: usize = 0;
    while i < n
        invariant
            n == tris.len(),
            tris == triangles@,
            all_wf(tris),
            super_triangle.wf(),
            i <= n,
            all_wf(result@),
            forall|t: Triangle|
                result@.contains(t) <==> exists|i2: int|
                    0 <= i2 < i && !tris[i2].shares_vertex_with(*super_triangle) && #[trigger] tris[i2]
                        == t,
            tris.no_duplicates() ==> result@.no_duplicates(),
        decreases n - i,
    {
        let ghost before = result@;
        let t = triangles[i];
        let shared = t.shares_vertex(super_triangle);
        if !shared {
            proof {
                if tris.no_duplicates() && before.contains(t) {
                    let i2 = choose|i2: int|
                        0 <= i2 < i && !tris[i2].shares_vertex_with(*super_triangle) && #[trigger] tris[i2]
                            == t;
                    assert(tris[i2] == tris[i as int]);
                }
            }
            result.push(t);
        }
        proof {
            assert forall|t2: Triangle|
                result@.contains(t2) <==> exists|i2: int|
                    0 <= i2 < i + 1 && !tris[i2].shares_vertex_with(*super_triangle) && #[trigger] tris[i2]
                        == t2 by {
                if !shared {
                    assert(result@ == before.push(t));
                    if t2 == t {
                        assert(result@[result@.len() - 1] == t2);
                    } else {
                        if before.contains(t2) {
                            let idx = choose|idx: int| 0 <= idx < before.len() && before[idx] == t2;
                            assert(result@[idx] == t2);
                        }
                        if result@.contains(t2) {
                            let idx = choose|idx: int| 0 <= idx < result@.len() && result@[idx] == t2;
                            assert(before[idx] == t2);
                        }
                    }
                }
            }
        }
        i = i + 1;
    }
    proof {
        assert forall|t: Triangle|
            #[trigger] result@.contains(t) <==> (tris.contains(t) && !t.shares_vertex_with(
                *super_triangle,
            )) by {
            if tris.contains(t) && !t.shares_vertex_with(*super_triangle) {
                let idx = choose|idx: int| 0 <= idx < tris.len() && tris[idx] == t;
                assert(tris[idx] == t);
            }
        }
    }
    *triangles = result;
}

/// Asks `in_circle` about `point` for each triangle in turn: the flags of
/// the triangles whose circumcircle holds the point, or the first triangle
/// whose circumcircle is degenerate.
pub fn invalidation_flags<F: Fn(Triangle, usize) -> Option<bool>>(
    triangles: &Vec<Triangle>,
    point: usize,
    in_circle: &F,
) -> (r: Result<Vec<bool>, Triangle>)
    requires
        forall|t: Triangle, p: usize| #[trigger] in_circle.requires((t, p)),
    ensures
        r matches Ok(flags) ==> flags@.len() == triangles@.len() && forall|j: int|
            0 <= j < triangles@.len() ==> call_ensures(
                in_circle,
                (#[trigger] triangles@[j], point),
                Some(flags@[j]),
            ),
        r matches Err(t) ==> triangles@.contains(t) && call_ensures(in_circle, (t, point), None::<bool>),
{
    let mut flags: Vec<bool> = Vec::new();
    let mut j: usize = 0;
    while j < triangles.len()
        invariant
            j <= triangles@.len(),
            flags@.len() == j,
            forall|t: Triangle, p: usize| #[trigger] in_circle.requires((t, p)),
            forall|k: int|
                0 <= k < j ==> call_ensures(
                    in_circle,
                    (#[trigger] triangles@[k], point),
                    Some(flags@[k]),
                ),
        decreases triangles@.len() - j,
    {
        let t = triangles[j];
        match in_circle(t, point) {
            Some(inside) => flags.push(inside),
            None => {
                proof {
                    assert(triangles@[j as int] == t);
                }
                return Err(t);
            },
        }
        j = j + 1;
    }
    Ok(flags)
}

/// Every vertex of every triangle of the list is one of the first `i` points
/// or one of the three super triangle vertices `n`, `n + 1`, `n + 2`.
pub open spec fn vertices_known(tris: Seq<Triangle>, i: nat, n: nat) -> bool {
    forall|j: int, v: usize|
        0 <= j < tris.len() && #[trigger] tris[j].has_vertex(v) ==> v < i || (n <= v && v < n
            + 3)
}

/// Every vertex of every triangle of the list is below `bound`.
pub open spec fn vertices_below(tris: Seq<Triangle>, bound: nat) -> bool {
    forall|j: int, v: usize| 0 <= j < tris.len() && #[trigger] tris[j].has_vertex(v) ==> v < bound
}

/// `t` has none of the vertices `n`, `n + 1`, `n + 2` of the super triangle.
pub open spec fn off_super(t: Triangle, n: usize) -> bool {
    !t.has_vertex(n) && !t.has_vertex((n + 1) as usize) && !t.has_vertex((n + 2) as usize)
}

/// `after` is what inserting `point` into `before` leaves, where `flags`
/// holds the answer of `in_circle` for each triangle of `before`.
pub open spec fn insertion_with<F: Fn(Triangle, usize) -> Option<bool>>(
    before: Seq<Triangle>,
    after: Seq<Triangle>,
    point: usize,
    in_circle: F,
    flags: Seq<bool>,
) -> bool {
    &&& flags.len() == before.len()
    &&& forall|j: int|
        0 <= j < before.len() ==> call_ensures(in_circle, (#[trigger] before[j], point), Some(flags[j]))
    &&& forall|t: Triangle|
        #[trigger] after.contains(t) <==> (kept(before, flags, t) || exists|s: Segment|
            #[trigger] boundary_edge(before, flags, s) && t == fan(point, s))
}

/// `after` is what inserting `point` into `before` leaves, for some answers
/// of `in_circle` on the triangles of `before`.
pub open spec fn insertion<F: Fn(Triangle, usize) -> Option<bool>>(
    before: Seq<Triangle>,
    after: Seq<Triangle>,
    point: usize,
    in_circle: F,
) -> bool {
    exists|flags: Seq<bool>| #[trigger] insertion_with(before, after, point, in_circle, flags)
}

/// `trace` runs from the super triangle alone through the insertion of the
/// points `0 .. trace.len() - 1` in increasing order.
pub open spec fn bowyer_watson_trace<F: Fn(Triangle, usize) -> Option<bool>>(
    trace: Seq<Seq<Triangle>>,
    super_triangle: Triangle,
    in_circle: F,
) -> bool {
    &&& trace.len() >= 1
    &&& trace[0] == seq![super_triangle]
    &&& forall|k: int| 0 <= k < trace.len() ==> (#[trigger] trace[k]).no_duplicates()
    &&& forall|k: int|
        0 <= k < trace.len() - 1 ==> #[trigger] insertion(trace[k], trace[k + 1], k as usize, in_circle)
}

/// Bowyer-Watson on the points `0 .. n` inside the super triangle on the
/// vertices `n`, `n + 1`, `n + 2`.
///
/// `in_circle(t, p)` tells whether point `p` lies in the circumcircle of `t`
/// (boundary included), or `None` where that circle is degenerate. The points
/// are inserted in increasing order; at the end every triangle on a vertex of
/// the super triangle is removed. A degenerate triangle met on the way is
/// returned as the error, with the point being inserted.
pub fn triangulate<F: Fn(Triangle, usize) -> Option<bool>>(n: usize, in_circle: F) -> (r: Result<
    Vec<Triangle>,
    (Triangle, usize),
>)
    requires
        n <= usize::MAX - 3,
        forall|t: Triangle, p: usize| #[trigger] in_circle.requires((t, p)),
    ensures
        r matches Ok(tris) ==> {
            &&& all_wf(tris@)
            &&& tris@.no_duplicates()
            &&& vertices_below(tris@, n as nat)
            &&& exists|trace: Seq<Seq<Triangle>>|
                #[trigger] bowyer_watson_trace(trace, tri(n, (n + 1) as usize, (n + 2) as usize), in_circle)
                    && trace.len() == n + 1 && forall|t: Triangle|
                    tris@.contains(t) <==> (trace[n as int].contains(t) && off_super(t, n))
        },
        r matches Err((t, p)) ==> {
            &&& p < n
            &&& call_ensures(in_circle, (t, p), None::<bool>)
            &&& exists|trace: Seq<Seq<Triangle>>|
                #[trigger] bowyer_watson_trace(trace, tri(n, (n + 1) as usize, (n + 2) as usize), in_circle)
                    && trace.len() == p + 1 && trace[p as int].contains(t)
        },
{
    let super_triangle = Triangle::new(n, n + 1, n + 2);
    let mut triangles: Vec<Triangle> = Vec::new();
    triangles.push(super_triangle);
    let ghost mut trace: Seq<Seq<Triangle>> = seq![triangles@];
    proof {
        assert(triangles@ == seq![super_triangle]);
    }
    let mut i: usize = 0;
    while i < n
        invariant
            n <= usize::MAX - 3,
            i <= n,
            forall|t: Triangle, p: usize| #[trigger] in_circle.requires((t, p)),
            all_wf(triangles@),
            triangles@.no_duplicates(),
            vertices_known(triangles@, i as nat, n as nat),
            super_triangle.wf(),
            super_triangle == tri(n, (n + 1) as usize, (n + 2) as usize),
            trace.len() == i + 1,
            trace[i as int] == triangles@,
            bowyer_watson_trace(trace, super_triangle, in_circle),
        decreases n - i,
    {
        let invalidated = match invalidation_flags(&triangles, i, &in_circle) {
            Ok(flags) => flags,
            Err(t) => {
                proof {
                    assert(call_ensures(in_circle, (t, i), None::<bool>));
                    assert(trace[i as int].contains(t));
                }
                return Err((t, i));
            },
        };
        let ghost before = triangles@;
        proof {
            assert forall|k: int| 0 <= k < before.len() implies !(#[trigger] before[k]).has_vertex(
                i,
            ) by {
                if before[k].has_vertex(i) {
                    assert(i < i || (n <= i && i < n + 3));
                }
            }
        }
        insert_point(&mut triangles, &invalidated, i);
        proof {
            assert(insertion_with(before, triangles@, i, in_circle, invalidated@));
            let old_trace = trace;
            trace = trace.push(triangles@);
            assert forall|k: int| 0 <= k < trace.len() implies (#[trigger] trace[k]).no_duplicates() by {
                if k < trace.len() - 1 {
                    assert(trace[k] == old_trace[k]);
                }
            }
            assert forall|k: int|
                0 <= k < trace.len() - 1 implies #[trigger] insertion(
                trace[k],
                trace[k + 1],
                k as usize,
                in_circle,
            ) by {
                if k < i {
                    assert(trace[k] == old_trace[k]);
                    assert(trace[k + 1] == old_trace[k + 1]);
                } else {
                    assert(trace[k] == before);
                }
            }
        }
        proof {
            assert forall|k: int, v: usize|
                0 <= k < triangles@.len() && #[trigger] triangles@[k].has_vertex(v) implies v < i
                + 1 || (n <= v && v < n + 3) by {
                let t = triangles@[k];
                assert(triangles@.contains(t));
                if !kept(before, invalidated@, t) {
                    let s = choose|s: Segment|
                        #[trigger] boundary_edge(before, invalidated@, s) && t == fan(i, s);
                    let k2 = choose|k2: int| unique_edge(before, invalidated@, k2, s);
                    lemma_edge_ends(before[k2], s);
                    lemma_tri_vertices(i, s.spec_start(), s.spec_end());
                    assert(before[k2].has_vertex(s.spec_start()));
                    assert(before[k2].has_vertex(s.spec_end()));
                } else {
                    let k2 = choose|k2: int|
                        0 <= k2 < before.len() && !invalidated@[k2] && before[k2] == t;
                    assert(before[k2].has_vertex(v));
                }
            }
        }
        i = i + 1;
    }
    let ghost before_purge = triangles@;
    purge_super(&mut triangles, &super_triangle);
    proof {
        lemma_tri_vertices(n, (n + 1) as usize, (n + 2) as usize);
        assert forall|j: int, v: usize|
            0 <= j < triangles@.len() && #[trigger] triangles@[j].has_vertex(v) implies v < n by {
            let t = triangles@[j];
            assert(triangles@.contains(t));
            let k = choose|k: int| 0 <= k < before_purge.len() && before_purge[k] == t;
            assert(before_purge[k].has_vertex(v));
            assert(!super_triangle.has_vertex(v));
        }
        assert forall|t: Triangle|
            triangles@.contains(t) <==> (trace[n as int].contains(t) && off_super(t, n)) by {
            assert(trace[n as int] == before_purge);
            assert(t.shares_vertex_with(super_triangle) <==> !off_super(t, n));
        }
    }
    Ok(triangles)
}

/// The two triangles have the same vertices.
pub open spec fn same_points(t1: Triangle, t2: Triangle) -> bool {
    forall|v: usize| #[trigger] t1.has_vertex(v) == t2.has_vertex(v)
}

/// A list of well-formed triangles without repeated elements, such as the
/// result of `triangulate`, never holds two triangles on the same three
/// points, in whatever order they were given.
pub proof fn lemma_no_two_on_same_points(tris: Seq<Triangle>)
    requires
        all_wf(tris),
        tris.no_duplicates(),
    ensures
        forall|i: int, j: int|
            0 <= i < tris.len() && 0 <= j < tris.len() && i != j ==> !#[trigger] same_points(
                tris[i],
                tris[j],
            ),
{
    assert forall|i: int, j: int|
        0 <= i < tris.len() && 0 <= j < tris.len() && i != j implies !#[trigger] same_points(
            tris[i],
            tris[j],
        ) by {
        if same_points(tris[i], tris[j]) {
            lemma_same_vertices_same_triangle(tris[i], tris[j]);
        }
    }
}

} // verus!
