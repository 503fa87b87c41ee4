//! A deduplicated, indexed triangle mesh with vertex interning and a
//! quad-coverage query.

use vstd::prelude::*;

use crate::geometry::{point3_bounded, Point3, COORD_LIMIT};

verus! {

/// Whether three canonical points are colinear (or coincident): the cross
/// product of `b - a` and `c - a` is the zero vector. Such a triple is a
/// degenerate triangle and must never enter a mesh.
pub open spec fn colinear3(a: Point3, b: Point3, c: Point3) -> bool {
    &&& (b.y - a.y) * (c.z - a.z) - (b.z - a.z) * (c.y - a.y) == 0
    &&& (b.z - a.z) * (c.x - a.x) - (b.x - a.x) * (c.z - a.z) == 0
    &&& (b.x - a.x) * (c.y - a.y) - (b.y - a.y) * (c.x - a.x) == 0
}

/// A triangle of three canonical points.
///
/// The points are kept in the caller's order (their orientation), but two
/// triangles are the same geometric entity whenever their point sets are
/// equal, whatever the order.
#[derive(Clone, Copy, Debug, PartialEq, Eq, Structural)]
pub struct Triangle {
    a: Point3,
    b: Point3,
    c: Point3,
}

/// A product of coordinate differences of bounded points fits in 64 bits.
proof fn lemma_diff_product_bound(x: int, y: int)
    requires
        -2 * COORD_LIMIT <= x <= 2 * COORD_LIMIT,
        -2 * COORD_LIMIT <= y <= 2 * COORD_LIMIT,
    ensures
        -4 * COORD_LIMIT * COORD_LIMIT <= x * y <= 4 * COORD_LIMIT * COORD_LIMIT,
{
    assert(-4 * COORD_LIMIT * COORD_LIMIT <= x * y <= 4 * COORD_LIMIT * COORD_LIMIT)
        by (nonlinear_arith)
        requires
            -2 * COORD_LIMIT <= x <= 2 * COORD_LIMIT,
            -2 * COORD_LIMIT <= y <= 2 * COORD_LIMIT,
    ;
}

/// Decide whether one cross-product component of bounded points is zero.
fn cross_component_zero(p: i64, q: i64, r: i64, s: i64) -> (z: bool)
    requires
        -2 * COORD_LIMIT <= p <= 2 * COORD_LIMIT,
        -2 * COORD_LIMIT <= q <= 2 * COORD_LIMIT,
        -2 * COORD_LIMIT <= r <= 2 * COORD_LIMIT,
        -2 * COORD_LIMIT <= s <= 2 * COORD_LIMIT,
    ensures
        z == (p * q - r * s == 0),
{
    proof {
        lemma_diff_product_bound(p as int, q as int);
        lemma_diff_product_bound(r as int, s as int);
    }
    p * q - r * s == 0
}

impl Triangle {
    /// The first point, in the caller's orientation order.
    pub closed spec fn pa(self) -> Point3 {
        self.a
    }

    /// The second point, in the caller's orientation order.
    pub closed spec fn pb(self) -> Point3 {
        self.b
    }

    /// The third point, in the caller's orientation order.
    pub closed spec fn pc(self) -> Point3 {
        self.c
    }

    /// The triangle's identity: its points as an unordered set.
    pub open spec fn points_set(self) -> Set<Point3> {
        set![self.pa(), self.pb(), self.pc()]
    }

    /// A valid triangle: non-degenerate, with coordinates in the accepted
    /// range.
    pub open spec fn wf(self) -> bool {
        &&& !colinear3(self.pa(), self.pb(), self.pc())
        &&& point3_bounded(self.pa())
        &&& point3_bounded(self.pb())
        &&& point3_bounded(self.pc())
    }

    /// Construct a triangle from three points.
    ///
    /// Degenerate rejection: three colinear (or coincident) points do not
    /// form a triangle, and `None` is returned for them, exactly.
    pub fn new(a: Point3, b: Point3, c: Point3) -> (r: Option<Triangle>)
        requires
            point3_bounded(a),
            point3_bounded(b),
            point3_bounded(c),
        ensures
            r is Some <==> !colinear3(a, b, c),
            r matches Some(t) ==> t.pa() == a && t.pb() == b && t.pc() == c && t.wf(),
    {
        let z0 = cross_component_zero(b.y - a.y, c.z - a.z, b.z - a.z, c.y - a.y);
        let z1 = cross_component_zero(b.z - a.z, c.x - a.x, b.x - a.x, c.z - a.z);
        let z2 = cross_component_zero(b.x - a.x, c.y - a.y, b.y - a.y, c.x - a.x);
        if z0 && z1 && z2 {
            None
        } else {
            Some(Triangle { a, b, c })
        }
    }

    /// The three points, in the caller's orientation order.
    pub fn points(&self) -> (r: (Point3, Point3, Point3))
        ensures
            r == (self.pa(), self.pb(), self.pc()),
    {
        (self.a, self.b, self.c)
    }
}

/// Two triangles are the same geometric entity: their point sets are equal.
pub open spec fn tri_same(t: Triangle, u: Triangle) -> bool {
    t.points_set() == u.points_set()
}

/// Decide whether two triangles have the same point set.
fn tri_same_exec(t: &Triangle, u: &Triangle) -> (r: bool)
    ensures
        r == tri_same(*t, *u),
{
    let (ta, tb, tc) = t.points();
    let (ua, ub, uc) = u.points();
    let forward = (ta == ua || ta == ub || ta == uc) && (tb == ua || tb == ub || tb == uc) && (tc
        == ua || tc == ub || tc == uc);
    let backward = (ua == ta || ua == tb || ua == tc) && (ub == ta || ub == tb || ub == tc) && (uc
        == ta || uc == tb || uc == tc);
    if forward && backward {
        assert(t.points_set() =~= u.points_set());
        true
    } else {
        assert(t.points_set() != u.points_set()) by {
            if t.points_set() == u.points_set() {
                assert(t.points_set().contains(ta) && t.points_set().contains(tb)
                    && t.points_set().contains(tc));
                assert(u.points_set().contains(ua) && u.points_set().contains(ub)
                    && u.points_set().contains(uc));
            }
        }
        false
    }
}

/// A quad of four coplanar points, one per corner in order.
///
/// Validation requires each of the four corner triples (the triangles of the
/// quad's two diagonal splits) to be non-degenerate.
#[derive(Clone, Copy, Debug, PartialEq, Eq, Structural)]
pub struct Quad {
    a: Point3,
    b: Point3,
    c: Point3,
    d: Point3,
}

impl Quad {
    /// The first corner.
    pub closed spec fn qa(self) -> Point3 {
        self.a
    }

    /// The second corner.
    pub closed spec fn qb(self) -> Point3 {
        self.b
    }

    /// The third corner.
    pub closed spec fn qc(self) -> Point3 {
        self.c
    }

    /// The fourth corner.
    pub closed spec fn qd(self) -> Point3 {
        self.d
    }

    /// Construct a quad from four corner points, validating that both
    /// diagonal splits consist of non-degenerate triangles.
    pub fn new(a: Point3, b: Point3, c: Point3, d: Point3) -> (r: Option<Quad>)
        requires
            point3_bounded(a),
            point3_bounded(b),
            point3_bounded(c),
            point3_bounded(d),
        ensures
            r is Some <==> (!colinear3(a, b, c) && !colinear3(a, c, d) && !colinear3(a, b, d)
                && !colinear3(b, c, d)),
            r matches Some(q) ==> q.qa() == a && q.qb() == b && q.qc() == c && q.qd() == d,
    {
        let abc = Triangle::new(a, b, c);
        let acd = Triangle::new(a, c, d);
        let abd = Triangle::new(a, b, d);
        let bcd = Triangle::new(b, c, d);
        if abc.is_some() && acd.is_some() && abd.is_some() && bcd.is_some() {
            Some(Quad { a, b, c, d })
        } else {
            None
        }
    }

    /// The four corners, in order.
    pub fn points(&self) -> (r: (Point3, Point3, Point3, Point3))
        ensures
            r == (self.qa(), self.qb(), self.qc(), self.qd()),
    {
        (self.a, self.b, self.c, self.d)
    }
}

/// No two points of the sequence are equal.
pub open spec fn unique_points(s: Seq<Point3>) -> bool {
    forall|i: int, j: int| #![trigger s[i], s[j]] 0 <= i < j < s.len() ==> s[i] != s[j]
}

/// Interning one point: the vertex list unchanged if the point is already
/// present, else the point appended at the end.
pub open spec fn intern_spec(s: Seq<Point3>, p: Point3) -> Seq<Point3> {
    if s.contains(p) {
        s
    } else {
        s.push(p)
    }
}

/// Vertex interning, stated of the vertex list: an already-interned point
/// leaves the list unchanged, a new point is appended at the end, and in
/// either case every existing vertex keeps its position, so a point's index
/// is the same at every insertion that mentions it.
pub proof fn lemma_intern_properties(s: Seq<Point3>, p: Point3)
    requires
        unique_points(s),
    ensures
        unique_points(intern_spec(s, p)),
        s.is_prefix_of(intern_spec(s, p)),
        intern_spec(s, p).contains(p),
        s.contains(p) ==> intern_spec(s, p) == s,
        !s.contains(p) ==> intern_spec(s, p) == s.push(p),
        forall|q: Point3| intern_spec(s, p).contains(q) <==> (s.contains(q) || q == p),
{
    assert(s.take(s.len() as int) =~= s);
    if !s.contains(p) {
        let w = s.push(p);
        assert(forall|i: int| 0 <= i < s.len() ==> w[i] == s[i]);
        assert(w[s.len() as int] == p);
        assert(w.take(s.len() as int) =~= s);
        assert forall|q: Point3| w.contains(q) <==> (s.contains(q) || q == p) by {
            if w.contains(q) {
                let i = choose|i: int| 0 <= i < w.len() && w[i] == q;
                if i < s.len() {
                    assert(s[i] == q);
                }
            }
            if s.contains(q) {
                let i = choose|i: int| 0 <= i < s.len() && s[i] == q;
                assert(w[i] == q);
            }
            if q == p {
                assert(w[s.len() as int] == q);
            }
        }
    }
}

/// A deduplicated vertex list gives each canonical point exactly one index.
pub proof fn lemma_vertex_index_unique(s: Seq<Point3>, i: int, j: int)
    requires
        unique_points(s),
        0 <= i < s.len(),
        0 <= j < s.len(),
        s[i] == s[j],
    ensures
        i == j,
{
}

/// Intern one vertex: return the index of its existing entry, or append it
/// and return the new index. An existing vertex's index never changes.
fn intern_vertex(vertices: &mut Vec<Point3>, p: Point3) -> (i: usize)
    requires
        unique_points(old(vertices)@),
    ensures
        final(vertices)@ == intern_spec(old(vertices)@, p),
        unique_points(final(vertices)@),
        old(vertices)@.is_prefix_of(final(vertices)@),
        i < final(vertices)@.len(),
        final(vertices)@[i as int] == p,
{
    let n: usize = vertices.len();
    for i in 0..n
        invariant
            n == vertices@.len(),
            vertices@ == old(vertices)@,
            unique_points(vertices@),
            forall|j: int| 0 <= j < i ==> vertices@[j] != p,
    {
        if vertices[i] == p {
            return i;
        }
    }
    assert(!vertices@.contains(p));
    vertices.push(p);
    assert(old(vertices)@.is_prefix_of(vertices@)) by {
        assert(vertices@.take(old(vertices)@.len() as int) =~= old(vertices)@);
    }
    vertices.len() - 1
}

/// A deduplicated, indexed triangle mesh.
///
/// Vertices are interned: each distinct canonical point is stored once and
/// assigned a stable index on first insertion. Each stored triangle is keyed
/// by its point set and carries the indices of its three points in the order
/// the caller gave (its orientation); re-inserting an existing triangle
/// overwrites its entry idempotently.
#[derive(Clone, Debug)]
pub struct Mesh {
    vertices: Vec<Point3>,
    triangles: Vec<Triangle>,
    indices: Vec<(usize, usize, usize)>,
}

impl Mesh {
    /// The interned vertices, in insertion order.
    pub closed spec fn vertices_seq(self) -> Seq<Point3> {
        self.vertices@
    }

    /// The stored triangles, in insertion order.
    pub closed spec fn triangles_seq(self) -> Seq<Triangle> {
        self.triangles@
    }

    /// The vertex-index triples of the stored triangles, in the same order.
    pub closed spec fn indices_seq(self) -> Seq<(usize, usize, usize)> {
        self.indices@
    }

    /// Whether the mesh contains a triangle with the given point set.
    pub open spec fn contains_tri_set(self, s: Set<Point3>) -> bool {
        exists|i: int|
            0 <= i < self.triangles_seq().len() && (#[trigger] self.triangles_seq()[i]).points_set()
                == s
    }

    /// Whether the mesh contains the given triangle, up to point order.
    pub open spec fn contains_triangle(self, t: Triangle) -> bool {
        self.contains_tri_set(t.points_set())
    }

    /// The mesh's internal invariant: one index triple per triangle, unique
    /// vertices, unique triangle keys, every stored triangle valid, and each
    /// index triple naming exactly its triangle's points in order.
    pub closed spec fn inv(self) -> bool {
        &&& self.triangles@.len() == self.indices@.len()
        &&& unique_points(self.vertices@)
        &&& forall|i: int, j: int|
            #![trigger self.triangles@[i], self.triangles@[j]]
            0 <= i < j < self.triangles@.len() ==> !tri_same(
                self.triangles@[i],
                self.triangles@[j],
            )
        &&& forall|i: int| 0 <= i < self.triangles@.len() ==> (#[trigger] self.triangles@[i]).wf()
        &&& forall|i: int|
            0 <= i < self.indices@.len() ==> {
                let (i0, i1, i2) = #[trigger] self.indices@[i];
                &&& i0 < self.vertices@.len()
                &&& i1 < self.vertices@.len()
                &&& i2 < self.vertices@.len()
                &&& self.vertices@[i0 as int] == self.triangles@[i].pa()
                &&& self.vertices@[i1 as int] == self.triangles@[i].pb()
                &&& self.vertices@[i2 as int] == self.triangles@[i].pc()
            }
    }

    /// Create an empty triangle mesh.
    pub fn new() -> (r: Mesh)
        ensures
            r.inv(),
            r.vertices_seq() == Seq::<Point3>::empty(),
            r.triangles_seq() == Seq::<Triangle>::empty(),
            r.indices_seq() == Seq::<(usize, usize, usize)>::empty(),
    {
        Mesh { vertices: Vec::new(), triangles: Vec::new(), indices: Vec::new() }
    }

    /// Add a triangle to the mesh.
    ///
    /// Each of the three points is interned: an already-present canonical
    /// point keeps its existing index, a new one is appended. The triangle is
    /// recorded keyed by its point set with its three indices in the caller's
    /// order; re-inserting a triangle with the same point set overwrites that
    /// entry and adds nothing.
    pub fn triangle(&mut self, t: Triangle)
        requires
            old(self).inv(),
            t.wf(),
        ensures
            final(self).inv(),
            final(self).vertices_seq() == intern_spec(
                intern_spec(intern_spec(old(self).vertices_seq(), t.pa()), t.pb()),
                t.pc(),
            ),
            old(self).vertices_seq().is_prefix_of(final(self).vertices_seq()),
            final(self).contains_triangle(t),
            forall|u: Triangle|
                #![trigger u.points_set()]
                final(self).contains_triangle(u) <==> (old(self).contains_triangle(u) || tri_same(
                    u,
                    t,
                )),
            final(self).triangles_seq().len() == old(self).triangles_seq().len() + (
            if old(self).contains_triangle(t) {
                0int
            } else {
                1int
            }),
            final(self).indices_seq().len() == final(self).triangles_seq().len(),
            exists|i: int|
                #![trigger final(self).indices_seq()[i]]
                0 <= i < final(self).indices_seq().len() && tri_same(
                    final(self).triangles_seq()[i],
                    t,
                ) && final(self).vertices_seq()[final(self).indices_seq()[i].0 as int] == t.pa()
                    && final(self).vertices_seq()[final(self).indices_seq()[i].1 as int] == t.pb()
                    && final(self).vertices_seq()[final(self).indices_seq()[i].2 as int] == t.pc(),
    {
        let (a, b, c) = t.points();
        let i0 = intern_vertex(&mut self.vertices, a);
        let i1 = intern_vertex(&mut self.vertices, b);
        let i2 = intern_vertex(&mut self.vertices, c);

        let n: usize = self.triangles.len();
        let mut found: Option<usize> = None;
        for i in 0..n
            invariant
                n == self.triangles@.len(),
                found matches Some(j) ==> j < n && tri_same(self.triangles@[j as int], t),
                found is None ==> forall|j: int|
                    0 <= j < i ==> !tri_same(#[trigger] self.triangles@[j], t),
        {
            if found.is_none() && tri_same_exec(&self.triangles[i], &t) {
                found = Some(i);
            }
        }

        match found {
            Some(j) => {
                self.triangles.set(j, t);
                self.indices.set(j, (i0, i1, i2));
                proof {
                    let olds = old(self).triangles_seq();
                    let news = self.triangles_seq();
                    assert(news == olds.update(j as int, t));
                    assert(self.vertices@[i0 as int] == t.pa() && self.vertices@[i1 as int]
                        == t.pb() && self.vertices@[i2 as int] == t.pc());
                    assert(self.indices_seq()[j as int] == (i0, i1, i2));
                    assert(tri_same(news[j as int], t));
                    assert(olds[j as int].points_set() == t.points_set());
                    assert(old(self).contains_triangle(t));
                    assert forall|u: Triangle| #![trigger u.points_set()] self.contains_triangle(
                        u,
                    ) <==> (old(self).contains_triangle(u) || tri_same(u, t)) by {
                        if self.contains_triangle(u) {
                            let i = choose|i: int|
                                0 <= i < news.len() && (#[trigger] news[i]).points_set()
                                    == u.points_set();
                            if i != j {
                                assert(olds[i].points_set() == u.points_set());
                            }
                        }
                        if old(self).contains_triangle(u) {
                            let i = choose|i: int|
                                0 <= i < olds.len() && (#[trigger] olds[i]).points_set()
                                    == u.points_set();
                            if i == j {
                                assert(news[j as int].points_set() == u.points_set());
                            } else {
                                assert(news[i].points_set() == u.points_set());
                            }
                        }
                        if tri_same(u, t) {
                            assert(news[j as int].points_set() == u.points_set());
                        }
                    }
                }
            },
            None => {
                self.triangles.push(t);
                self.indices.push((i0, i1, i2));
                proof {
                    let olds = old(self).triangles_seq();
                    let news = self.triangles_seq();
                    assert(news == olds.push(t));
                    assert(self.vertices@[i0 as int] == t.pa() && self.vertices@[i1 as int]
                        == t.pb() && self.vertices@[i2 as int] == t.pc());
                    assert(self.indices_seq()[news.len() - 1] == (i0, i1, i2));
                    assert(tri_same(news[news.len() - 1], t));
                    assert(!old(self).contains_triangle(t));
                    assert forall|u: Triangle| #![trigger u.points_set()] self.contains_triangle(
                        u,
                    ) <==> (old(self).contains_triangle(u) || tri_same(u, t)) by {
                        if self.contains_triangle(u) {
                            let i = choose|i: int|
                                0 <= i < news.len() && (#[trigger] news[i]).points_set()
                                    == u.points_set();
                            if i < olds.len() {
                                assert(olds[i].points_set() == u.points_set());
                            } else {
                                assert(news[i] == t);
                            }
                        }
                        if old(self).contains_triangle(u) {
                            let i = choose|i: int|
                                0 <= i < olds.len() && (#[trigger] olds[i]).points_set()
                                    == u.points_set();
                            assert(news[i].points_set() == u.points_set());
                        }
                        if tri_same(u, t) {
                            assert(news[news.len() - 1].points_set() == u.points_set());
                        }
                    }
                }
            },
        }
    }

    /// All interned vertices, in insertion order; each distinct canonical
    /// point appears exactly once.
    pub fn vertices(&self) -> (r: Vec<Point3>)
        requires
            self.inv(),
        ensures
            r@ == self.vertices_seq(),
            unique_points(r@),
    {
        let mut out: Vec<Point3> = Vec::new();
        let n: usize = self.vertices.len();
        for i in 0..n
            invariant
                n == self.vertices@.len(),
                out@ == self.vertices@.take(i as int),
        {
            out.push(self.vertices[i]);
        }
        assert(self.vertices@.take(n as int) == self.vertices@);
        out
    }

    /// All vertex indices, three consecutive entries per triangle, in the
    /// triangles' stored order.
    pub fn indices(&self) -> (r: Vec<usize>)
        ensures
            r@.len() == 3 * self.indices_seq().len(),
            forall|i: int|
                0 <= i < self.indices_seq().len() ==> {
                    let (i0, i1, i2) = #[trigger] self.indices_seq()[i];
                    &&& r@[3 * i] == i0
                    &&& r@[3 * i + 1] == i1
                    &&& r@[3 * i + 2] == i2
                },
    {
        let mut out: Vec<usize> = Vec::new();
        let n: usize = self.indices.len();
        for i in 0..n
            invariant
                n == self.indices@.len(),
                out@.len() == 3 * i,
                forall|j: int|
                    0 <= j < i ==> {
                        let (i0, i1, i2) = #[trigger] self.indices@[j];
                        &&& out@[3 * j] == i0
                        &&& out@[3 * j + 1] == i1
                        &&& out@[3 * j + 2] == i2
                    },
        {
            let (i0, i1, i2) = self.indices[i];
            out.push(i0);
            out.push(i1);
            out.push(i2);
        }
        out
    }

    /// The stored triangles, rebuilt from their interned vertices, in stored
    /// order.
    pub fn triangle_vertices(&self) -> (r: Vec<Triangle>)
        requires
            self.inv(),
        ensures
            r@ == self.triangles_seq(),
    {
        let mut out: Vec<Triangle> = Vec::new();
        let n: usize = self.triangles.len();
        for i in 0..n
            invariant
                self.inv(),
                n == self.triangles@.len(),
                out@ == self.triangles@.take(i as int),
        {
            let (i0, i1, i2) = self.indices[i];
            let rebuilt = Triangle::new(self.vertices[i0], self.vertices[i1], self.vertices[i2]);
            assert(rebuilt matches Some(u) && u == self.triangles@[i as int]);
            out.push(rebuilt.unwrap());
            assert(out@ =~= self.triangles@.take(i + 1));
        }
        assert(self.triangles@.take(n as int) == self.triangles@);
        out
    }

    /// The index triples of the stored triangles, in stored order.
    pub fn triangle_indices(&self) -> (r: Vec<(usize, usize, usize)>)
        ensures
            r@ == self.indices_seq(),
    {
        let mut out: Vec<(usize, usize, usize)> = Vec::new();
        let n: usize = self.indices.len();
        for i in 0..n
            invariant
                n == self.indices@.len(),
                out@ == self.indices@.take(i as int),
        {
            out.push(self.indices[i]);
        }
        assert(self.indices@.take(n as int) == self.indices@);
        out
    }

    /// Whether the mesh contains a triangle with exactly the given point set.
    fn has_triangle_with(&self, a: Point3, b: Point3, c: Point3) -> (r: bool)
        ensures
            r == self.contains_tri_set(set![a, b, c]),
    {
        let n: usize = self.triangles.len();
        for i in 0..n
            invariant
                n == self.triangles@.len(),
                forall|j: int|
                    0 <= j < i ==> (#[trigger] self.triangles@[j]).points_set() != set![a, b, c],
        {
            let (ta, tb, tc) = self.triangles[i].points();
            let forward = (ta == a || ta == b || ta == c) && (tb == a || tb == b || tb == c) && (tc
                == a || tc == b || tc == c);
            let backward = (a == ta || a == tb || a == tc) && (b == ta || b == tb || b == tc) && (c
                == ta || c == tb || c == tc);
            if forward && backward {
                assert(self.triangles@[i as int].points_set() =~= set![a, b, c]);
                assert((self.triangles_seq()[i as int]).points_set() == set![a, b, c]);
                return true;
            }
            proof {
                let ps = self.triangles@[i as int].points_set();
                if ps == set![a, b, c] {
                    assert(ps.contains(ta) && ps.contains(tb) && ps.contains(tc));
                    assert(set![a, b, c].contains(a) && set![a, b, c].contains(b) && set![
                        a,
                        b,
                        c,
                    ].contains(c));
                }
            }
        }
        proof {
            if self.contains_tri_set(set![a, b, c]) {
                let i = choose|i: int|
                    0 <= i < self.triangles_seq().len() && (
                    #[trigger] self.triangles_seq()[i]).points_set() == set![a, b, c];
                assert(self.triangles@[i].points_set() == set![a, b, c]);
            }
        }
        false
    }

    /// Indicate whether the mesh contains triangles that make up the quad:
    /// true if and only if both triangles of one of the quad's two valid
    /// diagonal splits are present, up to point order.
    pub fn contains_quad(&self, quad: &Quad) -> (r: bool)
        ensures
            r == ((self.contains_tri_set(set![quad.qa(), quad.qb(), quad.qc()])
                && self.contains_tri_set(set![quad.qa(), quad.qc(), quad.qd()])) || (
            self.contains_tri_set(set![quad.qa(), quad.qb(), quad.qd()]) && self.contains_tri_set(
                set![quad.qb(), quad.qc(), quad.qd()],
            ))),
    {
        let (a, b, c, d) = quad.points();
        (self.has_triangle_with(a, b, c) && self.has_triangle_with(a, c, d))
            || (self.has_triangle_with(a, b, d) && self.has_triangle_with(b, c, d))
    }
}

} // verus!
