use vstd::prelude::*;

use crate::line::{
    aligned, all_hits, collinear3, cross, dedup, intersection_of, intersections_line_iters, on_segment,
    lemma_dedup_empty, ray_end, sign, Line, LineIntersection,
};
use crate::path::{as_int, built, insertion_from, insertion_index, rect_chain, seg, segments, Path};
use crate::point::{Direction, Point};
use vstd::std_specs::cmp::PartialEqSpec;

verus! {

/// Why a path does not make a polygon.
#[derive(Clone, Copy, Debug, PartialEq, Eq, Structural)]
pub enum PolygonError {
    NotEnoughVertices,
    NonRectilinear,
    SelfIntersecting,
}

/// The implicit edge from the last vertex back to the first.
pub open spec fn closing(vs: Seq<Point>) -> Line {
    Line { start: vs.last(), end: vs[0] }
}

/// The vertices with the first repeated at the end: its segments are the
/// polygon's edges.
pub open spec fn ring(vs: Seq<Point>) -> Seq<Point> {
    vs.push(vs[0])
}

/// The edges of the polygon with vertices `vs`, the closing edge last.
pub open spec fn edges(vs: Seq<Point>) -> Seq<Line> {
    if vs.len() == 0 {
        seq![]
    } else {
        segments(ring(vs))
    }
}

/// `vs` without its last vertex when that vertex sits on the line from the
/// vertex before it to the first vertex.
pub open spec fn normalized(s: Seq<Point>) -> Seq<Point> {
    if collinear3(s.last(), s[0], s[s.len() - 2]) {
        s.drop_last()
    } else {
        s
    }
}

/// Some edge other than the first and the last of the path through `t`
/// meets the closing edge.
pub open spec fn closing_crossed(t: Seq<Point>) -> bool {
    exists|i: int| 1 <= i && i + 2 < t.len() && (#[trigger] intersection_of(seg(t, i), closing(t))) is Some
}

/// The vertex list that a polygon built from the path with points `s` has,
/// or why there is none.
pub open spec fn validated(s: Seq<Point>) -> Result<Seq<Point>, PolygonError> {
    if s.len() == 0 {
        Ok(s)
    } else if s.len() < 4 {
        Err(PolygonError::NotEnoughVertices)
    } else if !aligned(s.last(), s[0]) {
        Err(PolygonError::NonRectilinear)
    } else if closing_crossed(normalized(s)) {
        Err(PolygonError::SelfIntersecting)
    } else {
        Ok(normalized(s))
    }
}

/// A vertex list that `validated` can give.
pub open spec fn polygon_shape(vs: Seq<Point>) -> bool {
    vs.len() == 0 || (vs.len() >= 3 && rect_chain(vs) && aligned(vs.last(), vs[0]))
}

/// The shoelace term of the `i`-th edge.
pub open spec fn shoelace_term(vs: Seq<Point>, i: int) -> int {
    let j = (i + 1) % (vs.len() as int);
    vs[i].x * vs[j].y - vs[i].y * vs[j].x
}

pub open spec fn shoelace_sum(vs: Seq<Point>, k: int) -> int
    decreases k,
{
    if k <= 0 {
        0
    } else {
        shoelace_sum(vs, k - 1) + shoelace_term(vs, k - 1)
    }
}

pub open spec fn abs(v: int) -> int {
    if v < 0 {
        -v
    } else {
        v
    }
}

/// The area enclosed by the vertex cycle `vs`, by the shoelace formula.
pub open spec fn area_of(vs: Seq<Point>) -> int {
    abs(shoelace_sum(vs, vs.len() as int)) / 2
}

/// The vertices from the `k`-th on, then those before it.
pub open spec fn rotated(vs: Seq<Point>, k: int) -> Seq<Point> {
    vs.skip(k) + vs.take(k)
}

/// The boundary index of `p`: one past the first edge that holds it, taken
/// modulo the vertex count.
pub open spec fn boundary_index(vs: Seq<Point>, p: Point) -> Option<int> {
    if vs.len() == 0 {
        None
    } else {
        match insertion_index(ring(vs), p) {
            Some(i) => Some(i % (vs.len() as int)),
            None => None,
        }
    }
}

proof fn lemma_next_index(i: int, n: int)
    requires
        0 <= i < n,
    ensures
        (i + 1) % n == if i + 1 == n { 0 } else { i + 1 },
{
    if i + 1 == n {
        vstd::arithmetic::div_mod::lemma_mod_self_0(n);
    } else {
        vstd::arithmetic::div_mod::lemma_small_mod((i + 1) as nat, n as nat);
    }
}

proof fn lemma_bound_term(x: int, y: int, u: int, v: int)
    requires
        -0x8000_0000 <= x < 0x8000_0000,
        -0x8000_0000 <= y < 0x8000_0000,
        -0x8000_0000 <= u < 0x8000_0000,
        -0x8000_0000 <= v < 0x8000_0000,
    ensures
        -0x4000_0000_0000_0000 <= x * v <= 0x4000_0000_0000_0000,
        -0x4000_0000_0000_0000 <= y * u <= 0x4000_0000_0000_0000,
        -0x8000_0000_0000_0000 <= x * v - y * u <= 0x8000_0000_0000_0000,
{
    assert(-0x4000_0000_0000_0000 <= x * v <= 0x4000_0000_0000_0000) by (nonlinear_arith)
        requires
            -0x8000_0000 <= x < 0x8000_0000,
            -0x8000_0000 <= v < 0x8000_0000,
    ;
    assert(-0x4000_0000_0000_0000 <= y * u <= 0x4000_0000_0000_0000) by (nonlinear_arith)
        requires
            -0x8000_0000 <= y < 0x8000_0000,
            -0x8000_0000 <= u < 0x8000_0000,
    ;
}

/// The area enclosed by the vertex cycle `points`, by the shoelace formula.
pub fn shoelace_poly_area(points: &[Point]) -> (r: i32)
    requires
        area_of(points@) <= i32::MAX,
    ensures
        r == area_of(points@),
{
    area_wide(points) as i32
}

/// The shoelace area of `points`, wide enough for any vertex list.
fn area_wide(points: &[Point]) -> (r: i128)
    ensures
        r == area_of(points@),
{
    let n = points.len();
    let mut acc: i128 = 0;
    let mut i: usize = 0;
    while i < n
        invariant
            n == points@.len(),
            i <= n,
            acc == shoelace_sum(points@, i as int),
            -(i as int) * 0x8000_0000_0000_0000 <= acc <= (i as int) * 0x8000_0000_0000_0000,
        decreases n - i,
    {
        let j = if i + 1 == n { 0 } else { i + 1 };
        proof {
            lemma_next_index(i as int, n as int);
        }
        let a = points[i];
        let b = points[j];
        proof {
            lemma_bound_term(a.x as int, a.y as int, b.x as int, b.y as int);
            assert((i as int) * 0x8000_0000_0000_0000 + 0x8000_0000_0000_0000 == (i + 1) as int * 0x8000_0000_0000_0000);
            assert((i + 1) as int * 0x8000_0000_0000_0000 <= 0x1_0000_0000_0000_0000 * 0x8000_0000_0000_0000) by (nonlinear_arith)
                requires i + 1 <= 0x1_0000_0000_0000_0000;
        }
        let t = (a.x as i128) * (b.y as i128) - (a.y as i128) * (b.x as i128);
        acc = acc + t;
        i = i + 1;
    }
    let total = if acc < 0 { -acc } else { acc };
    total / 2
}

/// A simple rectilinear polygon: a closed vertex cycle with an implicit edge
/// from the last vertex back to the first, or no vertex at all.
#[derive(Debug)]
pub struct Polygon {
    path_: Path,
}

impl View for Polygon {
    type V = Seq<Point>;

    closed spec fn view(&self) -> Seq<Point> {
        self.path_@
    }
}

impl Polygon {
    pub open spec fn wf(&self) -> bool {
        polygon_shape(self@)
    }

    /// A polygon on the points of `path`; an implicit edge joins the last
    /// point to the first. A last point that lies on the line from the one
    /// before it to the first point is dropped.
    pub fn with_path(path: Path) -> (r: Result<Polygon, PolygonError>)
        requires
            path.wf(),
        ensures
            r is Ok <==> validated(path@) is Ok,
            r matches Ok(p) ==> p@ == validated(path@)->Ok_0 && p.wf(),
            r matches Err(e) ==> validated(path@) == Err::<Seq<Point>, PolygonError>(e),
    {
        let mut work = path;
        let n = work.points().len();
        if n == 0 {
            return Ok(Polygon { path_: work });
        }
        if n < 4 {
            return Err(PolygonError::NotEnoughVertices);
        }
        let first = work.points()[0];
        let second_last = work.points()[n - 2];
        let last = work.points()[n - 1];
        if !(last.x == first.x || last.y == first.y) {
            return Err(PolygonError::NonRectilinear);
        }
        let ghost s = work@;
        let line = Line { start: last, end: first };
        if line.collinear(second_last) {
            work.remove();
        }
        assert(work@ == normalized(s));
        let m = work.points().len();
        let closing_line = Line { start: work.points()[m - 1], end: first };
        let mut i: usize = 1;
        while i < m - 2
            invariant
                work@ == normalized(s),
                s == path@,
                s.len() >= 4,
                aligned(s.last(), s[0]),
                m == work@.len(),
                m >= 3,
                1 <= i,
                closing_line == closing(work@),
                forall|k: int| 1 <= k < i ==> (#[trigger] intersection_of(seg(work@, k), closing(work@))) is None,
            decreases m - i,
        {
            let l = Line { start: work.points()[i], end: work.points()[i + 1] };
            assert(l == seg(work@, i as int));
            if l.intersects(&closing_line) {
                assert(closing_crossed(work@));
                return Err(PolygonError::SelfIntersecting);
            }
            i = i + 1;
        }
        proof {
            let t = work@;
            if t.len() < s.len() {
                assert(aligned(t.last(), t[0]));
            }
        }
        Ok(Polygon { path_: work })
    }

    pub fn path(&self) -> (r: &Path)
        ensures
            r@ == self@,
    {
        &self.path_
    }

    /// The vertices from the `start_idx`-th on, then those before it.
    pub fn vertex_iter_from_ind(&self, start_idx: usize) -> (r: Vec<Point>)
        ensures
            r@ == rotated(self@, if start_idx < self@.len() { start_idx as int } else { self@.len() as int }),
    {
        let pts = self.path_.points();
        let n = pts.len();
        let k = if start_idx < n { start_idx } else { n };
        let mut out: Vec<Point> = Vec::new();
        let mut i: usize = k;
        while i < n
            invariant
                k <= i <= n,
                n == self@.len(),
                pts@ == self@,
                out@ =~= self@.subrange(k as int, i as int),
            decreases n - i,
        {
            out.push(pts[i]);
            i = i + 1;
        }
        let mut j: usize = 0;
        while j < k
            invariant
                j <= k <= n,
                n == self@.len(),
                pts@ == self@,
                out@ =~= self@.skip(k as int) + self@.take(j as int),
            decreases k - j,
        {
            out.push(pts[j]);
            j = j + 1;
        }
        out
    }

    /// The vertices backwards, from the `start_idx`-th on.
    pub fn vertex_iter_from_ind_backwards(&self, start_idx: usize) -> (r: Vec<Point>)
        ensures
            r@ == rotated(self@, if start_idx < self@.len() { start_idx + 1 } else { self@.len() as int }).reverse(),
    {
        let n = self.path_.points().len();
        let k = if start_idx < n { start_idx + 1 } else { n };
        let fwd = self.vertex_iter_from_ind(k);
        let mut out: Vec<Point> = Vec::new();
        let mut i: usize = fwd.len();
        while i > 0
            invariant
                i <= fwd@.len(),
                out@ =~= fwd@.skip(i as int).reverse(),
            decreases i,
        {
            i = i - 1;
            out.push(fwd[i]);
            assert(fwd@.skip(i as int) =~= seq![fwd@[i as int]] + fwd@.skip(i + 1));
        }
        assert(fwd@.skip(0) =~= fwd@);
        out
    }

    /// The edges, the closing edge last; none for the empty polygon.
    pub fn line_iter(&self) -> (r: Vec<Line>)
        ensures
            r@ == edges(self@),
    {
        let pts = self.path_.points();
        let n = pts.len();
        let mut out: Vec<Line> = Vec::new();
        if n == 0 {
            assert(out@ =~= edges(self@));
            return out;
        }
        let mut i: usize = 0;
        while i < n
            invariant
                n == self@.len(),
                n > 0,
                pts@ == self@,
                i <= n,
                out@ =~= edges(self@).take(i as int),
            decreases n - i,
        {
            let j = if i + 1 == n { 0 } else { i + 1 };
            out.push(Line { start: pts[i], end: pts[j] });
            i = i + 1;
        }
        assert(out@ =~= edges(self@));
        out
    }

    /// The enclosed area.
    pub fn area(&self) -> (r: i32)
        requires
            area_of(self@) <= i32::MAX,
        ensures
            r == area_of(self@),
    {
        shoelace_poly_area(self.path_.points())
    }

    /// The enclosed area, or `None` where it does not fit in `i32`.
    pub fn checked_area(&self) -> (r: Option<i32>)
        ensures
            r is Some <==> area_of(self@) <= i32::MAX,
            r matches Some(a) ==> a == area_of(self@),
    {
        let a = area_wide(self.path_.points());
        if a <= i32::MAX as i128 {
            Some(a as i32)
        } else {
            None
        }
    }

    /// The boundary index of `point`: one past the first edge that holds it,
    /// modulo the vertex count.
    pub fn insertion_point(&self, point: &Point) -> (r: Option<usize>)
        ensures
            as_int(r) == boundary_index(self@, *point),
    {
        let pts = self.path_.points();
        let n = pts.len();
        if n == 0 {
            return None;
        }
        let ghost rg = ring(self@);
        let mut i: usize = 0;
        while i < n
            invariant
                n == self@.len(),
                n > 0,
                pts@ == self@,
                rg == ring(self@),
                i <= n,
                insertion_from(rg, i as int, *point) == insertion_index(rg, *point),
            decreases n - i,
        {
            let j = if i + 1 == n { 0 } else { i + 1 };
            let l = Line { start: pts[i], end: pts[j] };
            assert(rg[i + 1] == pts@[j as int]);
            proof {
                lemma_next_index(i as int, n as int);
            }
            if l.contains(*point) {
                return Some(j);
            }
            i = i + 1;
        }
        None
    }

    /// `point` lies on an edge.
    pub fn is_on_edge(&self, point: &Point) -> (r: bool)
        ensures
            r == boundary_index(self@, *point) is Some,
    {
        self.insertion_point(point).is_some()
    }
}


/// The index of the first `p` in `b` from the `i`-th on.
pub open spec fn first_from(b: Seq<Point>, i: int, p: Point) -> Option<int>
    decreases b.len() - i,
{
    if i < 0 || i >= b.len() {
        None
    } else if b[i] == p {
        Some(i)
    } else {
        first_from(b, i + 1, p)
    }
}

/// `off + i` taken around a cycle of `n`, for `off` and `i` below `n`.
pub open spec fn fwd_idx(off: int, i: int, n: int) -> int {
    if off + i < n {
        off + i
    } else {
        off + i - n
    }
}

/// `off - i` taken around a cycle of `n`, for `off` and `i` below `n`.
pub open spec fn bwd_idx(off: int, i: int, n: int) -> int {
    if i <= off {
        off - i
    } else {
        off - i + n
    }
}

/// `a` read forwards equals `b` read forwards from `off`, around the cycle.
pub open spec fn fwd_match(a: Seq<Point>, b: Seq<Point>, off: int) -> bool {
    forall|i: int| 0 <= i < a.len() ==> a[i] == b[#[trigger] fwd_idx(off, i, a.len() as int)]
}

/// `a` read forwards equals `b` read backwards from `off`, around the cycle.
pub open spec fn bwd_match(a: Seq<Point>, b: Seq<Point>, off: int) -> bool {
    forall|i: int| 0 <= i < a.len() ==> a[i] == b[#[trigger] bwd_idx(off, i, a.len() as int)]
}

/// Polygon equality: the same vertex cycle, possibly started at another
/// vertex and possibly run the other way. The cycle of `b` is anchored at the
/// first vertex of `b` equal to the first vertex of `a`.
pub open spec fn same_polygon(a: Seq<Point>, b: Seq<Point>) -> bool {
    a.len() == b.len() && (a.len() == 0 || match first_from(b, 0, a[0]) {
        None => false,
        Some(off) => fwd_match(a, b, off) || bwd_match(a, b, off),
    })
}

pub open spec fn distinct(vs: Seq<Point>) -> bool {
    forall|i: int, j: int| 0 <= i < j < vs.len() ==> vs[i] != vs[j]
}

fn position(b: &[Point], p: Point) -> (r: Option<usize>)
    ensures
        as_int(r) == first_from(b@, 0, p),
        r matches Some(o) ==> o < b@.len(),
{
    let mut i: usize = 0;
    while i < b.len()
        invariant
            i <= b@.len(),
            first_from(b@, i as int, p) == first_from(b@, 0, p),
        decreases b.len() - i,
    {
        if b[i] == p {
            return Some(i);
        }
        i = i + 1;
    }
    None
}

fn is_eq_forward(a: &[Point], b: &[Point], off: usize) -> (r: bool)
    requires
        a@.len() == b@.len(),
        off < a@.len(),
    ensures
        r == fwd_match(a@, b@, off as int),
{
    let n = a.len();
    let mut i: usize = 0;
    while i < n
        invariant
            n == a@.len(),
            n == b@.len(),
            off < n,
            i <= n,
            forall|k: int| 0 <= k < i ==> a@[k] == b@[#[trigger] fwd_idx(off as int, k, n as int)],
        decreases n - i,
    {
        let j = if off < n - i { off + i } else { off - (n - i) };
        assert(j == fwd_idx(off as int, i as int, n as int));
        if a[i] != b[j] {
            return false;
        }
        i = i + 1;
    }
    true
}

fn is_eq_backward(a: &[Point], b: &[Point], off: usize) -> (r: bool)
    requires
        a@.len() == b@.len(),
        off < a@.len(),
    ensures
        r == bwd_match(a@, b@, off as int),
{
    let n = a.len();
    let mut i: usize = 0;
    while i < n
        invariant
            n == a@.len(),
            n == b@.len(),
            off < n,
            i <= n,
            forall|k: int| 0 <= k < i ==> a@[k] == b@[#[trigger] bwd_idx(off as int, k, n as int)],
        decreases n - i,
    {
        let j = if i <= off { off - i } else { n - (i - off) };
        assert(j == bwd_idx(off as int, i as int, n as int));
        if a[i] != b[j] {
            return false;
        }
        i = i + 1;
    }
    true
}

/// The `i`-th vertex lies on the line through its two neighbours: it adds
/// nothing to the outline.
pub open spec fn redundant(vs: Seq<Point>, i: int) -> bool {
    let n = vs.len() as int;
    collinear3(vs[prev_idx(i, n)], vs[i], vs[next_idx(i, n)])
}

/// Which vertices are true corners of the outline.
pub open spec fn corner_marks(vs: Seq<Point>) -> Seq<bool> {
    Seq::new(vs.len(), |i: int| !redundant(vs, i))
}

/// The elements of `s` whose mark in `m` is set, in order.
pub open spec fn select(s: Seq<Point>, m: Seq<bool>) -> Seq<Point>
    decreases s.len(),
{
    if s.len() == 0 || m.len() == 0 {
        seq![]
    } else {
        let r = select(s.drop_last(), m.drop_last());
        if m.last() {
            r.push(s.last())
        } else {
            r
        }
    }
}

/// The vertex cycle without the vertices that lie along an edge.
pub open spec fn corners(vs: Seq<Point>) -> Seq<Point> {
    select(vs, corner_marks(vs))
}

/// Polygon equality: the same outline, whichever vertex it starts at, in
/// either direction, with vertices along an edge left out.
pub open spec fn same_outline(a: Seq<Point>, b: Seq<Point>) -> bool {
    same_polygon(corners(a), corners(b))
}

fn corners_of(pts: &[Point]) -> (r: Vec<Point>)
    ensures
        r@ == corners(pts@),
{
    let n = pts.len();
    let mut out: Vec<Point> = Vec::new();
    let mut i: usize = 0;
    while i < n
        invariant
            n == pts@.len(),
            i <= n,
            out@ == select(pts@.take(i as int), corner_marks(pts@).take(i as int)),
        decreases n - i,
    {
        let prev = if i == 0 { n - 1 } else { i - 1 };
        let next = if i + 1 == n { 0 } else { i + 1 };
        let a = pts[prev];
        let b = pts[i];
        let c = pts[next];
        proof {
            assert(pts@.take(i + 1).drop_last() =~= pts@.take(i as int));
            assert(corner_marks(pts@).take(i + 1).drop_last() =~= corner_marks(pts@).take(i as int));
        }
        if !((a.x == b.x && b.x == c.x) || (a.y == b.y && b.y == c.y)) {
            out.push(b);
        }
        i = i + 1;
    }
    proof {
        assert(pts@.take(n as int) =~= pts@);
        assert(corner_marks(pts@).take(n as int) =~= corner_marks(pts@));
    }
    out
}

impl PartialEq for Polygon {
    fn eq(&self, other: &Polygon) -> bool {
        let ca = corners_of(self.path_.points());
        let cb = corners_of(other.path_.points());
        let a = ca.as_slice();
        let b = cb.as_slice();
        if a.len() != b.len() {
            return false;
        }
        if a.len() == 0 {
            return true;
        }
        match position(b, a[0]) {
            None => false,
            Some(off) => is_eq_forward(a, b, off) || is_eq_backward(a, b, off),
        }
    }
}

impl vstd::std_specs::cmp::PartialEqSpecImpl for Polygon {
    open spec fn obeys_eq_spec() -> bool {
        true
    }

    open spec fn eq_spec(&self, other: &Polygon) -> bool {
        same_outline(self@, other@)
    }
}

proof fn lemma_first_from(b: Seq<Point>, i: int, off: int, p: Point)
    requires
        0 <= i <= off < b.len(),
        b[off] == p,
        forall|j: int| i <= j < off ==> b[j] != p,
    ensures
        first_from(b, i, p) == Some(off),
    decreases off - i,
{
    if i < off {
        lemma_first_from(b, i + 1, off, p);
    }
}

/// Rotating a vertex cycle, reversing it, or both, keeps `same_polygon`,
/// where the vertices are pairwise distinct.
proof fn lemma_same_polygon_rotated(vs: Seq<Point>, k: int)
    requires
        0 <= k < vs.len(),
        distinct(vs),
    ensures
        same_polygon(vs, rotated(vs, k)),
        same_polygon(vs, rotated(vs, k).reverse()),
{
    let n = vs.len() as int;
    let b = rotated(vs, k);
    assert forall|j: int| 0 <= j < n implies b[j] == vs[#[trigger] fwd_idx(k, j, n)] by {
    }
    let offb = if k == 0 { 0 } else { n - k };
    assert(fwd_idx(k, offb, n) == 0);
    assert forall|j: int| 0 <= j < offb implies b[j] != vs[0] by {
        assert(b[j] == vs[fwd_idx(k, j, n)]);
        assert(fwd_idx(k, j, n) != 0);
    }
    lemma_first_from(b, 0, offb, vs[0]);
    assert forall|i: int| 0 <= i < n implies vs[i] == b[#[trigger] fwd_idx(offb, i, n)] by {
        assert(b[fwd_idx(offb, i, n)] == vs[fwd_idx(k, fwd_idx(offb, i, n), n)]);
    }
    assert(fwd_match(vs, b, offb));
    let c = b.reverse();
    let offc = n - 1 - offb;
    assert forall|j: int| 0 <= j < offc implies c[j] != vs[0] by {
        assert(c[j] == b[n - 1 - j]);
        assert(b[n - 1 - j] == vs[fwd_idx(k, n - 1 - j, n)]);
        assert(fwd_idx(k, n - 1 - j, n) != 0);
    }
    assert(c[offc] == b[offb]);
    lemma_first_from(c, 0, offc, vs[0]);
    assert forall|i: int| 0 <= i < n implies vs[i] == c[#[trigger] bwd_idx(offc, i, n)] by {
        assert(c[bwd_idx(offc, i, n)] == b[fwd_idx(offb, i, n)]);
    }
    assert(bwd_match(vs, c, offc));
}

proof fn lemma_select_concat(a: Seq<Point>, ma: Seq<bool>, b: Seq<Point>, mb: Seq<bool>)
    requires
        a.len() == ma.len(),
        b.len() == mb.len(),
    ensures
        select(a + b, ma + mb) == select(a, ma) + select(b, mb),
    decreases b.len(),
{
    if b.len() == 0 {
        assert(a + b =~= a);
        assert(ma + mb =~= ma);
        assert(select(a, ma) + select(b, mb) =~= select(a, ma));
    } else {
        assert((a + b).drop_last() =~= a + b.drop_last());
        assert((ma + mb).drop_last() =~= ma + mb.drop_last());
        lemma_select_concat(a, ma, b.drop_last(), mb.drop_last());
        if mb.last() {
            assert(select(a, ma) + select(b, mb) =~= (select(a, ma) + select(b.drop_last(), mb.drop_last())).push(b.last()));
        }
    }
}

proof fn lemma_select_step(s: Seq<Point>, m: Seq<bool>)
    requires
        s.len() == m.len(),
        s.len() > 0,
    ensures
        select(s, m) == if m.last() {
            select(s.drop_last(), m.drop_last()).push(s.last())
        } else {
            select(s.drop_last(), m.drop_last())
        },
{
}

proof fn lemma_select_single(x: Point, b: bool)
    ensures
        select(seq![x], seq![b]) == if b { seq![x] } else { Seq::<Point>::empty() },
{
    lemma_select_step(seq![x], seq![b]);
    assert(seq![x].drop_last() =~= Seq::<Point>::empty());
    assert(seq![b].drop_last() =~= Seq::<bool>::empty());
    assert(Seq::<Point>::empty().push(x) =~= seq![x]);
}

proof fn lemma_select_reverse(s: Seq<Point>, m: Seq<bool>)
    requires
        s.len() == m.len(),
    ensures
        select(s.reverse(), m.reverse()) == select(s, m).reverse(),
    decreases s.len(),
{
    if s.len() > 0 {
        let s1 = s.drop_last();
        let m1 = m.drop_last();
        lemma_select_reverse(s1, m1);
        lemma_select_step(s, m);
        assert(s.reverse() =~= seq![s.last()] + s1.reverse());
        assert(m.reverse() =~= seq![m.last()] + m1.reverse());
        lemma_select_concat(seq![s.last()], seq![m.last()], s1.reverse(), m1.reverse());
        lemma_select_single(s.last(), m.last());
        if m.last() {
            assert(select(s1, m1).push(s.last()).reverse() =~= seq![s.last()] + select(s1, m1).reverse());
        } else {
            assert(Seq::<Point>::empty() + select(s1, m1).reverse() =~= select(s1, m1).reverse());
        }
    } else {
        assert(s.reverse() =~= s);
        assert(m.reverse() =~= m);
    }
}

proof fn lemma_select_from(s: Seq<Point>, m: Seq<bool>)
    requires
        s.len() == m.len(),
    ensures
        forall|x: Point| select(s, m).contains(x) ==> s.contains(x),
        distinct(s) ==> distinct(select(s, m)),
    decreases s.len(),
{
    if s.len() > 0 {
        let s1 = s.drop_last();
        let m1 = m.drop_last();
        lemma_select_from(s1, m1);
        lemma_select_step(s, m);
        let r = select(s1, m1);
        let t = select(s, m);
        assert forall|x: Point| t.contains(x) implies s.contains(x) by {
            if r.contains(x) {
                assert(s1.contains(x));
                let i = choose|i: int| 0 <= i < s1.len() && s1[i] == x;
                assert(s[i] == x);
            } else {
                let j = choose|j: int| 0 <= j < t.len() && t[j] == x;
                if j < r.len() {
                    assert(r[j] == x);
                    assert(r.contains(x));
                }
                assert(s[s.len() - 1] == x);
            }
        }
        if distinct(s) {
            assert(distinct(s1));
            if m.last() {
                assert(!s1.contains(s.last()));
                assert(!r.contains(s.last()));
                assert forall|i: int, j: int| 0 <= i < j < t.len() implies t[i] != t[j] by {
                    if j == t.len() - 1 {
                        assert(t[i] == r[i]);
                        assert(r.contains(t[i]));
                    }
                }
            }
        }
    }
}

proof fn lemma_marks_rotated(vs: Seq<Point>, k: int)
    requires
        0 <= k < vs.len(),
    ensures
        corner_marks(rotated(vs, k)) == corner_marks(vs).skip(k) + corner_marks(vs).take(k),
{
    let n = vs.len() as int;
    let r = rotated(vs, k);
    assert forall|j: int| 0 <= j < n implies r[j] == vs[#[trigger] fwd_idx(k, j, n)] by {}
    assert forall|j: int| 0 <= j < n implies redundant(r, j) == redundant(vs, #[trigger] fwd_idx(k, j, n)) by {
        assert(r[prev_idx(j, n)] == vs[fwd_idx(k, prev_idx(j, n), n)]);
        assert(r[next_idx(j, n)] == vs[fwd_idx(k, next_idx(j, n), n)]);
        assert(fwd_idx(k, prev_idx(j, n), n) == prev_idx(fwd_idx(k, j, n), n));
        assert(fwd_idx(k, next_idx(j, n), n) == next_idx(fwd_idx(k, j, n), n));
    }
    assert(corner_marks(r) =~= corner_marks(vs).skip(k) + corner_marks(vs).take(k));
}

proof fn lemma_marks_reversed(vs: Seq<Point>)
    ensures
        corner_marks(vs.reverse()) == corner_marks(vs).reverse(),
{
    let n = vs.len() as int;
    let r = vs.reverse();
    assert forall|j: int| 0 <= j < n implies redundant(r, j) == redundant(vs, n - 1 - j) by {
        assert(r[prev_idx(j, n)] == vs[next_idx(n - 1 - j, n)]);
        assert(r[next_idx(j, n)] == vs[prev_idx(n - 1 - j, n)]);
    }
    assert(corner_marks(r) =~= corner_marks(vs).reverse());
}

/// Rotating a vertex cycle, reversing it, or both, gives the same outline,
/// where the vertices are pairwise distinct.
proof fn lemma_same_outline_rotated(vs: Seq<Point>, k: int)
    requires
        0 <= k < vs.len(),
        distinct(vs),
    ensures
        same_outline(vs, rotated(vs, k)),
        same_outline(vs, rotated(vs, k).reverse()),
{
    let m = corner_marks(vs);
    let a = vs.take(k);
    let b = vs.skip(k);
    assert(vs =~= a + b);
    assert(m =~= m.take(k) + m.skip(k));
    lemma_select_concat(a, m.take(k), b, m.skip(k));
    lemma_select_concat(b, m.skip(k), a, m.take(k));
    lemma_marks_rotated(vs, k);
    let x = select(a, m.take(k));
    let y = select(b, m.skip(k));
    let c = corners(vs);
    assert(c == x + y);
    let rot = rotated(vs, k);
    assert(corners(rot) == y + x);
    lemma_select_from(vs, m);
    lemma_marks_reversed(rot);
    lemma_select_reverse(rot, corner_marks(rot));
    assert(corners(rot.reverse()) == (y + x).reverse());
    if c.len() > 0 {
        let kk = if x.len() < c.len() { x.len() as int } else { 0 };
        assert(rotated(c, kk) =~= y + x);
        lemma_same_polygon_rotated(c, kk);
    } else {
        assert(y + x =~= c);
        assert((y + x).reverse() =~= c);
    }
}

/// Polygon equality holds between two polygons whose vertex cycles differ
/// by a rotation, a reversal, or both, where the vertices are pairwise
/// distinct.
pub proof fn law_equal_under_rotation_and_reversal(p: &Polygon, q: &Polygon, k: int)
    requires
        distinct(p@),
        0 <= k < p@.len(),
        q@ == rotated(p@, k) || q@ == rotated(p@, k).reverse(),
    ensures
        p.eq_spec(q),
{
    lemma_same_outline_rotated(p@, k);
}

/// The half line cast rightwards from `p`.
pub open spec fn ray_right(p: Point) -> Line {
    Line { start: p, end: ray_end(p, Direction::RIGHT) }
}

/// For each of `es` that the rightward half line from `p` meets, in order,
/// the side of it on which `p` lies.
pub open spec fn side_seq(es: Seq<Line>, p: Point) -> Seq<i32>
    decreases es.len(),
{
    if es.len() == 0 {
        seq![]
    } else {
        let r = side_seq(es.drop_last(), p);
        if intersection_of(es.last(), ray_right(p)) is Some {
            r.push(sign(cross(es.last(), p)))
        } else {
            r
        }
    }
}

/// `s` with each run `[v, 0, v]` merged into `v`, scanning once from the
/// front: a merged run is not looked at again.
pub open spec fn reduced(s: Seq<i32>) -> Seq<i32>
    decreases s.len(),
{
    if s.len() < 3 {
        s
    } else if s[1] == 0 && s[0] == s[2] {
        seq![s[0]] + reduced(s.skip(3))
    } else {
        seq![s[0]] + reduced(s.skip(1))
    }
}

pub open spec fn seq_sum(s: Seq<i32>) -> int
    decreases s.len(),
{
    if s.len() == 0 {
        0
    } else {
        seq_sum(s.drop_last()) + s.last()
    }
}

/// The value counted twice where a run `[v, 0, v]` wraps from the end of
/// `s` to its start; missing places count as zero.
pub open spec fn wrap_correction(s: Seq<i32>) -> int {
    let f: i32 = if s.len() >= 1 { s[0] } else { 0 };
    let g: i32 = if s.len() >= 2 { s[1] } else { 0 };
    let sl: i32 = if s.len() >= 2 { s[s.len() - 2] } else { 0 };
    let l: i32 = if s.len() >= 2 { s.last() } else { 0 };
    if l == 0 && sl == f {
        sl as int
    } else if f == 0 && l == g {
        l as int
    } else {
        0
    }
}

/// The winding count of the vertex cycle `vs` around `p`, from the edges
/// that the rightward half line from `p` meets.
pub open spec fn winding(vs: Seq<Point>, p: Point) -> int {
    let red = reduced(side_seq(edges(vs), p));
    seq_sum(red) - wrap_correction(red)
}

/// `p` lies strictly inside the polygon with vertices `vs`: off every edge,
/// with a non-zero winding count.
pub open spec fn inside(vs: Seq<Point>, p: Point) -> bool {
    boundary_index(vs, p) is None && winding(vs, p) != 0
}

/// Merges each run `[v, 0, v]` of `values` into `v`, scanning once from the
/// front.
pub fn reduce_sequences(values: &[i32]) -> (r: Vec<i32>)
    ensures
        r@ == reduced(values@),
{
    let n = values.len();
    let mut out: Vec<i32> = Vec::new();
    let mut i: usize = 0;
    assert(values@.skip(0) =~= values@);
    assert(out@ + reduced(values@) =~= reduced(values@));
    while i < n
        invariant
            n == values@.len(),
            i <= n,
            out@ + reduced(values@.skip(i as int)) == reduced(values@),
        decreases n - i,
    {
        let ghost rest = values@.skip(i as int);
        if n - i >= 3 && values[i + 1] == 0 && values[i] == values[i + 2] {
            proof {
                assert(rest.skip(3) =~= values@.skip(i + 3));
                assert(out@.push(values@[i as int]) + reduced(values@.skip(i + 3)) =~= out@ + reduced(rest));
            }
            out.push(values[i]);
            i = i + 3;
        } else {
            proof {
                assert(rest.skip(1) =~= values@.skip(i + 1));
                if rest.len() < 3 {
                    assert(reduced(rest.skip(1)) == rest.skip(1));
                    assert(rest =~= seq![rest[0]] + rest.skip(1));
                }
                assert(out@.push(values@[i as int]) + reduced(values@.skip(i + 1)) =~= out@ + reduced(rest));
            }
            out.push(values[i]);
            i = i + 1;
        }
    }
    proof {
        assert(out@ + reduced(values@.skip(n as int)) =~= out@);
    }
    out
}

proof fn lemma_seq_sum_bound(s: Seq<i32>)
    ensures
        -(s.len() as int) * 0x8000_0000 <= seq_sum(s) <= (s.len() as int) * 0x8000_0000,
    decreases s.len(),
{
    if s.len() > 0 {
        lemma_seq_sum_bound(s.drop_last());
    }
}

fn sum_of(values: &Vec<i32>) -> (r: i128)
    ensures
        r == seq_sum(values@),
{
    let n = values.len();
    let mut acc: i128 = 0;
    let mut i: usize = 0;
    while i < n
        invariant
            n == values@.len(),
            i <= n,
            acc == seq_sum(values@.take(i as int)),
        decreases n - i,
    {
        proof {
            assert(values@.take(i + 1).drop_last() =~= values@.take(i as int));
            lemma_seq_sum_bound(values@.take(i + 1));
            assert((i + 1) as int * 0x8000_0000 <= 0x1_0000_0000_0000_0000 * 0x8000_0000) by (nonlinear_arith)
                requires i + 1 <= 0x1_0000_0000_0000_0000;
        }
        acc = acc + values[i] as i128;
        i = i + 1;
    }
    proof {
        assert(values@.take(n as int) =~= values@);
    }
    acc
}

/// The sum of `values`, its first two and its last two elements; missing
/// places count as zero.
fn sum_and_first_last_two(values: &Vec<i32>) -> (r: (i128, (i32, i32), (i32, i32)))
    ensures
        r.0 == seq_sum(values@),
        r.1.0 == (if values@.len() >= 1 { values@[0] } else { 0 }),
        r.1.1 == (if values@.len() >= 2 { values@[1] } else { 0 }),
        r.2.0 == (if values@.len() >= 2 { values@[values@.len() - 2] } else { 0 }),
        r.2.1 == (if values@.len() >= 2 { values@.last() } else { 0 }),
{
    let sum = sum_of(values);
    let n = values.len();
    let first: i32 = if n >= 1 { values[0] } else { 0 };
    let second: i32 = if n >= 2 { values[1] } else { 0 };
    let second_last: i32 = if n >= 2 { values[n - 2] } else { 0 };
    let last: i32 = if n >= 2 { values[n - 1] } else { 0 };
    (sum, (first, second), (second_last, last))
}

impl Polygon {
    /// `point` lies strictly inside: never on an edge. Off the boundary, the
    /// edges that the rightward half line from `point` meets are counted with
    /// the side of each on which `point` lies, runs `[v, 0, v]` counting once.
    pub fn is_inside(&self, point: &Point) -> (r: bool)
        ensures
            r == inside(self@, *point),
            boundary_index(self@, *point) is Some ==> !r,
    {
        if self.is_on_edge(point) {
            return false;
        }
        let es = self.line_iter();
        let mut sides: Vec<i32> = Vec::new();
        let mut i: usize = 0;
        while i < es.len()
            invariant
                i <= es@.len(),
                sides@ == side_seq(es@.take(i as int), *point),
            decreases es.len() - i,
        {
            proof {
                assert(es@.take(i + 1).drop_last() =~= es@.take(i as int));
            }
            if es[i].intersects_half_line(point, Direction::RIGHT) {
                sides.push(es[i].point_on_side(*point));
            }
            i = i + 1;
        }
        proof {
            assert(es@.take(es@.len() as int) =~= es@);
        }
        let red = reduce_sequences(sides.as_slice());
        let (sum, (f, g), (sl, l)) = sum_and_first_last_two(&red);
        let to_subtract: i32 = if l == 0 && sl == f {
            sl
        } else if f == 0 && l == g {
            l
        } else {
            0
        };
        sum != to_subtract as i128
    }
}


/// Every point of `pp` but the two ends lies strictly inside.
pub open spec fn inner_inside(vs: Seq<Point>, pp: Seq<Point>) -> bool {
    forall|i: int| 1 <= i < pp.len() - 1 ==> inside(vs, #[trigger] pp[i])
}

/// No segment of `pp` but the first and the last meets an edge.
pub open spec fn inner_clear(vs: Seq<Point>, pp: Seq<Point>) -> bool {
    forall|e: int, j: int|
        0 <= e < edges(vs).len() && 1 <= j && j + 2 < pp.len() ==> (intersection_of(
            #[trigger] edges(vs)[e],
            #[trigger] seg(pp, j),
        )) is None
}

pub open spec fn lex_lt(a: Point, b: Point) -> bool {
    a.x < b.x || (a.x == b.x && a.y < b.y)
}

/// The index of the first vertex that is least by `x`, then by `y`, among
/// the `best`-th and those from the `i`-th on.
pub open spec fn min_from(vs: Seq<Point>, i: int, best: int) -> int
    decreases vs.len() - i,
{
    if i < 0 || i >= vs.len() {
        best
    } else if lex_lt(vs[i], vs[best]) {
        min_from(vs, i + 1, i)
    } else {
        min_from(vs, i + 1, best)
    }
}

pub open spec fn prev_idx(i: int, n: int) -> int {
    if i == 0 {
        n - 1
    } else {
        i - 1
    }
}

pub open spec fn next_idx(i: int, n: int) -> int {
    if i + 1 == n {
        0
    } else {
        i + 1
    }
}

/// The vertex cycle turns clockwise (on screen, `y` downwards) at its least
/// vertex, which lies on the convex hull.
pub open spec fn clockwise(vs: Seq<Point>) -> bool {
    let n = vs.len() as int;
    let m = min_from(vs, 1, 0);
    n == 0 || cross(Line { start: vs[prev_idx(m, n)], end: vs[m] }, vs[next_idx(m, n)]) < 0
}

/// A two-point cut from boundary index `si` to `pe` enters the polygon: `pe`
/// lies on its inner side of the edge that holds the start, or of the next
/// edge when it lies on the line of that one.
pub open spec fn straight_cut_ok(vs: Seq<Point>, pe: Point, si: int) -> bool {
    let n = vs.len() as int;
    let es = edges(vs);
    let s1 = sign(cross(es[prev_idx(si, n)], pe));
    let side = if s1 == 0 {
        sign(cross(es[si], pe))
    } else {
        s1
    };
    if clockwise(vs) {
        side == -1
    } else {
        side == 1
    }
}

/// How far `c` lies from `v0` along the edge from `v0` to `v1`.
pub open spec fn edge_dist(v0: Point, v1: Point, c: Point) -> int {
    if v0.x == v1.x {
        abs(v0.y - c.y)
    } else {
        abs(v0.x - c.x)
    }
}

/// Both ends of a cut lie on the edge from `vs` to `ve`: the cut runs
/// against the edge when its start is the farther from `vs`.
pub open spec fn should_reverse(vs: Point, ve: Point, cs: Point, ce: Point) -> bool {
    edge_dist(vs, ve, cs) > edge_dist(vs, ve, ce)
}

/// The boundary indices where the cut enters and leaves, in the order of
/// the vertex cycle, and the cut's points in that order.
pub open spec fn oriented(vs: Seq<Point>, pp: Seq<Point>, si: int, ei: int) -> (int, int, Seq<Point>) {
    let n = vs.len() as int;
    if si < ei {
        (si, ei, pp)
    } else if si > ei {
        (ei, si, pp.reverse())
    } else if should_reverse(vs[prev_idx(si, n)], vs[si], pp[0], pp.last()) {
        (ei, si, pp.reverse())
    } else {
        (si, ei, pp)
    }
}

/// The vertex lists of the two polygons that cutting the polygon with
/// vertices `vs` along the path with points `pp` gives, or `None`.
pub open spec fn cut_result(vs: Seq<Point>, pp: Seq<Point>) -> Option<(Seq<Point>, Seq<Point>)> {
    if pp.len() < 2 || !inner_inside(vs, pp) || !inner_clear(vs, pp) {
        None
    } else {
        match (boundary_index(vs, pp[0]), boundary_index(vs, pp.last())) {
            (Some(si), Some(ei)) => if pp.len() == 2 && !straight_cut_ok(vs, pp[1], si) {
                None
            } else {
                let (s, e, q) = oriented(vs, pp, si, ei);
                let pts1 = vs.take(s) + q + vs.skip(e);
                let pts2 = q.reverse() + vs.subrange(s, e);
                match (built(pts1), built(pts2)) {
                    (Some(b1), Some(b2)) => match (validated(b1), validated(b2)) {
                        (Ok(v1), Ok(v2)) => Some((v1, v2)),
                        _ => None,
                    },
                    _ => None,
                }
            },
            _ => None,
        }
    }
}

fn extend_from(out: &mut Vec<Point>, src: &[Point], lo: usize, hi: usize)
    requires
        lo <= hi <= src@.len(),
    ensures
        final(out)@ == old(out)@ + src@.subrange(lo as int, hi as int),
{
    let ghost start = out@;
    let mut i: usize = lo;
    while i < hi
        invariant
            lo <= i <= hi,
            hi <= src@.len(),
            out@ =~= start + src@.subrange(lo as int, i as int),
        decreases hi - i,
    {
        out.push(src[i]);
        i = i + 1;
    }
}

fn reversed(v: &[Point]) -> (r: Vec<Point>)
    ensures
        r@ == v@.reverse(),
{
    let mut out: Vec<Point> = Vec::new();
    let mut i: usize = v.len();
    while i > 0
        invariant
            i <= v@.len(),
            out@ =~= v@.skip(i as int).reverse(),
        decreases i,
    {
        i = i - 1;
        out.push(v[i]);
        assert(v@.skip(i as int) =~= seq![v@[i as int]] + v@.skip(i + 1));
    }
    assert(v@.skip(0) =~= v@);
    out
}

fn abs_diff(a: i32, b: i32) -> (r: i64)
    ensures
        r == abs(a - b),
{
    let d = a as i64 - b as i64;
    if d < 0 {
        -d
    } else {
        d
    }
}

impl Polygon {
    /// Splits the polygon in two along `path`, whose ends lie on the
    /// boundary and whose other points lie strictly inside. Gives nothing
    /// where the path is too short, leaves the polygon or touches its
    /// boundary elsewhere, where a two-point path runs outside, or where a
    /// piece is not a polygon.
    pub fn cut(&self, path: &Path) -> (r: Option<(Polygon, Polygon)>)
        requires
            self.wf(),
        ensures
            r is Some <==> cut_result(self@, path@) is Some,
            r matches Some((a, b)) ==> cut_result(self@, path@) == Some((a@, b@)) && a.wf() && b.wf(),
            path@.len() > 0 && (boundary_index(self@, path@[0]) is None || boundary_index(
                self@,
                path@.last(),
            ) is None) ==> r is None,
            (exists|i: int| 1 <= i < path@.len() - 1 && !inside(self@, #[trigger] path@[i]))
                ==> r is None,
            path@.len() == 2 && boundary_index(self@, path@[0]) is Some && !straight_cut_ok(
                self@,
                path@[1],
                boundary_index(self@, path@[0])->Some_0,
            ) ==> r is None,
    {
        let pp = path.points();
        let m = pp.len();
        if m < 2 {
            return None;
        }
        if !self.check_path_inside(pp) {
            return None;
        }
        let si = match self.insertion_point(&pp[0]) {
            Some(i) => i,
            None => return None,
        };
        let ei = match self.insertion_point(&pp[m - 1]) {
            Some(i) => i,
            None => return None,
        };
        proof {
            vstd::arithmetic::div_mod::lemma_mod_bound(insertion_index(ring(self@), pp@[0])->Some_0, self@.len() as int);
            vstd::arithmetic::div_mod::lemma_mod_bound(insertion_index(ring(self@), pp@[m - 1])->Some_0, self@.len() as int);
        }
        if m == 2 && !self.check_two_point_path_line_outside(pp[1], si) {
            return None;
        }
        let (s, e, q) = self.cut_path_insertion_and_direction(pp, si, ei);
        let vs = self.path_.points();
        let mut pts1: Vec<Point> = Vec::new();
        extend_from(&mut pts1, vs, 0, s);
        extend_from(&mut pts1, q.as_slice(), 0, q.len());
        extend_from(&mut pts1, vs, e, vs.len());
        let rq = reversed(q.as_slice());
        let mut pts2: Vec<Point> = Vec::new();
        extend_from(&mut pts2, rq.as_slice(), 0, rq.len());
        extend_from(&mut pts2, vs, s, e);
        proof {
            assert(pts1@ =~= self@.take(s as int) + q@ + self@.skip(e as int));
            assert(pts2@ =~= q@.reverse() + self@.subrange(s as int, e as int));
        }
        let path1 = match Path::with_points(pts1.as_slice()) {
            Some(p) => p,
            None => return None,
        };
        let path2 = match Path::with_points(pts2.as_slice()) {
            Some(p) => p,
            None => return None,
        };
        let poly1 = match Polygon::with_path(path1) {
            Ok(p) => p,
            Err(_) => return None,
        };
        let poly2 = match Polygon::with_path(path2) {
            Ok(p) => p,
            Err(_) => return None,
        };
        Some((poly1, poly2))
    }

    fn check_points_inside(&self, pp: &[Point]) -> (r: bool)
        requires
            pp@.len() >= 2,
        ensures
            r == inner_inside(self@, pp@),
    {
        let m = pp.len();
        let mut i: usize = 1;
        while i < m - 1
            invariant
                m == pp@.len(),
                m >= 2,
                1 <= i <= m - 1,
                forall|k: int| 1 <= k < i ==> inside(self@, #[trigger] pp@[k]),
            decreases m - i,
        {
            if !self.is_inside(&pp[i]) {
                return false;
            }
            i = i + 1;
        }
        true
    }

    fn check_path_does_not_intersect_polygon(&self, pp: &[Point]) -> (r: bool)
        ensures
            r == inner_clear(self@, pp@),
    {
        let es = self.line_iter();
        let m = pp.len();
        if m < 4 {
            return true;
        }
        let mut e: usize = 0;
        while e < es.len()
            invariant
                es@ == edges(self@),
                m == pp@.len(),
                m >= 4,
                e <= es@.len(),
                forall|a: int, j: int|
                    0 <= a < e && 1 <= j && j + 2 < m ==> (intersection_of(
                        #[trigger] es@[a],
                        #[trigger] seg(pp@, j),
                    )) is None,
            decreases es.len() - e,
        {
            let mut j: usize = 1;
            while j < m - 2
                invariant
                    es@ == edges(self@),
                    m == pp@.len(),
                    m >= 4,
                    e < es@.len(),
                    1 <= j <= m - 2,
                    forall|a: int, k: int|
                        0 <= a < e && 1 <= k && k + 2 < m ==> (intersection_of(
                            #[trigger] es@[a],
                            #[trigger] seg(pp@, k),
                        )) is None,
                    forall|k: int| 1 <= k < j ==> (intersection_of(es@[e as int], #[trigger] seg(pp@, k))) is None,
                decreases m - j,
            {
                let l = Line { start: pp[j], end: pp[j + 1] };
                assert(l == seg(pp@, j as int));
                if es[e].intersects(&l) {
                    return false;
                }
                j = j + 1;
            }
            e = e + 1;
        }
        true
    }

    fn check_two_point_path_line_outside(&self, path_end: Point, si: usize) -> (r: bool)
        requires
            self.wf(),
            si < self@.len(),
        ensures
            r == straight_cut_ok(self@, path_end, si as int),
    {
        let es = self.line_iter();
        let n = es.len();
        let prev = if si == 0 { n - 1 } else { si - 1 };
        let mut side = es[prev].point_on_side(path_end);
        if side == 0 {
            side = es[si].point_on_side(path_end);
        }
        if self.is_clockwise() {
            side == -1
        } else {
            side == 1
        }
    }

    fn is_clockwise(&self) -> (r: bool)
        ensures
            r == clockwise(self@),
    {
        let pts = self.path_.points();
        let n = pts.len();
        if n == 0 {
            return true;
        }
        let mut best: usize = 0;
        let mut i: usize = 1;
        while i < n
            invariant
                n == self@.len(),
                pts@ == self@,
                1 <= i <= n,
                best < n,
                min_from(self@, i as int, best as int) == min_from(self@, 1, 0),
            decreases n - i,
        {
            let a = pts[i];
            let b = pts[best];
            if a.x < b.x || (a.x == b.x && a.y < b.y) {
                best = i;
            }
            i = i + 1;
        }
        let before = if best == 0 { n - 1 } else { best - 1 };
        let after = if best + 1 == n { 0 } else { best + 1 };
        let line = Line { start: pts[before], end: pts[best] };
        line.point_on_side(pts[after]) < 0
    }

    fn should_reverse_cut_path_same_insertion_points(
        vertex_start: &Point,
        vertex_end: &Point,
        cut_start: &Point,
        cut_end: &Point,
    ) -> (r: bool)
        ensures
            r == should_reverse(*vertex_start, *vertex_end, *cut_start, *cut_end),
    {
        if vertex_start.x == vertex_end.x {
            abs_diff(vertex_start.y, cut_start.y) > abs_diff(vertex_start.y, cut_end.y)
        } else {
            abs_diff(vertex_start.x, cut_start.x) > abs_diff(vertex_start.x, cut_end.x)
        }
    }

    fn check_path_inside(&self, pp: &[Point]) -> (r: bool)
        requires
            pp@.len() >= 2,
        ensures
            r == (inner_inside(self@, pp@) && inner_clear(self@, pp@)),
    {
        self.check_points_inside(pp) && self.check_path_does_not_intersect_polygon(pp)
    }

    fn cut_path_insertion_and_direction(&self, pp: &[Point], si: usize, ei: usize) -> (r: (
        usize,
        usize,
        Vec<Point>,
    ))
        requires
            pp@.len() >= 2,
            si < self@.len(),
            ei < self@.len(),
        ensures
            (r.0 as int, r.1 as int, r.2@) == oriented(self@, pp@, si as int, ei as int),
            r.0 <= r.1 < self@.len(),
    {
        let reverse = if si < ei {
            false
        } else if si > ei {
            true
        } else {
            let vs = self.path_.points();
            let n = vs.len();
            let edge_start = if si == 0 { n - 1 } else { si - 1 };
            Polygon::should_reverse_cut_path_same_insertion_points(
                &vs[edge_start],
                &vs[si],
                &pp[0],
                &pp[pp.len() - 1],
            )
        };
        if !reverse {
            let mut q: Vec<Point> = Vec::new();
            extend_from(&mut q, pp, 0, pp.len());
            assert(q@ =~= pp@);
            (si, ei, q)
        } else {
            (ei, si, reversed(pp))
        }
    }
}


impl Polygon {
    /// Where `line` meets the edges, repeats in a row left out.
    pub fn intersections_with_line(&self, line: &Line) -> (r: Vec<LineIntersection>)
        ensures
            r@ == dedup(all_hits(edges(self@), seq![*line])),
    {
        let mut one: Vec<Line> = Vec::new();
        one.push(*line);
        assert(one@ =~= seq![*line]);
        intersections_line_iters(&self.line_iter(), &one)
    }

    /// Where the segments of `path` meet the edges, segment by segment of
    /// the path, repeats in a row left out.
    pub fn intersections_with_path(&self, path: &Path) -> (r: Vec<LineIntersection>)
        ensures
            r@ == dedup(all_hits(edges(self@), segments(path@))),
    {
        intersections_line_iters(&self.line_iter(), &path.line_iter())
    }

    /// `line` meets some edge.
    pub fn intersects_line(&self, line: &Line) -> (r: bool)
        ensures
            r == (all_hits(edges(self@), seq![*line]).len() > 0),
    {
        let hits = self.intersections_with_line(line);
        proof {
            lemma_dedup_empty(all_hits(edges(self@), seq![*line]));
        }
        hits.len() > 0
    }

    /// Some segment of `path` meets some edge.
    pub fn intersects_path(&self, path: &Path) -> (r: bool)
        ensures
            r == (all_hits(edges(self@), segments(path@)).len() > 0),
    {
        let hits = self.intersections_with_path(path);
        proof {
            lemma_dedup_empty(all_hits(edges(self@), segments(path@)));
        }
        hits.len() > 0
    }
}


proof fn lemma_insertion_found(s: Seq<Point>, i: int, k: int, p: Point)
    requires
        0 <= i <= k,
        k + 1 < s.len(),
        on_segment(s[k], s[k + 1], p),
    ensures
        insertion_from(s, i, p) is Some,
    decreases k - i,
{
    if i < k && !on_segment(s[i], s[i + 1], p) {
        lemma_insertion_found(s, i + 1, k, p);
    }
}

/// No vertex of a polygon, and no other point of its boundary, lies strictly
/// inside it.
pub proof fn law_boundary_not_inside(p: &Polygon, i: int, q: Point)
    requires
        p.wf(),
        0 <= i < p@.len(),
    ensures
        !inside(p@, p@[i]),
        boundary_index(p@, q) is Some ==> !inside(p@, q),
{
    let vs = p@;
    let r = ring(vs);
    assert(r[i] == vs[i]);
    if i + 1 < vs.len() {
        assert(aligned(vs[i], vs[i + 1]));
    } else {
        assert(r[i + 1] == vs[0]);
    }
    assert(on_segment(r[i], r[i + 1], vs[i]));
    lemma_insertion_found(r, 0, i, vs[i]);
}


proof fn lemma_intersection_reversed(e: Line, a: Point, b: Point)
    ensures
        intersection_of(e, Line { start: a, end: b }) == intersection_of(e, Line { start: b, end: a }),
{
}

/// Cutting along a path of three or more points and along the same path
/// reversed gives the same two pieces, where the two ends do not lie at
/// the same distance along one edge.
pub proof fn law_cut_reversed_path(p: &Polygon, path: Seq<Point>)
    requires
        path.len() >= 3,
        boundary_index(p@, path[0]) != boundary_index(p@, path.last()) || (boundary_index(
            p@,
            path[0],
        ) is Some && edge_dist(
            p@[prev_idx(boundary_index(p@, path[0])->Some_0, p@.len() as int)],
            p@[boundary_index(p@, path[0])->Some_0],
            path[0],
        ) != edge_dist(
            p@[prev_idx(boundary_index(p@, path[0])->Some_0, p@.len() as int)],
            p@[boundary_index(p@, path[0])->Some_0],
            path.last(),
        )),
    ensures
        cut_result(p@, path) == cut_result(p@, path.reverse()),
{
    let vs = p@;
    let m = path.len() as int;
    let rp = path.reverse();
    assert(rp[0] == path.last());
    assert(rp.last() == path[0]);
    assert(rp.reverse() =~= path);
    assert(inner_inside(vs, rp) == inner_inside(vs, path)) by {
        if inner_inside(vs, path) {
            assert forall|i: int| 1 <= i < rp.len() - 1 implies inside(vs, #[trigger] rp[i]) by {
                assert(rp[i] == path[m - 1 - i]);
            }
        }
        if inner_inside(vs, rp) {
            assert forall|i: int| 1 <= i < path.len() - 1 implies inside(vs, #[trigger] path[i]) by {
                assert(rp[m - 1 - i] == path[i]);
            }
        }
    }
    assert(inner_clear(vs, rp) == inner_clear(vs, path)) by {
        if inner_clear(vs, path) {
            assert forall|e: int, j: int|
                0 <= e < edges(vs).len() && 1 <= j && j + 2 < rp.len() implies (intersection_of(
                #[trigger] edges(vs)[e],
                #[trigger] seg(rp, j),
            )) is None by {
                let k = m - 2 - j;
                assert(seg(rp, j) == (Line { start: path[k + 1], end: path[k] }));
                lemma_intersection_reversed(edges(vs)[e], path[k], path[k + 1]);
                assert(intersection_of(edges(vs)[e], seg(path, k)) is None);
            }
        }
        if inner_clear(vs, rp) {
            assert forall|e: int, j: int|
                0 <= e < edges(vs).len() && 1 <= j && j + 2 < path.len() implies (intersection_of(
                #[trigger] edges(vs)[e],
                #[trigger] seg(path, j),
            )) is None by {
                let k = m - 2 - j;
                assert(seg(rp, k) == (Line { start: path[j + 1], end: path[j] }));
                lemma_intersection_reversed(edges(vs)[e], path[j], path[j + 1]);
                assert(intersection_of(edges(vs)[e], seg(rp, k)) is None);
            }
        }
    }
}

} // verus!
