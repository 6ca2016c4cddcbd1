use vstd::prelude::*;

use crate::line::{aligned, collinear3, intersection_of, on_segment, Line, LineIntersection};
use crate::point::Point;

verus! {

pub fn horizontal(p1: &Point, p2: &Point) -> (r: bool)
    ensures
        r == (p1.y == p2.y),
{
    p1.y == p2.y
}

pub fn vertical(p1: &Point, p2: &Point) -> (r: bool)
    ensures
        r == (p1.x == p2.x),
{
    p1.x == p2.x
}

/// The two points share a row or a column.
pub fn rectilinear(p1: &Point, p2: &Point) -> (r: bool)
    ensures
        r == aligned(*p1, *p2),
{
    horizontal(p1, p2) || vertical(p1, p2)
}

/// Each point of `s` is aligned with the next one.
pub open spec fn rect_chain(s: Seq<Point>) -> bool {
    forall|i: int| 0 <= i < s.len() - 1 ==> #[trigger] aligned(s[i], s[i + 1])
}

/// The `i`-th and the next point differ: no segment has length zero.
pub open spec fn moves(s: Seq<Point>, i: int) -> bool {
    s[i] != s[i + 1]
}

/// The `i`-th, the next and the one after are not on one line: the path
/// turns at each inner point.
pub open spec fn turns(s: Seq<Point>, i: int) -> bool {
    !collinear3(s[i], s[i + 1], s[i + 2])
}

/// The invariant of a path: each segment is horizontal or vertical and of
/// non-zero length, and no three points in a row lie on one line.
pub open spec fn path_ok(s: Seq<Point>) -> bool {
    &&& rect_chain(s)
    &&& forall|i: int| 0 <= i < s.len() - 1 ==> #[trigger] moves(s, i)
    &&& forall|i: int| 0 <= i < s.len() - 2 ==> #[trigger] turns(s, i)
}

/// The `i`-th segment of the polyline through `s`.
pub open spec fn seg(s: Seq<Point>, i: int) -> Line {
    Line { start: s[i], end: s[i + 1] }
}

/// The segments of the polyline through `s`, in order.
pub open spec fn segments(s: Seq<Point>) -> Seq<Line> {
    Seq::new((if s.len() == 0 { 0 } else { s.len() - 1 }) as nat, |i: int| seg(s, i))
}

/// One past the index of the first segment from the `i`-th on that holds `p`.
pub open spec fn insertion_from(s: Seq<Point>, i: int, p: Point) -> Option<int>
    decreases s.len() - i,
{
    if i < 0 || i + 1 >= s.len() {
        None
    } else if on_segment(s[i], s[i + 1], p) {
        Some(i + 1)
    } else {
        insertion_from(s, i + 1, p)
    }
}

/// One past the index of the first segment of `s` that holds `p`.
pub open spec fn insertion_index(s: Seq<Point>, p: Point) -> Option<int> {
    insertion_from(s, 0, p)
}

pub open spec fn as_int(o: Option<usize>) -> Option<int> {
    match o {
        Some(v) => Some(v as int),
        None => None,
    }
}

/// The first segment from the `i`-th on, leaving out the last segment of
/// `s`, that meets `nl`, and what they have in common.
pub open spec fn crossing_from(s: Seq<Point>, i: int, nl: Line) -> Option<LineIntersection>
    decreases s.len() - i,
{
    if i < 0 || i + 2 >= s.len() {
        None
    } else {
        match intersection_of(seg(s, i), nl) {
            Some(x) => Some(x),
            None => crossing_from(s, i + 1, nl),
        }
    }
}

/// The point that stands for a meeting: the point itself, or where the
/// common stretch starts.
pub open spec fn hit_point(x: LineIntersection) -> Point {
    match x {
        LineIntersection::Point(p) => p,
        LineIntersection::Line(l) => l.start,
    }
}

/// Where a new segment from the end of `s` to `p` first meets an earlier
/// segment, when that is not `p` itself.
pub open spec fn detour(s: Seq<Point>, p: Point) -> Option<Point> {
    match crossing_from(s, 0, Line { start: s.last(), end: p }) {
        Some(x) => if hit_point(x) != p {
            Some(hit_point(x))
        } else {
            None
        },
        None => None,
    }
}

/// `s` cut back to the end of the first segment that holds `q`.
pub open spec fn cut_loop(s: Seq<Point>, q: Point) -> Seq<Point> {
    match insertion_index(s, q) {
        Some(i) => s.take(i),
        None => s,
    }
}

/// `s` without its last point when that point lies between its neighbour and `q`.
pub open spec fn drop_collinear(s: Seq<Point>, q: Point) -> Seq<Point> {
    if s.len() >= 2 && collinear3(s[s.len() - 2], s.last(), q) {
        s.drop_last()
    } else {
        s
    }
}

/// One point added: loops through `q` removed, then a straight run merged;
/// `q` is not repeated where what is left already ends there.
pub open spec fn push_point(s: Seq<Point>, q: Point) -> Seq<Point> {
    let u = drop_collinear(cut_loop(s, q), q);
    if u.len() > 0 && u.last() == q {
        u
    } else {
        u.push(q)
    }
}

/// Appending `p` to `s` is refused: `p` is not aligned with the last point.
pub open spec fn append_fails(s: Seq<Point>, p: Point) -> bool {
    s.len() > 0 && !aligned(s.last(), p)
}

/// The points of a path after `p` is appended to the path with points `s`.
pub open spec fn appended(s: Seq<Point>, p: Point) -> Seq<Point> {
    if s.len() == 0 {
        seq![p]
    } else if s.last() == p || !aligned(s.last(), p) {
        s
    } else {
        match detour(s, p) {
            Some(q) => push_point(push_point(s, q), p),
            None => push_point(s, p),
        }
    }
}

/// The points of a path built by appending each of `pts` in turn to an
/// empty one, or `None` if one of them is refused.
pub open spec fn built(pts: Seq<Point>) -> Option<Seq<Point>>
    decreases pts.len(),
{
    if pts.len() == 0 {
        Some(seq![])
    } else {
        match built(pts.drop_last()) {
            None => None,
            Some(s) => if append_fails(s, pts.last()) {
                None
            } else {
                Some(appended(s, pts.last()))
            },
        }
    }
}

pub proof fn lemma_insertion_from(s: Seq<Point>, i: int, p: Point)
    requires
        0 <= i,
    ensures
        insertion_from(s, i, p) matches Some(k) ==> i + 1 <= k < s.len() && on_segment(
            s[k - 1],
            s[k],
            p,
        ),
    decreases s.len() - i,
{
    if i + 1 < s.len() && !on_segment(s[i], s[i + 1], p) {
        lemma_insertion_from(s, i + 1, p);
    }
}

proof fn lemma_on_segment_aligned(a: Point, b: Point, p: Point)
    requires
        on_segment(a, b, p),
    ensures
        aligned(a, p),
        aligned(b, p),
{
}

/// What a segment has in common with an aligned segment `nl` lies on `nl`.
proof fn lemma_hit_on(l: Line, nl: Line)
    requires
        intersection_of(l, nl) is Some,
        aligned(nl.start, nl.end),
    ensures
        aligned(nl.start, hit_point(intersection_of(l, nl)->Some_0)),
        aligned(hit_point(intersection_of(l, nl)->Some_0), nl.end),
{
}

proof fn lemma_crossing_from(s: Seq<Point>, i: int, nl: Line)
    requires
        0 <= i,
    ensures
        crossing_from(s, i, nl) matches Some(x) ==> exists|k: int|
            i <= k && k + 2 < s.len() && intersection_of(#[trigger] seg(s, k), nl) == Some(x),
    decreases s.len() - i,
{
    if i + 2 < s.len() && intersection_of(seg(s, i), nl) is None {
        lemma_crossing_from(s, i + 1, nl);
    }
}

proof fn lemma_detour_aligned(s: Seq<Point>, p: Point)
    requires
        s.len() > 0,
        aligned(s.last(), p),
    ensures
        detour(s, p) matches Some(q) ==> aligned(s.last(), q) && aligned(q, p),
{
    let nl = Line { start: s.last(), end: p };
    lemma_crossing_from(s, 0, nl);
    if crossing_from(s, 0, nl) is Some {
        let k = choose|k: int| 0 <= k && k + 2 < s.len() && intersection_of(#[trigger] seg(s, k), nl) == crossing_from(s, 0, nl);
        lemma_hit_on(seg(s, k), nl);
    }
}

proof fn lemma_prefix_ok(s: Seq<Point>, k: int)
    requires
        path_ok(s),
        0 <= k <= s.len(),
    ensures
        path_ok(s.take(k)),
{
    let t = s.take(k);
    assert forall|i: int| 0 <= i < t.len() - 1 implies #[trigger] aligned(t[i], t[i + 1]) by {
        assert(aligned(s[i], s[i + 1]));
    }
    assert forall|i: int| 0 <= i < t.len() - 1 implies #[trigger] moves(t, i) by {
        assert(moves(s, i));
    }
    assert forall|i: int| 0 <= i < t.len() - 2 implies #[trigger] turns(t, i) by {
        assert(turns(s, i));
    }
}

proof fn lemma_push_ok(u: Seq<Point>, q: Point)
    requires
        path_ok(u),
        u.len() > 0 ==> aligned(u.last(), q) && u.last() != q,
        u.len() >= 2 ==> !collinear3(u[u.len() - 2], u.last(), q),
    ensures
        path_ok(u.push(q)),
{
    let w = u.push(q);
    assert forall|i: int| 0 <= i < w.len() - 1 implies #[trigger] aligned(w[i], w[i + 1]) by {
        if i + 1 < u.len() {
            assert(aligned(u[i], u[i + 1]));
        }
    }
    assert forall|i: int| 0 <= i < w.len() - 1 implies #[trigger] moves(w, i) by {
        if i + 1 < u.len() {
            assert(moves(u, i));
        }
    }
    assert forall|i: int| 0 <= i < w.len() - 2 implies #[trigger] turns(w, i) by {
        if i + 2 < u.len() {
            assert(turns(u, i));
        }
    }
}

proof fn lemma_push_point(s: Seq<Point>, q: Point)
    requires
        path_ok(s),
        s.len() > 0 ==> aligned(s.last(), q),
    ensures
        path_ok(push_point(s, q)),
        push_point(s, q).len() > 0,
        push_point(s, q).last() == q,
{
    lemma_insertion_from(s, 0, q);
    let n = s.len() as int;
    let t = cut_loop(s, q);
    let u = drop_collinear(t, q);
    if let Some(k) = insertion_index(s, q) {
        lemma_prefix_ok(s, k);
        lemma_on_segment_aligned(s[k - 1], s[k], q);
        assert(t.last() == s[k - 1]);
        if q == s[k - 1] {
            if k >= 2 {
                let j = k - 2;
                assert(aligned(s[j], s[j + 1]));
                assert(u == s.take(k).drop_last());
                assert(u =~= s.take(k - 1));
                lemma_prefix_ok(s, k - 1);
                assert(moves(s, k - 2));
                if k >= 3 {
                    assert(turns(s, k - 3));
                }
                lemma_push_ok(u, q);
                assert(u.push(q) =~= s.take(k));
            }
        } else {
            if k >= 2 {
                assert(turns(s, k - 2));
                assert(!collinear3(s[k - 2], s[k - 1], q));
            }
            assert(u == t);
            lemma_push_ok(u, q);
        }
    } else {
        assert(t == s);
        if n >= 2 && collinear3(s[n - 2], s[n - 1], q) {
            assert(u =~= s.take(n - 1));
            lemma_prefix_ok(s, n - 1);
            if u.last() != q {
                assert(moves(s, n - 2));
                if n >= 3 {
                    assert(turns(s, n - 3));
                    assert(!collinear3(s[n - 3], s[n - 2], q));
                }
                lemma_push_ok(u, q);
            }
        } else {
            assert(u == s);
            if n == 0 || s.last() != q {
                lemma_push_ok(u, q);
            }
        }
    }
}

/// An ordered polyline whose consecutive points are distinct and share a row
/// or a column, turning at each inner point. It grows by `add`, which removes
/// the loops it would close and merges straight runs into one segment.
#[derive(Clone, Debug, PartialEq, Eq)]
pub struct Path {
    points_: Vec<Point>,
}

impl View for Path {
    type V = Seq<Point>;

    closed spec fn view(&self) -> Seq<Point> {
        self.points_@
    }
}

impl Path {
    /// Every segment is horizontal or vertical and of non-zero length, and
    /// the path turns at each inner point.
    pub open spec fn wf(&self) -> bool {
        path_ok(self@)
    }
    pub fn new() -> (r: Path)
        ensures
            r@ == Seq::<Point>::empty(),
            r.wf(),
    {
        Path { points_: Vec::new() }
    }

    pub fn with_start(start: Point) -> (r: Path)
        ensures
            r@ == seq![start],
            r.wf(),
    {
        let mut v: Vec<Point> = Vec::new();
        v.push(start);
        Path { points_: v }
    }

    /// The path that appending each of `points` in turn builds, or `None`
    /// if one of them is not aligned with the end of the path at its turn.
    pub fn with_points(points: &[Point]) -> (r: Option<Path>)
        ensures
            r is Some <==> built(points@) is Some,
            r matches Some(p) ==> p@ == built(points@)->Some_0 && p.wf(),
    {
        let mut path = Path::new();
        let mut i: usize = 0;
        while i < points.len()
            invariant
                i <= points.len(),
                path.wf(),
                built(points@.take(i as int)) == Some(path@),
            decreases points.len() - i,
        {
            proof {
                assert(points@.take(i + 1).drop_last() =~= points@.take(i as int));
            }
            let res = path.add(points[i]);
            if res.is_err() {
                proof {
                    lemma_built_none_extends(points@, i as int + 1);
                }
                return None;
            }
            i = i + 1;
        }
        proof {
            assert(points@.take(points.len() as int) =~= points@);
        }
        Some(path)
    }

    pub fn first(&self) -> (r: Option<&Point>)
        ensures
            r is Some <==> self@.len() > 0,
            r matches Some(p) ==> *p == self@[0],
    {
        self.points_.first()
    }

    pub fn last(&self) -> (r: Option<&Point>)
        ensures
            r is Some <==> self@.len() > 0,
            r matches Some(p) ==> *p == self@.last(),
    {
        self.points_.last()
    }

    pub fn points(&self) -> (r: &[Point])
        ensures
            r@ == self@,
    {
        self.points_.as_slice()
    }

    /// The segments between consecutive points, in order.
    pub fn line_iter(&self) -> (r: Vec<Line>)
        ensures
            r@ == segments(self@),
    {
        let n = self.points_.len();
        let mut out: Vec<Line> = Vec::new();
        if n == 0 {
            proof {
                assert(out@ =~= segments(self@));
            }
            return out;
        }
        let mut i: usize = 0;
        while i + 1 < n
            invariant
                n == self@.len(),
                n > 0,
                i < n,
                out@ =~= segments(self@).take(i as int),
            decreases n - i,
        {
            out.push(Line { start: self.points_[i], end: self.points_[i + 1] });
            i = i + 1;
        }
        proof {
            assert(out@ =~= segments(self@));
        }
        out
    }

    /// Appends `point`. A point equal to the end of the path changes nothing;
    /// one that is not aligned with it is refused. Where the new segment meets
    /// an earlier one, the loop that it closes is removed, and a point that
    /// continues the last segment's line replaces that segment's end.
    pub fn add(&mut self, point: Point) -> (r: Result<(), &'static str>)
        requires
            old(self).wf(),
        ensures
            final(self).wf(),
            r is Err <==> append_fails(old(self)@, point),
            final(self)@ == appended(old(self)@, point),
            r is Ok ==> final(self)@.len() > 0 && final(self)@.last() == point,
    {
        let n = self.points_.len();
        if n == 0 {
            self.points_.push(point);
            proof {
                assert(self@ =~= seq![point]);
            }
            return Ok(());
        }
        let last = self.points_[n - 1];
        if last == point {
            return Ok(());
        }
        if !rectilinear(&last, &point) {
            return Err("Not rectilinear.");
        }
        let new_line = Line { start: last, end: point };
        let extra = self.detour_point(&new_line, point);
        proof {
            lemma_detour_aligned(self@, point);
        }
        match extra {
            Some(q) => {
                self.push_point(q);
                self.push_point(point);
            },
            None => {
                self.push_point(point);
            },
        }
        Ok(())
    }

    /// Removes the last point.
    pub fn remove(&mut self) -> (r: Option<Point>)
        requires
            old(self).wf(),
        ensures
            final(self).wf(),
            old(self)@.len() == 0 ==> r is None && final(self)@ == old(self)@,
            old(self)@.len() > 0 ==> r == Some(old(self)@.last()) && final(self)@
                == old(self)@.drop_last(),
    {
        let r = self.points_.pop();
        proof {
            if old(self)@.len() > 0 {
                lemma_prefix_ok(old(self)@, old(self)@.len() - 1);
                assert(self@ =~= old(self)@.take(old(self)@.len() - 1));
            }
        }
        r
    }

    /// One past the index of the first segment that holds `point`.
    pub fn insertion_point(&self, point: &Point) -> (r: Option<usize>)
        ensures
            as_int(r) == insertion_index(self@, *point),
    {
        let n = self.points_.len();
        if n < 2 {
            return None;
        }
        let mut i: usize = 0;
        while i < n - 1
            invariant
                n == self@.len(),
                n >= 2,
                i <= n - 1,
                insertion_from(self@, i as int, *point) == insertion_index(self@, *point),
            decreases n - i,
        {
            let l = Line { start: self.points_[i], end: self.points_[i + 1] };
            if l.contains(*point) {
                return Some(i + 1);
            }
            i = i + 1;
        }
        None
    }

    /// `point` lies on the path.
    pub fn contains(&self, point: &Point) -> (r: bool)
        ensures
            r == insertion_index(self@, *point) is Some,
    {
        self.insertion_point(point).is_some()
    }

    fn detour_point(&self, new_line: &Line, point: Point) -> (r: Option<Point>)
        requires
            self@.len() > 0,
            *new_line == (Line { start: self@.last(), end: point }),
        ensures
            r == detour(self@, point),
    {
        let n = self.points_.len();
        if n < 2 {
            return None;
        }
        let mut i: usize = 0;
        while i < n - 2
            invariant
                n == self@.len(),
                n >= 2,
                i <= n - 2,
                *new_line == (Line { start: self@.last(), end: point }),
                crossing_from(self@, i as int, *new_line) == crossing_from(self@, 0, *new_line),
            decreases n - i,
        {
            let l = Line { start: self.points_[i], end: self.points_[i + 1] };
            assert(l == seg(self@, i as int));
            let hit = l.intersection(new_line);
            assert(hit is Some ==> crossing_from(self@, 0, *new_line) == hit);
            match hit {
                Some(LineIntersection::Point(p)) => {
                    return if p != point {
                        Some(p)
                    } else {
                        None
                    };
                },
                Some(LineIntersection::Line(m)) => {
                    return if m.start != point {
                        Some(m.start)
                    } else {
                        None
                    };
                },
                None => {},
            }
            i = i + 1;
        }
        None
    }

    fn push_point(&mut self, q: Point)
        requires
            old(self).wf(),
            old(self)@.len() > 0 ==> aligned(old(self)@.last(), q),
        ensures
            final(self).wf(),
            final(self)@ == push_point(old(self)@, q),
            final(self)@.last() == q,
    {
        proof {
            lemma_push_point(self@, q);
            lemma_insertion_from(self@, 0, q);
        }
        let ghost s0 = self@;
        if let Some(i) = self.insertion_point(&q) {
            self.points_.truncate(i);
        }
        assert(self@ == cut_loop(s0, q));
        let n = self.points_.len();
        if n >= 2 {
            let l = Line { start: self.points_[n - 2], end: self.points_[n - 1] };
            if l.collinear(q) {
                self.points_.pop();
            }
        }
        assert(self@ == drop_collinear(cut_loop(s0, q), q));
        let m = self.points_.len();
        if m == 0 || self.points_[m - 1] != q {
            self.points_.push(q);
        }
    }
}

proof fn lemma_built_none_extends(pts: Seq<Point>, k: int)
    requires
        0 < k <= pts.len(),
        built(pts.take(k)) is None,
    ensures
        built(pts) is None,
    decreases pts.len() - k,
{
    if k < pts.len() {
        assert(pts.take(k + 1).drop_last() =~= pts.take(k));
        lemma_built_none_extends(pts, k + 1);
    } else {
        assert(pts.take(k) =~= pts);
    }
}


/// Appending the point at which a path ends leaves the path as it is.
pub proof fn law_append_last_point_keeps_path(s: Seq<Point>)
    requires
        s.len() > 0,
    ensures
        !append_fails(s, s.last()),
        appended(s, s.last()) == s,
{
}

/// Two segments with a point in common have a common part.
proof fn lemma_common_point_meets(l1: Line, l2: Line, c: Point)
    requires
        on_segment(l1.start, l1.end, c),
        on_segment(l2.start, l2.end, c),
    ensures
        intersection_of(l1, l2) is Some,
{
}

proof fn lemma_insertion_skips(s: Seq<Point>, i: int, k: int, p: Point)
    requires
        0 <= i <= k,
        k + 1 < s.len(),
        forall|j: int| i <= j < k ==> !on_segment(#[trigger] s[j], s[j + 1], p),
    ensures
        insertion_from(s, i, p) == insertion_from(s, k, p),
    decreases k - i,
{
    if i < k {
        lemma_insertion_skips(s, i + 1, k, p);
    }
}

proof fn lemma_crossing_none(s: Seq<Point>, i: int, nl: Line)
    requires
        0 <= i,
        forall|j: int| i <= j && j + 2 < s.len() ==> intersection_of(#[trigger] seg(s, j), nl) is None,
    ensures
        crossing_from(s, i, nl) is None,
    decreases s.len() - i,
{
    if i + 2 < s.len() {
        assert(intersection_of(seg(s, i), nl) is None);
        lemma_crossing_none(s, i + 1, nl);
    }
}

/// Appending a point on the line of the last segment moves the end of the
/// path to that point, and the length stays, where the point is not the one
/// before the end, the new segment meets no earlier segment and, when the
/// point falls on the last segment, the segment before that does not run
/// along the same line.
pub proof fn law_collinear_append_replaces_last(s: Seq<Point>, p: Point)
    requires
        s.len() >= 2,
        collinear3(s[s.len() - 2], s.last(), p),
        p != s[s.len() - 2],
        forall|i: int|
            0 <= i && i + 2 < s.len() ==> intersection_of(
                #[trigger] seg(s, i),
                Line { start: s.last(), end: p },
            ) is None,
        s.len() >= 3 && on_segment(s[s.len() - 2], s.last(), p) ==> !collinear3(
            s[s.len() - 3],
            s[s.len() - 2],
            p,
        ),
    ensures
        !append_fails(s, p),
        appended(s, p) == s.drop_last().push(p),
        appended(s, p).len() == s.len(),
{
    let n = s.len() as int;
    if p == s.last() {
        assert(s.drop_last().push(p) =~= s);
    } else {
        let nl = Line { start: s.last(), end: p };
        lemma_crossing_none(s, 0, nl);
        assert(on_segment(nl.start, nl.end, p));
        assert forall|j: int| 0 <= j < n - 2 implies !on_segment(#[trigger] s[j], s[j + 1], p) by {
            if on_segment(s[j], s[j + 1], p) {
                lemma_common_point_meets(seg(s, j), nl, p);
            }
        }
        lemma_insertion_skips(s, 0, n - 2, p);
        if on_segment(s[n - 2], s[n - 1], p) {
            assert(cut_loop(s, p) == s.take(n - 1));
            assert(s.take(n - 1) =~= s.drop_last());
            assert(drop_collinear(s.drop_last(), p) == s.drop_last());
        } else {
            assert(insertion_from(s, n - 1, p) is None);
            assert(cut_loop(s, p) == s);
            assert(drop_collinear(s, p) == s.drop_last());
        }
        assert(s.drop_last().last() == s[n - 2]);
    }
}

} // verus!
