use vstd::prelude::*;

use crate::point::{Direction, Point};

verus! {

/// Two points share a row or a column.
pub open spec fn aligned(a: Point, b: Point) -> bool {
    a.x == b.x || a.y == b.y
}

/// Three points lie on one vertical or one horizontal line.
pub open spec fn collinear3(a: Point, b: Point, c: Point) -> bool {
    (a.x == b.x && b.x == c.x) || (a.y == b.y && b.y == c.y)
}

pub open spec fn min_i(a: int, b: int) -> int {
    if a <= b { a } else { b }
}

pub open spec fn max_i(a: int, b: int) -> int {
    if a <= b { b } else { a }
}

/// `v` lies in the closed range spanned by `a` and `b`.
pub open spec fn between(a: int, b: int, v: int) -> bool {
    min_i(a, b) <= v <= max_i(a, b)
}

/// `p` lies on the axis-aligned segment from `a` to `b`, end points included.
pub open spec fn on_segment(a: Point, b: Point, p: Point) -> bool {
    if a.x == b.x && b.x == p.x {
        between(a.y as int, b.y as int, p.y as int)
    } else if a.y == b.y && b.y == p.y {
        between(a.x as int, b.x as int, p.x as int)
    } else {
        false
    }
}

/// A directed segment between two points. Built through `from_points` it is
/// always horizontal or vertical.
#[derive(Clone, Copy, Debug, PartialEq, Eq, Structural)]
pub struct Line {
    pub start: Point,
    pub end: Point,
}

/// What two segments have in common: one point, or a stretch of both.
#[derive(Clone, Copy, Debug, PartialEq, Eq, Structural)]
pub enum LineIntersection {
    Line(Line),
    Point(Point),
}

/// The common part of the closed ranges `[a0, a1]` and `[b0, b1]`, either
/// given in any order.
pub open spec fn overlap(a0: int, a1: int, b0: int, b1: int) -> Option<(int, int)> {
    let lo = max_i(min_i(a0, a1), min_i(b0, b1));
    let hi = min_i(max_i(a0, a1), max_i(b0, b1));
    if lo <= hi {
        Some((lo, hi))
    } else {
        None
    }
}

pub open spec fn mk_point(x: int, y: int) -> Point {
    Point { x: x as i32, y: y as i32 }
}

/// The common part of two axis-aligned segments, taken axis by axis.
pub open spec fn intersection_of(l1: Line, l2: Line) -> Option<LineIntersection> {
    let h = overlap(l1.start.x as int, l1.end.x as int, l2.start.x as int, l2.end.x as int);
    let v = overlap(l1.start.y as int, l1.end.y as int, l2.start.y as int, l2.end.y as int);
    if h is None || v is None {
        None
    } else {
        let (h0, h1) = h->Some_0;
        let (v0, v1) = v->Some_0;
        if h0 == h1 && v0 == v1 {
            Some(LineIntersection::Point(mk_point(h0, v0)))
        } else if h0 == h1 {
            Some(LineIntersection::Line(Line { start: mk_point(h0, v0), end: mk_point(h0, v1) }))
        } else {
            Some(LineIntersection::Line(Line { start: mk_point(h0, v0), end: mk_point(h1, v0) }))
        }
    }
}

/// The twice-signed area spanned by the segment and `p`.
pub open spec fn cross(l: Line, p: Point) -> int {
    (p.x - l.start.x) * (l.end.y - l.start.y) - (p.y - l.start.y) * (l.end.x - l.start.x)
}

pub open spec fn sign(v: int) -> i32 {
    if v > 0 {
        1i32
    } else if v < 0 {
        -1i32
    } else {
        0i32
    }
}

/// The far end of the half line cast from `p` in direction `d`.
pub open spec fn ray_end(p: Point, d: Direction) -> Point {
    match d {
        Direction::UP => Point { x: p.x, y: i32::MIN },
        Direction::DOWN => Point { x: p.x, y: i32::MAX },
        Direction::LEFT => Point { x: i32::MIN, y: p.y },
        Direction::RIGHT => Point { x: i32::MAX, y: p.y },
        Direction::NONE => p,
    }
}

pub open spec fn direction_of(l: Line) -> Direction {
    if l.end.x == l.start.x {
        if l.end.y > l.start.y {
            Direction::DOWN
        } else if l.end.y < l.start.y {
            Direction::UP
        } else {
            Direction::NONE
        }
    } else if l.end.x > l.start.x {
        Direction::RIGHT
    } else {
        Direction::LEFT
    }
}

fn min32(a: i32, b: i32) -> (r: i32)
    ensures
        r == min_i(a as int, b as int),
{
    if a <= b {
        a
    } else {
        b
    }
}

fn max32(a: i32, b: i32) -> (r: i32)
    ensures
        r == max_i(a as int, b as int),
{
    if a <= b {
        b
    } else {
        a
    }
}

fn intervals_overlap(a0: i32, a1: i32, b0: i32, b1: i32) -> (r: Option<(i32, i32)>)
    ensures
        r is Some <==> overlap(a0 as int, a1 as int, b0 as int, b1 as int) is Some,
        r is Some ==> overlap(a0 as int, a1 as int, b0 as int, b1 as int)->Some_0 == (
        r->Some_0.0 as int, r->Some_0.1 as int),
{
    let lo = max32(min32(a0, a1), min32(b0, b1));
    let hi = min32(max32(a0, a1), max32(b0, b1));
    if lo <= hi {
        Some((lo, hi))
    } else {
        None
    }
}

impl Line {
    /// A segment from `start` to `end`, if the two are aligned.
    pub fn from_points(start: Point, end: Point) -> (r: Option<Line>)
        ensures
            r is Some <==> aligned(start, end),
            r is Some ==> r->Some_0 == (Line { start, end }),
    {
        if start.x == end.x || start.y == end.y {
            Some(Line { start, end })
        } else {
            None
        }
    }

    pub fn start(&self) -> (r: Point)
        ensures
            r == self.start,
    {
        self.start
    }

    pub fn end(&self) -> (r: Point)
        ensures
            r == self.end,
    {
        self.end
    }

    pub fn vertical(&self) -> (r: bool)
        ensures
            r == (self.start.x == self.end.x),
    {
        self.start.x == self.end.x
    }

    pub fn horizontal(&self) -> (r: bool)
        ensures
            r == (self.start.y == self.end.y),
    {
        self.start.y == self.end.y
    }

    /// The way the segment points, `NONE` when it is a single point.
    pub fn direction(&self) -> (r: Direction)
        ensures
            r == direction_of(*self),
    {
        if self.end.x == self.start.x {
            if self.end.y > self.start.y {
                Direction::DOWN
            } else if self.end.y < self.start.y {
                Direction::UP
            } else {
                Direction::NONE
            }
        } else if self.end.x > self.start.x {
            Direction::RIGHT
        } else {
            Direction::LEFT
        }
    }

    /// `p` lies on the infinite line through the segment.
    pub fn collinear(&self, p: Point) -> (r: bool)
        ensures
            r == collinear3(self.start, self.end, p),
    {
        (self.start.x == self.end.x && self.end.x == p.x) || (self.start.y == self.end.y
            && self.end.y == p.y)
    }

    /// The sign of the cross product: negative on the right of the segment,
    /// positive on its left, zero on its line.
    pub fn point_on_side(&self, point: Point) -> (r: i32)
        ensures
            r == sign(cross(*self, point)),
    {
        let dx = point.x as i128 - self.start.x as i128;
        let dy = point.y as i128 - self.start.y as i128;
        let ex = self.end.x as i128 - self.start.x as i128;
        let ey = self.end.y as i128 - self.start.y as i128;
        assert(-0x1_0000_0000 * 0x1_0000_0000 <= dx * ey <= 0x1_0000_0000 * 0x1_0000_0000)
            by (nonlinear_arith)
            requires
                -0x1_0000_0000 <= dx <= 0x1_0000_0000,
                -0x1_0000_0000 <= ey <= 0x1_0000_0000,
        ;
        assert(-0x1_0000_0000 * 0x1_0000_0000 <= dy * ex <= 0x1_0000_0000 * 0x1_0000_0000)
            by (nonlinear_arith)
            requires
                -0x1_0000_0000 <= dy <= 0x1_0000_0000,
                -0x1_0000_0000 <= ex <= 0x1_0000_0000,
        ;
        let d = dx * ey - dy * ex;
        if d > 0 {
            1
        } else if d < 0 {
            -1
        } else {
            0
        }
    }

    /// `p` lies on the segment, end points included.
    pub fn contains(&self, p: Point) -> (r: bool)
        ensures
            r == on_segment(self.start, self.end, p),
    {
        let start = self.start;
        let end = self.end;
        if start.x == end.x && end.x == p.x {
            (start.y <= p.y && p.y <= end.y) || (end.y <= p.y && p.y <= start.y)
        } else if start.y == end.y && end.y == p.y {
            (start.x <= p.x && p.x <= end.x) || (end.x <= p.x && p.x <= start.x)
        } else {
            false
        }
    }

    pub fn intersects(&self, other: &Line) -> (r: bool)
        ensures
            r == intersection_of(*self, *other) is Some,
    {
        self.intersection(other).is_some()
    }

    /// The common part of the two segments: a point where they touch or
    /// cross, a segment where they overlap along one line.
    pub fn intersection(&self, other: &Line) -> (r: Option<LineIntersection>)
        ensures
            r == intersection_of(*self, *other),
    {
        let h = intervals_overlap(self.start.x, self.end.x, other.start.x, other.end.x);
        let v = intervals_overlap(self.start.y, self.end.y, other.start.y, other.end.y);
        match (h, v) {
            (Some((h0, h1)), Some((v0, v1))) => {
                if h0 == h1 && v0 == v1 {
                    Some(LineIntersection::Point(Point::new(h0, v0)))
                } else if h0 == h1 {
                    Some(LineIntersection::Line(Line { start: Point::new(h0, v0), end: Point::new(h0, v1) }))
                } else {
                    Some(LineIntersection::Line(Line { start: Point::new(h0, v0), end: Point::new(h1, v0) }))
                }
            },
            _ => None,
        }
    }

    pub fn intersects_half_line(&self, half_line_point: &Point, half_line_dir: Direction) -> (r:
        bool)
        ensures
            r == intersection_of(
                *self,
                Line { start: *half_line_point, end: ray_end(*half_line_point, half_line_dir) },
            ) is Some,
    {
        self.intersection_with_half_line(half_line_point, half_line_dir).is_some()
    }

    /// The common part of the segment and the half line cast from
    /// `half_line_point` in `half_line_dir`.
    pub fn intersection_with_half_line(&self, half_line_point: &Point, half_line_dir: Direction) -> (r:
        Option<LineIntersection>)
        ensures
            r == intersection_of(
                *self,
                Line { start: *half_line_point, end: ray_end(*half_line_point, half_line_dir) },
            ),
    {
        let p = *half_line_point;
        let end = match half_line_dir {
            Direction::UP => Point::new(p.x, i32::MIN),
            Direction::DOWN => Point::new(p.x, i32::MAX),
            Direction::LEFT => Point::new(i32::MIN, p.y),
            Direction::RIGHT => Point::new(i32::MAX, p.y),
            Direction::NONE => p,
        };
        let half_line = Line { start: p, end };
        self.intersection(&half_line)
    }
}


/// The common parts of each segment of `ls1` with `l2`, in order.
pub open spec fn hits_with(ls1: Seq<Line>, l2: Line) -> Seq<LineIntersection>
    decreases ls1.len(),
{
    if ls1.len() == 0 {
        seq![]
    } else {
        let rest = hits_with(ls1.drop_last(), l2);
        match intersection_of(ls1.last(), l2) {
            Some(i) => rest.push(i),
            None => rest,
        }
    }
}

/// For each segment of `ls2` in turn, its common parts with the segments of
/// `ls1`.
pub open spec fn all_hits(ls1: Seq<Line>, ls2: Seq<Line>) -> Seq<LineIntersection>
    decreases ls2.len(),
{
    if ls2.len() == 0 {
        seq![]
    } else {
        all_hits(ls1, ls2.drop_last()) + hits_with(ls1, ls2.last())
    }
}

/// `s` with each run of equal neighbours reduced to one element.
pub open spec fn dedup(s: Seq<LineIntersection>) -> Seq<LineIntersection>
    decreases s.len(),
{
    if s.len() == 0 {
        s
    } else if s.len() >= 2 && s[s.len() - 2] == s.last() {
        dedup(s.drop_last())
    } else {
        dedup(s.drop_last()).push(s.last())
    }
}

proof fn lemma_dedup_last(s: Seq<LineIntersection>)
    requires
        s.len() > 0,
    ensures
        dedup(s).len() > 0,
        dedup(s).last() == s.last(),
    decreases s.len(),
{
    if s.len() >= 2 && s[s.len() - 2] == s.last() {
        lemma_dedup_last(s.drop_last());
    }
}

/// Leaving out repeats empties no sequence.
pub proof fn lemma_dedup_empty(s: Seq<LineIntersection>)
    ensures
        dedup(s).len() == 0 <==> s.len() == 0,
{
    if s.len() > 0 {
        lemma_dedup_last(s);
    }
}

proof fn lemma_dedup_push(s: Seq<LineIntersection>, x: LineIntersection)
    ensures
        dedup(s.push(x)) == if s.len() > 0 && dedup(s).last() == x {
            dedup(s)
        } else {
            dedup(s).push(x)
        },
{
    assert(s.push(x).drop_last() =~= s);
    if s.len() > 0 {
        lemma_dedup_last(s);
    }
}

/// All the places where a segment of `iter2` meets a segment of `iter1`,
/// taken segment of `iter2` by segment, with repeats in a row left out.
pub fn intersections_line_iters(iter1: &Vec<Line>, iter2: &Vec<Line>) -> (r: Vec<LineIntersection>)
    ensures
        r@ == dedup(all_hits(iter1@, iter2@)),
{
    let mut out: Vec<LineIntersection> = Vec::new();
    let ghost mut raw: Seq<LineIntersection> = seq![];
    let mut j: usize = 0;
    while j < iter2.len()
        invariant
            j <= iter2.len(),
            raw == all_hits(iter1@, iter2@.take(j as int)),
            out@ == dedup(raw),
        decreases iter2.len() - j,
    {
        let l2 = iter2[j];
        let ghost before = raw;
        let mut i: usize = 0;
        while i < iter1.len()
            invariant
                i <= iter1.len(),
                j < iter2.len(),
                l2 == iter2@[j as int],
                raw == before + hits_with(iter1@.take(i as int), l2),
                out@ == dedup(raw),
            decreases iter1.len() - i,
        {
            let hit = iter1[i].intersection(&l2);
            proof {
                assert(iter1@.take(i + 1).drop_last() =~= iter1@.take(i as int));
            }
            match hit {
                Some(x) => {
                    proof {
                        lemma_dedup_push(raw, x);
                        if raw.len() > 0 {
                            lemma_dedup_last(raw);
                        }
                    }
                    let n = out.len();
                    if n == 0 || out[n - 1] != x {
                        out.push(x);
                    }
                    proof {
                        assert(before + hits_with(iter1@.take(i + 1), l2) =~= (before
                            + hits_with(iter1@.take(i as int), l2)).push(x));
                        raw = raw.push(x);
                    }
                },
                None => {},
            }
            i = i + 1;
        }
        proof {
            assert(iter1@.take(iter1.len() as int) =~= iter1@);
            assert(iter2@.take(j + 1).drop_last() =~= iter2@.take(j as int));
        }
        j = j + 1;
    }
    proof {
        assert(iter2@.take(iter2.len() as int) =~= iter2@);
    }
    out
}

} // verus!
