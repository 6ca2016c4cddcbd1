use vstd::prelude::*;

use crate::line::{collinear3, on_segment};
use crate::path::push_point;
use crate::point::{delta, sum_fits, Direction, Point};

verus! {

/// The three points lie on one vertical or one horizontal line.
pub fn collinear(p1: Point, p2: Point, p3: Point) -> (r: bool)
    ensures
        r == collinear3(p1, p2, p3),
{
    (p1.x == p2.x && p2.x == p3.x) || (p1.y == p2.y && p2.y == p3.y)
}

/// `p` lies on the axis-aligned segment from `start` to `end`.
pub fn line_contains(start: Point, end: Point, p: Point) -> (r: bool)
    ensures
        r == on_segment(start, end, p),
{
    if start.x == end.x && end.x == p.x {
        (start.y <= p.y && p.y <= end.y) || (end.y <= p.y && p.y <= start.y)
    } else if start.y == end.y && end.y == p.y {
        (start.x <= p.x && p.x <= end.x) || (end.x <= p.x && p.x <= start.x)
    } else {
        false
    }
}

/// A walker that records its whole trail: it moves one step per update in
/// its direction, removing the loops it closes and merging straight runs.
#[derive(Debug)]
pub struct Spider {
    pub dir: Direction,
    pub points: Vec<Point>,
}

/// The position one step from `p` in direction `d`.
pub open spec fn step_from(p: Point, d: Direction) -> Point {
    Point { x: (p.x + delta(d).0) as i32, y: (p.y + delta(d).1) as i32 }
}

impl Spider {
    pub fn new(pos: Point, dir: Direction) -> (r: Spider)
        ensures
            r.dir == dir,
            r.points@ == seq![pos],
    {
        let mut points: Vec<Point> = Vec::new();
        points.push(pos);
        Spider { dir, points }
    }

    /// The end of the trail.
    pub fn get_pos(&self) -> (r: Point)
        requires
            self.points@.len() > 0,
        ensures
            r == self.points@.last(),
    {
        self.points[self.points.len() - 1]
    }

    pub fn get_points(&self) -> (r: &[Point])
        ensures
            r@ == self.points@,
    {
        self.points.as_slice()
    }

    /// Takes one step in the current direction; no step for `NONE`.
    pub fn update(&mut self)
        requires
            old(self).points@.len() > 0,
            sum_fits(old(self).points@.last().x as int, delta(old(self).dir).0),
            sum_fits(old(self).points@.last().y as int, delta(old(self).dir).1),
        ensures
            final(self).dir == old(self).dir,
            old(self).dir == Direction::NONE ==> final(self).points@ == old(self).points@,
            old(self).dir != Direction::NONE ==> final(self).points@ == push_point(
                old(self).points@,
                step_from(old(self).points@.last(), old(self).dir),
            ),
            final(self).points@.len() > 0,
    {
        if self.dir == Direction::NONE {
            return;
        }
        let pos = self.get_pos();
        let new_pos = pos.add(self.dir.to_point());
        let ghost s0 = self.points@;
        let mut cut: Option<usize> = None;
        let n = self.points.len();
        let mut i: usize = 0;
        while cut.is_none() && i + 1 < n
            invariant
                n == self.points@.len(),
                self.points@ == s0,
                i + 1 <= n,
                cut is None ==> crate::path::insertion_from(s0, i as int, new_pos)
                    == crate::path::insertion_index(s0, new_pos),
                cut matches Some(k) ==> crate::path::insertion_index(s0, new_pos) == Some(k as int),
            decreases n - i + (if cut is None { 1int } else { 0int }),
        {
            if line_contains(self.points[i], self.points[i + 1], new_pos) {
                cut = Some(i + 1);
            } else {
                i = i + 1;
            }
        }
        proof {
            crate::path::lemma_insertion_from(s0, 0, new_pos);
            if cut is None {
                assert(crate::path::insertion_from(s0, i as int, new_pos) is None);
            }
        }
        if let Some(k) = cut {
            self.points.truncate(k);
        }
        assert(self.points@ == crate::path::cut_loop(s0, new_pos));
        let m = self.points.len();
        if m >= 2 && collinear(self.points[m - 2], self.points[m - 1], new_pos) {
            self.points.pop();
        }
        let k = self.points.len();
        if k == 0 || self.points[k - 1] != new_pos {
            self.points.push(new_pos);
        }
    }

    pub fn get_dir(&self) -> (r: Direction)
        ensures
            r == self.dir,
    {
        self.dir
    }

    pub fn set_dir(&mut self, dir: Direction)
        ensures
            final(self).dir == dir,
            final(self).points@ == old(self).points@,
    {
        self.dir = dir;
    }
}

} // verus!
