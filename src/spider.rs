use vstd::prelude::*;

use crate::path::{appended, path_ok, Path};
use crate::point::{delta, sum_fits, Direction, Point};
use crate::trail::step_from;

verus! {

/// What a spider is: its direction, its position, the path it is tracing if
/// any, and the corners of the box that it cannot leave.
pub struct SpiderView {
    pub dir: Direction,
    pub pos: Point,
    pub path: Option<Seq<Point>>,
    pub upper_left: Point,
    pub lower_right: Point,
}

/// `p` lies in the box with corners `ul` and `lr`, borders included.
pub open spec fn in_box(ul: Point, lr: Point, p: Point) -> bool {
    ul.x <= p.x <= lr.x && ul.y <= p.y <= lr.y
}

/// The player's agent: it moves one step per update inside its box and, while
/// a path is started, traces its moves in that path.
#[derive(Debug)]
pub struct Spider {
    dir_: Direction,
    pos_: Point,
    path_: Option<Path>,
    upper_left_: Point,
    lower_right_: Point,
}

impl View for Spider {
    type V = SpiderView;

    closed spec fn view(&self) -> SpiderView {
        SpiderView {
            dir: self.dir_,
            pos: self.pos_,
            path: match self.path_ {
                Some(p) => Some(p@),
                None => None,
            },
            upper_left: self.upper_left_,
            lower_right: self.lower_right_,
        }
    }
}

impl Spider {
    /// A path being traced ends at the spider.
    pub open spec fn wf(&self) -> bool {
        self@.path matches Some(s) ==> s.len() > 0 && s.last() == self@.pos && path_ok(s)
    }

    pub fn new(pos: Point, dir: Direction, upper_left: Point, lower_right: Point) -> (r: Spider)
        ensures
            r@ == (SpiderView { dir, pos, path: None, upper_left, lower_right }),
            r.wf(),
    {
        Spider { dir_: dir, pos_: pos, path_: None, upper_left_: upper_left, lower_right_: lower_right }
    }

    pub fn pos(&self) -> (r: &Point)
        ensures
            *r == self@.pos,
    {
        &self.pos_
    }

    /// Starts a new path at the current position, dropping any other.
    pub fn start_path(&mut self)
        ensures
            final(self)@ == (SpiderView { path: Some(seq![old(self)@.pos]), ..old(self)@ }),
            final(self).wf(),
    {
        self.path_ = Some(Path::with_start(self.pos_));
    }

    /// Ends tracing and hands back the path traced, if any.
    pub fn stop_path(&mut self) -> (r: Option<Path>)
        ensures
            final(self)@ == (SpiderView { path: None, ..old(self)@ }),
            final(self).wf(),
            r is Some <==> old(self)@.path is Some,
            r matches Some(p) ==> old(self)@.path == Some(p@) && (old(self).wf() ==> p.wf()),
    {
        let r = self.path_.take();
        r
    }

    pub fn has_path(&self) -> (r: bool)
        ensures
            r == self@.path is Some,
    {
        self.path_.is_some()
    }

    pub fn path(&self) -> (r: Option<&Path>)
        ensures
            r is Some <==> self@.path is Some,
            r matches Some(p) ==> self@.path == Some(p@),
    {
        match &self.path_ {
            Some(p) => Some(p),
            None => None,
        }
    }

    /// Steps once in the current direction, unless that leaves the box; the
    /// step is appended to the path being traced.
    pub fn update(&mut self)
        requires
            old(self).wf(),
            sum_fits(old(self)@.pos.x as int, delta(old(self)@.dir).0),
            sum_fits(old(self)@.pos.y as int, delta(old(self)@.dir).1),
        ensures
            final(self).wf(),
            ({
                let np = step_from(old(self)@.pos, old(self)@.dir);
                if in_box(old(self)@.upper_left, old(self)@.lower_right, np) {
                    final(self)@ == SpiderView {
                        pos: np,
                        path: match old(self)@.path {
                            Some(s) => Some(appended(s, np)),
                            None => None,
                        },
                        ..old(self)@
                    }
                } else {
                    final(self)@ == old(self)@
                }
            }),
    {
        let new_pos = self.pos_.add(self.dir_.to_point());
        if !self.pos_in_bounds(&new_pos) {
            return;
        }
        self.pos_ = new_pos;
        match &mut self.path_ {
            Some(path) => {
                let _ = path.add(new_pos);
            },
            None => {},
        }
    }

    pub fn get_dir(&self) -> (r: Direction)
        ensures
            r == self@.dir,
    {
        self.dir_
    }

    pub fn set_dir(&mut self, dir: Direction)
        ensures
            final(self)@ == (SpiderView { dir, ..old(self)@ }),
            old(self).wf() ==> final(self).wf(),
    {
        self.dir_ = dir;
    }

    fn pos_in_bounds(&self, new_pos: &Point) -> (r: bool)
        ensures
            r == in_box(self@.upper_left, self@.lower_right, *new_pos),
    {
        self.upper_left_.x <= new_pos.x && new_pos.x <= self.lower_right_.x
            && self.upper_left_.y <= new_pos.y && new_pos.y <= self.lower_right_.y
    }
}

} // verus!
