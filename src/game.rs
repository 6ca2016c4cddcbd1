use vstd::prelude::*;

use crate::field::Field;
use crate::point::{delta, sum_fits, Direction, Point};
use crate::polygon::{cut_result, inside};
use crate::snake::Snake;
use crate::spider::{in_box, Spider, SpiderView};
use crate::trail::step_from;

verus! {

/// One game: the field, the player's spider and the snake, with the flags for
/// a pause and for the end.
#[derive(Debug)]
pub struct Game {
    field_: Field,
    spider_: Spider,
    snake_: Snake,
    paused_: bool,
    game_over_: bool,
}

/// The spider took its one step of a tick: in its direction, unless that
/// leaves its box.
pub open spec fn spider_moved(before: SpiderView, after: SpiderView) -> bool {
    let np = step_from(before.pos, before.dir);
    &&& after.dir == before.dir
    &&& after.upper_left == before.upper_left
    &&& after.lower_right == before.lower_right
    &&& after.pos == if in_box(before.upper_left, before.lower_right, np) {
        np
    } else {
        before.pos
    }
}

/// The field after `pieces` were cut from its free polygon: the piece whose
/// interior holds `snake` is the free polygon now, and the other is filed
/// last among the pieces cut off.
pub open spec fn cut_kept(before: Field, after: Field, snake: Point, pieces: (Seq<Point>, Seq<Point>)) -> bool {
    let (a, b) = pieces;
    let kept = if inside(a, snake) { a } else { b };
    let filed = if inside(a, snake) { b } else { a };
    &&& after.free_spec() == kept
    &&& after.cut_pieces().len() == before.cut_pieces().len() + 1
    &&& after.cut_pieces().drop_last() == before.cut_pieces()
    &&& after.cut_pieces().last()@ == filed
    &&& after.width_spec() == before.width_spec()
    &&& after.height_spec() == before.height_spec()
}

/// The field after one tick: as it was, or cut along some path.
pub open spec fn field_after_tick(before: Field, after: Field, snake: Point) -> bool {
    after == before || exists|pp: Seq<Point>|
        #[trigger] cut_result(before.free_spec(), pp) is Some && cut_kept(
            before,
            after,
            snake,
            cut_result(before.free_spec(), pp)->Some_0,
        )
}

impl Game {
    pub closed spec fn field_spec(&self) -> Field {
        self.field_
    }

    pub closed spec fn spider_spec(&self) -> SpiderView {
        self.spider_@
    }

    pub closed spec fn snake_spec(&self) -> crate::point::Point {
        self.snake_.pos_spec()
    }

    pub closed spec fn paused_spec(&self) -> bool {
        self.paused_
    }

    pub closed spec fn game_over_spec(&self) -> bool {
        self.game_over_
    }

    pub closed spec fn wf(&self) -> bool {
        self.field_.wf() && self.spider_.wf()
    }

    pub fn new(field: Field, spider: Spider, snake: Snake) -> (r: Game)
        requires
            field.wf(),
            spider.wf(),
        ensures
            r.wf(),
            r.spider_spec() == spider@,
            r.snake_spec() == snake.pos_spec(),
            !r.paused_spec(),
            !r.game_over_spec(),
    {
        Game { field_: field, spider_: spider, snake_: snake, paused_: false, game_over_: false }
    }

    pub fn field(&self) -> (r: &Field)
        ensures
            self.wf() ==> r.wf(),
    {
        &self.field_
    }

    pub fn spider(&self) -> (r: &Spider)
        ensures
            r@ == self.spider_spec(),
    {
        &self.spider_
    }

    pub fn snake(&self) -> (r: &Snake)
        ensures
            r.pos_spec() == self.snake_spec(),
    {
        &self.snake_
    }

    pub fn handle_up(&mut self)
        ensures
            final(self).spider_spec() == (SpiderView { dir: Direction::UP, ..old(self).spider_spec() }),
            final(self).paused_spec() == old(self).paused_spec(),
            final(self).game_over_spec() == old(self).game_over_spec(),
            final(self).snake_spec() == old(self).snake_spec(),
            final(self).field_spec() == old(self).field_spec(),
            old(self).wf() ==> final(self).wf(),
    {
        self.spider_.set_dir(Direction::UP);
    }

    pub fn handle_down(&mut self)
        ensures
            final(self).spider_spec() == (SpiderView { dir: Direction::DOWN, ..old(self).spider_spec() }),
            final(self).paused_spec() == old(self).paused_spec(),
            final(self).game_over_spec() == old(self).game_over_spec(),
            final(self).snake_spec() == old(self).snake_spec(),
            final(self).field_spec() == old(self).field_spec(),
            old(self).wf() ==> final(self).wf(),
    {
        self.spider_.set_dir(Direction::DOWN);
    }

    pub fn handle_left(&mut self)
        ensures
            final(self).spider_spec() == (SpiderView { dir: Direction::LEFT, ..old(self).spider_spec() }),
            final(self).paused_spec() == old(self).paused_spec(),
            final(self).game_over_spec() == old(self).game_over_spec(),
            final(self).snake_spec() == old(self).snake_spec(),
            final(self).field_spec() == old(self).field_spec(),
            old(self).wf() ==> final(self).wf(),
    {
        self.spider_.set_dir(Direction::LEFT);
    }

    pub fn handle_right(&mut self)
        ensures
            final(self).spider_spec() == (SpiderView { dir: Direction::RIGHT, ..old(self).spider_spec() }),
            final(self).paused_spec() == old(self).paused_spec(),
            final(self).game_over_spec() == old(self).game_over_spec(),
            final(self).snake_spec() == old(self).snake_spec(),
            final(self).field_spec() == old(self).field_spec(),
            old(self).wf() ==> final(self).wf(),
    {
        self.spider_.set_dir(Direction::RIGHT);
    }

    pub fn handle_stop(&mut self)
        ensures
            final(self).spider_spec() == (SpiderView { dir: Direction::NONE, ..old(self).spider_spec() }),
            final(self).paused_spec() == old(self).paused_spec(),
            final(self).game_over_spec() == old(self).game_over_spec(),
            final(self).snake_spec() == old(self).snake_spec(),
            final(self).field_spec() == old(self).field_spec(),
            old(self).wf() ==> final(self).wf(),
    {
        self.spider_.set_dir(Direction::NONE);
    }

    /// Pauses a running game, resumes a paused one.
    pub fn handle_pause(&mut self)
        ensures
            final(self).paused_spec() == !old(self).paused_spec(),
            final(self).game_over_spec() == old(self).game_over_spec(),
            final(self).spider_spec() == old(self).spider_spec(),
            final(self).snake_spec() == old(self).snake_spec(),
            final(self).field_spec() == old(self).field_spec(),
            old(self).wf() ==> final(self).wf(),
    {
        self.paused_ = !self.paused_;
    }

    /// One tick: the snake moves, then the spider; where the spider leaves
    /// the free polygon's interior after tracing a path through it, the field
    /// is cut along that path and the piece with the snake stays free. The
    /// game ends when the snake meets the spider. A paused or ended game does
    /// not change.
    pub fn update_state(&mut self)
        requires
            old(self).wf(),
            !(old(self).game_over_spec() || old(self).paused_spec()) ==> {
                &&& i32::MIN < old(self).snake_spec().x < i32::MAX
                &&& i32::MIN < old(self).snake_spec().y < i32::MAX
                &&& sum_fits(old(self).spider_spec().pos.x as int, delta(old(self).spider_spec().dir).0)
                &&& sum_fits(old(self).spider_spec().pos.y as int, delta(old(self).spider_spec().dir).1)
            },
        ensures
            final(self).wf(),
            final(self).paused_spec() == old(self).paused_spec(),
            old(self).game_over_spec() || old(self).paused_spec() ==> final(self).spider_spec()
                == old(self).spider_spec() && final(self).snake_spec() == old(self).snake_spec()
                && final(self).game_over_spec() == old(self).game_over_spec()
                && final(self).field_spec() == old(self).field_spec(),
            !(old(self).game_over_spec() || old(self).paused_spec()) ==> field_after_tick(
                old(self).field_spec(),
                final(self).field_spec(),
                final(self).snake_spec(),
            ),
            !(old(self).game_over_spec() || old(self).paused_spec()) ==> final(self).game_over_spec()
                == (final(self).spider_spec().pos == final(self).snake_spec()) && spider_moved(
                old(self).spider_spec(),
                final(self).spider_spec(),
            ) && exists|d: Direction| final(self).snake_spec() == #[trigger] step_from(old(self).snake_spec(), d),
    {
        if self.game_over_ || self.paused_ {
            return;
        }
        self.update_snake();
        self.update_spider();
        if *self.spider_.pos() == *self.snake_.pos() {
            self.game_over_ = true;
        }
    }

    fn update_snake(&mut self)
        requires
            old(self).wf(),
            i32::MIN < old(self).snake_spec().x < i32::MAX,
            i32::MIN < old(self).snake_spec().y < i32::MAX,
        ensures
            final(self).wf(),
            exists|d: Direction| final(self).snake_spec() == #[trigger] step_from(old(self).snake_spec(), d),
            final(self).spider_spec() == old(self).spider_spec(),
            final(self).field_spec() == old(self).field_spec(),
            final(self).paused_spec() == old(self).paused_spec(),
            final(self).game_over_spec() == old(self).game_over_spec(),
    {
        let dir = self.snake_.next_step(&self.field_, &self.spider_);
        let new_pos = self.snake_.pos().add(dir.to_point());
        self.snake_.set_pos(new_pos);
        assert(self.snake_spec() == step_from(old(self).snake_spec(), dir));
    }

    fn update_spider(&mut self)
        requires
            old(self).wf(),
            sum_fits(old(self).spider_spec().pos.x as int, delta(old(self).spider_spec().dir).0),
            sum_fits(old(self).spider_spec().pos.y as int, delta(old(self).spider_spec().dir).1),
        ensures
            final(self).wf(),
            final(self).snake_spec() == old(self).snake_spec(),
            final(self).paused_spec() == old(self).paused_spec(),
            final(self).game_over_spec() == old(self).game_over_spec(),
            spider_moved(old(self).spider_spec(), final(self).spider_spec()),
            field_after_tick(old(self).field_spec(), final(self).field_spec(), final(self).snake_spec()),
    {
        let ghost f0 = self.field_;
        if !self.field_.free_polygon().is_inside(self.spider_.pos()) {
            self.spider_.start_path();
        }
        self.spider_.update();
        if !self.field_.free_polygon().is_inside(self.spider_.pos()) {
            if let Some(path) = self.spider_.stop_path() {
                if let Some((poly1, poly2)) = self.field_.free_polygon().cut(&path) {
                    let ghost pieces = (poly1@, poly2@);
                    let ghost pp = path@;
                    if poly1.is_inside(self.snake_.pos()) {
                        self.field_.cut(poly1, poly2);
                    } else {
                        self.field_.cut(poly2, poly1);
                    }
                    assert(self.field_.cut_pieces().drop_last() =~= f0.cut_pieces());
                    assert(cut_kept(f0, self.field_, self.snake_spec(), pieces));
                    assert(cut_result(f0.free_spec(), pp) is Some);
                }
            }
        }
    }
}

} // verus!
