use vstd::prelude::*;

use rand::seq::SliceRandom;

use crate::field::Field;
use crate::point::{Direction, Point};
use crate::spider::Spider;

verus! {

/// Relies on rand's `SliceRandom::choose` with the thread-local generator:
/// `None` for an empty slice, else one of the slice's elements.
#[verifier::external_body]
fn choose_direction(dirs: &[Direction]) -> (r: Option<Direction>)
    ensures
        r is None <==> dirs@.len() == 0,
        r matches Some(d) ==> dirs@.contains(d),
{
    dirs.choose(&mut rand::thread_rng()).copied()
}

/// The pursuer.
#[derive(Debug)]
pub struct Snake {
    pos_: Point,
}

impl Snake {
    pub closed spec fn pos_spec(&self) -> Point {
        self.pos_
    }

    pub fn new(pos: Point) -> (r: Snake)
        ensures
            r.pos_spec() == pos,
    {
        Snake { pos_: pos }
    }

    /// The next move, drawn at random among the four moves and standing still.
    pub fn next_step(&self, _field: &Field, _spider: &Spider) -> (r: Direction) {
        let directions = vec![
            Direction::UP,
            Direction::LEFT,
            Direction::DOWN,
            Direction::RIGHT,
            Direction::NONE,
        ];
        match choose_direction(directions.as_slice()) {
            Some(d) => d,
            None => Direction::NONE,
        }
    }

    pub fn pos(&self) -> (r: &Point)
        ensures
            *r == self.pos_spec(),
    {
        &self.pos_
    }

    pub fn set_pos(&mut self, point: Point)
        ensures
            final(self).pos_spec() == point,
    {
        self.pos_ = point;
    }
}

} // verus!
