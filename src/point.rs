use vstd::prelude::*;

verus! {

/// An integer point of the plane; `y` grows downwards.
#[derive(Clone, Copy, Debug, PartialEq, Eq, Structural)]
pub struct Point {
    pub x: i32,
    pub y: i32,
}

/// True when `x` and `y` can be added without leaving `i32`.
pub open spec fn sum_fits(a: int, b: int) -> bool {
    i32::MIN <= a + b <= i32::MAX
}

impl Point {
    pub fn new(x: i32, y: i32) -> (r: Point)
        ensures
            r.x == x,
            r.y == y,
    {
        Point { x, y }
    }

    pub fn origin() -> (r: Point)
        ensures
            r.x == 0,
            r.y == 0,
    {
        Point::new(0, 0)
    }

    /// Vector addition.
    pub fn add(&self, other: Point) -> (r: Point)
        requires
            sum_fits(self.x as int, other.x as int),
            sum_fits(self.y as int, other.y as int),
        ensures
            r.x == self.x + other.x,
            r.y == self.y + other.y,
    {
        Point::new(self.x + other.x, self.y + other.y)
    }
}

/// One of the four moves on the grid, or no move at all.
#[derive(Clone, Copy, Debug, PartialEq, Eq, Structural)]
pub enum Direction {
    UP,
    DOWN,
    LEFT,
    RIGHT,
    NONE,
}

/// The unit step that a direction stands for.
pub open spec fn delta(d: Direction) -> (int, int) {
    match d {
        Direction::UP => (0, -1),
        Direction::DOWN => (0, 1),
        Direction::LEFT => (-1, 0),
        Direction::RIGHT => (1, 0),
        Direction::NONE => (0, 0),
    }
}

impl Direction {
    pub fn to_point(&self) -> (r: Point)
        ensures
            r.x == delta(*self).0,
            r.y == delta(*self).1,
    {
        match self {
            Direction::UP => Point::new(0, -1),
            Direction::DOWN => Point::new(0, 1),
            Direction::LEFT => Point::new(-1, 0),
            Direction::RIGHT => Point::new(1, 0),
            Direction::NONE => Point::new(0, 0),
        }
    }
}

} // verus!
