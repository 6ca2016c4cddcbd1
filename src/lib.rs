//! Rectilinear geometry for a field-carving game: points, axis-aligned
//! segments, self-correcting paths and simple orthogonal polygons that can be
//! cut in two along an interior path, with the game pieces built on them.

pub mod line;
pub mod path;
pub mod point;
pub mod polygon;

pub mod remember;
pub mod skip_last;

pub mod field;
pub mod game;
pub mod router;
pub mod snake;
pub mod spider;
pub mod trail;
