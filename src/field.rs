use vstd::prelude::*;

use crate::line::{collinear3, intersection_of, Line};
use crate::path::{crossing_from, insertion_from, push_point, seg, Path};
use crate::polygon::{area_of, closing, closing_crossed, normalized, Polygon};
use crate::point::Point;

verus! {

/// The playing field: the polygon still free and the pieces cut off it so far.
#[derive(Debug)]
pub struct Field {
    width_: i32,
    height_: i32,
    free_polygon_: Polygon,
    cut_polygons_: Vec<Polygon>,
}

/// The corners of the field of the given size, clockwise on screen from the origin.
pub open spec fn rectangle(width: i32, height: i32) -> Seq<Point> {
    seq![
        Point { x: 0, y: 0 },
        Point { x: width, y: 0 },
        Point { x: width, y: height },
        Point { x: 0, y: height },
    ]
}

impl Field {
    pub closed spec fn free_spec(&self) -> Seq<Point> {
        self.free_polygon_@
    }

    /// The pieces cut off so far, oldest first.
    pub closed spec fn cut_pieces(&self) -> Seq<Polygon> {
        self.cut_polygons_@
    }

    pub closed spec fn width_spec(&self) -> i32 {
        self.width_
    }

    pub closed spec fn height_spec(&self) -> i32 {
        self.height_
    }

    pub closed spec fn wf(&self) -> bool {
        self.free_polygon_.wf()
    }

    /// A field whose free polygon is the whole rectangle of the given size.
    pub fn new(width: i32, height: i32) -> (r: Field)
        requires
            width != 0,
            height != 0,
        ensures
            r.free_spec() == rectangle(width, height),
            r.cut_pieces().len() == 0,
            r.width_spec() == width,
            r.height_spec() == height,
            r.wf(),
    {
        let p0 = Point::new(0, 0);
        let p1 = Point::new(width, 0);
        let p2 = Point::new(width, height);
        let p3 = Point::new(0, height);
        let mut path = Path::with_start(p0);
        let _ = path.add(p1);
        proof {
            let s = seq![p0];
            assert(crossing_from(s, 0, Line { start: p0, end: p1 }) is None);
            assert(insertion_from(s, 0, p1) is None);
            assert(push_point(s, p1) =~= seq![p0, p1]);
        }
        let _ = path.add(p2);
        proof {
            let s = seq![p0, p1];
            assert(crossing_from(s, 0, Line { start: p1, end: p2 }) is None);
            assert(insertion_from(s, 1, p2) is None);
            assert(insertion_from(s, 0, p2) is None);
            assert(push_point(s, p2) =~= seq![p0, p1, p2]);
        }
        let _ = path.add(p3);
        proof {
            let s = seq![p0, p1, p2];
            let nl = Line { start: p2, end: p3 };
            assert(crossing_from(s, 1, nl) is None);
            assert(intersection_of(seg(s, 0), nl) is None);
            assert(crossing_from(s, 0, nl) is None);
            assert(insertion_from(s, 2, p3) is None);
            assert(insertion_from(s, 1, p3) is None);
            assert(insertion_from(s, 0, p3) is None);
            assert(push_point(s, p3) =~= seq![p0, p1, p2, p3]);
        }
        assert(path@ =~= rectangle(width, height));
        proof {
            let t = rectangle(width, height);
            assert(!collinear3(t.last(), t[0], t[2]));
            assert(normalized(t) == t);
            assert(intersection_of(seg(t, 1), closing(t)) is None);
            assert(!closing_crossed(t));
        }
        let poly = Polygon::with_path(path).unwrap();
        Field { width_: width, height_: height, free_polygon_: poly, cut_polygons_: Vec::new() }
    }

    pub fn width(&self) -> (r: i32)
        ensures
            r == self.width_spec(),
    {
        self.width_
    }

    pub fn height(&self) -> (r: i32)
        ensures
            r == self.height_spec(),
    {
        self.height_
    }

    pub fn free_polygon(&self) -> (r: &Polygon)
        ensures
            r@ == self.free_spec(),
            self.wf() ==> r.wf(),
    {
        &self.free_polygon_
    }

    pub fn cut_polygons(&self) -> (r: &[Polygon])
        ensures
            r@ == self.cut_pieces(),
    {
        self.cut_polygons_.as_slice()
    }

    /// Makes `new_free_polygon` the free polygon and files `cut_polygon`
    /// with the pieces cut off.
    pub fn cut(&mut self, new_free_polygon: Polygon, cut_polygon: Polygon)
        requires
            new_free_polygon.wf(),
        ensures
            final(self).free_spec() == new_free_polygon@,
            final(self).cut_pieces() == old(self).cut_pieces().push(cut_polygon),
            final(self).width_spec() == old(self).width_spec(),
            final(self).height_spec() == old(self).height_spec(),
            final(self).wf(),
    {
        self.free_polygon_ = new_free_polygon;
        self.cut_polygons_.push(cut_polygon);
    }

    /// The area of the free polygon, or `None` where it does not fit in `i32`.
    pub fn checked_free_area(&self) -> (r: Option<i32>)
        ensures
            r is Some <==> area_of(self.free_spec()) <= i32::MAX,
            r matches Some(a) ==> a == area_of(self.free_spec()),
    {
        self.free_polygon_.checked_area()
    }

    /// The area of the free polygon.
    pub fn free_area(&self) -> (r: i32)
        requires
            area_of(self.free_spec()) <= i32::MAX,
        ensures
            r == area_of(self.free_spec()),
    {
        self.free_polygon_.area()
    }
}

} // verus!
