//! Integer geometry: points, sizes, vectors and rectangles whose coordinates
//! are signed 32-bit integers, tagged with the coordinate space they live in.

use vstd::prelude::*;
use core::marker::PhantomData;

verus! {

/// A position in the coordinate space `U`.
#[derive(Debug, PartialEq, Eq, Hash)]
pub struct Point2D<U> {
    pub x: i32,
    pub y: i32,
    pub unit: PhantomData<U>,
}

/// A displacement in the coordinate space `U`.
#[derive(Debug, PartialEq, Eq, Hash)]
pub struct Vector2D<U> {
    pub x: i32,
    pub y: i32,
    pub unit: PhantomData<U>,
}

/// An extent in the coordinate space `U`.
#[derive(Debug, PartialEq, Eq, Hash)]
pub struct Size2D<U> {
    pub width: i32,
    pub height: i32,
    pub unit: PhantomData<U>,
}

/// An axis-aligned rectangle; `origin` is its top-left corner.
#[derive(Debug, PartialEq, Eq, Hash)]
pub struct Rect<U> {
    pub origin: Point2D<U>,
    pub size: Size2D<U>,
}

/// A factor that takes lengths of the space `Src` to lengths of the space `Dst`.
#[derive(Debug, PartialEq, Eq, Hash)]
pub struct Scale<Src, Dst> {
    pub factor: i32,
    pub unit: PhantomData<(Src, Dst)>,
}

impl<U> Clone for Point2D<U> {
    fn clone(&self) -> (r: Self)
        ensures
            r == *self,
    {
        *self
    }
}

impl<U> Copy for Point2D<U> {

}

impl<U> Clone for Vector2D<U> {
    fn clone(&self) -> (r: Self)
        ensures
            r == *self,
    {
        *self
    }
}

impl<U> Copy for Vector2D<U> {

}

impl<U> Clone for Size2D<U> {
    fn clone(&self) -> (r: Self)
        ensures
            r == *self,
    {
        *self
    }
}

impl<U> Copy for Size2D<U> {

}

impl<U> Clone for Rect<U> {
    fn clone(&self) -> (r: Self)
        ensures
            r == *self,
    {
        *self
    }
}

impl<U> Copy for Rect<U> {

}

impl<Src, Dst> Clone for Scale<Src, Dst> {
    fn clone(&self) -> (r: Self)
        ensures
            r == *self,
    {
        *self
    }
}

impl<Src, Dst> Copy for Scale<Src, Dst> {

}

impl<U> Point2D<U> {
    pub open spec fn at(x: int, y: int) -> Self {
        Point2D { x: x as i32, y: y as i32, unit: PhantomData }
    }

    pub fn new(x: i32, y: i32) -> (p: Self)
        ensures
            p == Self::at(x as int, y as int),
    {
        Point2D { x, y, unit: PhantomData }
    }

    pub fn origin() -> (p: Self)
        ensures
            p == Self::at(0, 0),
    {
        Point2D { x: 0, y: 0, unit: PhantomData }
    }

    /// The point moved by `v`.
    pub open spec fn moved(self, v: Vector2D<U>) -> Self {
        Self::at(self.x + v.x, self.y + v.y)
    }

    /// Whether moving the point by `v` stays inside the machine integers.
    pub open spec fn can_move(self, v: Vector2D<U>) -> bool {
        &&& i32::MIN <= self.x + v.x <= i32::MAX
        &&& i32::MIN <= self.y + v.y <= i32::MAX
    }

    pub fn translate(self, v: Vector2D<U>) -> (p: Self)
        requires
            self.can_move(v),
        ensures
            p == self.moved(v),
    {
        Point2D { x: self.x + v.x, y: self.y + v.y, unit: PhantomData }
    }

    pub fn to_vector(self) -> (v: Vector2D<U>)
        ensures
            v == Vector2D::<U>::of(self.x as int, self.y as int),
    {
        Vector2D { x: self.x, y: self.y, unit: PhantomData }
    }
}

impl<U> Vector2D<U> {
    pub open spec fn of(x: int, y: int) -> Self {
        Vector2D { x: x as i32, y: y as i32, unit: PhantomData }
    }

    pub fn new(x: i32, y: i32) -> (v: Self)
        ensures
            v == Self::of(x as int, y as int),
    {
        Vector2D { x, y, unit: PhantomData }
    }

    pub fn zero() -> (v: Self)
        ensures
            v == Self::of(0, 0),
    {
        Vector2D { x: 0, y: 0, unit: PhantomData }
    }
}

impl<U> Size2D<U> {
    pub open spec fn of(width: int, height: int) -> Self {
        Size2D { width: width as i32, height: height as i32, unit: PhantomData }
    }

    pub fn new(width: i32, height: i32) -> (s: Self)
        ensures
            s == Self::of(width as int, height as int),
    {
        Size2D { width, height, unit: PhantomData }
    }

    /// The number of points of a size with no negative side.
    pub open spec fn area(self) -> int {
        self.width * self.height
    }

    /// The rectangle of this size whose corner is the origin.
    pub open spec fn as_rect(self) -> Rect<U> {
        Rect { origin: Point2D::at(0, 0), size: self }
    }

    pub fn to_rect(self) -> (r: Rect<U>)
        ensures
            r == self.as_rect(),
    {
        Rect { origin: Point2D::origin(), size: self }
    }

}

impl<U> Rect<U> {
    pub fn new(origin: Point2D<U>, size: Size2D<U>) -> (r: Self)
        ensures
            r.origin == origin,
            r.size == size,
    {
        Rect { origin, size }
    }

    /// The first column right of the rectangle.
    pub open spec fn max_x(self) -> int {
        self.origin.x + self.size.width
    }

    /// The first row below the rectangle.
    pub open spec fn max_y(self) -> int {
        self.origin.y + self.size.height
    }

    /// Whether the far corner of the rectangle is a machine integer.
    pub open spec fn fits(self) -> bool {
        &&& i32::MIN <= self.max_x() <= i32::MAX
        &&& i32::MIN <= self.max_y() <= i32::MAX
    }

    /// Whether `p` lies in the rectangle. The top and left edges belong to
    /// it, the bottom and right edges do not.
    pub open spec fn contains_point(self, p: Point2D<U>) -> bool {
        &&& self.origin.x <= p.x < self.max_x()
        &&& self.origin.y <= p.y < self.max_y()
    }

    /// Whether the two rectangles share a point.
    pub open spec fn overlaps(self, other: Rect<U>) -> bool {
        &&& self.origin.x < other.max_x()
        &&& self.max_x() > other.origin.x
        &&& self.origin.y < other.max_y()
        &&& self.max_y() > other.origin.y
    }

    pub fn width(&self) -> (w: i32)
        ensures
            w == self.size.width,
    {
        self.size.width
    }

    pub fn height(&self) -> (h: i32)
        ensures
            h == self.size.height,
    {
        self.size.height
    }

    pub fn contains(&self, p: Point2D<U>) -> (b: bool)
        requires
            self.fits(),
        ensures
            b == self.contains_point(p),
    {
        self.origin.x <= p.x && p.x < self.origin.x + self.size.width && self.origin.y <= p.y
            && p.y < self.origin.y + self.size.height
    }

    pub fn intersects(&self, other: &Rect<U>) -> (b: bool)
        requires
            self.fits(),
            other.fits(),
        ensures
            b == self.overlaps(*other),
    {
        self.origin.x < other.origin.x + other.size.width && self.origin.x + self.size.width
            > other.origin.x && self.origin.y < other.origin.y + other.size.height && self.origin.y
            + self.size.height > other.origin.y
    }

}

/// What has points to walk: a rectangle, or a size taken as the rectangle
/// at the origin.
pub trait PointIterExt<U> {
    /// The rectangle whose points are walked.
    spec fn walked(&self) -> Rect<U>;

    /// A cursor on the first point of the rectangle.
    fn point_iter(&self) -> (it: PointIterator<U>)
        ensures
            it.rect == self.walked(),
            it.i == self.walked().origin,
    ;
}

impl<U> PointIterExt<U> for Rect<U> {
    open spec fn walked(&self) -> Rect<U> {
        *self
    }

    fn point_iter(&self) -> (it: PointIterator<U>) {
        PointIterator { i: self.origin, rect: *self }
    }
}

impl<U> PointIterExt<U> for Size2D<U> {
    open spec fn walked(&self) -> Rect<U> {
        self.as_rect()
    }

    fn point_iter(&self) -> (it: PointIterator<U>) {
        PointIterator { i: Point2D::origin(), rect: self.to_rect() }
    }
}

impl<Src, Dst> Scale<Src, Dst> {
    pub fn new(factor: i32) -> (s: Self)
        ensures
            s.factor == factor,
    {
        Scale { factor, unit: PhantomData }
    }

    /// The size with both sides multiplied by the factor.
    pub open spec fn scaled(self, size: Size2D<Src>) -> Size2D<Dst> {
        Size2D::of(size.width * self.factor, size.height * self.factor)
    }

    pub fn apply(&self, size: Size2D<Src>) -> (r: Size2D<Dst>)
        requires
            i32::MIN <= size.width * self.factor <= i32::MAX,
            i32::MIN <= size.height * self.factor <= i32::MAX,
        ensures
            r == self.scaled(size),
    {
        Size2D { width: size.width * self.factor, height: size.height * self.factor, unit: PhantomData }
    }
}

/// A cursor over the points of a rectangle in reading order: left to right
/// within a row, rows from top to bottom.
pub struct PointIterator<U> {
    pub i: Point2D<U>,
    pub rect: Rect<U>,
}

impl<U> PointIterator<U> {
    /// The cursor stands in a column of the rectangle, not above its first
    /// row, and the rectangle's far corner is a machine integer.
    pub open spec fn wf(self) -> bool {
        &&& self.rect.fits()
        &&& self.rect.origin.y <= self.i.y
        &&& (self.rect.size.width > 0 ==> self.rect.origin.x <= self.i.x < self.rect.max_x())
    }

    /// Whether the cursor has gone past `p`, a point of the rectangle.
    pub open spec fn passed(self, p: Point2D<U>) -> bool {
        p.y < self.i.y || (p.y == self.i.y && p.x < self.i.x)
    }

    /// Where the cursor stands after it has yielded the point it is on.
    pub open spec fn successor(self) -> Point2D<U> {
        if self.i.x == self.rect.max_x() - 1 {
            Point2D::at(self.rect.origin.x as int, self.i.y + 1)
        } else {
            Point2D::at(self.i.x + 1, self.i.y as int)
        }
    }

    /// Rows that the cursor has not finished.
    pub open spec fn rows_left(self) -> int {
        if self.rect.max_y() > self.i.y {
            self.rect.max_y() - self.i.y
        } else {
            0
        }
    }

    /// Columns of the current row that the cursor has not yielded.
    pub open spec fn cols_left(self) -> int {
        if self.rect.max_x() > self.i.x {
            self.rect.max_x() - self.i.x
        } else {
            0
        }
    }

    /// Whether this cursor has strictly less of its rectangle ahead of it
    /// than `earlier` has: fewer rows, or as many rows and fewer columns.
    pub open spec fn closer_to_end_than(self, earlier: Self) -> bool {
        ||| self.rows_left() < earlier.rows_left()
        ||| (self.rows_left() == earlier.rows_left() && self.cols_left() < earlier.cols_left())
    }

    fn advance(&mut self)
        requires
            old(self).wf(),
            old(self).rect.contains_point(old(self).i),
        ensures
            final(self).rect == old(self).rect,
            final(self).i == old(self).successor(),
            final(self).wf(),
    {
        let right_side = self.rect.origin.x + self.rect.size.width - 1;
        if self.i.x == right_side {
            self.i.x = self.rect.origin.x;
            self.i.y = self.i.y + 1;
        } else {
            self.i.x = self.i.x + 1;
        }
    }

    /// Yields the point under the cursor and moves on, or `None` once the
    /// cursor has left the rectangle.
    pub fn next(&mut self) -> (r: Option<Point2D<U>>)
        requires
            old(self).wf(),
        ensures
            final(self).rect == old(self).rect,
            final(self).wf(),
            match r {
                Some(p) => {
                    &&& p == old(self).i
                    &&& old(self).rect.contains_point(p)
                    &&& final(self).i == old(self).successor()
                    &&& final(self).closer_to_end_than(*old(self))
                },
                None => {
                    &&& !old(self).rect.contains_point(old(self).i)
                    &&& final(self).i == old(self).i
                },
            },
    {
        if !self.rect.contains(self.i) {
            None
        } else {
            let ret = self.i;
            self.advance();
            Some(ret)
        }
    }
}

} // verus!
