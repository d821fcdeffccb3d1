use vstd::prelude::*;

verus! {

/// A point in logical or physical coordinates.
#[derive(Clone, Copy, Debug, PartialEq, Eq, Structural)]
pub struct Point {
    pub x: i32,
    pub y: i32,
}

/// A width and height.
#[derive(Clone, Copy, Debug, PartialEq, Eq, Structural)]
pub struct Size {
    pub w: i32,
    pub h: i32,
}

/// An axis-aligned rectangle: its top-left corner and its size.
#[derive(Clone, Copy, Debug, PartialEq, Eq, Structural)]
pub struct Rect {
    pub loc: Point,
    pub size: Size,
}

/// Division that rounds toward zero, as Rust's `/` does on signed integers.
pub open spec fn tdiv(a: int, b: int) -> int
    recommends
        b > 0,
{
    if a >= 0 {
        a / b
    } else {
        -((-a) / b)
    }
}

pub open spec fn fits_i32(v: int) -> bool {
    i32::MIN <= v <= i32::MAX
}

impl Point {
    pub fn new(x: i32, y: i32) -> (p: Point)
        ensures
            p.x == x,
            p.y == y,
    {
        Point { x, y }
    }
}

impl Size {
    pub fn new(w: i32, h: i32) -> (s: Size)
        ensures
            s.w == w,
            s.h == h,
    {
        Size { w, h }
    }
}

impl Rect {
    pub fn new(x: i32, y: i32, w: i32, h: i32) -> (r: Rect)
        ensures
            r.loc.x == x,
            r.loc.y == y,
            r.size.w == w,
            r.size.h == h,
    {
        Rect { loc: Point { x, y }, size: Size { w, h } }
    }

    /// A rectangle of the given size at the origin.
    pub fn from_size(w: i32, h: i32) -> (r: Rect)
        ensures
            r.loc.x == 0,
            r.loc.y == 0,
            r.size.w == w,
            r.size.h == h,
    {
        Rect { loc: Point { x: 0, y: 0 }, size: Size { w, h } }
    }

    pub open spec fn spec_from_size(w: i32, h: i32) -> Rect {
        Rect { loc: Point { x: 0, y: 0 }, size: Size { w, h } }
    }

    pub open spec fn right(self) -> int {
        self.loc.x + self.size.w
    }

    pub open spec fn bottom(self) -> int {
        self.loc.y + self.size.h
    }

    /// `other` lies inside `self` (edges may touch).
    pub open spec fn covers(self, other: Rect) -> bool {
        &&& self.loc.x <= other.loc.x
        &&& self.loc.y <= other.loc.y
        &&& self.right() >= other.right()
        &&& self.bottom() >= other.bottom()
    }

    /// Whether `other` lies inside `self`, edges included.
    pub fn contains_rect(&self, other: &Rect) -> (b: bool)
        ensures
            b == self.covers(*other),
    {
        let self_right = self.loc.x as i64 + self.size.w as i64;
        let self_bottom = self.loc.y as i64 + self.size.h as i64;
        let other_right = other.loc.x as i64 + other.size.w as i64;
        let other_bottom = other.loc.y as i64 + other.size.h as i64;
        self.loc.x <= other.loc.x && self.loc.y <= other.loc.y && self_right >= other_right
            && self_bottom >= other_bottom
    }
}

} // verus!
