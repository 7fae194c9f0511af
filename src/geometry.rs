use vstd::prelude::*;

verus! {

/// A cell-space position.
#[derive(Clone, Copy, Debug, PartialEq, Eq, Structural)]
pub struct Point {
    pub x: i32,
    pub y: i32,
}

/// A rectangle given by two corners; `x1..x2` by `y1..y2`, the far edges excluded.
#[derive(Clone, Copy, Debug, PartialEq, Eq, Structural)]
pub struct Rect {
    pub x1: i32,
    pub x2: i32,
    pub y1: i32,
    pub y2: i32,
}

pub open spec fn abs_diff(a: int, b: int) -> nat {
    if a >= b {
        (a - b) as nat
    } else {
        (b - a) as nat
    }
}

fn abs_diff_i32(a: i32, b: i32) -> (r: u32)
    ensures
        r as nat == abs_diff(a as int, b as int),
{
    let d: i64 = a as i64 - b as i64;
    if d >= 0 {
        d as u32
    } else {
        (-d) as u32
    }
}

impl Point {
    pub fn new(x: i32, y: i32) -> (p: Point)
        ensures
            p == (Point { x, y }),
    {
        Point { x, y }
    }
}

impl Rect {
    /// The rectangle of `w` by `h` cells whose top-left corner is `(x, y)`.
    pub fn with_size(x: i32, y: i32, w: i32, h: i32) -> (r: Rect)
        requires
            i32::MIN <= x + w <= i32::MAX,
            i32::MIN <= y + h <= i32::MAX,
        ensures
            r == (Rect { x1: x, y1: y, x2: (x + w) as i32, y2: (y + h) as i32 }),
    {
        Rect { x1: x, y1: y, x2: x + w, y2: y + h }
    }

    pub open spec fn width_spec(self) -> nat {
        abs_diff(self.x2 as int, self.x1 as int)
    }

    pub open spec fn height_spec(self) -> nat {
        abs_diff(self.y2 as int, self.y1 as int)
    }

    pub open spec fn contains(self, x: int, y: int) -> bool {
        self.x1 <= x < self.x2 && self.y1 <= y < self.y2
    }

    /// The horizontal distance between the two corners.
    pub fn width(&self) -> (r: u32)
        ensures
            r as nat == self.width_spec(),
    {
        abs_diff_i32(self.x2, self.x1)
    }

    /// The vertical distance between the two corners.
    pub fn height(&self) -> (r: u32)
        ensures
            r as nat == self.height_spec(),
    {
        abs_diff_i32(self.y2, self.y1)
    }

    pub fn point_in_rect(&self, p: Point) -> (r: bool)
        ensures
            r == self.contains(p.x as int, p.y as int),
    {
        p.x >= self.x1 && p.x < self.x2 && p.y >= self.y1 && p.y < self.y2
    }
}

} // verus!
