use vstd::prelude::*;

verus! {

/// An RGBA colour, one byte per channel.
#[derive(Clone, Copy, Debug, PartialEq, Eq, Structural)]
pub struct PixColor(pub u8, pub u8, pub u8, pub u8);

/// A point on the floor plane, in world units; `y` is the world's depth axis.
#[derive(Clone, Copy, Debug, PartialEq, Eq, Structural)]
pub struct Point2 {
    pub x: i64,
    pub y: i64,
}

/// A point in camera space, in `1 / POS_ONE` world units: `x` to the right,
/// `y` up, `z` forward.
#[derive(Clone, Copy, Debug, PartialEq, Eq, Structural)]
pub struct Point3 {
    pub x: i64,
    pub y: i64,
    pub z: i64,
}

/// One projected wall edge: its screen column and the rows of its bottom
/// and top end.
#[derive(Clone, Copy, Debug, PartialEq, Eq, Structural)]
pub struct ScreenPoint {
    pub x: i32,
    pub bottom: i32,
    pub top: i32,
}

/// One edge of a sector's outline, directed from `points[0]` to `points[1]`.
/// `uv` is how many times a texture repeats across the wall and up it.
#[derive(Clone, Copy, Debug)]
pub struct Wall {
    pub points: [Point2; 2],
    pub color: PixColor,
    pub uv: [u32; 2],
}

/// Where the camera's height lies relative to a sector: above its roof
/// (`Top`), below its floor (`Bottom`), or between the two (`Normal`).
#[derive(Clone, Copy, Debug, PartialEq, Eq, Structural)]
pub enum Surface {
    Top,
    Bottom,
    Normal,
}

impl Point2 {
    pub fn new(x: i64, y: i64) -> (r: Point2)
        ensures
            r == (Point2 { x, y }),
    {
        Point2 { x, y }
    }
}

} // verus!
