//! Axis-aligned rectangles used for rooms and UI layout.

use vstd::prelude::*;

verus! {

/// Rounds `s / 2` to the nearest integer, halves away from zero.
pub open spec fn div2_round_away(s: int) -> int {
    if s >= 0 {
        (s + 1) / 2
    } else {
        -((1 - s) / 2)
    }
}

/// Half of `s`, rounded away from zero on halves.
fn half_round_away(s: i64) -> (r: i64)
    requires
        -0x1_0000_0000_0000 <= s <= 0x1_0000_0000_0000,
    ensures
        r == div2_round_away(s as int),
{
    if s >= 0 {
        ((s as u64 + 1) / 2) as i64
    } else {
        let m: u64 = ((-s) as u64 + 1) / 2;
        -(m as i64)
    }
}

/// A rectangle, defined by its top-left and bottom-right corners.
/// Both edges are inclusive in the intersection convention used here.
#[derive(Clone, Copy, PartialEq, Eq, Structural, Debug)]
pub struct Rect {
    pub x1: i32,
    pub y1: i32,
    pub x2: i32,
    pub y2: i32,
}

impl Rect {
    /// True if this rectangle overlaps `other`, counting shared edges as overlap.
    pub open spec fn spec_intersect(self, other: Rect) -> bool {
        self.x1 <= other.x2 && self.x2 >= other.x1 && self.y1 <= other.y2 && self.y2 >= other.y1
    }

    /// The centroid coordinate, each axis rounded to the nearest integer.
    pub open spec fn spec_center(self) -> (int, int) {
        (div2_round_away(self.x1 + self.x2), div2_round_away(self.y1 + self.y2))
    }

    /// Create a rectangle with its top-left corner at (`x`, `y`) and the
    /// given width and height.
    pub fn new(x: i32, y: i32, width: i32, height: i32) -> (r: Rect)
        requires
            i32::MIN <= x + width <= i32::MAX,
            i32::MIN <= y + height <= i32::MAX,
        ensures
            r.x1 == x,
            r.y1 == y,
            r.x2 == x + width,
            r.y2 == y + height,
    {
        Rect { x1: x, y1: y, x2: x + width, y2: y + height }
    }

    /// Create a rectangle centered at (`cx`, `cy`) with the given width and
    /// height; an odd extent leans toward the lower coordinate.
    pub fn new_centered(cx: i32, cy: i32, width: i32, height: i32) -> (r: Rect)
        requires
            i32::MIN <= div2_round_away(2 * cx - width) <= i32::MAX,
            i32::MIN <= div2_round_away(2 * cx - width) + width <= i32::MAX,
            i32::MIN <= div2_round_away(2 * cy - height) <= i32::MAX,
            i32::MIN <= div2_round_away(2 * cy - height) + height <= i32::MAX,
        ensures
            r.x1 == div2_round_away(2 * cx - width),
            r.x2 == r.x1 + width,
            r.y1 == div2_round_away(2 * cy - height),
            r.y2 == r.y1 + height,
    {
        let x1: i64 = half_round_away(2 * (cx as i64) - (width as i64));
        let y1: i64 = half_round_away(2 * (cy as i64) - (height as i64));
        Rect {
            x1: x1 as i32,
            y1: y1 as i32,
            x2: (x1 + width as i64) as i32,
            y2: (y1 + height as i64) as i32,
        }
    }

    /// Returns true if this rectangle overlaps `other`; rectangles that only
    /// touch along an edge count as overlapping.
    pub fn intersect(&self, other: &Rect) -> (r: bool)
        ensures
            r == self.spec_intersect(*other),
    {
        self.x1 <= other.x2 && self.x2 >= other.x1 && self.y1 <= other.y2 && self.y2 >= other.y1
    }

    /// The center of the rectangle, each coordinate rounded to the nearest
    /// integer (halves away from zero).
    pub fn center(&self) -> (r: (i32, i32))
        ensures
            (r.0 as int, r.1 as int) == self.spec_center(),
    {
        let sx: i64 = self.x1 as i64 + self.x2 as i64;
        let sy: i64 = self.y1 as i64 + self.y2 as i64;
        let cx: i64 = half_round_away(sx);
        let cy: i64 = half_round_away(sy);
        proof {
            lemma_div2_round_away_between(self.x1 as int, self.x2 as int);
            lemma_div2_round_away_between(self.y1 as int, self.y2 as int);
        }
        (cx as i32, cy as i32)
    }

    /// The width of the rectangle.
    pub fn width(&self) -> (r: i32)
        requires
            i32::MIN <= self.x2 - self.x1 <= i32::MAX,
        ensures
            r == self.x2 - self.x1,
    {
        self.x2 - self.x1
    }

    /// The height of the rectangle.
    pub fn height(&self) -> (r: i32)
        requires
            i32::MIN <= self.y2 - self.y1 <= i32::MAX,
        ensures
            r == self.y2 - self.y1,
    {
        self.y2 - self.y1
    }
}

/// The rounded midpoint of two values lies between them.
pub proof fn lemma_div2_round_away_between(a: int, b: int)
    ensures
        vstd::math::min(a, b) <= div2_round_away(a + b) <= vstd::math::max(a, b),
{
}

} // verus!
