//! Board coordinates: a file/rank pair of small signed integers.

use vstd::prelude::*;

verus! {

/// A position or offset on (or near) the 8x8 board. `0` is the file (x),
/// `1` is the rank (y); rank 0 is Black's back rank, rank 7 White's.
#[derive(Debug, Clone, Copy, PartialEq, Eq, Structural)]
pub struct Vec2(pub i8, pub i8);

impl Vec2 {
    /// Whether the position lies on the 8x8 board.
    pub fn is_inside_board(&self) -> (r: bool)
        ensures
            r == self.spec_inside_board(),
    {
        self.0 >= 0 && self.1 >= 0 && self.0 < 8 && self.1 < 8
    }

    pub open spec fn spec_inside_board(self) -> bool {
        0 <= self.0 < 8 && 0 <= self.1 < 8
    }

    pub open spec fn spec_plus(self, rhs: Vec2) -> Vec2 {
        Vec2((self.0 + rhs.0) as i8, (self.1 + rhs.1) as i8)
    }

    /// Componentwise sum.
    pub fn plus(self, rhs: Vec2) -> (r: Vec2)
        requires
            i8::MIN <= self.0 + rhs.0 <= i8::MAX,
            i8::MIN <= self.1 + rhs.1 <= i8::MAX,
        ensures
            r == self.spec_plus(rhs),
    {
        Vec2(self.0 + rhs.0, self.1 + rhs.1)
    }

    pub open spec fn spec_minus(self, rhs: Vec2) -> Vec2 {
        Vec2((self.0 - rhs.0) as i8, (self.1 - rhs.1) as i8)
    }

    /// Componentwise difference.
    pub fn minus(self, rhs: Vec2) -> (r: Vec2)
        requires
            i8::MIN <= self.0 - rhs.0 <= i8::MAX,
            i8::MIN <= self.1 - rhs.1 <= i8::MAX,
        ensures
            r == self.spec_minus(rhs),
    {
        Vec2(self.0 - rhs.0, self.1 - rhs.1)
    }

    pub open spec fn spec_times(self, rhs: i8) -> Vec2 {
        Vec2((self.0 * rhs) as i8, (self.1 * rhs) as i8)
    }

    /// Componentwise scaling.
    pub fn times(self, rhs: i8) -> (r: Vec2)
        requires
            i8::MIN <= self.0 * rhs <= i8::MAX,
            i8::MIN <= self.1 * rhs <= i8::MAX,
        ensures
            r == self.spec_times(rhs),
    {
        Vec2(self.0 * rhs, self.1 * rhs)
    }
}

} // verus!
