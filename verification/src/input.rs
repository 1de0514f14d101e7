//! What the pointer and the keyboard say.
use crate::scalar;
use vstd::prelude::*;

verus! {

/// The keys that are held down along with another one.
#[derive(Clone, Copy, Debug, Default, PartialEq, Eq, Structural)]
pub struct Modifiers {
    pub alt: bool,
    pub ctrl: bool,
    pub shift: bool,
    pub mac_cmd: bool,
    pub command: bool,
}

/// A place or a distance on the screen, in points.
#[derive(Clone, Copy, Debug, Default, PartialEq, Eq, Structural)]
pub struct ScreenPoint {
    pub x: u32,
    pub y: u32,
}

impl ScreenPoint {
    /// Equal as numbers.
    pub open spec fn same(self, other: ScreenPoint) -> bool {
        scalar::same(self.x, other.x) && scalar::same(self.y, other.y)
    }

    pub fn is_same(&self, other: &ScreenPoint) -> (result: bool)
        ensures
            result == self.same(*other),
    {
        scalar::is_same(self.x, other.x) && scalar::is_same(self.y, other.y)
    }
}

} // verus!
