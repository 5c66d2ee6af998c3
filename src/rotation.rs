use vstd::prelude::*;

verus! {

/// A quarter-turn orientation in which an image is displayed.
#[derive(Clone, Copy, Debug, PartialEq, Eq, Structural)]
pub enum Rotation {
    R0,
    R90,
    R180,
    R270,
}

impl Rotation {
    /// Whether the rotation turns the image on its side.
    pub open spec fn is_sideways(self) -> bool {
        self is R90 || self is R270
    }

    /// The width and height of the window that shows a `width` by `height`
    /// image in this orientation: a quarter or three-quarter turn swaps them.
    pub fn display_size(self, width: u32, height: u32) -> (r: (u32, u32))
        ensures
            r == (if self.is_sideways() {
                (height, width)
            } else {
                (width, height)
            }),
    {
        match self {
            Rotation::R0 | Rotation::R180 => (width, height),
            Rotation::R90 | Rotation::R270 => (height, width),
        }
    }
}

} // verus!
