use vstd::prelude::*;

verus! {

/// A colour as four bytes, red, green, blue and opacity, the way a saved game
/// stores it.
#[derive(Clone, Copy, Debug, PartialEq, Eq, Structural)]
pub struct SerialisableRGBA {
    pub r: u8,
    pub g: u8,
    pub b: u8,
    pub a: u8,
}

impl SerialisableRGBA {
    /// The colour with the given red, green, blue and opacity bytes.
    pub fn new(r: u8, g: u8, b: u8, a: u8) -> (c: SerialisableRGBA)
        ensures
            c == (SerialisableRGBA { r, g, b, a }),
    {
        SerialisableRGBA { r, g, b, a }
    }
}

} // verus!
