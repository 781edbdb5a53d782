use vstd::prelude::*;

verus! {

/// A final pixel colour, one byte per channel.
#[derive(Clone, Copy, Debug, PartialEq, Eq, Structural)]
pub struct ColorU8 {
    pub red: u8,
    pub green: u8,
    pub blue: u8,
}

impl ColorU8 {
    pub fn new(red: u8, green: u8, blue: u8) -> (r: ColorU8)
        ensures
            r == (ColorU8 { red, green, blue }),
    {
        ColorU8 { red, green, blue }
    }
}

} // verus!
