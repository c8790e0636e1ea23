//! The 8-bit RGB pixel stored in a video frame.

use vstd::prelude::*;

verus! {

/// One pixel: red, green and blue, each 8 bits.
#[derive(Debug, Clone, Copy, PartialEq, Eq, Structural)]
pub struct ColorU8 {
    pub r: u8,
    pub g: u8,
    pub b: u8,
}

} // verus!
