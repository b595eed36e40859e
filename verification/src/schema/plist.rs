//! The parts of Apple's wallpaper property list that hold no fractions.
use vstd::prelude::*;

verus! {

/// The image indices that the description marks for dark and light mode.
#[derive(Clone, Copy, Debug, PartialEq, Eq, Structural)]
pub struct Appearance {
    pub dark: i32,
    pub light: i32,
}

} // verus!
