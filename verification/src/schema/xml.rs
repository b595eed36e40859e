//! The GNOME background definition.
use vstd::prelude::*;

verus! {

/// A GNOME background: when the cycle starts, then its images in order.
#[derive(Debug)]
pub struct Background {
    pub starttime: StartTime,
    pub images: Vec<Image>,
}

/// The moment at which the first image of the cycle is shown.
#[derive(Clone, Copy, Debug, PartialEq, Eq, Structural)]
pub struct StartTime {
    pub year: i32,
    pub month: u32,
    pub day: u32,
    pub hour: u16,
    pub minute: u16,
    pub second: u16,
}

/// One entry of the cycle. A duration is held as the decimal text of a
/// number of seconds, exactly as it is to appear in the definition.
#[derive(Debug, PartialEq, Eq)]
pub enum Image {
    /// Show `file` for `duration` seconds.
    Static { duration: String, file: String, idx: usize },
    /// Blend from `from` to `to` over `duration` seconds, in the manner `kind`.
    Transition { kind: String, duration: String, from: String, to: String, idx: usize },
}

} // verus!
