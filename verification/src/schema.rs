//! Data descriptions: the GNOME background definition and the parts of the
//! Apple property list that the conversion reads.

pub mod plist;
pub mod xml;
