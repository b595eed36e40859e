//! Conversion of dynamic HEIC wallpaper descriptions into GNOME background
//! definitions: time arithmetic, metadata decoding, slice ordering and the
//! GNOME XML rendering.

pub mod schema;
pub mod serializer;
pub mod timebased;
pub mod util;
pub mod xml_events;
pub mod metadata;
