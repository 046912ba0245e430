//! Typed model of a turn-based grid battle game's state snapshot, with a
//! verified JSON codec for the snapshot wire format and verified positional
//! query helpers.

pub mod codec;
pub mod json;
pub mod model;
