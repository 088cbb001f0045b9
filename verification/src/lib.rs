//! Core of a real-time media distribution protocol: the binary object-header
//! codec, the broadcast namespace model, the origin registry that maps a
//! namespace to the node hosting it, and the dedup merge state used when one
//! subscriber consumes two redundant relay paths.

pub mod namespace;
pub mod object;
pub mod registry;
pub mod smartout;
pub mod urlcheck;
pub mod varint;
