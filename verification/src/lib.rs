//! Piecewise-linear signal algebra for subtitle alignment.
//!
//! Rating signals over an integer-millisecond timeline are stored as ordered
//! runs of linear segments.  The algebra offers sum, pointwise maximum,
//! left-to-right running maximum, simplification, clamping and extension,
//! together with the plain-value decision logic of the audio decoder front
//! end (stream selection, duration lookup, sample assembly and process
//! error classification).

pub mod buffers;
pub mod combine;
pub mod decoder;
pub mod differential;
pub mod errors;
pub mod laws;
pub mod metadata;
pub mod rating_type;
pub mod segments;
pub mod simplify;
pub mod streams;
pub mod time_types;
