//! The shared, immutable buffers that every array is made of.
//!
//! Storage is Arrow's: offsets live in `arrow_buffer::OffsetBuffer`, coordinates in
//! `arrow_buffer::ScalarBuffer` and validity in `arrow_buffer::NullBuffer`. The functions of
//! these modules are the only places where Arrow is called; what they state of it is taken on
//! trust and everything else in the crate is proved from it.

pub mod narrow;
pub mod null;
pub mod wide;
pub mod word;
