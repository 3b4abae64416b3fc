//! Interchange with other geometry representations.

pub mod geozero;
pub mod wkb;
