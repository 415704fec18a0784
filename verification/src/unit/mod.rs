//! The unit model, its file format and the rules of unit names and options.

pub mod escape;
pub mod generate;
pub mod model;
pub mod mountopts;
pub mod parse;
pub mod roundtrip;
