//! A verified engine for locating a function inside compiler-generated
//! assembly text, parsing its body into a structured form, correlating its
//! debug locations with source lines, and merging the two streams into one
//! ordered display sequence.
//!
//! Lines of assembly text and path fragments are handled as byte strings
//! (`Vec<u8>`), so every lexical rule is stated exactly over `Seq<u8>`.

pub mod ast;
pub mod bytes;
pub mod demangle;
pub mod display;
pub mod lib_crate;
pub mod lit;
pub mod options;
pub mod parse;
pub mod path;
pub mod rust;
pub mod suggest;
pub mod target;
