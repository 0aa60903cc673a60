//! Turns pixel frames into symbol names of a generated executable, so that a
//! debugger's backtrace plays them back as an animation.
//!
//! The library holds the logic of the pipeline: allocation of temporary
//! symbol names, generation of the call-chain source, recovery of file
//! offsets from an ELF image, in-place patching of those offsets, and the
//! debugger scripts that cycle through the frames.

pub mod text;
pub mod fmtr;
pub mod names;
pub mod parse;
pub mod elf;
pub mod patch;
pub mod source;
pub mod script;
pub mod shadow;
