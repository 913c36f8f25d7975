//! Native code generation for x86-64: the instruction encoder, executable images and
//! the runtime routines the generated programs call.

use vstd::prelude::*;
use crate::text::{chars_of, string_from_chars};

pub mod assembly;
pub mod encoder;
pub mod frame;
pub mod image;
pub mod layout;
pub mod lower;
pub mod routines;
pub mod runtime;
pub mod targets;
pub mod x86;

pub use lower::{emit_assembly, emit_executable, emit_native_assembly, emit_native_executable};
pub use targets::{Architecture, ExecutableFormat, OperatingSystem, Target};

verus! {

#[derive(Debug, Clone, PartialEq, Eq)]
pub struct CodegenError {
    pub message: String,
}

impl CodegenError {
    pub fn new(message: &str) -> (e: Self)
        ensures
            e.message@ == message@,
    {
        CodegenError { message: string_from_chars(&chars_of(message)) }
    }

    /// An error whose message is the given characters.
    pub fn from_chars(message: &Vec<char>) -> (e: Self)
        ensures
            e.message@ == message@,
    {
        CodegenError { message: string_from_chars(message) }
    }
}

} // verus!
