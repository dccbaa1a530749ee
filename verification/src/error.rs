//! The error type shared by every stage of the pipeline.
use vstd::prelude::*;
use crate::span::SourceLocation;

verus! {

/// What can go wrong while lexing, parsing, checking, compiling or running a script.
#[derive(Debug)]
pub enum Error {
    Parse { location: SourceLocation, msg: String },
    TypeError { location: SourceLocation, msg: String },
    Resolve { location: SourceLocation, msg: String },
    Runtime { msg: String, stack_trace: Vec<SourceLocation> },
    Script { msg: String },
    Compile { location: SourceLocation, msg: String },
    CompileMultiple { errors: Vec<Error> },
    ParseMultiple { errors: Vec<Error> },
}

} // verus!
