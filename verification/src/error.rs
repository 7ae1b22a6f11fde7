//! The errors that compiling a circuit can end in.

use vstd::prelude::*;

verus! {

/// Why lexing, parsing, flattening or (de)serializing failed.
#[derive(Debug)]
pub enum CompileError {
    LexerError { line: usize, col: usize, message: String },
    ParserError { line: usize, col: usize, message: String },
    R1csError { message: String },
    SerializeError { message: String },
    /// An input/output failure, carried as its description.
    IoError { message: String },
}

} // verus!
