//! Diagnostics for the compilation phase.  Every violation of the grammar is
//! fatal and is reported with the 1-based line and the column at which the
//! scanner stood when the violation was found.

use crate::compile::code::CodeModel;
use vstd::prelude::*;
use vstd::string::StringExecFns;

verus! {

/// An error of the given kind at the scanner position `m` records.
pub open spec fn err_at(kind: ErrorKind, m: CodeModel) -> Error {
    Error { kind, line: m.line as usize, column: m.column as usize }
}

/// The kind of compilation error.
#[derive(Clone, Copy, Debug, PartialEq, Eq, Structural)]
pub enum ErrorKind {
    /// A newline stood where the grammar required more of the same line.
    EndOfLine,
    /// The input ended where the grammar required more characters.
    EndOfFile,
    /// A bare operand was neither a register nor a signed 64-bit integer.
    InvalidArgument,
    /// An operand began with `r` but the rest was no unsigned 8-bit integer.
    InvalidRegister,
    /// The destination of an arithmetic or move instruction was not a register.
    InvalidDestination,
    /// A backslash escape in a quoted string named an unknown character.
    InvalidEscape,
    /// A label declaration carried characters after its closing colon.
    InvalidLabel,
    /// A command name that the language does not define.
    InvalidCommand,
}

/// A fatal compilation error together with the scanner position at which it
/// was detected.
#[derive(Clone, Copy, Debug, PartialEq, Eq, Structural)]
pub struct Error {
    pub kind: ErrorKind,
    pub line: usize,
    pub column: usize,
}

impl Error {
    /// Creates an error of the given kind at the given position.
    pub fn new(kind: ErrorKind, line: usize, column: usize) -> (r: Error)
        ensures
            r == (Error { kind, line, column }),
    {
        Error { kind, line, column }
    }

    /// Creates an end of line error.
    pub fn end_of_line(line: usize, column: usize) -> (r: Error)
        ensures
            r == (Error { kind: ErrorKind::EndOfLine, line, column }),
    {
        Error { kind: ErrorKind::EndOfLine, line, column }
    }

    /// Creates an end of file error.
    pub fn end_of_file(line: usize, column: usize) -> (r: Error)
        ensures
            r == (Error { kind: ErrorKind::EndOfFile, line, column }),
    {
        Error { kind: ErrorKind::EndOfFile, line, column }
    }

    /// A readable rendering of the error, in place of `Display`.
    pub fn describe(&self) -> String {
        let name: &str = match self.kind {
            ErrorKind::EndOfLine => "Unexpected End Of Line",
            ErrorKind::EndOfFile => "Unexpected End Of File",
            ErrorKind::InvalidArgument => "Invalid argument",
            ErrorKind::InvalidRegister => "Invalid register id",
            ErrorKind::InvalidDestination => "Invalid destination",
            ErrorKind::InvalidEscape => "Invalid escape character",
            ErrorKind::InvalidLabel => "Invalid label",
            ErrorKind::InvalidCommand => "Invalid command",
        };
        let mut text = String::new();
        text.append(name);
        text
    }
}

} // verus!
