//! The shell's error kinds and the statuses and messages they carry.

use vstd::prelude::*;
use vstd::utf8::encode_utf8;
use crate::expression::ParserError;
use crate::text::concat;
use crate::tokenizer::TokenizationError;

verus! {

/// An error that maps to a command status.
pub trait StatusEnum {
    spec fn status_code(&self) -> u16;

    fn status(&self) -> (r: u16)
        ensures
            r == self.status_code();
}

impl StatusEnum for TokenizationError {
    open spec fn status_code(&self) -> u16 {
        127
    }

    fn status(&self) -> (r: u16) {
        127
    }
}

impl StatusEnum for ParserError {
    open spec fn status_code(&self) -> u16 {
        match self {
            ParserError::InvalidBackground => 228,
            ParserError::InvalidPipe => 229,
            ParserError::InvalidRedirection => 230,
        }
    }

    fn status(&self) -> (r: u16) {
        match self {
            ParserError::InvalidBackground => 228,
            ParserError::InvalidPipe => 229,
            ParserError::InvalidRedirection => 230,
        }
    }
}

/// A failure to run an external program.
#[derive(Debug, Clone, Copy, PartialEq, Eq, Structural)]
pub enum ExecutionError {
    /// The program could not be started.
    CommandNotFound,
    /// Waiting for the program failed.
    ExecutionFailed,
    /// Its standard input could not be written.
    FailedToWriteStdin,
}

impl StatusEnum for ExecutionError {
    open spec fn status_code(&self) -> u16 {
        match self {
            ExecutionError::CommandNotFound => 127,
            ExecutionError::ExecutionFailed => 128,
            ExecutionError::FailedToWriteStdin => 129,
        }
    }

    fn status(&self) -> (r: u16) {
        match self {
            ExecutionError::CommandNotFound => 127,
            ExecutionError::ExecutionFailed => 128,
            ExecutionError::FailedToWriteStdin => 129,
        }
    }
}

/// A builtin refused its arguments.
#[derive(Debug)]
pub struct BuiltinError {
    pub status: u16,
    pub message: String,
}

/// A file could not be opened, read or written.
#[derive(Debug, Clone, Copy, PartialEq, Eq, Structural)]
pub enum FSError {
    IOError,
}

/// Everything that can stop the evaluation of a line.
#[derive(Debug)]
pub enum ShellError {
    Tokenization(TokenizationError),
    Execution(ExecutionError),
    Builtin(BuiltinError),
    Parser(ParserError),
    /// The command is not a builtin (never shown to the user).
    NoBuiltin,
    /// `exit`, or end of input on an empty line.
    ExitRequest,
}

/// The message shown for an error raised while running `input`.
pub open spec fn error_message(e: ShellError, input: Seq<char>) -> Seq<char> {
    match e {
        ShellError::Tokenization(_) => "UnmatchedCharacter"@,
        ShellError::Execution(ExecutionError::CommandNotFound) => input + ": command not found"@,
        ShellError::Execution(ExecutionError::ExecutionFailed) => "ExecutionFailed"@,
        ShellError::Execution(ExecutionError::FailedToWriteStdin) => "FailedToWriteStdin"@,
        ShellError::Builtin(b) => b.message@,
        ShellError::Parser(ParserError::InvalidBackground) => "InvalidBackground"@,
        ShellError::Parser(ParserError::InvalidPipe) => "InvalidPipe"@,
        ShellError::Parser(ParserError::InvalidRedirection) => "InvalidRedirection"@,
        ShellError::NoBuiltin => "The requested builtin command was not found."@,
        ShellError::ExitRequest => "The shell received an exit request."@,
    }
}

pub open spec fn error_status(e: ShellError) -> u16 {
    match e {
        ShellError::Tokenization(t) => t.status_code(),
        ShellError::Execution(x) => x.status_code(),
        ShellError::Builtin(b) => b.status,
        ShellError::Parser(p) => p.status_code(),
        ShellError::NoBuiltin => 127,
        ShellError::ExitRequest => 0,
    }
}

/// The bytes of a text.
pub fn bytes_of(s: &str) -> (r: Vec<u8>)
    ensures
        r@ == encode_utf8(s@),
{
    let b = s.as_bytes();
    let mut v: Vec<u8> = Vec::new();
    let mut i: usize = 0;
    while i < b.len()
        invariant
            i <= b@.len(),
            b@ == encode_utf8(s@),
            v@ == b@.take(i as int),
        decreases b.len() - i,
    {
        v.push(b[i]);
        i += 1;
        assert(v@ =~= b@.take(i as int));
    }
    assert(b@.take(i as int) =~= b@);
    v
}

impl ShellError {
    /// The message for this error, raised while running `input`.
    pub fn message(&self, input: &str) -> (r: String)
        ensures
            r@ == error_message(*self, input@),
    {
        match self {
            ShellError::Tokenization(_) => "UnmatchedCharacter".to_string(),
            ShellError::Execution(ExecutionError::CommandNotFound) => concat(input, ": command not found"),
            ShellError::Execution(ExecutionError::ExecutionFailed) => "ExecutionFailed".to_string(),
            ShellError::Execution(ExecutionError::FailedToWriteStdin) => "FailedToWriteStdin".to_string(),
            ShellError::Builtin(b) => b.message.clone(),
            ShellError::Parser(ParserError::InvalidBackground) => "InvalidBackground".to_string(),
            ShellError::Parser(ParserError::InvalidPipe) => "InvalidPipe".to_string(),
            ShellError::Parser(ParserError::InvalidRedirection) => "InvalidRedirection".to_string(),
            ShellError::NoBuiltin => "The requested builtin command was not found.".to_string(),
            ShellError::ExitRequest => "The shell received an exit request.".to_string(),
        }
    }

    /// The message for this error, as bytes ready for an output stream.
    pub fn to_output(&self, input: &str) -> (r: Vec<u8>)
        ensures
            r@ == encode_utf8(error_message(*self, input@)),
    {
        let m = self.message(input);
        bytes_of(m.as_str())
    }

    /// The command status this error sets.
    pub fn status(&self) -> (r: u16)
        ensures
            r == error_status(*self),
    {
        match self {
            ShellError::Tokenization(t) => t.status(),
            ShellError::Execution(x) => x.status(),
            ShellError::Builtin(b) => b.status,
            ShellError::Parser(p) => p.status(),
            ShellError::NoBuiltin => 127,
            ShellError::ExitRequest => 0,
        }
    }
}

} // verus!
