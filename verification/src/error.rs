//! Errors: what went wrong, as a kind and a message.
use vstd::prelude::*;

verus! {

/// The kinds of error.
#[derive(Debug, PartialEq, Eq, Clone, Copy, Structural)]
pub enum ErrorKind {
    /// The source text is not a program of the language.
    InvalidInput,
    /// A value was assigned to a variable that was never declared.
    UndefinedVariable,
    /// A quotient was asked for with a divisor of zero.
    DivisionByZero,
    /// The result of an operation does not fit in 32 bits.
    Overflow,
    /// The text of an integer literal is not that of a 32-bit integer.
    InvalidLiteral,
}

/// An error as the specifications see it.
pub struct ErrorView {
    pub kind: ErrorKind,
    pub message: Seq<char>,
}

/// An error of the lexer, the parser or the evaluator.
#[derive(Debug)]
pub struct ScriptError {
    kind: ErrorKind,
    message: String,
}

impl View for ScriptError {
    type V = ErrorView;

    closed spec fn view(&self) -> ErrorView {
        ErrorView { kind: self.kind, message: self.message@ }
    }
}

impl ScriptError {
    /// An error of the kind `kind` that says `message`.
    pub fn new(kind: ErrorKind, message: String) -> (err: ScriptError)
        ensures
            err@ == (ErrorView { kind, message: message@ }),
    {
        ScriptError { kind, message }
    }

    /// The kind of the error.
    pub fn kind(&self) -> (kind: ErrorKind)
        ensures
            kind == self@.kind,
    {
        self.kind
    }

    /// What the error says.
    pub fn message(&self) -> (message: &str)
        ensures
            message@ == self@.message,
    {
        self.message.as_str()
    }
}

/// An error of the kind `InvalidInput` that says `err`.
pub fn invalid_input_err(err: &str) -> (error: ScriptError)
    ensures
        error@ == (ErrorView { kind: ErrorKind::InvalidInput, message: err@ }),
{
    ScriptError::new(ErrorKind::InvalidInput, String::from_str(err))
}

} // verus!
