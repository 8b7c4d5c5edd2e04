use vstd::prelude::*;
use crate::text::{decimal, usize_to_decimal};

verus! {

/// What an error holds: its message and the source position it points at.
/// Line 0 marks an error that belongs to no position.
pub struct ErrorView {
    pub message: Seq<char>,
    pub line: usize,
    pub column: usize,
}

/// A diagnostic of the compiler: a message, with the line and column
/// (both counted from 1) it refers to.
#[derive(Debug, Clone)]
pub struct HuziError {
    message: String,
    line: usize,
    column: usize,
}

impl View for HuziError {
    type V = ErrorView;

    closed spec fn view(&self) -> ErrorView {
        ErrorView { message: self.message@, line: self.line, column: self.column }
    }
}

/// The text that `render` produces for an error.
pub open spec fn error_text(e: ErrorView) -> Seq<char> {
    if e.line > 0 {
        "Error at line "@ + decimal(e.line as nat) + ", column "@ + decimal(e.column as nat)
            + ": "@ + e.message
    } else {
        "Error: "@ + e.message
    }
}

impl HuziError {
    /// An error at `line`, `column`.
    pub fn new(message: &str, line: usize, column: usize) -> (e: HuziError)
        ensures
            e@ == (ErrorView { message: message@, line, column }),
    {
        HuziError { message: message.to_owned(), line, column }
    }

    /// An error with an owned message.
    pub fn from_message(message: String, line: usize, column: usize) -> (e: HuziError)
        ensures
            e@ == (ErrorView { message: message@, line, column }),
    {
        HuziError { message, line, column }
    }

    /// An error that belongs to the program as a whole (line and column 0).
    pub fn new_global(message: &str) -> (e: HuziError)
        ensures
            e@ == (ErrorView { message: message@, line: 0, column: 0 }),
    {
        HuziError { message: message.to_owned(), line: 0, column: 0 }
    }

    pub fn message(&self) -> (m: &str)
        ensures
            m@ == self@.message,
    {
        self.message.as_str()
    }

    pub fn line(&self) -> (l: usize)
        ensures
            l == self@.line,
    {
        self.line
    }

    pub fn column(&self) -> (c: usize)
        ensures
            c == self@.column,
    {
        self.column
    }

    /// The error as shown to the user: with its position when it has one.
    pub fn render(&self) -> (s: String)
        ensures
            s@ == error_text(self@),
    {
        if self.line > 0 {
            let mut s = "Error at line ".to_owned();
            s.append(usize_to_decimal(self.line).as_str());
            s.append(", column ");
            s.append(usize_to_decimal(self.column).as_str());
            s.append(": ");
            s.append(self.message.as_str());
            s
        } else {
            let mut s = "Error: ".to_owned();
            s.append(self.message.as_str());
            s
        }
    }
}

} // verus!
