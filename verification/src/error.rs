//! The library's error: a message, rendered the way the command line prints it.
use vstd::prelude::*;

use crate::text::{append, append_str, decimal, push_decimal, str_chars, string_from};

verus! {

/// An error of the task runner: what went wrong, as one line of text.
#[derive(Debug)]
pub struct CjError {
    message: String,
}

impl View for CjError {
    type V = Seq<char>;

    open spec fn view(&self) -> Seq<char> {
        self.spec_message()
    }
}

impl CjError {
    pub closed spec fn spec_message(&self) -> Seq<char> {
        self.message@
    }

    /// An error with the given message.
    pub fn new(message: &Vec<char>) -> (e: CjError)
        ensures
            e@ == message@,
    {
        CjError { message: string_from(message) }
    }

    /// An error with a literal message.
    pub fn from_str(message: &str) -> (e: CjError)
        ensures
            e@ == message@,
    {
        let v = str_chars(message);
        CjError::new(&v)
    }

    /// The message.
    pub fn to_string(&self) -> (s: String)
        ensures
            s@ == self@,
    {
        self.message.clone()
    }
}

/// `"<path>:<line>: <message>"`, the form of errors that point into a taskfile.
pub open spec fn line_error_text(path: Seq<char>, line_number: nat, message: Seq<char>) -> Seq<
    char,
> {
    path + ":"@ + decimal(line_number) + ": "@ + message
}

/// `"line <n>: <message>"`, the form of errors raised while running a task.
pub open spec fn line_prefixed_text(line_number: nat, message: Seq<char>) -> Seq<char> {
    "line "@ + decimal(line_number) + ": "@ + message
}

pub fn line_error(path: &Vec<char>, line_number: usize, message: &Vec<char>) -> (e: CjError)
    ensures
        e@ == line_error_text(path@, line_number as nat, message@),
{
    let mut text = path.clone();
    append_str(&mut text, ":");
    push_decimal(&mut text, line_number as u64);
    append_str(&mut text, ": ");
    append(&mut text, message);
    CjError::new(&text)
}

pub fn line_prefixed(line_number: usize, message: &Vec<char>) -> (e: CjError)
    ensures
        e@ == line_prefixed_text(line_number as nat, message@),
{
    let mut text = str_chars("line ");
    push_decimal(&mut text, line_number as u64);
    append_str(&mut text, ": ");
    append(&mut text, message);
    CjError::new(&text)
}

} // verus!
