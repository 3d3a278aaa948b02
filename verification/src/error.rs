//! The one error of the library: a syntax error at a place in the input.

use vstd::prelude::*;
use vstd::string::StringExecFns;

verus! {

/// What is wrong with an invocation.
#[derive(Clone, Copy, Debug, PartialEq, Eq, Structural)]
pub enum Fault {
    /// The tokens of an item do not form an expression.
    Expression,
    /// A braced item does not hold `key: value` pairs separated by commas.
    Options,
    /// The options object is followed by more than one closure.
    OptionsNotLast,
    /// The closure is followed by another item.
    ClosureNotLast,
}

/// A run of top-level tokens of the input: those at the positions from
/// `start` up to, not including, `end`.
#[derive(Clone, Copy, Debug, PartialEq, Eq, Structural)]
pub struct Span {
    pub start: usize,
    pub end: usize,
}

/// A run of positions, as mathematical integers.
pub ghost struct Extent {
    pub start: int,
    pub end: int,
}

impl View for Span {
    type V = Extent;

    open spec fn view(&self) -> Extent {
        Extent { start: self.start as int, end: self.end as int }
    }
}

/// A syntax error: what is wrong, and where.
#[derive(Clone, Copy, Debug, PartialEq, Eq, Structural)]
pub struct SyntaxError {
    pub fault: Fault,
    pub span: Span,
}

/// A fault at a run of positions.
pub ghost struct Failure {
    pub fault: Fault,
    pub at: Extent,
}

impl View for SyntaxError {
    type V = Failure;

    open spec fn view(&self) -> Failure {
        Failure { fault: self.fault, at: self.span@ }
    }
}

/// The message that reports a fault.
pub open spec fn fault_message(fault: Fault) -> Seq<char> {
    match fault {
        Fault::Expression => "expected an expression"@,
        Fault::Options => "expected `key: value` pairs separated by commas"@,
        Fault::OptionsNotLast => "options must come last, or last before a closure"@,
        Fault::ClosureNotLast => "a closure must be the final argument"@,
    }
}

impl SyntaxError {
    /// The message that reports this error.
    pub fn message(&self) -> (text: String)
        ensures
            text@ == fault_message(self.fault),
    {
        match self.fault {
            Fault::Expression => String::from_str("expected an expression"),
            Fault::Options => String::from_str("expected `key: value` pairs separated by commas"),
            Fault::OptionsNotLast => String::from_str(
                "options must come last, or last before a closure",
            ),
            Fault::ClosureNotLast => String::from_str("a closure must be the final argument"),
        }
    }
}

} // verus!
