//! The failures that scanning, parsing, evaluation and lookup can report.

use vstd::prelude::*;
use vstd::string::StringExecFns;

verus! {

/// What a parser was looking for at the point where the input did not match.
#[derive(Clone, Debug, PartialEq, Eq)]
pub enum Expected {
    /// One or more decimal digits.
    Digits,
    /// A name: an ASCII letter, then letters and digits.
    Identifier,
    /// One or more spaces.
    Space,
    /// One of `+`, `-`, `*`, `/`.
    Operator,
    /// A digit run whose value is at most `i32::MAX`.
    NumberInRange,
    /// The given text, exactly.
    Literal(String),
}

/// The mathematical content of an [`Expected`].
pub enum ExpectedView {
    Digits,
    Identifier,
    Space,
    Operator,
    NumberInRange,
    Literal(Seq<char>),
}

impl View for Expected {
    type V = ExpectedView;

    open spec fn view(&self) -> ExpectedView {
        match self {
            Expected::Digits => ExpectedView::Digits,
            Expected::Identifier => ExpectedView::Identifier,
            Expected::Space => ExpectedView::Space,
            Expected::Operator => ExpectedView::Operator,
            Expected::NumberInRange => ExpectedView::NumberInRange,
            Expected::Literal(text) => ExpectedView::Literal(text@),
        }
    }
}

/// A failure of the library. No operation aborts; each reports one of these.
#[derive(Clone, Debug, PartialEq, Eq)]
pub enum Error {
    /// The input does not have the form that the grammar asks for.
    Malformed(Expected),
    /// The right operand of a division is zero.
    DivisionByZero,
    /// No value is stored under this name.
    UnboundName(String),
}

/// The mathematical content of an [`Error`].
pub enum ErrorView {
    Malformed(ExpectedView),
    DivisionByZero,
    UnboundName(Seq<char>),
}

impl View for Error {
    type V = ErrorView;

    open spec fn view(&self) -> ErrorView {
        match self {
            Error::Malformed(expected) => ErrorView::Malformed(expected@),
            Error::DivisionByZero => ErrorView::DivisionByZero,
            Error::UnboundName(name) => ErrorView::UnboundName(name@),
        }
    }
}

impl ExpectedView {
    /// The text that describes what was expected.
    pub open spec fn message(self) -> Seq<char> {
        match self {
            ExpectedView::Digits => "expected digits"@,
            ExpectedView::Identifier => "expected identifier"@,
            ExpectedView::Space => "expected a space"@,
            ExpectedView::Operator => "expected an operator"@,
            ExpectedView::NumberInRange => "expected a number that fits in 32 bits"@,
            ExpectedView::Literal(text) => "Expected "@ + text,
        }
    }
}

impl ErrorView {
    /// The text that describes the failure.
    pub open spec fn message(self) -> Seq<char> {
        match self {
            ErrorView::Malformed(expected) => expected.message(),
            ErrorView::DivisionByZero => "division by zero"@,
            ErrorView::UnboundName(name) => "Binding with name '"@ + name + "' does not exist"@,
        }
    }
}

impl Expected {
    /// A description of what was expected, for a diagnostic.
    pub fn message(&self) -> (text: String)
        ensures
            text@ == self@.message(),
    {
        match self {
            Expected::Digits => String::from_str("expected digits"),
            Expected::Identifier => String::from_str("expected identifier"),
            Expected::Space => String::from_str("expected a space"),
            Expected::Operator => String::from_str("expected an operator"),
            Expected::NumberInRange => String::from_str("expected a number that fits in 32 bits"),
            Expected::Literal(literal) => String::from_str("Expected ").concat(literal.as_str()),
        }
    }
}

impl Error {
    /// A description of the failure, for a diagnostic.
    pub fn message(&self) -> (text: String)
        ensures
            text@ == self@.message(),
    {
        match self {
            Error::Malformed(expected) => expected.message(),
            Error::DivisionByZero => String::from_str("division by zero"),
            Error::UnboundName(name) => String::from_str("Binding with name '").concat(
                name.as_str(),
            ).concat("' does not exist"),
        }
    }
}

} // verus!
