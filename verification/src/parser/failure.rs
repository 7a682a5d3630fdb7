//! Failures of the parser and the messages that report them.

use super::grammar::{Failure, FailureKind};
use vstd::prelude::*;
use vstd::string::StringExecFns;

verus! {

/// A failure as the parser holds it: the kind and the byte offset.
#[derive(Clone, Copy, Debug, PartialEq, Eq)]
pub struct ParseError {
    pub offset: usize,
    pub kind: FailureKind,
}

impl View for ParseError {
    type V = Failure;

    open spec fn view(&self) -> Failure {
        Failure { offset: self.offset as nat, kind: self.kind }
    }
}

/// The decimal digit for `d`.
pub open spec fn digit(d: nat) -> char {
    if d == 0 {
        '0'
    } else if d == 1 {
        '1'
    } else if d == 2 {
        '2'
    } else if d == 3 {
        '3'
    } else if d == 4 {
        '4'
    } else if d == 5 {
        '5'
    } else if d == 6 {
        '6'
    } else if d == 7 {
        '7'
    } else if d == 8 {
        '8'
    } else {
        '9'
    }
}

/// `n` written in decimal, without leading zeros.
pub open spec fn decimal(n: nat) -> Seq<char>
    decreases n,
{
    if n < 10 {
        seq![digit(n)]
    } else {
        decimal(n / 10).push(digit(n % 10))
    }
}

/// What went wrong, in words.
pub open spec fn kind_text(kind: FailureKind) -> Seq<char> {
    match kind {
        FailureKind::UnexpectedSymbol => "unexpected symbol"@,
        FailureKind::MissingClose => "expected the closing symbol of a tag"@,
        FailureKind::EmptyQuote => "empty quoted value"@,
        FailureKind::UnterminatedQuote => "quoted value is not closed"@,
        FailureKind::MissingEndTag => "expected an end tag"@,
        FailureKind::TagMismatch => "end tag does not match the head of its block"@,
    }
}

/// The message that reports `f`: the byte offset, then the kind.
pub open spec fn failure_text(f: Failure) -> Seq<char> {
    "parse error at byte "@ + decimal(f.offset) + ": "@ + kind_text(f.kind)
}

fn digit_of(d: usize) -> (c: char)
    requires
        d < 10,
    ensures
        c == digit(d as nat),
{
    if d == 0 {
        '0'
    } else if d == 1 {
        '1'
    } else if d == 2 {
        '2'
    } else if d == 3 {
        '3'
    } else if d == 4 {
        '4'
    } else if d == 5 {
        '5'
    } else if d == 6 {
        '6'
    } else if d == 7 {
        '7'
    } else if d == 8 {
        '8'
    } else {
        '9'
    }
}

/// Appends `n` in decimal to `out`.
pub fn push_decimal(out: &mut String, n: usize)
    ensures
        final(out)@ == old(out)@ + decimal(n as nat),
    decreases n,
{
    if n >= 10 {
        push_decimal(out, n / 10);
    }
    out.push(digit_of(n % 10));
    assert(out@ =~= old(out)@ + decimal(n as nat));
}

fn kind_words(kind: FailureKind) -> (r: &'static str)
    ensures
        r@ == kind_text(kind),
{
    match kind {
        FailureKind::UnexpectedSymbol => "unexpected symbol",
        FailureKind::MissingClose => "expected the closing symbol of a tag",
        FailureKind::EmptyQuote => "empty quoted value",
        FailureKind::UnterminatedQuote => "quoted value is not closed",
        FailureKind::MissingEndTag => "expected an end tag",
        FailureKind::TagMismatch => "end tag does not match the head of its block",
    }
}

impl ParseError {
    /// The message that reports the failure.
    pub fn message(&self) -> (msg: String)
        ensures
            msg@ == failure_text(self@),
    {
        let mut msg = String::from_str("parse error at byte ");
        push_decimal(&mut msg, self.offset);
        msg.append(": ");
        msg.append(kind_words(self.kind));
        msg
    }
}

} // verus!
