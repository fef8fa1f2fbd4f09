use vstd::prelude::*;

use crate::combinators::{Then, Transform};
use crate::state::ParseState;

verus! {

/// A parse failure. `EOF` and `Fail` are ordinary syntax failures that a
/// surrounding combinator may recover from by trying another option;
/// `TransformFail` and `ExecFail` report that user code rejected a
/// syntactically matched value.
#[derive(Debug, PartialEq)]
pub enum ParseError {
    /// Input is over.
    EOF,
    /// Input didn't match expectations at the given absolute position; try
    /// the next option if possible.
    Fail(&'static str, usize),
    /// A transform step rejected a syntactically matched value at the given
    /// position; carries the original cause.
    TransformFail(&'static str, usize, Box<ParseError>),
    /// An error that occurred while executing "user code", e.g. during a
    /// `Transform` parser.
    ExecFail(String),
}

pub type ParseResult<R> = Result<R, ParseError>;

/// This function returns an error for returning from a function called by a
/// `Transform` parser.
pub fn execerr(s: &str) -> (e: ParseError)
    ensures
        e matches ParseError::ExecFail(m) && m@ == s@,
{
    ParseError::ExecFail(s.to_owned())
}

/// Parser is the central trait of `rcombinators`. Every object that can
/// convert input into a Rust value implements this trait.
///
/// Besides the executable `parse`, every parser carries two specification
/// functions. `callable` says when the parser may be run at all (parsers
/// holding closures ask that their closures may be called). `parses` is the
/// parser's semantics: the relation between the input, the position at which
/// the parser starts, the outcome it returns, and the position at which it
/// leaves the stream. `parse` is proved to produce only outcomes admitted by
/// this relation, to leave the stream's input and outstanding holds exactly
/// as it found them, never to move the cursor backwards past its starting
/// point, and to restore the starting position whenever it fails. A parser
/// may sharpen its own semantics while running (a `Lazy` parser does, when
/// it builds its inner parser), but may never broaden it: every outcome the
/// evolved parser admits was already admitted before.
pub trait Parser: Sized {
    type Result;

    /// When this parser may be run; combinators require it of their
    /// sub-parsers, and parsers holding closures use it to ask that the
    /// closures may be called on any value handed to them.
    spec fn callable(self) -> bool;

    /// The semantics of this parser: whether, on the given `input`, started
    /// at position `pos`, it can return the outcome `r` leaving the cursor at
    /// position `end`.
    spec fn parses(
        self,
        input: Seq<char>,
        pos: int,
        r: ParseResult<Self::Result>,
        end: int,
    ) -> bool;

    /// parse consumes input from `st` and returns a result or an error.
    fn parse(&mut self, st: &mut ParseState) -> (r: ParseResult<Self::Result>)
        requires
            old(st).wf(),
            old(self).callable(),
        ensures
            final(st).wf(),
            final(self).callable(),
            final(st).input() == old(st).input(),
            final(st).holds() == old(st).holds(),
            old(st).pos() <= final(st).pos() <= final(st).input().len(),
            r is Err ==> final(st).pos() == old(st).pos(),
            old(self).parses(old(st).input(), old(st).pos(), r, final(st).pos()),
            forall|input: Seq<char>, pos: int, rr: ParseResult<Self::Result>, end: int|
                #[trigger] final(self).parses(input, pos, rr, end) ==> old(self).parses(
                    input,
                    pos,
                    rr,
                    end,
                ),
    ;

}

/// Derived combinator-building methods, implemented once for every parser.
pub trait ParserOps: Parser {
    /// apply transforms the result of this parser using a Transform
    /// combinator.
    fn apply<R2, F: Fn(Self::Result) -> ParseResult<R2>>(self, f: F) -> (t: Transform<
        Self::Result,
        R2,
        Self,
        F,
    >)
        ensures
            t.inner() == self,
            t.func() == f,
    ;

    /// then runs this parser, discards its result, and returns `second`'s
    /// result if both succeed.
    fn then<B: Parser>(self, second: B) -> (t: Then<Self, B>)
        ensures
            t.first() == self,
            t.second() == second,
    ;
}

impl<P: Parser> ParserOps for P {
    fn apply<R2, F: Fn(Self::Result) -> ParseResult<R2>>(self, f: F) -> (t: Transform<
        Self::Result,
        R2,
        Self,
        F,
    >) {
        Transform::new(self, f)
    }

    fn then<B: Parser>(self, second: B) -> (t: Then<Self, B>) {
        Then::new(self, second)
    }
}

} // verus!
