use vstd::prelude::*;

use crate::parser::{ParseError, ParseResult, Parser};
use crate::state::ParseState;

verus! {

/// Transform applies a function (which may fail) to the result of a parser.
/// Transform only succeeds if the applied function succeeds, too; a function
/// failure surfaces as a `TransformFail` carrying the original cause, and the
/// stream is rolled back to where the attempt began.
#[verifier::reject_recursive_types(R)]
#[verifier::reject_recursive_types(R2)]
pub struct Transform<R, R2, P: Parser<Result = R>, F: Fn(R) -> ParseResult<R2>> {
    f: F,
    p: P,
}

impl<R, R2, P: Parser<Result = R>, F: Fn(R) -> ParseResult<R2>> Transform<R, R2, P, F> {
    /// The wrapped parser.
    pub closed spec fn inner(self) -> P {
        self.p
    }

    /// The transforming function.
    pub closed spec fn func(self) -> F {
        self.f
    }

    /// Create a new Transform parser using f.
    pub fn new(p: P, f: F) -> (t: Transform<R, R2, P, F>)
        ensures
            t.inner() == p,
            t.func() == f,
    {
        Transform { f: f, p: p }
    }
}

/// A `Transform` whose function is unchanged and whose inner parser stayed
/// callable is itself still callable.
proof fn lemma_transform_keeps_callable<R, R2, P: Parser<Result = R>, F: Fn(R) -> ParseResult<
    R2,
>>(t1: Transform<R, R2, P, F>, t2: Transform<R, R2, P, F>)
    requires
        t1.callable(),
        t2.func() == t1.func(),
        t2.inner().callable(),
    ensures
        t2.callable(),
{
    assert forall|x: R| call_requires(t2.func(), (x,)) by {
        assert(call_requires(t1.func(), (x,)));
    }
}

impl<R, R2, P: Parser<Result = R>, F: Fn(R) -> ParseResult<R2>> Parser for Transform<
    R,
    R2,
    P,
    F,
> {
    type Result = R2;

    open spec fn callable(self) -> bool {
        &&& self.inner().callable()
        &&& forall|x: R| call_requires(self.func(), (x,))
    }

    open spec fn parses(self, input: Seq<char>, pos: int, r: ParseResult<R2>, end: int) -> bool {
        match r {
            Ok(v) => exists|x: R, mid: int|
                #[trigger] self.inner().parses(input, pos, Ok(x), mid) && mid == end
                    && call_ensures(self.func(), (x,), Ok(v)),
            Err(e) => end == pos && (self.inner().parses(input, pos, Err(e), pos) || (e matches
                ParseError::TransformFail(lbl, p, cause) && lbl@ == "transform failed"@ && p as int
                == pos && exists|x: R, mid: int|
                #[trigger] self.inner().parses(input, pos, Ok(x), mid) && call_ensures(
                    self.func(),
                    (x,),
                    Err(*cause),
                ))),
        }
    }

    fn parse(&mut self, st: &mut ParseState) -> (r: ParseResult<R2>) {
        let start = st.index();
        let hold = st.hold();
        match self.p.parse(st) {
            Ok(o) => {
                let ghost xo = o;
                let ghost mid = st.pos();
                proof {
                    assert(self.f == old(self).f);
                    assert(forall|x: R| call_requires(old(self).func(), (x,)));
                    assert(call_requires(old(self).func(), (xo,)));
                }
                match (self.f)(o) {
                    Ok(v) => {
                        st.release(hold);
                        proof {
                            assert(st.holds() =~= old(st).holds());
                            lemma_transform_keeps_callable(*old(self), *self);
                        }
                        Ok(v)
                    },
                    Err(cause) => {
                        let ghost gcause = cause;
                        st.reset(hold);
                        proof {
                            assert(st.holds() =~= old(st).holds());
                            lemma_transform_keeps_callable(*old(self), *self);
                        }
                        Err(ParseError::TransformFail("transform failed", start, Box::new(cause)))
                    },
                }
            },
            Err(e) => {
                st.release(hold);
                proof {
                    assert(st.holds() =~= old(st).holds());
                    lemma_transform_keeps_callable(*old(self), *self);
                }
                Err(e)
            },
        }
    }
}

/// Alternative is ordered choice among options sharing one result type: each
/// option is attempted under its own checkpoint, the first success wins and
/// later options are never tried, even if they would consume more input. If
/// every option fails, the Alternative fails with a generic syntax failure at
/// the original position; the individual branch failures are not retained.
pub struct Alternative<T>(T);

impl<T> Alternative<T> {
    /// The options, in the order in which they are attempted.
    pub closed spec fn parts(self) -> T {
        self.0
    }

    pub fn new(tuple: T) -> (a: Alternative<T>)
        ensures
            a.parts() == tuple,
    {
        Alternative(tuple)
    }
}

impl<R, P0: Parser<Result = R>, P1: Parser<Result = R>> Parser for Alternative<(P0, P1)> {
    type Result = R;

    open spec fn callable(self) -> bool {
        self.parts().0.callable() && self.parts().1.callable()
    }

    open spec fn parses(self, input: Seq<char>, pos: int, r: ParseResult<R>, end: int) -> bool {
        match r {
            Ok(v) => self.parts().0.parses(input, pos, Ok(v), end) || ((exists|e0: ParseError|
                #[trigger] self.parts().0.parses(input, pos, Err(e0), pos))
                && self.parts().1.parses(input, pos, Ok(v), end)),
            Err(e) => {
                &&& end == pos
                &&& exists|e0: ParseError| #[trigger] self.parts().0.parses(input, pos, Err(e0), pos)
                &&& exists|e1: ParseError| #[trigger] self.parts().1.parses(input, pos, Err(e1), pos)
                &&& e matches ParseError::Fail(m, p) && m@ == "no alternative matched"@ && p as int
                    == pos
            },
        }
    }

    fn parse(&mut self, st: &mut ParseState) -> (r: ParseResult<R>) {
        let hold = st.hold();
        match (self.0).0.parse(st) {
            Ok(v) => {
                st.release(hold);
                proof {
                    assert(st.holds() =~= old(st).holds());
                }
                return Ok(v);
            },
            Err(e0) => {
                let ghost ge0 = e0;
                st.reset(hold);
                proof {
                    assert(st.holds() =~= old(st).holds());
                }
                let hold = st.hold();
                match (self.0).1.parse(st) {
                    Ok(v) => {
                        st.release(hold);
                        proof {
                            assert(st.holds() =~= old(st).holds());
                        }
                        return Ok(v);
                    },
                    Err(e1) => {
                        let ghost ge1 = e1;
                        st.reset(hold);
                        proof {
                            assert(st.holds() =~= old(st).holds());
                        }
                        let ix = st.index();
                        return Err(ParseError::Fail("no alternative matched", ix));
                    },
                }
            },
        }
    }
}

/// Ordered choice is strict: whenever the first option of an `Alternative`
/// matches, and can only match one way and cannot fail, the `Alternative`'s
/// outcome is exactly that first match, whatever the later option would have
/// done with the same input, and however much more of it it would have
/// consumed.
pub proof fn lemma_alternative_first_wins<R, P0: Parser<Result = R>, P1: Parser<Result = R>>(
    a: Alternative<(P0, P1)>,
    input: Seq<char>,
    pos: int,
    r: ParseResult<R>,
    end: int,
    v0: R,
    m0: int,
)
    requires
        a.parses(input, pos, r, end),
        a.parts().0.parses(input, pos, Ok(v0), m0),
        forall|e: ParseError| !(#[trigger] a.parts().0.parses(input, pos, Err(e), pos)),
        forall|v: R, m: int| #[trigger] a.parts().0.parses(input, pos, Ok(v), m) ==> v == v0 && m
            == m0,
    ensures
        r == Ok::<R, ParseError>(v0),
        end == m0,
{
}

/// Sequence concatenates parsers and only succeeds if all of them do, run in
/// order inside one checkpoint: the first failure rewinds the stream to the
/// start of the sequence and propagates that failure. `T` is always a tuple,
/// and the result is the tuple of all the parser results.
pub struct Sequence<T>(T);

impl<T> Sequence<T> {
    /// The parsers, in the order in which they run.
    pub closed spec fn parts(self) -> T {
        self.0
    }

    pub fn new(tuple: T) -> (s: Sequence<T>)
        ensures
            s.parts() == tuple,
    {
        Sequence(tuple)
    }
}

impl<P0: Parser, P1: Parser> Parser for Sequence<(P0, P1)> {
    type Result = (P0::Result, P1::Result);

    open spec fn callable(self) -> bool {
        self.parts().0.callable() && self.parts().1.callable()
    }

    open spec fn parses(
        self,
        input: Seq<char>,
        pos: int,
        r: ParseResult<(P0::Result, P1::Result)>,
        end: int,
    ) -> bool {
        match r {
            Ok(v) => exists|x0: P0::Result, x1: P1::Result, m1: int|
                #![trigger self.parts().0.parses(input, pos, Ok(x0), m1), self.parts().1.parses(input, m1, Ok(x1), end)]
                v == (x0, x1) && self.parts().0.parses(input, pos, Ok(x0), m1)
                    && self.parts().1.parses(input, m1, Ok(x1), end),
            Err(e) => {
                &&& end == pos
                &&& (self.parts().0.parses(input, pos, Err(e), pos) || exists|
                    x0: P0::Result,
                    m1: int,
                |
                    #[trigger] self.parts().0.parses(input, pos, Ok(x0), m1)
                        && self.parts().1.parses(input, m1, Err(e), m1))
            },
        }
    }

    fn parse(&mut self, st: &mut ParseState) -> (r: ParseResult<(P0::Result, P1::Result)>) {
        let hold = st.hold();
        let r0 = match (self.0).0.parse(st) {
            Ok(x) => x,
            Err(e) => {
                st.reset(hold);
                proof {
                    assert(st.holds() =~= old(st).holds());
                }
                return Err(e);
            },
        };
        let ghost g0 = r0;
        let ghost m1 = st.pos();
        let r1 = match (self.0).1.parse(st) {
            Ok(x) => x,
            Err(e) => {
                st.reset(hold);
                proof {
                    assert(st.holds() =~= old(st).holds());
                }
                return Err(e);
            },
        };
        let ghost g1 = r1;
        st.release(hold);
        proof {
            assert(st.holds() =~= old(st).holds());
            assert(old(self).parts().0.parses(old(st).input(), old(st).pos(), Ok(g0), m1));
            assert(old(self).parts().1.parses(old(st).input(), m1, Ok(g1), st.pos()));
        }
        Ok((r0, r1))
    }
}

/// PartialSequence concatenates parsers and parses as far as possible: it
/// never fails outright, but stops at the first sub-parser failure and
/// succeeds with the results obtained so far, as a tuple of present and
/// absent slots. Input consumed by the successful prefix stays consumed.
pub struct PartialSequence<T>(T);

impl<T> PartialSequence<T> {
    /// The parsers, in the order in which they run.
    pub closed spec fn parts(self) -> T {
        self.0
    }

    pub fn new(tuple: T) -> (s: PartialSequence<T>)
        ensures
            s.parts() == tuple,
    {
        PartialSequence(tuple)
    }
}

impl<P0: Parser, P1: Parser> Parser for PartialSequence<(P0, P1)> {
    type Result = (Option<P0::Result>, Option<P1::Result>);

    open spec fn callable(self) -> bool {
        self.parts().0.callable() && self.parts().1.callable()
    }

    open spec fn parses(
        self,
        input: Seq<char>,
        pos: int,
        r: ParseResult<(Option<P0::Result>, Option<P1::Result>)>,
        end: int,
    ) -> bool {
        match r {
            Ok(v) => {
                ||| (v == (None::<P0::Result>, None::<P1::Result>) && end == pos && exists|
                    e: ParseError,
                |
                    #[trigger] self.parts().0.parses(input, pos, Err(e), pos))
                ||| (exists|x0: P0::Result|
                    v == (Some(x0), None::<P1::Result>) && #[trigger] self.parts().0.parses(
                        input,
                        pos,
                        Ok(x0),
                        end,
                    ) && exists|e: ParseError|
                        #[trigger] self.parts().1.parses(input, end, Err(e), end))
                ||| (exists|x0: P0::Result, x1: P1::Result, m1: int|
                    #![trigger self.parts().0.parses(input, pos, Ok(x0), m1), self.parts().1.parses(input, m1, Ok(x1), end)]
                    v == (Some(x0), Some(x1)) && self.parts().0.parses(input, pos, Ok(x0), m1)
                        && self.parts().1.parses(input, m1, Ok(x1), end))
            },
            Err(_) => false,
        }
    }

    fn parse(&mut self, st: &mut ParseState) -> (r: ParseResult<
        (Option<P0::Result>, Option<P1::Result>),
    >) {
        let hold = st.hold();
        let r0 = match (self.0).0.parse(st) {
            Ok(x) => x,
            Err(e) => {
                let ghost ge = e;
                st.release(hold);
                proof {
                    assert(st.holds() =~= old(st).holds());
                }
                return Ok((None, None));
            },
        };
        let ghost g0 = r0;
        let ghost m1 = st.pos();
        let r1 = match (self.0).1.parse(st) {
            Ok(x) => x,
            Err(e) => {
                let ghost ge = e;
                st.release(hold);
                proof {
                    assert(st.holds() =~= old(st).holds());
                }
                return Ok((Some(r0), None));
            },
        };
        let ghost g1 = r1;
        st.release(hold);
        proof {
            assert(st.holds() =~= old(st).holds());
            assert(old(self).parts().0.parses(old(st).input(), old(st).pos(), Ok(g0), m1));
            assert(old(self).parts().1.parses(old(st).input(), m1, Ok(g1), st.pos()));
        }
        Ok((Some(r0), Some(r1)))
    }
}

/// Maybe is a combinator returning `Option<T>` for a parser returning `T`:
/// it never fails, reporting an absent optional input as `None` with the
/// stream left where it was.
pub struct Maybe<Inner: Parser> {
    inner: Inner,
}

impl<Inner: Parser> Maybe<Inner> {
    /// The wrapped parser.
    pub closed spec fn spec_inner(self) -> Inner {
        self.inner
    }

    pub fn new(p: Inner) -> (m: Maybe<Inner>)
        ensures
            m.spec_inner() == p,
    {
        Maybe { inner: p }
    }
}

impl<R, P: Parser<Result = R>> Parser for Maybe<P> {
    type Result = Option<R>;

    open spec fn callable(self) -> bool {
        self.spec_inner().callable()
    }

    open spec fn parses(
        self,
        input: Seq<char>,
        pos: int,
        r: ParseResult<Option<R>>,
        end: int,
    ) -> bool {
        match r {
            Ok(opt) => match opt {
                Some(v) => self.spec_inner().parses(input, pos, Ok(v), end),
                None => end == pos && exists|e: ParseError|
                    #[trigger] self.spec_inner().parses(input, pos, Err(e), pos),
            },
            Err(_) => false,
        }
    }

    fn parse(&mut self, st: &mut ParseState) -> (r: ParseResult<Option<R>>) {
        match self.inner.parse(st) {
            Ok(v) => Ok(Some(v)),
            Err(e) => {
                let ghost ge = e;
                proof {
                    assert(old(self).spec_inner().parses(old(st).input(), old(st).pos(), Err(ge), old(st).pos()));
                }
                Ok(None)
            },
        }
    }
}

/// Ignore ignores the result of an inner parser, effectively hiding the
/// result. Useful if consumed input should not be processed further, and
/// simplifies types in combined parsers.
pub struct Ignore<Inner: Parser> {
    inner: Inner,
}

impl<Inner: Parser> Ignore<Inner> {
    /// The wrapped parser.
    pub closed spec fn spec_inner(self) -> Inner {
        self.inner
    }

    pub fn new(p: Inner) -> (m: Ignore<Inner>)
        ensures
            m.spec_inner() == p,
    {
        Ignore { inner: p }
    }
}

impl<R, P: Parser<Result = R>> Parser for Ignore<P> {
    type Result = ();

    open spec fn callable(self) -> bool {
        self.spec_inner().callable()
    }

    open spec fn parses(self, input: Seq<char>, pos: int, r: ParseResult<()>, end: int) -> bool {
        match r {
            Ok(_) => exists|v: R| #[trigger] self.spec_inner().parses(input, pos, Ok(v), end),
            Err(e) => end == pos && self.spec_inner().parses(input, pos, Err(e), pos),
        }
    }

    fn parse(&mut self, st: &mut ParseState) -> (r: ParseResult<()>) {
        match self.inner.parse(st) {
            Ok(v) => {
                let ghost gv = v;
                proof {
                    assert(old(self).spec_inner().parses(old(st).input(), old(st).pos(), Ok(gv), st.pos()));
                }
                Ok(())
            },
            Err(e) => Err(e),
        }
    }
}

/// Applies one parser, discards the result, and returns the second parser's
/// result if both succeeded; the stream is rolled back to the start when
/// either part fails. To skip the input consumed by several parsers, use a
/// `Sequence` combinator as `A`.
pub struct Then<A: Parser, B: Parser> {
    a: A,
    b: B,
}

impl<A: Parser, B: Parser> Then<A, B> {
    /// The parser whose result is discarded.
    pub closed spec fn first(self) -> A {
        self.a
    }

    /// The parser whose result is returned.
    pub closed spec fn second(self) -> B {
        self.b
    }

    pub fn new(first: A, second: B) -> (t: Then<A, B>)
        ensures
            t.first() == first,
            t.second() == second,
    {
        Then { a: first, b: second }
    }
}

impl<A: Parser, B: Parser> Parser for Then<A, B> {
    type Result = B::Result;

    open spec fn callable(self) -> bool {
        self.first().callable() && self.second().callable()
    }

    open spec fn parses(
        self,
        input: Seq<char>,
        pos: int,
        r: ParseResult<B::Result>,
        end: int,
    ) -> bool {
        match r {
            Ok(v) => exists|x: A::Result, mid: int|
                #[trigger] self.first().parses(input, pos, Ok(x), mid) && self.second().parses(
                    input,
                    mid,
                    Ok(v),
                    end,
                ),
            Err(e) => end == pos && (self.first().parses(input, pos, Err(e), pos) || exists|
                x: A::Result,
                mid: int,
            |
                #[trigger] self.first().parses(input, pos, Ok(x), mid) && self.second().parses(
                    input,
                    mid,
                    Err(e),
                    mid,
                )),
        }
    }

    fn parse(&mut self, st: &mut ParseState) -> (r: ParseResult<B::Result>) {
        let hold = st.hold();
        match self.a.parse(st) {
            Ok(x) => {
                let ghost gx = x;
                let ghost mid = st.pos();
                match self.b.parse(st) {
                    Ok(v) => {
                        st.release(hold);
                        proof {
                            assert(st.holds() =~= old(st).holds());
                        }
                        Ok(v)
                    },
                    Err(e) => {
                        st.reset(hold);
                        proof {
                            assert(st.holds() =~= old(st).holds());
                        }
                        Err(e)
                    },
                }
            },
            Err(e) => {
                st.release(hold);
                proof {
                    assert(st.holds() =~= old(st).holds());
                }
                Err(e)
            },
        }
    }
}

/// Lazy defers building its wrapped parser until the first invocation and
/// caches it: the constructor function runs at most once, however many times
/// the Lazy parser itself is invoked. This supports recursive grammars and
/// avoids building costly unused branches inside an `Alternative`.
#[verifier::reject_recursive_types(P)]
pub struct Lazy<P: Parser, F: Fn() -> P> {
    f: F,
    built: Option<P>,
    runs: Ghost<nat>,
}

impl<P: Parser, F: Fn() -> P> Lazy<P, F> {
    /// The deferred constructor.
    pub closed spec fn func(self) -> F {
        self.f
    }

    /// The cached parser, once the constructor has run.
    pub closed spec fn built_parser(self) -> Option<P> {
        self.built
    }

    /// How many times the deferred constructor has run.
    pub closed spec fn constructions(self) -> nat {
        self.runs@
    }

    /// Create a new instance of `Lazy` from a constructor function.
    pub fn new(f: F) -> (l: Lazy<P, F>)
        ensures
            l.func() == f,
            l.built_parser() is None,
            l.constructions() == 0,
    {
        Lazy { f: f, built: None, runs: Ghost(0) }
    }
}

/// The deferred constructor of a `Lazy` parser runs at most once across any
/// number of invocations of the same instance, including none at all.
pub proof fn lemma_lazy_builds_at_most_once<P: Parser, F: Fn() -> P>(l: Lazy<P, F>)
    requires
        l.callable(),
    ensures
        l.constructions() <= 1,
{
}

impl<R, P: Parser<Result = R>, F: Fn() -> P> Parser for Lazy<P, F> {
    type Result = R;

    open spec fn callable(self) -> bool {
        &&& call_requires(self.func(), ())
        &&& forall|p: P| #[trigger] call_ensures(self.func(), (), p) ==> p.callable()
        &&& match self.built_parser() {
            Some(p) => p.callable(),
            None => true,
        }
        &&& self.constructions() == (if self.built_parser() is Some {
            1nat
        } else {
            0nat
        })
    }

    open spec fn parses(self, input: Seq<char>, pos: int, r: ParseResult<R>, end: int) -> bool {
        match self.built_parser() {
            Some(p) => p.parses(input, pos, r, end),
            None => true,
        }
    }

    fn parse(&mut self, st: &mut ParseState) -> (r: ParseResult<R>)
        ensures
            final(self).constructions() == 1,
    {
        if self.built.is_none() {
            let p = (self.f)();
            self.built = Some(p);
            proof {
                self.runs@ = self.runs@ + 1;
            }
        }
        match &mut self.built {
            Some(p) => p.parse(st),
            None => {
                proof {
                    assert(false);
                }
                Err(ParseError::EOF)
            },
        }
    }
}

/// How often a `Repeat` combinator repeats its inner parser.
pub enum RepeatSpec {
    /// Any is equivalent to Min(0).
    Any,
    /// At least the given number of repetitions.
    Min(usize),
    /// At most the given number of repetitions.
    Max(usize),
    /// At least the first and at most the second number of repetitions.
    Between(usize, usize),
}

impl RepeatSpec {
    /// The fewest repetitions that count as success.
    pub open spec fn spec_min(self) -> int {
        match self {
            RepeatSpec::Any => 0,
            RepeatSpec::Min(m) => m as int,
            RepeatSpec::Max(_) => 0,
            RepeatSpec::Between(m, _) => m as int,
        }
    }

    /// The repetition count at which repeating stops.
    pub open spec fn spec_max(self) -> int {
        match self {
            RepeatSpec::Any => usize::MAX as int,
            RepeatSpec::Min(_) => usize::MAX as int,
            RepeatSpec::Max(x) => x as int,
            RepeatSpec::Between(_, x) => x as int,
        }
    }
}

/// The parser `p` can produce the results `values` one after another,
/// starting at `pos` and ending at `end`.
pub open spec fn repeat_chain<P: Parser>(
    p: P,
    input: Seq<char>,
    pos: int,
    values: Seq<P::Result>,
    end: int,
) -> bool
    decreases values.len(),
{
    if values.len() == 0 {
        end == pos
    } else {
        exists|mid: int|
            #[trigger] p.parses(input, pos, Ok(values[0]), mid) && repeat_chain(
                p,
                input,
                mid,
                values.skip(1),
                end,
            )
    }
}

/// A chain admitted by a sharpened parser was admitted by the parser it
/// sharpens.
pub proof fn lemma_repeat_chain_mono<P: Parser>(
    p1: P,
    p2: P,
    input: Seq<char>,
    pos: int,
    values: Seq<P::Result>,
    end: int,
)
    requires
        repeat_chain(p2, input, pos, values, end),
        forall|i2: Seq<char>, q: int, rr: ParseResult<P::Result>, e2: int|
            #[trigger] p2.parses(i2, q, rr, e2) ==> p1.parses(i2, q, rr, e2),
    ensures
        repeat_chain(p1, input, pos, values, end),
    decreases values.len(),
{
    if values.len() > 0 {
        let mid = choose|mid: int|
            #[trigger] p2.parses(input, pos, Ok(values[0]), mid) && repeat_chain(
                p2,
                input,
                mid,
                values.skip(1),
                end,
            );
        lemma_repeat_chain_mono(p1, p2, input, mid, values.skip(1), end);
        assert(p1.parses(input, pos, Ok(values[0]), mid));
    }
}

/// A chain extends by one further success of the same parser.
proof fn lemma_repeat_chain_snoc<P: Parser>(
    p: P,
    input: Seq<char>,
    pos: int,
    values: Seq<P::Result>,
    mid: int,
    x: P::Result,
    end: int,
)
    requires
        repeat_chain(p, input, pos, values, mid),
        p.parses(input, mid, Ok(x), end),
    ensures
        repeat_chain(p, input, pos, values.push(x), end),
    decreases values.len(),
{
    if values.len() == 0 {
        assert(values.push(x)[0] == x);
        assert(values.push(x).skip(1) =~= Seq::<P::Result>::empty());
        assert(repeat_chain(p, input, end, values.push(x).skip(1), end));
    } else {
        let m = choose|m: int|
            #[trigger] p.parses(input, pos, Ok(values[0]), m) && repeat_chain(
                p,
                input,
                m,
                values.skip(1),
                mid,
            );
        lemma_repeat_chain_snoc(p, input, m, values.skip(1), mid, x, end);
        assert(values.push(x).skip(1) =~= values.skip(1).push(x));
        assert(values.push(x)[0] == values[0]);
        assert(p.parses(input, pos, Ok(values.push(x)[0]), m));
    }
}

/// A `Repeat` over a sharpened inner parser admits only outcomes that the
/// `Repeat` over the original inner parser admitted.
proof fn lemma_repeat_refines<R, P: Parser<Result = R>>(r1: Repeat<P>, r2: Repeat<P>)
    requires
        r1.bound() == r2.bound(),
        forall|i2: Seq<char>, q: int, rr: ParseResult<R>, e2: int|
            #[trigger] r2.spec_inner().parses(i2, q, rr, e2) ==> r1.spec_inner().parses(
                i2,
                q,
                rr,
                e2,
            ),
    ensures
        forall|i2: Seq<char>, q: int, rr: ParseResult<Vec<R>>, e2: int|
            #[trigger] r2.parses(i2, q, rr, e2) ==> r1.parses(i2, q, rr, e2),
{
    assert forall|i2: Seq<char>, q: int, rr: ParseResult<Vec<R>>, e2: int|
        #[trigger] r2.parses(i2, q, rr, e2) implies r1.parses(i2, q, rr, e2) by {
        match rr {
            Ok(vv) => {
                lemma_repeat_chain_mono(r1.spec_inner(), r2.spec_inner(), i2, q, vv@, e2);
                if vv@.len() != r2.bound().spec_max() {
                    let e = choose|e: ParseError|
                        #[trigger] r2.spec_inner().parses(i2, e2, Err(e), e2);
                    assert(r1.spec_inner().parses(i2, e2, Err(e), e2));
                }
            },
            Err(e) => {
                let (vs, mid) = choose|vs: Seq<R>, mid: int|
                    vs.len() < r2.bound().spec_min() && #[trigger] repeat_chain(
                        r2.spec_inner(),
                        i2,
                        q,
                        vs,
                        mid,
                    ) && r2.spec_inner().parses(i2, mid, Err(e), mid);
                lemma_repeat_chain_mono(r1.spec_inner(), r2.spec_inner(), i2, q, vs, mid);
                assert(r1.spec_inner().parses(i2, mid, Err(e), mid));
            },
        }
    }
}

/// For a Repeat whose bound has its minimum at or below its maximum, every
/// successful outcome collects at least the minimum and at most the maximum
/// number of results, one per repetition of the inner parser, and the stream
/// advances by exactly what those repetitions consumed; every failing
/// outcome leaves the cursor where the Repeat began, with no net
/// consumption.
pub proof fn lemma_repeat_bounds<R, P: Parser<Result = R>>(
    rp: Repeat<P>,
    input: Seq<char>,
    pos: int,
    r: ParseResult<Vec<R>>,
    end: int,
)
    requires
        rp.parses(input, pos, r, end),
        rp.bound().spec_min() <= rp.bound().spec_max(),
    ensures
        r matches Ok(v) ==> rp.bound().spec_min() <= v@.len() <= rp.bound().spec_max()
            && repeat_chain(rp.spec_inner(), input, pos, v@, end),
        r is Err ==> end == pos,
{
}

/// Repeat applies its inner parser again and again, collecting the results,
/// until the inner parser fails or the bound's maximum is reached. If at
/// least the bound's minimum of repetitions succeeded the collected results
/// are returned (the failing attempt itself is not an error); otherwise the
/// whole combinator fails and rewinds to its start.
pub struct Repeat<P: Parser> {
    inner: P,
    repeat: RepeatSpec,
}

impl<P: Parser> Repeat<P> {
    /// The repeated parser.
    pub closed spec fn spec_inner(self) -> P {
        self.inner
    }

    /// The repetition bound.
    pub closed spec fn bound(self) -> RepeatSpec {
        self.repeat
    }

    pub fn new(p: P, r: RepeatSpec) -> (rp: Repeat<P>)
        ensures
            rp.spec_inner() == p,
            rp.bound() == r,
    {
        Repeat { inner: p, repeat: r }
    }
}

impl<R, P: Parser<Result = R>> Parser for Repeat<P> {
    type Result = Vec<R>;

    open spec fn callable(self) -> bool {
        self.spec_inner().callable()
    }

    open spec fn parses(
        self,
        input: Seq<char>,
        pos: int,
        r: ParseResult<Vec<R>>,
        end: int,
    ) -> bool {
        match r {
            Ok(v) => {
                &&& v@.len() <= self.bound().spec_max()
                &&& repeat_chain(self.spec_inner(), input, pos, v@, end)
                &&& (v@.len() == self.bound().spec_max() || (self.bound().spec_min() <= v@.len()
                    && exists|e: ParseError|
                    #[trigger] self.spec_inner().parses(input, end, Err(e), end)))
            },
            Err(e) => {
                &&& end == pos
                &&& exists|vs: Seq<R>, mid: int|
                    vs.len() < self.bound().spec_min() && #[trigger] repeat_chain(
                        self.spec_inner(),
                        input,
                        pos,
                        vs,
                        mid,
                    ) && self.spec_inner().parses(input, mid, Err(e), mid)
            },
        }
    }

    fn parse(&mut self, st: &mut ParseState) -> (r: ParseResult<Vec<R>>) {
        let (min, max) = match &self.repeat {
            RepeatSpec::Any => (0usize, usize::MAX),
            RepeatSpec::Min(m) => (*m, usize::MAX),
            RepeatSpec::Max(x) => (0usize, *x),
            RepeatSpec::Between(m, x) => (*m, *x),
        };
        let mut v: Vec<R> = Vec::new();
        let ghost start = st.pos();
        let hold = st.hold();
        loop
            invariant
                st.wf(),
                self.callable(),
                self.repeat == old(self).repeat,
                min as int == self.bound().spec_min(),
                max as int == self.bound().spec_max(),
                st.input() == old(st).input(),
                st.holds() == old(st).holds().insert(start),
                hold.target() == start,
                start == old(st).pos(),
                start <= st.pos() <= st.input().len(),
                v@.len() <= max,
                repeat_chain(old(self).spec_inner(), st.input(), start, v@, st.pos()),
                forall|i2: Seq<char>, q: int, rr: ParseResult<R>, e2: int|
                    #[trigger] self.spec_inner().parses(i2, q, rr, e2) ==> old(
                        self,
                    ).spec_inner().parses(i2, q, rr, e2),
            decreases max - v@.len(),
        {
            if v.len() >= max {
                st.release(hold);
                proof {
                    assert(st.holds() =~= old(st).holds());
                    lemma_repeat_refines(*old(self), *self);
                }
                return Ok(v);
            }
            let ghost pre_inner = self.inner;
            let ghost cur = st.pos();
            match self.inner.parse(st) {
                Ok(x) => {
                    let ghost gx = x;
                    proof {
                        assert(old(self).spec_inner().parses(st.input(), cur, Ok(gx), st.pos()));
                        lemma_repeat_chain_snoc(
                            old(self).spec_inner(),
                            st.input(),
                            start,
                            v@,
                            cur,
                            gx,
                            st.pos(),
                        );
                    }
                    v.push(x);
                },
                Err(e) => {
                    let ghost ge = e;
                    proof {
                        assert(old(self).spec_inner().parses(st.input(), cur, Err(ge), cur));
                    }
                    if v.len() >= min {
                        st.release(hold);
                        proof {
                            assert(st.holds() =~= old(st).holds());
                            lemma_repeat_refines(*old(self), *self);
                        }
                        return Ok(v);
                    } else {
                        st.reset(hold);
                        proof {
                            assert(st.holds() =~= old(st).holds());
                            lemma_repeat_refines(*old(self), *self);
                        }
                        return Err(e);
                    }
                },
            }
        }
    }
}


impl<P0: Parser, P1: Parser, P2: Parser> Parser for Sequence<(P0, P1, P2)> {
    type Result = (P0::Result, P1::Result, P2::Result);

    open spec fn callable(self) -> bool {
        self.parts().0.callable() && self.parts().1.callable() && self.parts().2.callable()
    }

    open spec fn parses(
        self,
        input: Seq<char>,
        pos: int,
        r: ParseResult<(P0::Result, P1::Result, P2::Result)>,
        end: int,
    ) -> bool {
        match r {
            Ok(v) => exists|x0: P0::Result, x1: P1::Result, x2: P2::Result, m1: int, m2: int|
                #![trigger self.parts().0.parses(input, pos, Ok(x0), m1), self.parts().1.parses(input, m1, Ok(x1), m2), self.parts().2.parses(input, m2, Ok(x2), end)]
                v == (x0, x1, x2) && self.parts().0.parses(input, pos, Ok(x0), m1) && self.parts().1.parses(input, m1, Ok(x1), m2) && self.parts().2.parses(input, m2, Ok(x2), end),
            Err(e) => {
                &&& end == pos
                &&& (self.parts().0.parses(input, pos, Err(e), pos) || (exists|x0: P0::Result, m1: int|
                    #[trigger] self.parts().0.parses(input, pos, Ok(x0), m1)
                        && self.parts().1.parses(input, m1, Err(e), m1)) || (exists|
                    x0: P0::Result,
                    x1: P1::Result,
                    m1: int,
                    m2: int,
                |
                    #![trigger self.parts().0.parses(input, pos, Ok(x0), m1), self.parts().1.parses(input, m1, Ok(x1), m2)]
                    self.parts().0.parses(input, pos, Ok(x0), m1) && self.parts().1.parses(
                        input,
                        m1,
                        Ok(x1),
                        m2,
                    ) && self.parts().2.parses(input, m2, Err(e), m2)))
            },
        }
    }

    fn parse(&mut self, st: &mut ParseState) -> (r: ParseResult<(P0::Result, P1::Result, P2::Result)>) {
        let hold = st.hold();
        let r0 = match (self.0).0.parse(st) {
            Ok(x) => x,
            Err(e) => {
                st.reset(hold);
                proof {
                    assert(st.holds() =~= old(st).holds());
                }
                return Err(e);
            },
        };
        let ghost g0 = r0;
        let ghost m1 = st.pos();
        let r1 = match (self.0).1.parse(st) {
            Ok(x) => x,
            Err(e) => {
                st.reset(hold);
                proof {
                    assert(st.holds() =~= old(st).holds());
                }
                return Err(e);
            },
        };
        let ghost g1 = r1;
        let ghost m2 = st.pos();
        let r2 = match (self.0).2.parse(st) {
            Ok(x) => x,
            Err(e) => {
                st.reset(hold);
                proof {
                    assert(st.holds() =~= old(st).holds());
                }
                return Err(e);
            },
        };
        let ghost g2 = r2;
        st.release(hold);
        proof {
            assert(st.holds() =~= old(st).holds());
            assert(old(self).parts().0.parses(old(st).input(), old(st).pos(), Ok(g0), m1));
            assert(old(self).parts().1.parses(old(st).input(), m1, Ok(g1), m2));
            assert(old(self).parts().2.parses(old(st).input(), m2, Ok(g2), st.pos()));
        }
        Ok((r0, r1, r2))
    }
}

impl<P0: Parser, P1: Parser, P2: Parser, P3: Parser> Parser for Sequence<(P0, P1, P2, P3)> {
    type Result = (P0::Result, P1::Result, P2::Result, P3::Result);

    open spec fn callable(self) -> bool {
        self.parts().0.callable() && self.parts().1.callable() && self.parts().2.callable() && self.parts().3.callable()
    }

    open spec fn parses(
        self,
        input: Seq<char>,
        pos: int,
        r: ParseResult<(P0::Result, P1::Result, P2::Result, P3::Result)>,
        end: int,
    ) -> bool {
        match r {
            Ok(v) => exists|x0: P0::Result, x1: P1::Result, x2: P2::Result, x3: P3::Result, m1: int, m2: int, m3: int|
                #![trigger self.parts().0.parses(input, pos, Ok(x0), m1), self.parts().1.parses(input, m1, Ok(x1), m2), self.parts().2.parses(input, m2, Ok(x2), m3), self.parts().3.parses(input, m3, Ok(x3), end)]
                v == (x0, x1, x2, x3) && self.parts().0.parses(input, pos, Ok(x0), m1) && self.parts().1.parses(input, m1, Ok(x1), m2) && self.parts().2.parses(input, m2, Ok(x2), m3) && self.parts().3.parses(input, m3, Ok(x3), end),
            Err(e) => {
                &&& end == pos
                &&& (self.parts().0.parses(input, pos, Err(e), pos) || 
                (exists|x0: P0::Result, m1: int|
                    #![trigger self.parts().0.parses(input, pos, Ok(x0), m1)]
                    self.parts().0.parses(input, pos, Ok(x0), m1) && self.parts().1.parses(input, m1, Err(e), m1)) || (exists|x0: P0::Result, x1: P1::Result, m1: int, m2: int|
                    #![trigger self.parts().0.parses(input, pos, Ok(x0), m1), self.parts().1.parses(input, m1, Ok(x1), m2)]
                    self.parts().0.parses(input, pos, Ok(x0), m1) && self.parts().1.parses(input, m1, Ok(x1), m2) && self.parts().2.parses(input, m2, Err(e), m2)) || (exists|x0: P0::Result, x1: P1::Result, x2: P2::Result, m1: int, m2: int, m3: int|
                    #![trigger self.parts().0.parses(input, pos, Ok(x0), m1), self.parts().1.parses(input, m1, Ok(x1), m2), self.parts().2.parses(input, m2, Ok(x2), m3)]
                    self.parts().0.parses(input, pos, Ok(x0), m1) && self.parts().1.parses(input, m1, Ok(x1), m2) && self.parts().2.parses(input, m2, Ok(x2), m3) && self.parts().3.parses(input, m3, Err(e), m3)))
            },
        }
    }

    fn parse(&mut self, st: &mut ParseState) -> (r: ParseResult<(P0::Result, P1::Result, P2::Result, P3::Result)>) {
        let hold = st.hold();
        let r0 = match (self.0).0.parse(st) {
            Ok(x) => x,
            Err(e) => {
                st.reset(hold);
                proof {
                    assert(st.holds() =~= old(st).holds());
                }
                return Err(e);
            },
        };
        let ghost g0 = r0;
        let ghost m1 = st.pos();
        let r1 = match (self.0).1.parse(st) {
            Ok(x) => x,
            Err(e) => {
                st.reset(hold);
                proof {
                    assert(st.holds() =~= old(st).holds());
                }
                return Err(e);
            },
        };
        let ghost g1 = r1;
        let ghost m2 = st.pos();
        let r2 = match (self.0).2.parse(st) {
            Ok(x) => x,
            Err(e) => {
                st.reset(hold);
                proof {
                    assert(st.holds() =~= old(st).holds());
                }
                return Err(e);
            },
        };
        let ghost g2 = r2;
        let ghost m3 = st.pos();
        let r3 = match (self.0).3.parse(st) {
            Ok(x) => x,
            Err(e) => {
                st.reset(hold);
                proof {
                    assert(st.holds() =~= old(st).holds());
                }
                return Err(e);
            },
        };
        let ghost g3 = r3;
        st.release(hold);
        proof {
            assert(st.holds() =~= old(st).holds());
            assert(old(self).parts().0.parses(old(st).input(), old(st).pos(), Ok(g0), m1));
            assert(old(self).parts().1.parses(old(st).input(), m1, Ok(g1), m2));
            assert(old(self).parts().2.parses(old(st).input(), m2, Ok(g2), m3));
            assert(old(self).parts().3.parses(old(st).input(), m3, Ok(g3), st.pos()));
        }
        Ok((r0, r1, r2, r3))
    }
}

impl<P0: Parser, P1: Parser, P2: Parser, P3: Parser, P4: Parser> Parser for Sequence<(P0, P1, P2, P3, P4)> {
    type Result = (P0::Result, P1::Result, P2::Result, P3::Result, P4::Result);

    open spec fn callable(self) -> bool {
        self.parts().0.callable() && self.parts().1.callable() && self.parts().2.callable() && self.parts().3.callable() && self.parts().4.callable()
    }

    open spec fn parses(
        self,
        input: Seq<char>,
        pos: int,
        r: ParseResult<(P0::Result, P1::Result, P2::Result, P3::Result, P4::Result)>,
        end: int,
    ) -> bool {
        match r {
            Ok(v) => exists|x0: P0::Result, x1: P1::Result, x2: P2::Result, x3: P3::Result, x4: P4::Result, m1: int, m2: int, m3: int, m4: int|
                #![trigger self.parts().0.parses(input, pos, Ok(x0), m1), self.parts().1.parses(input, m1, Ok(x1), m2), self.parts().2.parses(input, m2, Ok(x2), m3), self.parts().3.parses(input, m3, Ok(x3), m4), self.parts().4.parses(input, m4, Ok(x4), end)]
                v == (x0, x1, x2, x3, x4) && self.parts().0.parses(input, pos, Ok(x0), m1) && self.parts().1.parses(input, m1, Ok(x1), m2) && self.parts().2.parses(input, m2, Ok(x2), m3) && self.parts().3.parses(input, m3, Ok(x3), m4) && self.parts().4.parses(input, m4, Ok(x4), end),
            Err(e) => {
                &&& end == pos
                &&& (self.parts().0.parses(input, pos, Err(e), pos) || 
                (exists|x0: P0::Result, m1: int|
                    #![trigger self.parts().0.parses(input, pos, Ok(x0), m1)]
                    self.parts().0.parses(input, pos, Ok(x0), m1) && self.parts().1.parses(input, m1, Err(e), m1)) || (exists|x0: P0::Result, x1: P1::Result, m1: int, m2: int|
                    #![trigger self.parts().0.parses(input, pos, Ok(x0), m1), self.parts().1.parses(input, m1, Ok(x1), m2)]
                    self.parts().0.parses(input, pos, Ok(x0), m1) && self.parts().1.parses(input, m1, Ok(x1), m2) && self.parts().2.parses(input, m2, Err(e), m2)) || (exists|x0: P0::Result, x1: P1::Result, x2: P2::Result, m1: int, m2: int, m3: int|
                    #![trigger self.parts().0.parses(input, pos, Ok(x0), m1), self.parts().1.parses(input, m1, Ok(x1), m2), self.parts().2.parses(input, m2, Ok(x2), m3)]
                    self.parts().0.parses(input, pos, Ok(x0), m1) && self.parts().1.parses(input, m1, Ok(x1), m2) && self.parts().2.parses(input, m2, Ok(x2), m3) && self.parts().3.parses(input, m3, Err(e), m3)) || (exists|x0: P0::Result, x1: P1::Result, x2: P2::Result, x3: P3::Result, m1: int, m2: int, m3: int, m4: int|
                    #![trigger self.parts().0.parses(input, pos, Ok(x0), m1), self.parts().1.parses(input, m1, Ok(x1), m2), self.parts().2.parses(input, m2, Ok(x2), m3), self.parts().3.parses(input, m3, Ok(x3), m4)]
                    self.parts().0.parses(input, pos, Ok(x0), m1) && self.parts().1.parses(input, m1, Ok(x1), m2) && self.parts().2.parses(input, m2, Ok(x2), m3) && self.parts().3.parses(input, m3, Ok(x3), m4) && self.parts().4.parses(input, m4, Err(e), m4)))
            },
        }
    }

    fn parse(&mut self, st: &mut ParseState) -> (r: ParseResult<(P0::Result, P1::Result, P2::Result, P3::Result, P4::Result)>) {
        let hold = st.hold();
        let r0 = match (self.0).0.parse(st) {
            Ok(x) => x,
            Err(e) => {
                st.reset(hold);
                proof {
                    assert(st.holds() =~= old(st).holds());
                }
                return Err(e);
            },
        };
        let ghost g0 = r0;
        let ghost m1 = st.pos();
        let r1 = match (self.0).1.parse(st) {
            Ok(x) => x,
            Err(e) => {
                st.reset(hold);
                proof {
                    assert(st.holds() =~= old(st).holds());
                }
                return Err(e);
            },
        };
        let ghost g1 = r1;
        let ghost m2 = st.pos();
        let r2 = match (self.0).2.parse(st) {
            Ok(x) => x,
            Err(e) => {
                st.reset(hold);
                proof {
                    assert(st.holds() =~= old(st).holds());
                }
                return Err(e);
            },
        };
        let ghost g2 = r2;
        let ghost m3 = st.pos();
        let r3 = match (self.0).3.parse(st) {
            Ok(x) => x,
            Err(e) => {
                st.reset(hold);
                proof {
                    assert(st.holds() =~= old(st).holds());
                }
                return Err(e);
            },
        };
        let ghost g3 = r3;
        let ghost m4 = st.pos();
        let r4 = match (self.0).4.parse(st) {
            Ok(x) => x,
            Err(e) => {
                st.reset(hold);
                proof {
                    assert(st.holds() =~= old(st).holds());
                }
                return Err(e);
            },
        };
        let ghost g4 = r4;
        st.release(hold);
        proof {
            assert(st.holds() =~= old(st).holds());
            assert(old(self).parts().0.parses(old(st).input(), old(st).pos(), Ok(g0), m1));
            assert(old(self).parts().1.parses(old(st).input(), m1, Ok(g1), m2));
            assert(old(self).parts().2.parses(old(st).input(), m2, Ok(g2), m3));
            assert(old(self).parts().3.parses(old(st).input(), m3, Ok(g3), m4));
            assert(old(self).parts().4.parses(old(st).input(), m4, Ok(g4), st.pos()));
        }
        Ok((r0, r1, r2, r3, r4))
    }
}

impl<P0: Parser, P1: Parser, P2: Parser, P3: Parser, P4: Parser, P5: Parser, P6: Parser, P7: Parser, P8: Parser, P9: Parser> Parser for Sequence<(P0, P1, P2, P3, P4, P5, P6, P7, P8, P9)> {
    type Result = (P0::Result, P1::Result, P2::Result, P3::Result, P4::Result, P5::Result, P6::Result, P7::Result, P8::Result, P9::Result);

    open spec fn callable(self) -> bool {
        self.parts().0.callable() && self.parts().1.callable() && self.parts().2.callable() && self.parts().3.callable() && self.parts().4.callable() && self.parts().5.callable() && self.parts().6.callable() && self.parts().7.callable() && self.parts().8.callable() && self.parts().9.callable()
    }

    open spec fn parses(
        self,
        input: Seq<char>,
        pos: int,
        r: ParseResult<(P0::Result, P1::Result, P2::Result, P3::Result, P4::Result, P5::Result, P6::Result, P7::Result, P8::Result, P9::Result)>,
        end: int,
    ) -> bool {
        match r {
            Ok(v) => exists|x0: P0::Result, x1: P1::Result, x2: P2::Result, x3: P3::Result, x4: P4::Result, x5: P5::Result, x6: P6::Result, x7: P7::Result, x8: P8::Result, x9: P9::Result, m1: int, m2: int, m3: int, m4: int, m5: int, m6: int, m7: int, m8: int, m9: int|
                #![trigger self.parts().0.parses(input, pos, Ok(x0), m1), self.parts().1.parses(input, m1, Ok(x1), m2), self.parts().2.parses(input, m2, Ok(x2), m3), self.parts().3.parses(input, m3, Ok(x3), m4), self.parts().4.parses(input, m4, Ok(x4), m5), self.parts().5.parses(input, m5, Ok(x5), m6), self.parts().6.parses(input, m6, Ok(x6), m7), self.parts().7.parses(input, m7, Ok(x7), m8), self.parts().8.parses(input, m8, Ok(x8), m9), self.parts().9.parses(input, m9, Ok(x9), end)]
                v == (x0, x1, x2, x3, x4, x5, x6, x7, x8, x9) && self.parts().0.parses(input, pos, Ok(x0), m1) && self.parts().1.parses(input, m1, Ok(x1), m2) && self.parts().2.parses(input, m2, Ok(x2), m3) && self.parts().3.parses(input, m3, Ok(x3), m4) && self.parts().4.parses(input, m4, Ok(x4), m5) && self.parts().5.parses(input, m5, Ok(x5), m6) && self.parts().6.parses(input, m6, Ok(x6), m7) && self.parts().7.parses(input, m7, Ok(x7), m8) && self.parts().8.parses(input, m8, Ok(x8), m9) && self.parts().9.parses(input, m9, Ok(x9), end),
            Err(e) => {
                &&& end == pos
                &&& (self.parts().0.parses(input, pos, Err(e), pos) || 
                (exists|x0: P0::Result, m1: int|
                    #![trigger self.parts().0.parses(input, pos, Ok(x0), m1)]
                    self.parts().0.parses(input, pos, Ok(x0), m1) && self.parts().1.parses(input, m1, Err(e), m1)) || (exists|x0: P0::Result, x1: P1::Result, m1: int, m2: int|
                    #![trigger self.parts().0.parses(input, pos, Ok(x0), m1), self.parts().1.parses(input, m1, Ok(x1), m2)]
                    self.parts().0.parses(input, pos, Ok(x0), m1) && self.parts().1.parses(input, m1, Ok(x1), m2) && self.parts().2.parses(input, m2, Err(e), m2)) || (exists|x0: P0::Result, x1: P1::Result, x2: P2::Result, m1: int, m2: int, m3: int|
                    #![trigger self.parts().0.parses(input, pos, Ok(x0), m1), self.parts().1.parses(input, m1, Ok(x1), m2), self.parts().2.parses(input, m2, Ok(x2), m3)]
                    self.parts().0.parses(input, pos, Ok(x0), m1) && self.parts().1.parses(input, m1, Ok(x1), m2) && self.parts().2.parses(input, m2, Ok(x2), m3) && self.parts().3.parses(input, m3, Err(e), m3)) || (exists|x0: P0::Result, x1: P1::Result, x2: P2::Result, x3: P3::Result, m1: int, m2: int, m3: int, m4: int|
                    #![trigger self.parts().0.parses(input, pos, Ok(x0), m1), self.parts().1.parses(input, m1, Ok(x1), m2), self.parts().2.parses(input, m2, Ok(x2), m3), self.parts().3.parses(input, m3, Ok(x3), m4)]
                    self.parts().0.parses(input, pos, Ok(x0), m1) && self.parts().1.parses(input, m1, Ok(x1), m2) && self.parts().2.parses(input, m2, Ok(x2), m3) && self.parts().3.parses(input, m3, Ok(x3), m4) && self.parts().4.parses(input, m4, Err(e), m4)) || (exists|x0: P0::Result, x1: P1::Result, x2: P2::Result, x3: P3::Result, x4: P4::Result, m1: int, m2: int, m3: int, m4: int, m5: int|
                    #![trigger self.parts().0.parses(input, pos, Ok(x0), m1), self.parts().1.parses(input, m1, Ok(x1), m2), self.parts().2.parses(input, m2, Ok(x2), m3), self.parts().3.parses(input, m3, Ok(x3), m4), self.parts().4.parses(input, m4, Ok(x4), m5)]
                    self.parts().0.parses(input, pos, Ok(x0), m1) && self.parts().1.parses(input, m1, Ok(x1), m2) && self.parts().2.parses(input, m2, Ok(x2), m3) && self.parts().3.parses(input, m3, Ok(x3), m4) && self.parts().4.parses(input, m4, Ok(x4), m5) && self.parts().5.parses(input, m5, Err(e), m5)) || (exists|x0: P0::Result, x1: P1::Result, x2: P2::Result, x3: P3::Result, x4: P4::Result, x5: P5::Result, m1: int, m2: int, m3: int, m4: int, m5: int, m6: int|
                    #![trigger self.parts().0.parses(input, pos, Ok(x0), m1), self.parts().1.parses(input, m1, Ok(x1), m2), self.parts().2.parses(input, m2, Ok(x2), m3), self.parts().3.parses(input, m3, Ok(x3), m4), self.parts().4.parses(input, m4, Ok(x4), m5), self.parts().5.parses(input, m5, Ok(x5), m6)]
                    self.parts().0.parses(input, pos, Ok(x0), m1) && self.parts().1.parses(input, m1, Ok(x1), m2) && self.parts().2.parses(input, m2, Ok(x2), m3) && self.parts().3.parses(input, m3, Ok(x3), m4) && self.parts().4.parses(input, m4, Ok(x4), m5) && self.parts().5.parses(input, m5, Ok(x5), m6) && self.parts().6.parses(input, m6, Err(e), m6)) || (exists|x0: P0::Result, x1: P1::Result, x2: P2::Result, x3: P3::Result, x4: P4::Result, x5: P5::Result, x6: P6::Result, m1: int, m2: int, m3: int, m4: int, m5: int, m6: int, m7: int|
                    #![trigger self.parts().0.parses(input, pos, Ok(x0), m1), self.parts().1.parses(input, m1, Ok(x1), m2), self.parts().2.parses(input, m2, Ok(x2), m3), self.parts().3.parses(input, m3, Ok(x3), m4), self.parts().4.parses(input, m4, Ok(x4), m5), self.parts().5.parses(input, m5, Ok(x5), m6), self.parts().6.parses(input, m6, Ok(x6), m7)]
                    self.parts().0.parses(input, pos, Ok(x0), m1) && self.parts().1.parses(input, m1, Ok(x1), m2) && self.parts().2.parses(input, m2, Ok(x2), m3) && self.parts().3.parses(input, m3, Ok(x3), m4) && self.parts().4.parses(input, m4, Ok(x4), m5) && self.parts().5.parses(input, m5, Ok(x5), m6) && self.parts().6.parses(input, m6, Ok(x6), m7) && self.parts().7.parses(input, m7, Err(e), m7)) || (exists|x0: P0::Result, x1: P1::Result, x2: P2::Result, x3: P3::Result, x4: P4::Result, x5: P5::Result, x6: P6::Result, x7: P7::Result, m1: int, m2: int, m3: int, m4: int, m5: int, m6: int, m7: int, m8: int|
                    #![trigger self.parts().0.parses(input, pos, Ok(x0), m1), self.parts().1.parses(input, m1, Ok(x1), m2), self.parts().2.parses(input, m2, Ok(x2), m3), self.parts().3.parses(input, m3, Ok(x3), m4), self.parts().4.parses(input, m4, Ok(x4), m5), self.parts().5.parses(input, m5, Ok(x5), m6), self.parts().6.parses(input, m6, Ok(x6), m7), self.parts().7.parses(input, m7, Ok(x7), m8)]
                    self.parts().0.parses(input, pos, Ok(x0), m1) && self.parts().1.parses(input, m1, Ok(x1), m2) && self.parts().2.parses(input, m2, Ok(x2), m3) && self.parts().3.parses(input, m3, Ok(x3), m4) && self.parts().4.parses(input, m4, Ok(x4), m5) && self.parts().5.parses(input, m5, Ok(x5), m6) && self.parts().6.parses(input, m6, Ok(x6), m7) && self.parts().7.parses(input, m7, Ok(x7), m8) && self.parts().8.parses(input, m8, Err(e), m8)) || (exists|x0: P0::Result, x1: P1::Result, x2: P2::Result, x3: P3::Result, x4: P4::Result, x5: P5::Result, x6: P6::Result, x7: P7::Result, x8: P8::Result, m1: int, m2: int, m3: int, m4: int, m5: int, m6: int, m7: int, m8: int, m9: int|
                    #![trigger self.parts().0.parses(input, pos, Ok(x0), m1), self.parts().1.parses(input, m1, Ok(x1), m2), self.parts().2.parses(input, m2, Ok(x2), m3), self.parts().3.parses(input, m3, Ok(x3), m4), self.parts().4.parses(input, m4, Ok(x4), m5), self.parts().5.parses(input, m5, Ok(x5), m6), self.parts().6.parses(input, m6, Ok(x6), m7), self.parts().7.parses(input, m7, Ok(x7), m8), self.parts().8.parses(input, m8, Ok(x8), m9)]
                    self.parts().0.parses(input, pos, Ok(x0), m1) && self.parts().1.parses(input, m1, Ok(x1), m2) && self.parts().2.parses(input, m2, Ok(x2), m3) && self.parts().3.parses(input, m3, Ok(x3), m4) && self.parts().4.parses(input, m4, Ok(x4), m5) && self.parts().5.parses(input, m5, Ok(x5), m6) && self.parts().6.parses(input, m6, Ok(x6), m7) && self.parts().7.parses(input, m7, Ok(x7), m8) && self.parts().8.parses(input, m8, Ok(x8), m9) && self.parts().9.parses(input, m9, Err(e), m9)))
            },
        }
    }

    fn parse(&mut self, st: &mut ParseState) -> (r: ParseResult<(P0::Result, P1::Result, P2::Result, P3::Result, P4::Result, P5::Result, P6::Result, P7::Result, P8::Result, P9::Result)>) {
        let hold = st.hold();
        let r0 = match (self.0).0.parse(st) {
            Ok(x) => x,
            Err(e) => {
                st.reset(hold);
                proof {
                    assert(st.holds() =~= old(st).holds());
                }
                return Err(e);
            },
        };
        let ghost g0 = r0;
        let ghost m1 = st.pos();
        let r1 = match (self.0).1.parse(st) {
            Ok(x) => x,
            Err(e) => {
                st.reset(hold);
                proof {
                    assert(st.holds() =~= old(st).holds());
                }
                return Err(e);
            },
        };
        let ghost g1 = r1;
        let ghost m2 = st.pos();
        let r2 = match (self.0).2.parse(st) {
            Ok(x) => x,
            Err(e) => {
                st.reset(hold);
                proof {
                    assert(st.holds() =~= old(st).holds());
                }
                return Err(e);
            },
        };
        let ghost g2 = r2;
        let ghost m3 = st.pos();
        let r3 = match (self.0).3.parse(st) {
            Ok(x) => x,
            Err(e) => {
                st.reset(hold);
                proof {
                    assert(st.holds() =~= old(st).holds());
                }
                return Err(e);
            },
        };
        let ghost g3 = r3;
        let ghost m4 = st.pos();
        let r4 = match (self.0).4.parse(st) {
            Ok(x) => x,
            Err(e) => {
                st.reset(hold);
                proof {
                    assert(st.holds() =~= old(st).holds());
                }
                return Err(e);
            },
        };
        let ghost g4 = r4;
        let ghost m5 = st.pos();
        let r5 = match (self.0).5.parse(st) {
            Ok(x) => x,
            Err(e) => {
                st.reset(hold);
                proof {
                    assert(st.holds() =~= old(st).holds());
                }
                return Err(e);
            },
        };
        let ghost g5 = r5;
        let ghost m6 = st.pos();
        let r6 = match (self.0).6.parse(st) {
            Ok(x) => x,
            Err(e) => {
                st.reset(hold);
                proof {
                    assert(st.holds() =~= old(st).holds());
                }
                return Err(e);
            },
        };
        let ghost g6 = r6;
        let ghost m7 = st.pos();
        let r7 = match (self.0).7.parse(st) {
            Ok(x) => x,
            Err(e) => {
                st.reset(hold);
                proof {
                    assert(st.holds() =~= old(st).holds());
                }
                return Err(e);
            },
        };
        let ghost g7 = r7;
        let ghost m8 = st.pos();
        let r8 = match (self.0).8.parse(st) {
            Ok(x) => x,
            Err(e) => {
                st.reset(hold);
                proof {
                    assert(st.holds() =~= old(st).holds());
                }
                return Err(e);
            },
        };
        let ghost g8 = r8;
        let ghost m9 = st.pos();
        let r9 = match (self.0).9.parse(st) {
            Ok(x) => x,
            Err(e) => {
                st.reset(hold);
                proof {
                    assert(st.holds() =~= old(st).holds());
                }
                return Err(e);
            },
        };
        let ghost g9 = r9;
        st.release(hold);
        proof {
            assert(st.holds() =~= old(st).holds());
            assert(old(self).parts().0.parses(old(st).input(), old(st).pos(), Ok(g0), m1));
            assert(old(self).parts().1.parses(old(st).input(), m1, Ok(g1), m2));
            assert(old(self).parts().2.parses(old(st).input(), m2, Ok(g2), m3));
            assert(old(self).parts().3.parses(old(st).input(), m3, Ok(g3), m4));
            assert(old(self).parts().4.parses(old(st).input(), m4, Ok(g4), m5));
            assert(old(self).parts().5.parses(old(st).input(), m5, Ok(g5), m6));
            assert(old(self).parts().6.parses(old(st).input(), m6, Ok(g6), m7));
            assert(old(self).parts().7.parses(old(st).input(), m7, Ok(g7), m8));
            assert(old(self).parts().8.parses(old(st).input(), m8, Ok(g8), m9));
            assert(old(self).parts().9.parses(old(st).input(), m9, Ok(g9), st.pos()));
        }
        Ok((r0, r1, r2, r3, r4, r5, r6, r7, r8, r9))
    }
}

impl<R, P0: Parser<Result = R>, P1: Parser<Result = R>, P2: Parser<Result = R>> Parser for Alternative<(P0, P1, P2)> {
    type Result = R;

    open spec fn callable(self) -> bool {
        self.parts().0.callable() && self.parts().1.callable() && self.parts().2.callable()
    }

    open spec fn parses(self, input: Seq<char>, pos: int, r: ParseResult<R>, end: int) -> bool {
        match r {
            Ok(v) => {
                ||| (self.parts().0.parses(input, pos, Ok(v), end))
                ||| ((exists|e: ParseError| #[trigger] self.parts().0.parses(input, pos, Err(e), pos)) && self.parts().1.parses(input, pos, Ok(v), end))
                ||| ((exists|e: ParseError| #[trigger] self.parts().0.parses(input, pos, Err(e), pos)) && (exists|e: ParseError| #[trigger] self.parts().1.parses(input, pos, Err(e), pos)) && self.parts().2.parses(input, pos, Ok(v), end))
            },
            Err(e) => {
                &&& end == pos
                &&& exists|e0: ParseError| #[trigger] self.parts().0.parses(input, pos, Err(e0), pos)
                &&& exists|e1: ParseError| #[trigger] self.parts().1.parses(input, pos, Err(e1), pos)
                &&& exists|e2: ParseError| #[trigger] self.parts().2.parses(input, pos, Err(e2), pos)
                &&& e matches ParseError::Fail(m, p) && m@ == "no alternative matched"@ && p as int
                    == pos
            },
        }
    }

    fn parse(&mut self, st: &mut ParseState) -> (r: ParseResult<R>) {
        let hold = st.hold();
        match (self.0).0.parse(st) {
            Ok(v) => {
                st.release(hold);
                proof {
                    assert(st.holds() =~= old(st).holds());
                }
                return Ok(v);
            },
            Err(e) => {
                let ghost ge = e;
                st.reset(hold);
                proof {
                    assert(st.holds() =~= old(st).holds());
                    assert(old(self).parts().0.parses(old(st).input(), old(st).pos(), Err(ge), old(st).pos()));
                }
            },
        }
        let hold = st.hold();
        match (self.0).1.parse(st) {
            Ok(v) => {
                st.release(hold);
                proof {
                    assert(st.holds() =~= old(st).holds());
                }
                return Ok(v);
            },
            Err(e) => {
                let ghost ge = e;
                st.reset(hold);
                proof {
                    assert(st.holds() =~= old(st).holds());
                    assert(old(self).parts().1.parses(old(st).input(), old(st).pos(), Err(ge), old(st).pos()));
                }
            },
        }
        let hold = st.hold();
        match (self.0).2.parse(st) {
            Ok(v) => {
                st.release(hold);
                proof {
                    assert(st.holds() =~= old(st).holds());
                }
                return Ok(v);
            },
            Err(e) => {
                let ghost ge = e;
                st.reset(hold);
                proof {
                    assert(st.holds() =~= old(st).holds());
                    assert(old(self).parts().2.parses(old(st).input(), old(st).pos(), Err(ge), old(st).pos()));
                }
            },
        }
        let ix = st.index();
        Err(ParseError::Fail("no alternative matched", ix))
    }
}

impl<R, P0: Parser<Result = R>, P1: Parser<Result = R>, P2: Parser<Result = R>, P3: Parser<Result = R>> Parser for Alternative<(P0, P1, P2, P3)> {
    type Result = R;

    open spec fn callable(self) -> bool {
        self.parts().0.callable() && self.parts().1.callable() && self.parts().2.callable() && self.parts().3.callable()
    }

    open spec fn parses(self, input: Seq<char>, pos: int, r: ParseResult<R>, end: int) -> bool {
        match r {
            Ok(v) => {
                ||| (self.parts().0.parses(input, pos, Ok(v), end))
                ||| ((exists|e: ParseError| #[trigger] self.parts().0.parses(input, pos, Err(e), pos)) && self.parts().1.parses(input, pos, Ok(v), end))
                ||| ((exists|e: ParseError| #[trigger] self.parts().0.parses(input, pos, Err(e), pos)) && (exists|e: ParseError| #[trigger] self.parts().1.parses(input, pos, Err(e), pos)) && self.parts().2.parses(input, pos, Ok(v), end))
                ||| ((exists|e: ParseError| #[trigger] self.parts().0.parses(input, pos, Err(e), pos)) && (exists|e: ParseError| #[trigger] self.parts().1.parses(input, pos, Err(e), pos)) && (exists|e: ParseError| #[trigger] self.parts().2.parses(input, pos, Err(e), pos)) && self.parts().3.parses(input, pos, Ok(v), end))
            },
            Err(e) => {
                &&& end == pos
                &&& exists|e0: ParseError| #[trigger] self.parts().0.parses(input, pos, Err(e0), pos)
                &&& exists|e1: ParseError| #[trigger] self.parts().1.parses(input, pos, Err(e1), pos)
                &&& exists|e2: ParseError| #[trigger] self.parts().2.parses(input, pos, Err(e2), pos)
                &&& exists|e3: ParseError| #[trigger] self.parts().3.parses(input, pos, Err(e3), pos)
                &&& e matches ParseError::Fail(m, p) && m@ == "no alternative matched"@ && p as int
                    == pos
            },
        }
    }

    fn parse(&mut self, st: &mut ParseState) -> (r: ParseResult<R>) {
        let hold = st.hold();
        match (self.0).0.parse(st) {
            Ok(v) => {
                st.release(hold);
                proof {
                    assert(st.holds() =~= old(st).holds());
                }
                return Ok(v);
            },
            Err(e) => {
                let ghost ge = e;
                st.reset(hold);
                proof {
                    assert(st.holds() =~= old(st).holds());
                    assert(old(self).parts().0.parses(old(st).input(), old(st).pos(), Err(ge), old(st).pos()));
                }
            },
        }
        let hold = st.hold();
        match (self.0).1.parse(st) {
            Ok(v) => {
                st.release(hold);
                proof {
                    assert(st.holds() =~= old(st).holds());
                }
                return Ok(v);
            },
            Err(e) => {
                let ghost ge = e;
                st.reset(hold);
                proof {
                    assert(st.holds() =~= old(st).holds());
                    assert(old(self).parts().1.parses(old(st).input(), old(st).pos(), Err(ge), old(st).pos()));
                }
            },
        }
        let hold = st.hold();
        match (self.0).2.parse(st) {
            Ok(v) => {
                st.release(hold);
                proof {
                    assert(st.holds() =~= old(st).holds());
                }
                return Ok(v);
            },
            Err(e) => {
                let ghost ge = e;
                st.reset(hold);
                proof {
                    assert(st.holds() =~= old(st).holds());
                    assert(old(self).parts().2.parses(old(st).input(), old(st).pos(), Err(ge), old(st).pos()));
                }
            },
        }
        let hold = st.hold();
        match (self.0).3.parse(st) {
            Ok(v) => {
                st.release(hold);
                proof {
                    assert(st.holds() =~= old(st).holds());
                }
                return Ok(v);
            },
            Err(e) => {
                let ghost ge = e;
                st.reset(hold);
                proof {
                    assert(st.holds() =~= old(st).holds());
                    assert(old(self).parts().3.parses(old(st).input(), old(st).pos(), Err(ge), old(st).pos()));
                }
            },
        }
        let ix = st.index();
        Err(ParseError::Fail("no alternative matched", ix))
    }
}

impl<R, P0: Parser<Result = R>, P1: Parser<Result = R>, P2: Parser<Result = R>, P3: Parser<Result = R>, P4: Parser<Result = R>> Parser for Alternative<(P0, P1, P2, P3, P4)> {
    type Result = R;

    open spec fn callable(self) -> bool {
        self.parts().0.callable() && self.parts().1.callable() && self.parts().2.callable() && self.parts().3.callable() && self.parts().4.callable()
    }

    open spec fn parses(self, input: Seq<char>, pos: int, r: ParseResult<R>, end: int) -> bool {
        match r {
            Ok(v) => {
                ||| (self.parts().0.parses(input, pos, Ok(v), end))
                ||| ((exists|e: ParseError| #[trigger] self.parts().0.parses(input, pos, Err(e), pos)) && self.parts().1.parses(input, pos, Ok(v), end))
                ||| ((exists|e: ParseError| #[trigger] self.parts().0.parses(input, pos, Err(e), pos)) && (exists|e: ParseError| #[trigger] self.parts().1.parses(input, pos, Err(e), pos)) && self.parts().2.parses(input, pos, Ok(v), end))
                ||| ((exists|e: ParseError| #[trigger] self.parts().0.parses(input, pos, Err(e), pos)) && (exists|e: ParseError| #[trigger] self.parts().1.parses(input, pos, Err(e), pos)) && (exists|e: ParseError| #[trigger] self.parts().2.parses(input, pos, Err(e), pos)) && self.parts().3.parses(input, pos, Ok(v), end))
                ||| ((exists|e: ParseError| #[trigger] self.parts().0.parses(input, pos, Err(e), pos)) && (exists|e: ParseError| #[trigger] self.parts().1.parses(input, pos, Err(e), pos)) && (exists|e: ParseError| #[trigger] self.parts().2.parses(input, pos, Err(e), pos)) && (exists|e: ParseError| #[trigger] self.parts().3.parses(input, pos, Err(e), pos)) && self.parts().4.parses(input, pos, Ok(v), end))
            },
            Err(e) => {
                &&& end == pos
                &&& exists|e0: ParseError| #[trigger] self.parts().0.parses(input, pos, Err(e0), pos)
                &&& exists|e1: ParseError| #[trigger] self.parts().1.parses(input, pos, Err(e1), pos)
                &&& exists|e2: ParseError| #[trigger] self.parts().2.parses(input, pos, Err(e2), pos)
                &&& exists|e3: ParseError| #[trigger] self.parts().3.parses(input, pos, Err(e3), pos)
                &&& exists|e4: ParseError| #[trigger] self.parts().4.parses(input, pos, Err(e4), pos)
                &&& e matches ParseError::Fail(m, p) && m@ == "no alternative matched"@ && p as int
                    == pos
            },
        }
    }

    fn parse(&mut self, st: &mut ParseState) -> (r: ParseResult<R>) {
        let hold = st.hold();
        match (self.0).0.parse(st) {
            Ok(v) => {
                st.release(hold);
                proof {
                    assert(st.holds() =~= old(st).holds());
                }
                return Ok(v);
            },
            Err(e) => {
                let ghost ge = e;
                st.reset(hold);
                proof {
                    assert(st.holds() =~= old(st).holds());
                    assert(old(self).parts().0.parses(old(st).input(), old(st).pos(), Err(ge), old(st).pos()));
                }
            },
        }
        let hold = st.hold();
        match (self.0).1.parse(st) {
            Ok(v) => {
                st.release(hold);
                proof {
                    assert(st.holds() =~= old(st).holds());
                }
                return Ok(v);
            },
            Err(e) => {
                let ghost ge = e;
                st.reset(hold);
                proof {
                    assert(st.holds() =~= old(st).holds());
                    assert(old(self).parts().1.parses(old(st).input(), old(st).pos(), Err(ge), old(st).pos()));
                }
            },
        }
        let hold = st.hold();
        match (self.0).2.parse(st) {
            Ok(v) => {
                st.release(hold);
                proof {
                    assert(st.holds() =~= old(st).holds());
                }
                return Ok(v);
            },
            Err(e) => {
                let ghost ge = e;
                st.reset(hold);
                proof {
                    assert(st.holds() =~= old(st).holds());
                    assert(old(self).parts().2.parses(old(st).input(), old(st).pos(), Err(ge), old(st).pos()));
                }
            },
        }
        let hold = st.hold();
        match (self.0).3.parse(st) {
            Ok(v) => {
                st.release(hold);
                proof {
                    assert(st.holds() =~= old(st).holds());
                }
                return Ok(v);
            },
            Err(e) => {
                let ghost ge = e;
                st.reset(hold);
                proof {
                    assert(st.holds() =~= old(st).holds());
                    assert(old(self).parts().3.parses(old(st).input(), old(st).pos(), Err(ge), old(st).pos()));
                }
            },
        }
        let hold = st.hold();
        match (self.0).4.parse(st) {
            Ok(v) => {
                st.release(hold);
                proof {
                    assert(st.holds() =~= old(st).holds());
                }
                return Ok(v);
            },
            Err(e) => {
                let ghost ge = e;
                st.reset(hold);
                proof {
                    assert(st.holds() =~= old(st).holds());
                    assert(old(self).parts().4.parses(old(st).input(), old(st).pos(), Err(ge), old(st).pos()));
                }
            },
        }
        let ix = st.index();
        Err(ParseError::Fail("no alternative matched", ix))
    }
}

impl<P0: Parser, P1: Parser, P2: Parser> Parser for PartialSequence<(P0, P1, P2)> {
    type Result = (Option<P0::Result>, Option<P1::Result>, Option<P2::Result>);

    open spec fn callable(self) -> bool {
        self.parts().0.callable() && self.parts().1.callable() && self.parts().2.callable()
    }

    open spec fn parses(
        self,
        input: Seq<char>,
        pos: int,
        r: ParseResult<(Option<P0::Result>, Option<P1::Result>, Option<P2::Result>)>,
        end: int,
    ) -> bool {
        match r {
            Ok(v) => {
                ||| (v == (None::<P0::Result>, None::<P1::Result>, None::<P2::Result>) && end
                    == pos && exists|e: ParseError|
                    #[trigger] self.parts().0.parses(input, pos, Err(e), pos))
                ||| (exists|x0: P0::Result|
                    v == (Some(x0), None::<P1::Result>, None::<P2::Result>)
                        && #[trigger] self.parts().0.parses(input, pos, Ok(x0), end) && exists|
                        e: ParseError,
                    |
                        #[trigger] self.parts().1.parses(input, end, Err(e), end))
                ||| (exists|x0: P0::Result, x1: P1::Result, m1: int|
                    #![trigger self.parts().0.parses(input, pos, Ok(x0), m1), self.parts().1.parses(input, m1, Ok(x1), end)]
                    v == (Some(x0), Some(x1), None::<P2::Result>) && self.parts().0.parses(
                        input,
                        pos,
                        Ok(x0),
                        m1,
                    ) && self.parts().1.parses(input, m1, Ok(x1), end) && exists|e: ParseError|
                        #[trigger] self.parts().2.parses(input, end, Err(e), end))
                ||| (exists|x0: P0::Result, x1: P1::Result, x2: P2::Result, m1: int, m2: int|
                    #![trigger self.parts().0.parses(input, pos, Ok(x0), m1), self.parts().1.parses(input, m1, Ok(x1), m2), self.parts().2.parses(input, m2, Ok(x2), end)]
                    v == (Some(x0), Some(x1), Some(x2)) && self.parts().0.parses(
                        input,
                        pos,
                        Ok(x0),
                        m1,
                    ) && self.parts().1.parses(input, m1, Ok(x1), m2) && self.parts().2.parses(
                        input,
                        m2,
                        Ok(x2),
                        end,
                    ))
            },
            Err(_) => false,
        }
    }

    fn parse(&mut self, st: &mut ParseState) -> (r: ParseResult<
        (Option<P0::Result>, Option<P1::Result>, Option<P2::Result>),
    >) {
        let hold = st.hold();
        let r0 = match (self.0).0.parse(st) {
            Ok(x) => x,
            Err(e) => {
                let ghost ge = e;
                st.release(hold);
                proof {
                    assert(st.holds() =~= old(st).holds());
                }
                return Ok((None, None, None));
            },
        };
        let ghost g0 = r0;
        let ghost m1 = st.pos();
        let r1 = match (self.0).1.parse(st) {
            Ok(x) => x,
            Err(e) => {
                let ghost ge = e;
                st.release(hold);
                proof {
                    assert(st.holds() =~= old(st).holds());
                    assert(old(self).parts().0.parses(old(st).input(), old(st).pos(), Ok(g0), st.pos()));
                }
                return Ok((Some(r0), None, None));
            },
        };
        let ghost g1 = r1;
        let ghost m2 = st.pos();
        let r2 = match (self.0).2.parse(st) {
            Ok(x) => x,
            Err(e) => {
                let ghost ge = e;
                st.release(hold);
                proof {
                    assert(st.holds() =~= old(st).holds());
                    assert(old(self).parts().0.parses(old(st).input(), old(st).pos(), Ok(g0), m1));
                    assert(old(self).parts().1.parses(old(st).input(), m1, Ok(g1), st.pos()));
                }
                return Ok((Some(r0), Some(r1), None));
            },
        };
        let ghost g2 = r2;
        st.release(hold);
        proof {
            assert(st.holds() =~= old(st).holds());
            assert(old(self).parts().0.parses(old(st).input(), old(st).pos(), Ok(g0), m1));
            assert(old(self).parts().1.parses(old(st).input(), m1, Ok(g1), m2));
            assert(old(self).parts().2.parses(old(st).input(), m2, Ok(g2), st.pos()));
        }
        Ok((Some(r0), Some(r1), Some(r2)))
    }
}


impl<P0: Parser, P1: Parser, P2: Parser, P3: Parser, P4: Parser, P5: Parser> Parser for Sequence<(P0, P1, P2, P3, P4, P5)> {
    type Result = (P0::Result, P1::Result, P2::Result, P3::Result, P4::Result, P5::Result);

    open spec fn callable(self) -> bool {
        self.parts().0.callable() && self.parts().1.callable() && self.parts().2.callable() && self.parts().3.callable() && self.parts().4.callable() && self.parts().5.callable()
    }

    open spec fn parses(
        self,
        input: Seq<char>,
        pos: int,
        r: ParseResult<(P0::Result, P1::Result, P2::Result, P3::Result, P4::Result, P5::Result)>,
        end: int,
    ) -> bool {
        match r {
            Ok(v) => exists|x0: P0::Result, x1: P1::Result, x2: P2::Result, x3: P3::Result, x4: P4::Result, x5: P5::Result, m1: int, m2: int, m3: int, m4: int, m5: int|
                #![trigger self.parts().0.parses(input, pos, Ok(x0), m1), self.parts().1.parses(input, m1, Ok(x1), m2), self.parts().2.parses(input, m2, Ok(x2), m3), self.parts().3.parses(input, m3, Ok(x3), m4), self.parts().4.parses(input, m4, Ok(x4), m5), self.parts().5.parses(input, m5, Ok(x5), end)]
                v == (x0, x1, x2, x3, x4, x5) && self.parts().0.parses(input, pos, Ok(x0), m1) && self.parts().1.parses(input, m1, Ok(x1), m2) && self.parts().2.parses(input, m2, Ok(x2), m3) && self.parts().3.parses(input, m3, Ok(x3), m4) && self.parts().4.parses(input, m4, Ok(x4), m5) && self.parts().5.parses(input, m5, Ok(x5), end),
            Err(_) => end == pos,
        }
    }

    fn parse(&mut self, st: &mut ParseState) -> (r: ParseResult<(P0::Result, P1::Result, P2::Result, P3::Result, P4::Result, P5::Result)>) {
        let hold = st.hold();
        let r0 = match (self.0).0.parse(st) {
            Ok(x) => x,
            Err(e) => {
                st.reset(hold);
                proof {
                    assert(st.holds() =~= old(st).holds());
                }
                return Err(e);
            },
        };
        let ghost g0 = r0;
        let ghost m1 = st.pos();
        let r1 = match (self.0).1.parse(st) {
            Ok(x) => x,
            Err(e) => {
                st.reset(hold);
                proof {
                    assert(st.holds() =~= old(st).holds());
                }
                return Err(e);
            },
        };
        let ghost g1 = r1;
        let ghost m2 = st.pos();
        let r2 = match (self.0).2.parse(st) {
            Ok(x) => x,
            Err(e) => {
                st.reset(hold);
                proof {
                    assert(st.holds() =~= old(st).holds());
                }
                return Err(e);
            },
        };
        let ghost g2 = r2;
        let ghost m3 = st.pos();
        let r3 = match (self.0).3.parse(st) {
            Ok(x) => x,
            Err(e) => {
                st.reset(hold);
                proof {
                    assert(st.holds() =~= old(st).holds());
                }
                return Err(e);
            },
        };
        let ghost g3 = r3;
        let ghost m4 = st.pos();
        let r4 = match (self.0).4.parse(st) {
            Ok(x) => x,
            Err(e) => {
                st.reset(hold);
                proof {
                    assert(st.holds() =~= old(st).holds());
                }
                return Err(e);
            },
        };
        let ghost g4 = r4;
        let ghost m5 = st.pos();
        let r5 = match (self.0).5.parse(st) {
            Ok(x) => x,
            Err(e) => {
                st.reset(hold);
                proof {
                    assert(st.holds() =~= old(st).holds());
                }
                return Err(e);
            },
        };
        let ghost g5 = r5;
        st.release(hold);
        proof {
            assert(st.holds() =~= old(st).holds());
            assert(old(self).parts().0.parses(old(st).input(), old(st).pos(), Ok(g0), m1));
            assert(old(self).parts().1.parses(old(st).input(), m1, Ok(g1), m2));
            assert(old(self).parts().2.parses(old(st).input(), m2, Ok(g2), m3));
            assert(old(self).parts().3.parses(old(st).input(), m3, Ok(g3), m4));
            assert(old(self).parts().4.parses(old(st).input(), m4, Ok(g4), m5));
            assert(old(self).parts().5.parses(old(st).input(), m5, Ok(g5), st.pos()));
        }
        Ok((r0, r1, r2, r3, r4, r5))
    }
}

impl<P0: Parser, P1: Parser, P2: Parser, P3: Parser, P4: Parser, P5: Parser, P6: Parser> Parser for Sequence<(P0, P1, P2, P3, P4, P5, P6)> {
    type Result = (P0::Result, P1::Result, P2::Result, P3::Result, P4::Result, P5::Result, P6::Result);

    open spec fn callable(self) -> bool {
        self.parts().0.callable() && self.parts().1.callable() && self.parts().2.callable() && self.parts().3.callable() && self.parts().4.callable() && self.parts().5.callable() && self.parts().6.callable()
    }

    open spec fn parses(
        self,
        input: Seq<char>,
        pos: int,
        r: ParseResult<(P0::Result, P1::Result, P2::Result, P3::Result, P4::Result, P5::Result, P6::Result)>,
        end: int,
    ) -> bool {
        match r {
            Ok(v) => exists|x0: P0::Result, x1: P1::Result, x2: P2::Result, x3: P3::Result, x4: P4::Result, x5: P5::Result, x6: P6::Result, m1: int, m2: int, m3: int, m4: int, m5: int, m6: int|
                #![trigger self.parts().0.parses(input, pos, Ok(x0), m1), self.parts().1.parses(input, m1, Ok(x1), m2), self.parts().2.parses(input, m2, Ok(x2), m3), self.parts().3.parses(input, m3, Ok(x3), m4), self.parts().4.parses(input, m4, Ok(x4), m5), self.parts().5.parses(input, m5, Ok(x5), m6), self.parts().6.parses(input, m6, Ok(x6), end)]
                v == (x0, x1, x2, x3, x4, x5, x6) && self.parts().0.parses(input, pos, Ok(x0), m1) && self.parts().1.parses(input, m1, Ok(x1), m2) && self.parts().2.parses(input, m2, Ok(x2), m3) && self.parts().3.parses(input, m3, Ok(x3), m4) && self.parts().4.parses(input, m4, Ok(x4), m5) && self.parts().5.parses(input, m5, Ok(x5), m6) && self.parts().6.parses(input, m6, Ok(x6), end),
            Err(_) => end == pos,
        }
    }

    fn parse(&mut self, st: &mut ParseState) -> (r: ParseResult<(P0::Result, P1::Result, P2::Result, P3::Result, P4::Result, P5::Result, P6::Result)>) {
        let hold = st.hold();
        let r0 = match (self.0).0.parse(st) {
            Ok(x) => x,
            Err(e) => {
                st.reset(hold);
                proof {
                    assert(st.holds() =~= old(st).holds());
                }
                return Err(e);
            },
        };
        let ghost g0 = r0;
        let ghost m1 = st.pos();
        let r1 = match (self.0).1.parse(st) {
            Ok(x) => x,
            Err(e) => {
                st.reset(hold);
                proof {
                    assert(st.holds() =~= old(st).holds());
                }
                return Err(e);
            },
        };
        let ghost g1 = r1;
        let ghost m2 = st.pos();
        let r2 = match (self.0).2.parse(st) {
            Ok(x) => x,
            Err(e) => {
                st.reset(hold);
                proof {
                    assert(st.holds() =~= old(st).holds());
                }
                return Err(e);
            },
        };
        let ghost g2 = r2;
        let ghost m3 = st.pos();
        let r3 = match (self.0).3.parse(st) {
            Ok(x) => x,
            Err(e) => {
                st.reset(hold);
                proof {
                    assert(st.holds() =~= old(st).holds());
                }
                return Err(e);
            },
        };
        let ghost g3 = r3;
        let ghost m4 = st.pos();
        let r4 = match (self.0).4.parse(st) {
            Ok(x) => x,
            Err(e) => {
                st.reset(hold);
                proof {
                    assert(st.holds() =~= old(st).holds());
                }
                return Err(e);
            },
        };
        let ghost g4 = r4;
        let ghost m5 = st.pos();
        let r5 = match (self.0).5.parse(st) {
            Ok(x) => x,
            Err(e) => {
                st.reset(hold);
                proof {
                    assert(st.holds() =~= old(st).holds());
                }
                return Err(e);
            },
        };
        let ghost g5 = r5;
        let ghost m6 = st.pos();
        let r6 = match (self.0).6.parse(st) {
            Ok(x) => x,
            Err(e) => {
                st.reset(hold);
                proof {
                    assert(st.holds() =~= old(st).holds());
                }
                return Err(e);
            },
        };
        let ghost g6 = r6;
        st.release(hold);
        proof {
            assert(st.holds() =~= old(st).holds());
            assert(old(self).parts().0.parses(old(st).input(), old(st).pos(), Ok(g0), m1));
            assert(old(self).parts().1.parses(old(st).input(), m1, Ok(g1), m2));
            assert(old(self).parts().2.parses(old(st).input(), m2, Ok(g2), m3));
            assert(old(self).parts().3.parses(old(st).input(), m3, Ok(g3), m4));
            assert(old(self).parts().4.parses(old(st).input(), m4, Ok(g4), m5));
            assert(old(self).parts().5.parses(old(st).input(), m5, Ok(g5), m6));
            assert(old(self).parts().6.parses(old(st).input(), m6, Ok(g6), st.pos()));
        }
        Ok((r0, r1, r2, r3, r4, r5, r6))
    }
}

impl<P0: Parser, P1: Parser, P2: Parser, P3: Parser, P4: Parser, P5: Parser, P6: Parser, P7: Parser> Parser for Sequence<(P0, P1, P2, P3, P4, P5, P6, P7)> {
    type Result = (P0::Result, P1::Result, P2::Result, P3::Result, P4::Result, P5::Result, P6::Result, P7::Result);

    open spec fn callable(self) -> bool {
        self.parts().0.callable() && self.parts().1.callable() && self.parts().2.callable() && self.parts().3.callable() && self.parts().4.callable() && self.parts().5.callable() && self.parts().6.callable() && self.parts().7.callable()
    }

    open spec fn parses(
        self,
        input: Seq<char>,
        pos: int,
        r: ParseResult<(P0::Result, P1::Result, P2::Result, P3::Result, P4::Result, P5::Result, P6::Result, P7::Result)>,
        end: int,
    ) -> bool {
        match r {
            Ok(v) => exists|x0: P0::Result, x1: P1::Result, x2: P2::Result, x3: P3::Result, x4: P4::Result, x5: P5::Result, x6: P6::Result, x7: P7::Result, m1: int, m2: int, m3: int, m4: int, m5: int, m6: int, m7: int|
                #![trigger self.parts().0.parses(input, pos, Ok(x0), m1), self.parts().1.parses(input, m1, Ok(x1), m2), self.parts().2.parses(input, m2, Ok(x2), m3), self.parts().3.parses(input, m3, Ok(x3), m4), self.parts().4.parses(input, m4, Ok(x4), m5), self.parts().5.parses(input, m5, Ok(x5), m6), self.parts().6.parses(input, m6, Ok(x6), m7), self.parts().7.parses(input, m7, Ok(x7), end)]
                v == (x0, x1, x2, x3, x4, x5, x6, x7) && self.parts().0.parses(input, pos, Ok(x0), m1) && self.parts().1.parses(input, m1, Ok(x1), m2) && self.parts().2.parses(input, m2, Ok(x2), m3) && self.parts().3.parses(input, m3, Ok(x3), m4) && self.parts().4.parses(input, m4, Ok(x4), m5) && self.parts().5.parses(input, m5, Ok(x5), m6) && self.parts().6.parses(input, m6, Ok(x6), m7) && self.parts().7.parses(input, m7, Ok(x7), end),
            Err(_) => end == pos,
        }
    }

    fn parse(&mut self, st: &mut ParseState) -> (r: ParseResult<(P0::Result, P1::Result, P2::Result, P3::Result, P4::Result, P5::Result, P6::Result, P7::Result)>) {
        let hold = st.hold();
        let r0 = match (self.0).0.parse(st) {
            Ok(x) => x,
            Err(e) => {
                st.reset(hold);
                proof {
                    assert(st.holds() =~= old(st).holds());
                }
                return Err(e);
            },
        };
        let ghost g0 = r0;
        let ghost m1 = st.pos();
        let r1 = match (self.0).1.parse(st) {
            Ok(x) => x,
            Err(e) => {
                st.reset(hold);
                proof {
                    assert(st.holds() =~= old(st).holds());
                }
                return Err(e);
            },
        };
        let ghost g1 = r1;
        let ghost m2 = st.pos();
        let r2 = match (self.0).2.parse(st) {
            Ok(x) => x,
            Err(e) => {
                st.reset(hold);
                proof {
                    assert(st.holds() =~= old(st).holds());
                }
                return Err(e);
            },
        };
        let ghost g2 = r2;
        let ghost m3 = st.pos();
        let r3 = match (self.0).3.parse(st) {
            Ok(x) => x,
            Err(e) => {
                st.reset(hold);
                proof {
                    assert(st.holds() =~= old(st).holds());
                }
                return Err(e);
            },
        };
        let ghost g3 = r3;
        let ghost m4 = st.pos();
        let r4 = match (self.0).4.parse(st) {
            Ok(x) => x,
            Err(e) => {
                st.reset(hold);
                proof {
                    assert(st.holds() =~= old(st).holds());
                }
                return Err(e);
            },
        };
        let ghost g4 = r4;
        let ghost m5 = st.pos();
        let r5 = match (self.0).5.parse(st) {
            Ok(x) => x,
            Err(e) => {
                st.reset(hold);
                proof {
                    assert(st.holds() =~= old(st).holds());
                }
                return Err(e);
            },
        };
        let ghost g5 = r5;
        let ghost m6 = st.pos();
        let r6 = match (self.0).6.parse(st) {
            Ok(x) => x,
            Err(e) => {
                st.reset(hold);
                proof {
                    assert(st.holds() =~= old(st).holds());
                }
                return Err(e);
            },
        };
        let ghost g6 = r6;
        let ghost m7 = st.pos();
        let r7 = match (self.0).7.parse(st) {
            Ok(x) => x,
            Err(e) => {
                st.reset(hold);
                proof {
                    assert(st.holds() =~= old(st).holds());
                }
                return Err(e);
            },
        };
        let ghost g7 = r7;
        st.release(hold);
        proof {
            assert(st.holds() =~= old(st).holds());
            assert(old(self).parts().0.parses(old(st).input(), old(st).pos(), Ok(g0), m1));
            assert(old(self).parts().1.parses(old(st).input(), m1, Ok(g1), m2));
            assert(old(self).parts().2.parses(old(st).input(), m2, Ok(g2), m3));
            assert(old(self).parts().3.parses(old(st).input(), m3, Ok(g3), m4));
            assert(old(self).parts().4.parses(old(st).input(), m4, Ok(g4), m5));
            assert(old(self).parts().5.parses(old(st).input(), m5, Ok(g5), m6));
            assert(old(self).parts().6.parses(old(st).input(), m6, Ok(g6), m7));
            assert(old(self).parts().7.parses(old(st).input(), m7, Ok(g7), st.pos()));
        }
        Ok((r0, r1, r2, r3, r4, r5, r6, r7))
    }
}

impl<P0: Parser, P1: Parser, P2: Parser, P3: Parser, P4: Parser, P5: Parser, P6: Parser, P7: Parser, P8: Parser> Parser for Sequence<(P0, P1, P2, P3, P4, P5, P6, P7, P8)> {
    type Result = (P0::Result, P1::Result, P2::Result, P3::Result, P4::Result, P5::Result, P6::Result, P7::Result, P8::Result);

    open spec fn callable(self) -> bool {
        self.parts().0.callable() && self.parts().1.callable() && self.parts().2.callable() && self.parts().3.callable() && self.parts().4.callable() && self.parts().5.callable() && self.parts().6.callable() && self.parts().7.callable() && self.parts().8.callable()
    }

    open spec fn parses(
        self,
        input: Seq<char>,
        pos: int,
        r: ParseResult<(P0::Result, P1::Result, P2::Result, P3::Result, P4::Result, P5::Result, P6::Result, P7::Result, P8::Result)>,
        end: int,
    ) -> bool {
        match r {
            Ok(v) => exists|x0: P0::Result, x1: P1::Result, x2: P2::Result, x3: P3::Result, x4: P4::Result, x5: P5::Result, x6: P6::Result, x7: P7::Result, x8: P8::Result, m1: int, m2: int, m3: int, m4: int, m5: int, m6: int, m7: int, m8: int|
                #![trigger self.parts().0.parses(input, pos, Ok(x0), m1), self.parts().1.parses(input, m1, Ok(x1), m2), self.parts().2.parses(input, m2, Ok(x2), m3), self.parts().3.parses(input, m3, Ok(x3), m4), self.parts().4.parses(input, m4, Ok(x4), m5), self.parts().5.parses(input, m5, Ok(x5), m6), self.parts().6.parses(input, m6, Ok(x6), m7), self.parts().7.parses(input, m7, Ok(x7), m8), self.parts().8.parses(input, m8, Ok(x8), end)]
                v == (x0, x1, x2, x3, x4, x5, x6, x7, x8) && self.parts().0.parses(input, pos, Ok(x0), m1) && self.parts().1.parses(input, m1, Ok(x1), m2) && self.parts().2.parses(input, m2, Ok(x2), m3) && self.parts().3.parses(input, m3, Ok(x3), m4) && self.parts().4.parses(input, m4, Ok(x4), m5) && self.parts().5.parses(input, m5, Ok(x5), m6) && self.parts().6.parses(input, m6, Ok(x6), m7) && self.parts().7.parses(input, m7, Ok(x7), m8) && self.parts().8.parses(input, m8, Ok(x8), end),
            Err(_) => end == pos,
        }
    }

    fn parse(&mut self, st: &mut ParseState) -> (r: ParseResult<(P0::Result, P1::Result, P2::Result, P3::Result, P4::Result, P5::Result, P6::Result, P7::Result, P8::Result)>) {
        let hold = st.hold();
        let r0 = match (self.0).0.parse(st) {
            Ok(x) => x,
            Err(e) => {
                st.reset(hold);
                proof {
                    assert(st.holds() =~= old(st).holds());
                }
                return Err(e);
            },
        };
        let ghost g0 = r0;
        let ghost m1 = st.pos();
        let r1 = match (self.0).1.parse(st) {
            Ok(x) => x,
            Err(e) => {
                st.reset(hold);
                proof {
                    assert(st.holds() =~= old(st).holds());
                }
                return Err(e);
            },
        };
        let ghost g1 = r1;
        let ghost m2 = st.pos();
        let r2 = match (self.0).2.parse(st) {
            Ok(x) => x,
            Err(e) => {
                st.reset(hold);
                proof {
                    assert(st.holds() =~= old(st).holds());
                }
                return Err(e);
            },
        };
        let ghost g2 = r2;
        let ghost m3 = st.pos();
        let r3 = match (self.0).3.parse(st) {
            Ok(x) => x,
            Err(e) => {
                st.reset(hold);
                proof {
                    assert(st.holds() =~= old(st).holds());
                }
                return Err(e);
            },
        };
        let ghost g3 = r3;
        let ghost m4 = st.pos();
        let r4 = match (self.0).4.parse(st) {
            Ok(x) => x,
            Err(e) => {
                st.reset(hold);
                proof {
                    assert(st.holds() =~= old(st).holds());
                }
                return Err(e);
            },
        };
        let ghost g4 = r4;
        let ghost m5 = st.pos();
        let r5 = match (self.0).5.parse(st) {
            Ok(x) => x,
            Err(e) => {
                st.reset(hold);
                proof {
                    assert(st.holds() =~= old(st).holds());
                }
                return Err(e);
            },
        };
        let ghost g5 = r5;
        let ghost m6 = st.pos();
        let r6 = match (self.0).6.parse(st) {
            Ok(x) => x,
            Err(e) => {
                st.reset(hold);
                proof {
                    assert(st.holds() =~= old(st).holds());
                }
                return Err(e);
            },
        };
        let ghost g6 = r6;
        let ghost m7 = st.pos();
        let r7 = match (self.0).7.parse(st) {
            Ok(x) => x,
            Err(e) => {
                st.reset(hold);
                proof {
                    assert(st.holds() =~= old(st).holds());
                }
                return Err(e);
            },
        };
        let ghost g7 = r7;
        let ghost m8 = st.pos();
        let r8 = match (self.0).8.parse(st) {
            Ok(x) => x,
            Err(e) => {
                st.reset(hold);
                proof {
                    assert(st.holds() =~= old(st).holds());
                }
                return Err(e);
            },
        };
        let ghost g8 = r8;
        st.release(hold);
        proof {
            assert(st.holds() =~= old(st).holds());
            assert(old(self).parts().0.parses(old(st).input(), old(st).pos(), Ok(g0), m1));
            assert(old(self).parts().1.parses(old(st).input(), m1, Ok(g1), m2));
            assert(old(self).parts().2.parses(old(st).input(), m2, Ok(g2), m3));
            assert(old(self).parts().3.parses(old(st).input(), m3, Ok(g3), m4));
            assert(old(self).parts().4.parses(old(st).input(), m4, Ok(g4), m5));
            assert(old(self).parts().5.parses(old(st).input(), m5, Ok(g5), m6));
            assert(old(self).parts().6.parses(old(st).input(), m6, Ok(g6), m7));
            assert(old(self).parts().7.parses(old(st).input(), m7, Ok(g7), m8));
            assert(old(self).parts().8.parses(old(st).input(), m8, Ok(g8), st.pos()));
        }
        Ok((r0, r1, r2, r3, r4, r5, r6, r7, r8))
    }
}

impl<R, P0: Parser<Result = R>, P1: Parser<Result = R>, P2: Parser<Result = R>, P3: Parser<Result = R>, P4: Parser<Result = R>, P5: Parser<Result = R>> Parser for Alternative<(P0, P1, P2, P3, P4, P5)> {
    type Result = R;

    open spec fn callable(self) -> bool {
        self.parts().0.callable() && self.parts().1.callable() && self.parts().2.callable() && self.parts().3.callable() && self.parts().4.callable() && self.parts().5.callable()
    }

    open spec fn parses(self, input: Seq<char>, pos: int, r: ParseResult<R>, end: int) -> bool {
        match r {
            Ok(v) => {
                ||| (self.parts().0.parses(input, pos, Ok(v), end))
                ||| ((exists|e: ParseError| #[trigger] self.parts().0.parses(input, pos, Err(e), pos)) && self.parts().1.parses(input, pos, Ok(v), end))
                ||| ((exists|e: ParseError| #[trigger] self.parts().0.parses(input, pos, Err(e), pos)) && (exists|e: ParseError| #[trigger] self.parts().1.parses(input, pos, Err(e), pos)) && self.parts().2.parses(input, pos, Ok(v), end))
                ||| ((exists|e: ParseError| #[trigger] self.parts().0.parses(input, pos, Err(e), pos)) && (exists|e: ParseError| #[trigger] self.parts().1.parses(input, pos, Err(e), pos)) && (exists|e: ParseError| #[trigger] self.parts().2.parses(input, pos, Err(e), pos)) && self.parts().3.parses(input, pos, Ok(v), end))
                ||| ((exists|e: ParseError| #[trigger] self.parts().0.parses(input, pos, Err(e), pos)) && (exists|e: ParseError| #[trigger] self.parts().1.parses(input, pos, Err(e), pos)) && (exists|e: ParseError| #[trigger] self.parts().2.parses(input, pos, Err(e), pos)) && (exists|e: ParseError| #[trigger] self.parts().3.parses(input, pos, Err(e), pos)) && self.parts().4.parses(input, pos, Ok(v), end))
                ||| ((exists|e: ParseError| #[trigger] self.parts().0.parses(input, pos, Err(e), pos)) && (exists|e: ParseError| #[trigger] self.parts().1.parses(input, pos, Err(e), pos)) && (exists|e: ParseError| #[trigger] self.parts().2.parses(input, pos, Err(e), pos)) && (exists|e: ParseError| #[trigger] self.parts().3.parses(input, pos, Err(e), pos)) && (exists|e: ParseError| #[trigger] self.parts().4.parses(input, pos, Err(e), pos)) && self.parts().5.parses(input, pos, Ok(v), end))
            },
            Err(e) => {
                &&& end == pos
                &&& exists|e0: ParseError| #[trigger] self.parts().0.parses(input, pos, Err(e0), pos)
                &&& exists|e1: ParseError| #[trigger] self.parts().1.parses(input, pos, Err(e1), pos)
                &&& exists|e2: ParseError| #[trigger] self.parts().2.parses(input, pos, Err(e2), pos)
                &&& exists|e3: ParseError| #[trigger] self.parts().3.parses(input, pos, Err(e3), pos)
                &&& exists|e4: ParseError| #[trigger] self.parts().4.parses(input, pos, Err(e4), pos)
                &&& exists|e5: ParseError| #[trigger] self.parts().5.parses(input, pos, Err(e5), pos)
                &&& e matches ParseError::Fail(m, p) && m@ == "no alternative matched"@ && p as int
                    == pos
            },
        }
    }

    fn parse(&mut self, st: &mut ParseState) -> (r: ParseResult<R>) {
        let hold = st.hold();
        match (self.0).0.parse(st) {
            Ok(v) => {
                st.release(hold);
                proof {
                    assert(st.holds() =~= old(st).holds());
                }
                return Ok(v);
            },
            Err(e) => {
                let ghost ge = e;
                st.reset(hold);
                proof {
                    assert(st.holds() =~= old(st).holds());
                    assert(old(self).parts().0.parses(old(st).input(), old(st).pos(), Err(ge), old(st).pos()));
                }
            },
        }
        let hold = st.hold();
        match (self.0).1.parse(st) {
            Ok(v) => {
                st.release(hold);
                proof {
                    assert(st.holds() =~= old(st).holds());
                }
                return Ok(v);
            },
            Err(e) => {
                let ghost ge = e;
                st.reset(hold);
                proof {
                    assert(st.holds() =~= old(st).holds());
                    assert(old(self).parts().1.parses(old(st).input(), old(st).pos(), Err(ge), old(st).pos()));
                }
            },
        }
        let hold = st.hold();
        match (self.0).2.parse(st) {
            Ok(v) => {
                st.release(hold);
                proof {
                    assert(st.holds() =~= old(st).holds());
                }
                return Ok(v);
            },
            Err(e) => {
                let ghost ge = e;
                st.reset(hold);
                proof {
                    assert(st.holds() =~= old(st).holds());
                    assert(old(self).parts().2.parses(old(st).input(), old(st).pos(), Err(ge), old(st).pos()));
                }
            },
        }
        let hold = st.hold();
        match (self.0).3.parse(st) {
            Ok(v) => {
                st.release(hold);
                proof {
                    assert(st.holds() =~= old(st).holds());
                }
                return Ok(v);
            },
            Err(e) => {
                let ghost ge = e;
                st.reset(hold);
                proof {
                    assert(st.holds() =~= old(st).holds());
                    assert(old(self).parts().3.parses(old(st).input(), old(st).pos(), Err(ge), old(st).pos()));
                }
            },
        }
        let hold = st.hold();
        match (self.0).4.parse(st) {
            Ok(v) => {
                st.release(hold);
                proof {
                    assert(st.holds() =~= old(st).holds());
                }
                return Ok(v);
            },
            Err(e) => {
                let ghost ge = e;
                st.reset(hold);
                proof {
                    assert(st.holds() =~= old(st).holds());
                    assert(old(self).parts().4.parses(old(st).input(), old(st).pos(), Err(ge), old(st).pos()));
                }
            },
        }
        let hold = st.hold();
        match (self.0).5.parse(st) {
            Ok(v) => {
                st.release(hold);
                proof {
                    assert(st.holds() =~= old(st).holds());
                }
                return Ok(v);
            },
            Err(e) => {
                let ghost ge = e;
                st.reset(hold);
                proof {
                    assert(st.holds() =~= old(st).holds());
                    assert(old(self).parts().5.parses(old(st).input(), old(st).pos(), Err(ge), old(st).pos()));
                }
            },
        }
        let ix = st.index();
        Err(ParseError::Fail("no alternative matched", ix))
    }
}

impl<R, P0: Parser<Result = R>, P1: Parser<Result = R>, P2: Parser<Result = R>, P3: Parser<Result = R>, P4: Parser<Result = R>, P5: Parser<Result = R>, P6: Parser<Result = R>> Parser for Alternative<(P0, P1, P2, P3, P4, P5, P6)> {
    type Result = R;

    open spec fn callable(self) -> bool {
        self.parts().0.callable() && self.parts().1.callable() && self.parts().2.callable() && self.parts().3.callable() && self.parts().4.callable() && self.parts().5.callable() && self.parts().6.callable()
    }

    open spec fn parses(self, input: Seq<char>, pos: int, r: ParseResult<R>, end: int) -> bool {
        match r {
            Ok(v) => {
                ||| (self.parts().0.parses(input, pos, Ok(v), end))
                ||| ((exists|e: ParseError| #[trigger] self.parts().0.parses(input, pos, Err(e), pos)) && self.parts().1.parses(input, pos, Ok(v), end))
                ||| ((exists|e: ParseError| #[trigger] self.parts().0.parses(input, pos, Err(e), pos)) && (exists|e: ParseError| #[trigger] self.parts().1.parses(input, pos, Err(e), pos)) && self.parts().2.parses(input, pos, Ok(v), end))
                ||| ((exists|e: ParseError| #[trigger] self.parts().0.parses(input, pos, Err(e), pos)) && (exists|e: ParseError| #[trigger] self.parts().1.parses(input, pos, Err(e), pos)) && (exists|e: ParseError| #[trigger] self.parts().2.parses(input, pos, Err(e), pos)) && self.parts().3.parses(input, pos, Ok(v), end))
                ||| ((exists|e: ParseError| #[trigger] self.parts().0.parses(input, pos, Err(e), pos)) && (exists|e: ParseError| #[trigger] self.parts().1.parses(input, pos, Err(e), pos)) && (exists|e: ParseError| #[trigger] self.parts().2.parses(input, pos, Err(e), pos)) && (exists|e: ParseError| #[trigger] self.parts().3.parses(input, pos, Err(e), pos)) && self.parts().4.parses(input, pos, Ok(v), end))
                ||| ((exists|e: ParseError| #[trigger] self.parts().0.parses(input, pos, Err(e), pos)) && (exists|e: ParseError| #[trigger] self.parts().1.parses(input, pos, Err(e), pos)) && (exists|e: ParseError| #[trigger] self.parts().2.parses(input, pos, Err(e), pos)) && (exists|e: ParseError| #[trigger] self.parts().3.parses(input, pos, Err(e), pos)) && (exists|e: ParseError| #[trigger] self.parts().4.parses(input, pos, Err(e), pos)) && self.parts().5.parses(input, pos, Ok(v), end))
                ||| ((exists|e: ParseError| #[trigger] self.parts().0.parses(input, pos, Err(e), pos)) && (exists|e: ParseError| #[trigger] self.parts().1.parses(input, pos, Err(e), pos)) && (exists|e: ParseError| #[trigger] self.parts().2.parses(input, pos, Err(e), pos)) && (exists|e: ParseError| #[trigger] self.parts().3.parses(input, pos, Err(e), pos)) && (exists|e: ParseError| #[trigger] self.parts().4.parses(input, pos, Err(e), pos)) && (exists|e: ParseError| #[trigger] self.parts().5.parses(input, pos, Err(e), pos)) && self.parts().6.parses(input, pos, Ok(v), end))
            },
            Err(e) => {
                &&& end == pos
                &&& exists|e0: ParseError| #[trigger] self.parts().0.parses(input, pos, Err(e0), pos)
                &&& exists|e1: ParseError| #[trigger] self.parts().1.parses(input, pos, Err(e1), pos)
                &&& exists|e2: ParseError| #[trigger] self.parts().2.parses(input, pos, Err(e2), pos)
                &&& exists|e3: ParseError| #[trigger] self.parts().3.parses(input, pos, Err(e3), pos)
                &&& exists|e4: ParseError| #[trigger] self.parts().4.parses(input, pos, Err(e4), pos)
                &&& exists|e5: ParseError| #[trigger] self.parts().5.parses(input, pos, Err(e5), pos)
                &&& exists|e6: ParseError| #[trigger] self.parts().6.parses(input, pos, Err(e6), pos)
                &&& e matches ParseError::Fail(m, p) && m@ == "no alternative matched"@ && p as int
                    == pos
            },
        }
    }

    fn parse(&mut self, st: &mut ParseState) -> (r: ParseResult<R>) {
        let hold = st.hold();
        match (self.0).0.parse(st) {
            Ok(v) => {
                st.release(hold);
                proof {
                    assert(st.holds() =~= old(st).holds());
                }
                return Ok(v);
            },
            Err(e) => {
                let ghost ge = e;
                st.reset(hold);
                proof {
                    assert(st.holds() =~= old(st).holds());
                    assert(old(self).parts().0.parses(old(st).input(), old(st).pos(), Err(ge), old(st).pos()));
                }
            },
        }
        let hold = st.hold();
        match (self.0).1.parse(st) {
            Ok(v) => {
                st.release(hold);
                proof {
                    assert(st.holds() =~= old(st).holds());
                }
                return Ok(v);
            },
            Err(e) => {
                let ghost ge = e;
                st.reset(hold);
                proof {
                    assert(st.holds() =~= old(st).holds());
                    assert(old(self).parts().1.parses(old(st).input(), old(st).pos(), Err(ge), old(st).pos()));
                }
            },
        }
        let hold = st.hold();
        match (self.0).2.parse(st) {
            Ok(v) => {
                st.release(hold);
                proof {
                    assert(st.holds() =~= old(st).holds());
                }
                return Ok(v);
            },
            Err(e) => {
                let ghost ge = e;
                st.reset(hold);
                proof {
                    assert(st.holds() =~= old(st).holds());
                    assert(old(self).parts().2.parses(old(st).input(), old(st).pos(), Err(ge), old(st).pos()));
                }
            },
        }
        let hold = st.hold();
        match (self.0).3.parse(st) {
            Ok(v) => {
                st.release(hold);
                proof {
                    assert(st.holds() =~= old(st).holds());
                }
                return Ok(v);
            },
            Err(e) => {
                let ghost ge = e;
                st.reset(hold);
                proof {
                    assert(st.holds() =~= old(st).holds());
                    assert(old(self).parts().3.parses(old(st).input(), old(st).pos(), Err(ge), old(st).pos()));
                }
            },
        }
        let hold = st.hold();
        match (self.0).4.parse(st) {
            Ok(v) => {
                st.release(hold);
                proof {
                    assert(st.holds() =~= old(st).holds());
                }
                return Ok(v);
            },
            Err(e) => {
                let ghost ge = e;
                st.reset(hold);
                proof {
                    assert(st.holds() =~= old(st).holds());
                    assert(old(self).parts().4.parses(old(st).input(), old(st).pos(), Err(ge), old(st).pos()));
                }
            },
        }
        let hold = st.hold();
        match (self.0).5.parse(st) {
            Ok(v) => {
                st.release(hold);
                proof {
                    assert(st.holds() =~= old(st).holds());
                }
                return Ok(v);
            },
            Err(e) => {
                let ghost ge = e;
                st.reset(hold);
                proof {
                    assert(st.holds() =~= old(st).holds());
                    assert(old(self).parts().5.parses(old(st).input(), old(st).pos(), Err(ge), old(st).pos()));
                }
            },
        }
        let hold = st.hold();
        match (self.0).6.parse(st) {
            Ok(v) => {
                st.release(hold);
                proof {
                    assert(st.holds() =~= old(st).holds());
                }
                return Ok(v);
            },
            Err(e) => {
                let ghost ge = e;
                st.reset(hold);
                proof {
                    assert(st.holds() =~= old(st).holds());
                    assert(old(self).parts().6.parses(old(st).input(), old(st).pos(), Err(ge), old(st).pos()));
                }
            },
        }
        let ix = st.index();
        Err(ParseError::Fail("no alternative matched", ix))
    }
}

impl<R, P0: Parser<Result = R>, P1: Parser<Result = R>, P2: Parser<Result = R>, P3: Parser<Result = R>, P4: Parser<Result = R>, P5: Parser<Result = R>, P6: Parser<Result = R>, P7: Parser<Result = R>> Parser for Alternative<(P0, P1, P2, P3, P4, P5, P6, P7)> {
    type Result = R;

    open spec fn callable(self) -> bool {
        self.parts().0.callable() && self.parts().1.callable() && self.parts().2.callable() && self.parts().3.callable() && self.parts().4.callable() && self.parts().5.callable() && self.parts().6.callable() && self.parts().7.callable()
    }

    open spec fn parses(self, input: Seq<char>, pos: int, r: ParseResult<R>, end: int) -> bool {
        match r {
            Ok(v) => {
                ||| (self.parts().0.parses(input, pos, Ok(v), end))
                ||| ((exists|e: ParseError| #[trigger] self.parts().0.parses(input, pos, Err(e), pos)) && self.parts().1.parses(input, pos, Ok(v), end))
                ||| ((exists|e: ParseError| #[trigger] self.parts().0.parses(input, pos, Err(e), pos)) && (exists|e: ParseError| #[trigger] self.parts().1.parses(input, pos, Err(e), pos)) && self.parts().2.parses(input, pos, Ok(v), end))
                ||| ((exists|e: ParseError| #[trigger] self.parts().0.parses(input, pos, Err(e), pos)) && (exists|e: ParseError| #[trigger] self.parts().1.parses(input, pos, Err(e), pos)) && (exists|e: ParseError| #[trigger] self.parts().2.parses(input, pos, Err(e), pos)) && self.parts().3.parses(input, pos, Ok(v), end))
                ||| ((exists|e: ParseError| #[trigger] self.parts().0.parses(input, pos, Err(e), pos)) && (exists|e: ParseError| #[trigger] self.parts().1.parses(input, pos, Err(e), pos)) && (exists|e: ParseError| #[trigger] self.parts().2.parses(input, pos, Err(e), pos)) && (exists|e: ParseError| #[trigger] self.parts().3.parses(input, pos, Err(e), pos)) && self.parts().4.parses(input, pos, Ok(v), end))
                ||| ((exists|e: ParseError| #[trigger] self.parts().0.parses(input, pos, Err(e), pos)) && (exists|e: ParseError| #[trigger] self.parts().1.parses(input, pos, Err(e), pos)) && (exists|e: ParseError| #[trigger] self.parts().2.parses(input, pos, Err(e), pos)) && (exists|e: ParseError| #[trigger] self.parts().3.parses(input, pos, Err(e), pos)) && (exists|e: ParseError| #[trigger] self.parts().4.parses(input, pos, Err(e), pos)) && self.parts().5.parses(input, pos, Ok(v), end))
                ||| ((exists|e: ParseError| #[trigger] self.parts().0.parses(input, pos, Err(e), pos)) && (exists|e: ParseError| #[trigger] self.parts().1.parses(input, pos, Err(e), pos)) && (exists|e: ParseError| #[trigger] self.parts().2.parses(input, pos, Err(e), pos)) && (exists|e: ParseError| #[trigger] self.parts().3.parses(input, pos, Err(e), pos)) && (exists|e: ParseError| #[trigger] self.parts().4.parses(input, pos, Err(e), pos)) && (exists|e: ParseError| #[trigger] self.parts().5.parses(input, pos, Err(e), pos)) && self.parts().6.parses(input, pos, Ok(v), end))
                ||| ((exists|e: ParseError| #[trigger] self.parts().0.parses(input, pos, Err(e), pos)) && (exists|e: ParseError| #[trigger] self.parts().1.parses(input, pos, Err(e), pos)) && (exists|e: ParseError| #[trigger] self.parts().2.parses(input, pos, Err(e), pos)) && (exists|e: ParseError| #[trigger] self.parts().3.parses(input, pos, Err(e), pos)) && (exists|e: ParseError| #[trigger] self.parts().4.parses(input, pos, Err(e), pos)) && (exists|e: ParseError| #[trigger] self.parts().5.parses(input, pos, Err(e), pos)) && (exists|e: ParseError| #[trigger] self.parts().6.parses(input, pos, Err(e), pos)) && self.parts().7.parses(input, pos, Ok(v), end))
            },
            Err(e) => {
                &&& end == pos
                &&& exists|e0: ParseError| #[trigger] self.parts().0.parses(input, pos, Err(e0), pos)
                &&& exists|e1: ParseError| #[trigger] self.parts().1.parses(input, pos, Err(e1), pos)
                &&& exists|e2: ParseError| #[trigger] self.parts().2.parses(input, pos, Err(e2), pos)
                &&& exists|e3: ParseError| #[trigger] self.parts().3.parses(input, pos, Err(e3), pos)
                &&& exists|e4: ParseError| #[trigger] self.parts().4.parses(input, pos, Err(e4), pos)
                &&& exists|e5: ParseError| #[trigger] self.parts().5.parses(input, pos, Err(e5), pos)
                &&& exists|e6: ParseError| #[trigger] self.parts().6.parses(input, pos, Err(e6), pos)
                &&& exists|e7: ParseError| #[trigger] self.parts().7.parses(input, pos, Err(e7), pos)
                &&& e matches ParseError::Fail(m, p) && m@ == "no alternative matched"@ && p as int
                    == pos
            },
        }
    }

    fn parse(&mut self, st: &mut ParseState) -> (r: ParseResult<R>) {
        let hold = st.hold();
        match (self.0).0.parse(st) {
            Ok(v) => {
                st.release(hold);
                proof {
                    assert(st.holds() =~= old(st).holds());
                }
                return Ok(v);
            },
            Err(e) => {
                let ghost ge = e;
                st.reset(hold);
                proof {
                    assert(st.holds() =~= old(st).holds());
                    assert(old(self).parts().0.parses(old(st).input(), old(st).pos(), Err(ge), old(st).pos()));
                }
            },
        }
        let hold = st.hold();
        match (self.0).1.parse(st) {
            Ok(v) => {
                st.release(hold);
                proof {
                    assert(st.holds() =~= old(st).holds());
                }
                return Ok(v);
            },
            Err(e) => {
                let ghost ge = e;
                st.reset(hold);
                proof {
                    assert(st.holds() =~= old(st).holds());
                    assert(old(self).parts().1.parses(old(st).input(), old(st).pos(), Err(ge), old(st).pos()));
                }
            },
        }
        let hold = st.hold();
        match (self.0).2.parse(st) {
            Ok(v) => {
                st.release(hold);
                proof {
                    assert(st.holds() =~= old(st).holds());
                }
                return Ok(v);
            },
            Err(e) => {
                let ghost ge = e;
                st.reset(hold);
                proof {
                    assert(st.holds() =~= old(st).holds());
                    assert(old(self).parts().2.parses(old(st).input(), old(st).pos(), Err(ge), old(st).pos()));
                }
            },
        }
        let hold = st.hold();
        match (self.0).3.parse(st) {
            Ok(v) => {
                st.release(hold);
                proof {
                    assert(st.holds() =~= old(st).holds());
                }
                return Ok(v);
            },
            Err(e) => {
                let ghost ge = e;
                st.reset(hold);
                proof {
                    assert(st.holds() =~= old(st).holds());
                    assert(old(self).parts().3.parses(old(st).input(), old(st).pos(), Err(ge), old(st).pos()));
                }
            },
        }
        let hold = st.hold();
        match (self.0).4.parse(st) {
            Ok(v) => {
                st.release(hold);
                proof {
                    assert(st.holds() =~= old(st).holds());
                }
                return Ok(v);
            },
            Err(e) => {
                let ghost ge = e;
                st.reset(hold);
                proof {
                    assert(st.holds() =~= old(st).holds());
                    assert(old(self).parts().4.parses(old(st).input(), old(st).pos(), Err(ge), old(st).pos()));
                }
            },
        }
        let hold = st.hold();
        match (self.0).5.parse(st) {
            Ok(v) => {
                st.release(hold);
                proof {
                    assert(st.holds() =~= old(st).holds());
                }
                return Ok(v);
            },
            Err(e) => {
                let ghost ge = e;
                st.reset(hold);
                proof {
                    assert(st.holds() =~= old(st).holds());
                    assert(old(self).parts().5.parses(old(st).input(), old(st).pos(), Err(ge), old(st).pos()));
                }
            },
        }
        let hold = st.hold();
        match (self.0).6.parse(st) {
            Ok(v) => {
                st.release(hold);
                proof {
                    assert(st.holds() =~= old(st).holds());
                }
                return Ok(v);
            },
            Err(e) => {
                let ghost ge = e;
                st.reset(hold);
                proof {
                    assert(st.holds() =~= old(st).holds());
                    assert(old(self).parts().6.parses(old(st).input(), old(st).pos(), Err(ge), old(st).pos()));
                }
            },
        }
        let hold = st.hold();
        match (self.0).7.parse(st) {
            Ok(v) => {
                st.release(hold);
                proof {
                    assert(st.holds() =~= old(st).holds());
                }
                return Ok(v);
            },
            Err(e) => {
                let ghost ge = e;
                st.reset(hold);
                proof {
                    assert(st.holds() =~= old(st).holds());
                    assert(old(self).parts().7.parses(old(st).input(), old(st).pos(), Err(ge), old(st).pos()));
                }
            },
        }
        let ix = st.index();
        Err(ParseError::Fail("no alternative matched", ix))
    }
}

impl<R, P0: Parser<Result = R>, P1: Parser<Result = R>, P2: Parser<Result = R>, P3: Parser<Result = R>, P4: Parser<Result = R>, P5: Parser<Result = R>, P6: Parser<Result = R>, P7: Parser<Result = R>, P8: Parser<Result = R>> Parser for Alternative<(P0, P1, P2, P3, P4, P5, P6, P7, P8)> {
    type Result = R;

    open spec fn callable(self) -> bool {
        self.parts().0.callable() && self.parts().1.callable() && self.parts().2.callable() && self.parts().3.callable() && self.parts().4.callable() && self.parts().5.callable() && self.parts().6.callable() && self.parts().7.callable() && self.parts().8.callable()
    }

    open spec fn parses(self, input: Seq<char>, pos: int, r: ParseResult<R>, end: int) -> bool {
        match r {
            Ok(v) => {
                ||| (self.parts().0.parses(input, pos, Ok(v), end))
                ||| ((exists|e: ParseError| #[trigger] self.parts().0.parses(input, pos, Err(e), pos)) && self.parts().1.parses(input, pos, Ok(v), end))
                ||| ((exists|e: ParseError| #[trigger] self.parts().0.parses(input, pos, Err(e), pos)) && (exists|e: ParseError| #[trigger] self.parts().1.parses(input, pos, Err(e), pos)) && self.parts().2.parses(input, pos, Ok(v), end))
                ||| ((exists|e: ParseError| #[trigger] self.parts().0.parses(input, pos, Err(e), pos)) && (exists|e: ParseError| #[trigger] self.parts().1.parses(input, pos, Err(e), pos)) && (exists|e: ParseError| #[trigger] self.parts().2.parses(input, pos, Err(e), pos)) && self.parts().3.parses(input, pos, Ok(v), end))
                ||| ((exists|e: ParseError| #[trigger] self.parts().0.parses(input, pos, Err(e), pos)) && (exists|e: ParseError| #[trigger] self.parts().1.parses(input, pos, Err(e), pos)) && (exists|e: ParseError| #[trigger] self.parts().2.parses(input, pos, Err(e), pos)) && (exists|e: ParseError| #[trigger] self.parts().3.parses(input, pos, Err(e), pos)) && self.parts().4.parses(input, pos, Ok(v), end))
                ||| ((exists|e: ParseError| #[trigger] self.parts().0.parses(input, pos, Err(e), pos)) && (exists|e: ParseError| #[trigger] self.parts().1.parses(input, pos, Err(e), pos)) && (exists|e: ParseError| #[trigger] self.parts().2.parses(input, pos, Err(e), pos)) && (exists|e: ParseError| #[trigger] self.parts().3.parses(input, pos, Err(e), pos)) && (exists|e: ParseError| #[trigger] self.parts().4.parses(input, pos, Err(e), pos)) && self.parts().5.parses(input, pos, Ok(v), end))
                ||| ((exists|e: ParseError| #[trigger] self.parts().0.parses(input, pos, Err(e), pos)) && (exists|e: ParseError| #[trigger] self.parts().1.parses(input, pos, Err(e), pos)) && (exists|e: ParseError| #[trigger] self.parts().2.parses(input, pos, Err(e), pos)) && (exists|e: ParseError| #[trigger] self.parts().3.parses(input, pos, Err(e), pos)) && (exists|e: ParseError| #[trigger] self.parts().4.parses(input, pos, Err(e), pos)) && (exists|e: ParseError| #[trigger] self.parts().5.parses(input, pos, Err(e), pos)) && self.parts().6.parses(input, pos, Ok(v), end))
                ||| ((exists|e: ParseError| #[trigger] self.parts().0.parses(input, pos, Err(e), pos)) && (exists|e: ParseError| #[trigger] self.parts().1.parses(input, pos, Err(e), pos)) && (exists|e: ParseError| #[trigger] self.parts().2.parses(input, pos, Err(e), pos)) && (exists|e: ParseError| #[trigger] self.parts().3.parses(input, pos, Err(e), pos)) && (exists|e: ParseError| #[trigger] self.parts().4.parses(input, pos, Err(e), pos)) && (exists|e: ParseError| #[trigger] self.parts().5.parses(input, pos, Err(e), pos)) && (exists|e: ParseError| #[trigger] self.parts().6.parses(input, pos, Err(e), pos)) && self.parts().7.parses(input, pos, Ok(v), end))
                ||| ((exists|e: ParseError| #[trigger] self.parts().0.parses(input, pos, Err(e), pos)) && (exists|e: ParseError| #[trigger] self.parts().1.parses(input, pos, Err(e), pos)) && (exists|e: ParseError| #[trigger] self.parts().2.parses(input, pos, Err(e), pos)) && (exists|e: ParseError| #[trigger] self.parts().3.parses(input, pos, Err(e), pos)) && (exists|e: ParseError| #[trigger] self.parts().4.parses(input, pos, Err(e), pos)) && (exists|e: ParseError| #[trigger] self.parts().5.parses(input, pos, Err(e), pos)) && (exists|e: ParseError| #[trigger] self.parts().6.parses(input, pos, Err(e), pos)) && (exists|e: ParseError| #[trigger] self.parts().7.parses(input, pos, Err(e), pos)) && self.parts().8.parses(input, pos, Ok(v), end))
            },
            Err(e) => {
                &&& end == pos
                &&& exists|e0: ParseError| #[trigger] self.parts().0.parses(input, pos, Err(e0), pos)
                &&& exists|e1: ParseError| #[trigger] self.parts().1.parses(input, pos, Err(e1), pos)
                &&& exists|e2: ParseError| #[trigger] self.parts().2.parses(input, pos, Err(e2), pos)
                &&& exists|e3: ParseError| #[trigger] self.parts().3.parses(input, pos, Err(e3), pos)
                &&& exists|e4: ParseError| #[trigger] self.parts().4.parses(input, pos, Err(e4), pos)
                &&& exists|e5: ParseError| #[trigger] self.parts().5.parses(input, pos, Err(e5), pos)
                &&& exists|e6: ParseError| #[trigger] self.parts().6.parses(input, pos, Err(e6), pos)
                &&& exists|e7: ParseError| #[trigger] self.parts().7.parses(input, pos, Err(e7), pos)
                &&& exists|e8: ParseError| #[trigger] self.parts().8.parses(input, pos, Err(e8), pos)
                &&& e matches ParseError::Fail(m, p) && m@ == "no alternative matched"@ && p as int
                    == pos
            },
        }
    }

    fn parse(&mut self, st: &mut ParseState) -> (r: ParseResult<R>) {
        let hold = st.hold();
        match (self.0).0.parse(st) {
            Ok(v) => {
                st.release(hold);
                proof {
                    assert(st.holds() =~= old(st).holds());
                }
                return Ok(v);
            },
            Err(e) => {
                let ghost ge = e;
                st.reset(hold);
                proof {
                    assert(st.holds() =~= old(st).holds());
                    assert(old(self).parts().0.parses(old(st).input(), old(st).pos(), Err(ge), old(st).pos()));
                }
            },
        }
        let hold = st.hold();
        match (self.0).1.parse(st) {
            Ok(v) => {
                st.release(hold);
                proof {
                    assert(st.holds() =~= old(st).holds());
                }
                return Ok(v);
            },
            Err(e) => {
                let ghost ge = e;
                st.reset(hold);
                proof {
                    assert(st.holds() =~= old(st).holds());
                    assert(old(self).parts().1.parses(old(st).input(), old(st).pos(), Err(ge), old(st).pos()));
                }
            },
        }
        let hold = st.hold();
        match (self.0).2.parse(st) {
            Ok(v) => {
                st.release(hold);
                proof {
                    assert(st.holds() =~= old(st).holds());
                }
                return Ok(v);
            },
            Err(e) => {
                let ghost ge = e;
                st.reset(hold);
                proof {
                    assert(st.holds() =~= old(st).holds());
                    assert(old(self).parts().2.parses(old(st).input(), old(st).pos(), Err(ge), old(st).pos()));
                }
            },
        }
        let hold = st.hold();
        match (self.0).3.parse(st) {
            Ok(v) => {
                st.release(hold);
                proof {
                    assert(st.holds() =~= old(st).holds());
                }
                return Ok(v);
            },
            Err(e) => {
                let ghost ge = e;
                st.reset(hold);
                proof {
                    assert(st.holds() =~= old(st).holds());
                    assert(old(self).parts().3.parses(old(st).input(), old(st).pos(), Err(ge), old(st).pos()));
                }
            },
        }
        let hold = st.hold();
        match (self.0).4.parse(st) {
            Ok(v) => {
                st.release(hold);
                proof {
                    assert(st.holds() =~= old(st).holds());
                }
                return Ok(v);
            },
            Err(e) => {
                let ghost ge = e;
                st.reset(hold);
                proof {
                    assert(st.holds() =~= old(st).holds());
                    assert(old(self).parts().4.parses(old(st).input(), old(st).pos(), Err(ge), old(st).pos()));
                }
            },
        }
        let hold = st.hold();
        match (self.0).5.parse(st) {
            Ok(v) => {
                st.release(hold);
                proof {
                    assert(st.holds() =~= old(st).holds());
                }
                return Ok(v);
            },
            Err(e) => {
                let ghost ge = e;
                st.reset(hold);
                proof {
                    assert(st.holds() =~= old(st).holds());
                    assert(old(self).parts().5.parses(old(st).input(), old(st).pos(), Err(ge), old(st).pos()));
                }
            },
        }
        let hold = st.hold();
        match (self.0).6.parse(st) {
            Ok(v) => {
                st.release(hold);
                proof {
                    assert(st.holds() =~= old(st).holds());
                }
                return Ok(v);
            },
            Err(e) => {
                let ghost ge = e;
                st.reset(hold);
                proof {
                    assert(st.holds() =~= old(st).holds());
                    assert(old(self).parts().6.parses(old(st).input(), old(st).pos(), Err(ge), old(st).pos()));
                }
            },
        }
        let hold = st.hold();
        match (self.0).7.parse(st) {
            Ok(v) => {
                st.release(hold);
                proof {
                    assert(st.holds() =~= old(st).holds());
                }
                return Ok(v);
            },
            Err(e) => {
                let ghost ge = e;
                st.reset(hold);
                proof {
                    assert(st.holds() =~= old(st).holds());
                    assert(old(self).parts().7.parses(old(st).input(), old(st).pos(), Err(ge), old(st).pos()));
                }
            },
        }
        let hold = st.hold();
        match (self.0).8.parse(st) {
            Ok(v) => {
                st.release(hold);
                proof {
                    assert(st.holds() =~= old(st).holds());
                }
                return Ok(v);
            },
            Err(e) => {
                let ghost ge = e;
                st.reset(hold);
                proof {
                    assert(st.holds() =~= old(st).holds());
                    assert(old(self).parts().8.parses(old(st).input(), old(st).pos(), Err(ge), old(st).pos()));
                }
            },
        }
        let ix = st.index();
        Err(ParseError::Fail("no alternative matched", ix))
    }
}

impl<R, P0: Parser<Result = R>, P1: Parser<Result = R>, P2: Parser<Result = R>, P3: Parser<Result = R>, P4: Parser<Result = R>, P5: Parser<Result = R>, P6: Parser<Result = R>, P7: Parser<Result = R>, P8: Parser<Result = R>, P9: Parser<Result = R>> Parser for Alternative<(P0, P1, P2, P3, P4, P5, P6, P7, P8, P9)> {
    type Result = R;

    open spec fn callable(self) -> bool {
        self.parts().0.callable() && self.parts().1.callable() && self.parts().2.callable() && self.parts().3.callable() && self.parts().4.callable() && self.parts().5.callable() && self.parts().6.callable() && self.parts().7.callable() && self.parts().8.callable() && self.parts().9.callable()
    }

    open spec fn parses(self, input: Seq<char>, pos: int, r: ParseResult<R>, end: int) -> bool {
        match r {
            Ok(v) => {
                ||| (self.parts().0.parses(input, pos, Ok(v), end))
                ||| ((exists|e: ParseError| #[trigger] self.parts().0.parses(input, pos, Err(e), pos)) && self.parts().1.parses(input, pos, Ok(v), end))
                ||| ((exists|e: ParseError| #[trigger] self.parts().0.parses(input, pos, Err(e), pos)) && (exists|e: ParseError| #[trigger] self.parts().1.parses(input, pos, Err(e), pos)) && self.parts().2.parses(input, pos, Ok(v), end))
                ||| ((exists|e: ParseError| #[trigger] self.parts().0.parses(input, pos, Err(e), pos)) && (exists|e: ParseError| #[trigger] self.parts().1.parses(input, pos, Err(e), pos)) && (exists|e: ParseError| #[trigger] self.parts().2.parses(input, pos, Err(e), pos)) && self.parts().3.parses(input, pos, Ok(v), end))
                ||| ((exists|e: ParseError| #[trigger] self.parts().0.parses(input, pos, Err(e), pos)) && (exists|e: ParseError| #[trigger] self.parts().1.parses(input, pos, Err(e), pos)) && (exists|e: ParseError| #[trigger] self.parts().2.parses(input, pos, Err(e), pos)) && (exists|e: ParseError| #[trigger] self.parts().3.parses(input, pos, Err(e), pos)) && self.parts().4.parses(input, pos, Ok(v), end))
                ||| ((exists|e: ParseError| #[trigger] self.parts().0.parses(input, pos, Err(e), pos)) && (exists|e: ParseError| #[trigger] self.parts().1.parses(input, pos, Err(e), pos)) && (exists|e: ParseError| #[trigger] self.parts().2.parses(input, pos, Err(e), pos)) && (exists|e: ParseError| #[trigger] self.parts().3.parses(input, pos, Err(e), pos)) && (exists|e: ParseError| #[trigger] self.parts().4.parses(input, pos, Err(e), pos)) && self.parts().5.parses(input, pos, Ok(v), end))
                ||| ((exists|e: ParseError| #[trigger] self.parts().0.parses(input, pos, Err(e), pos)) && (exists|e: ParseError| #[trigger] self.parts().1.parses(input, pos, Err(e), pos)) && (exists|e: ParseError| #[trigger] self.parts().2.parses(input, pos, Err(e), pos)) && (exists|e: ParseError| #[trigger] self.parts().3.parses(input, pos, Err(e), pos)) && (exists|e: ParseError| #[trigger] self.parts().4.parses(input, pos, Err(e), pos)) && (exists|e: ParseError| #[trigger] self.parts().5.parses(input, pos, Err(e), pos)) && self.parts().6.parses(input, pos, Ok(v), end))
                ||| ((exists|e: ParseError| #[trigger] self.parts().0.parses(input, pos, Err(e), pos)) && (exists|e: ParseError| #[trigger] self.parts().1.parses(input, pos, Err(e), pos)) && (exists|e: ParseError| #[trigger] self.parts().2.parses(input, pos, Err(e), pos)) && (exists|e: ParseError| #[trigger] self.parts().3.parses(input, pos, Err(e), pos)) && (exists|e: ParseError| #[trigger] self.parts().4.parses(input, pos, Err(e), pos)) && (exists|e: ParseError| #[trigger] self.parts().5.parses(input, pos, Err(e), pos)) && (exists|e: ParseError| #[trigger] self.parts().6.parses(input, pos, Err(e), pos)) && self.parts().7.parses(input, pos, Ok(v), end))
                ||| ((exists|e: ParseError| #[trigger] self.parts().0.parses(input, pos, Err(e), pos)) && (exists|e: ParseError| #[trigger] self.parts().1.parses(input, pos, Err(e), pos)) && (exists|e: ParseError| #[trigger] self.parts().2.parses(input, pos, Err(e), pos)) && (exists|e: ParseError| #[trigger] self.parts().3.parses(input, pos, Err(e), pos)) && (exists|e: ParseError| #[trigger] self.parts().4.parses(input, pos, Err(e), pos)) && (exists|e: ParseError| #[trigger] self.parts().5.parses(input, pos, Err(e), pos)) && (exists|e: ParseError| #[trigger] self.parts().6.parses(input, pos, Err(e), pos)) && (exists|e: ParseError| #[trigger] self.parts().7.parses(input, pos, Err(e), pos)) && self.parts().8.parses(input, pos, Ok(v), end))
                ||| ((exists|e: ParseError| #[trigger] self.parts().0.parses(input, pos, Err(e), pos)) && (exists|e: ParseError| #[trigger] self.parts().1.parses(input, pos, Err(e), pos)) && (exists|e: ParseError| #[trigger] self.parts().2.parses(input, pos, Err(e), pos)) && (exists|e: ParseError| #[trigger] self.parts().3.parses(input, pos, Err(e), pos)) && (exists|e: ParseError| #[trigger] self.parts().4.parses(input, pos, Err(e), pos)) && (exists|e: ParseError| #[trigger] self.parts().5.parses(input, pos, Err(e), pos)) && (exists|e: ParseError| #[trigger] self.parts().6.parses(input, pos, Err(e), pos)) && (exists|e: ParseError| #[trigger] self.parts().7.parses(input, pos, Err(e), pos)) && (exists|e: ParseError| #[trigger] self.parts().8.parses(input, pos, Err(e), pos)) && self.parts().9.parses(input, pos, Ok(v), end))
            },
            Err(e) => {
                &&& end == pos
                &&& exists|e0: ParseError| #[trigger] self.parts().0.parses(input, pos, Err(e0), pos)
                &&& exists|e1: ParseError| #[trigger] self.parts().1.parses(input, pos, Err(e1), pos)
                &&& exists|e2: ParseError| #[trigger] self.parts().2.parses(input, pos, Err(e2), pos)
                &&& exists|e3: ParseError| #[trigger] self.parts().3.parses(input, pos, Err(e3), pos)
                &&& exists|e4: ParseError| #[trigger] self.parts().4.parses(input, pos, Err(e4), pos)
                &&& exists|e5: ParseError| #[trigger] self.parts().5.parses(input, pos, Err(e5), pos)
                &&& exists|e6: ParseError| #[trigger] self.parts().6.parses(input, pos, Err(e6), pos)
                &&& exists|e7: ParseError| #[trigger] self.parts().7.parses(input, pos, Err(e7), pos)
                &&& exists|e8: ParseError| #[trigger] self.parts().8.parses(input, pos, Err(e8), pos)
                &&& exists|e9: ParseError| #[trigger] self.parts().9.parses(input, pos, Err(e9), pos)
                &&& e matches ParseError::Fail(m, p) && m@ == "no alternative matched"@ && p as int
                    == pos
            },
        }
    }

    fn parse(&mut self, st: &mut ParseState) -> (r: ParseResult<R>) {
        let hold = st.hold();
        match (self.0).0.parse(st) {
            Ok(v) => {
                st.release(hold);
                proof {
                    assert(st.holds() =~= old(st).holds());
                }
                return Ok(v);
            },
            Err(e) => {
                let ghost ge = e;
                st.reset(hold);
                proof {
                    assert(st.holds() =~= old(st).holds());
                    assert(old(self).parts().0.parses(old(st).input(), old(st).pos(), Err(ge), old(st).pos()));
                }
            },
        }
        let hold = st.hold();
        match (self.0).1.parse(st) {
            Ok(v) => {
                st.release(hold);
                proof {
                    assert(st.holds() =~= old(st).holds());
                }
                return Ok(v);
            },
            Err(e) => {
                let ghost ge = e;
                st.reset(hold);
                proof {
                    assert(st.holds() =~= old(st).holds());
                    assert(old(self).parts().1.parses(old(st).input(), old(st).pos(), Err(ge), old(st).pos()));
                }
            },
        }
        let hold = st.hold();
        match (self.0).2.parse(st) {
            Ok(v) => {
                st.release(hold);
                proof {
                    assert(st.holds() =~= old(st).holds());
                }
                return Ok(v);
            },
            Err(e) => {
                let ghost ge = e;
                st.reset(hold);
                proof {
                    assert(st.holds() =~= old(st).holds());
                    assert(old(self).parts().2.parses(old(st).input(), old(st).pos(), Err(ge), old(st).pos()));
                }
            },
        }
        let hold = st.hold();
        match (self.0).3.parse(st) {
            Ok(v) => {
                st.release(hold);
                proof {
                    assert(st.holds() =~= old(st).holds());
                }
                return Ok(v);
            },
            Err(e) => {
                let ghost ge = e;
                st.reset(hold);
                proof {
                    assert(st.holds() =~= old(st).holds());
                    assert(old(self).parts().3.parses(old(st).input(), old(st).pos(), Err(ge), old(st).pos()));
                }
            },
        }
        let hold = st.hold();
        match (self.0).4.parse(st) {
            Ok(v) => {
                st.release(hold);
                proof {
                    assert(st.holds() =~= old(st).holds());
                }
                return Ok(v);
            },
            Err(e) => {
                let ghost ge = e;
                st.reset(hold);
                proof {
                    assert(st.holds() =~= old(st).holds());
                    assert(old(self).parts().4.parses(old(st).input(), old(st).pos(), Err(ge), old(st).pos()));
                }
            },
        }
        let hold = st.hold();
        match (self.0).5.parse(st) {
            Ok(v) => {
                st.release(hold);
                proof {
                    assert(st.holds() =~= old(st).holds());
                }
                return Ok(v);
            },
            Err(e) => {
                let ghost ge = e;
                st.reset(hold);
                proof {
                    assert(st.holds() =~= old(st).holds());
                    assert(old(self).parts().5.parses(old(st).input(), old(st).pos(), Err(ge), old(st).pos()));
                }
            },
        }
        let hold = st.hold();
        match (self.0).6.parse(st) {
            Ok(v) => {
                st.release(hold);
                proof {
                    assert(st.holds() =~= old(st).holds());
                }
                return Ok(v);
            },
            Err(e) => {
                let ghost ge = e;
                st.reset(hold);
                proof {
                    assert(st.holds() =~= old(st).holds());
                    assert(old(self).parts().6.parses(old(st).input(), old(st).pos(), Err(ge), old(st).pos()));
                }
            },
        }
        let hold = st.hold();
        match (self.0).7.parse(st) {
            Ok(v) => {
                st.release(hold);
                proof {
                    assert(st.holds() =~= old(st).holds());
                }
                return Ok(v);
            },
            Err(e) => {
                let ghost ge = e;
                st.reset(hold);
                proof {
                    assert(st.holds() =~= old(st).holds());
                    assert(old(self).parts().7.parses(old(st).input(), old(st).pos(), Err(ge), old(st).pos()));
                }
            },
        }
        let hold = st.hold();
        match (self.0).8.parse(st) {
            Ok(v) => {
                st.release(hold);
                proof {
                    assert(st.holds() =~= old(st).holds());
                }
                return Ok(v);
            },
            Err(e) => {
                let ghost ge = e;
                st.reset(hold);
                proof {
                    assert(st.holds() =~= old(st).holds());
                    assert(old(self).parts().8.parses(old(st).input(), old(st).pos(), Err(ge), old(st).pos()));
                }
            },
        }
        let hold = st.hold();
        match (self.0).9.parse(st) {
            Ok(v) => {
                st.release(hold);
                proof {
                    assert(st.holds() =~= old(st).holds());
                }
                return Ok(v);
            },
            Err(e) => {
                let ghost ge = e;
                st.reset(hold);
                proof {
                    assert(st.holds() =~= old(st).holds());
                    assert(old(self).parts().9.parses(old(st).input(), old(st).pos(), Err(ge), old(st).pos()));
                }
            },
        }
        let ix = st.index();
        Err(ParseError::Fail("no alternative matched", ix))
    }
}

impl<P0: Parser, P1: Parser, P2: Parser, P3: Parser> Parser for PartialSequence<(P0, P1, P2, P3)> {
    type Result = (Option<P0::Result>, Option<P1::Result>, Option<P2::Result>, Option<P3::Result>);

    open spec fn callable(self) -> bool {
        self.parts().0.callable() && self.parts().1.callable() && self.parts().2.callable() && self.parts().3.callable()
    }

    open spec fn parses(
        self,
        input: Seq<char>,
        pos: int,
        r: ParseResult<(Option<P0::Result>, Option<P1::Result>, Option<P2::Result>, Option<P3::Result>)>,
        end: int,
    ) -> bool {
        match r {
            Ok(v) => {
                ||| (v == (None::<P0::Result>, None::<P1::Result>, None::<P2::Result>, None::<P3::Result>) && end == pos && (exists|e: ParseError| #[trigger] self.parts().0.parses(input, pos, Err(e), pos)))
                ||| (exists|x0: P0::Result|
                    #![trigger self.parts().0.parses(input, pos, Ok(x0), end)]
                    v == (Some(x0), None::<P1::Result>, None::<P2::Result>, None::<P3::Result>) && self.parts().0.parses(input, pos, Ok(x0), end) && (exists|e: ParseError| #[trigger] self.parts().1.parses(input, end, Err(e), end)))
                ||| (exists|x0: P0::Result, x1: P1::Result, m1: int|
                    #![trigger self.parts().0.parses(input, pos, Ok(x0), m1), self.parts().1.parses(input, m1, Ok(x1), end)]
                    v == (Some(x0), Some(x1), None::<P2::Result>, None::<P3::Result>) && self.parts().0.parses(input, pos, Ok(x0), m1) && self.parts().1.parses(input, m1, Ok(x1), end) && (exists|e: ParseError| #[trigger] self.parts().2.parses(input, end, Err(e), end)))
                ||| (exists|x0: P0::Result, x1: P1::Result, x2: P2::Result, m1: int, m2: int|
                    #![trigger self.parts().0.parses(input, pos, Ok(x0), m1), self.parts().1.parses(input, m1, Ok(x1), m2), self.parts().2.parses(input, m2, Ok(x2), end)]
                    v == (Some(x0), Some(x1), Some(x2), None::<P3::Result>) && self.parts().0.parses(input, pos, Ok(x0), m1) && self.parts().1.parses(input, m1, Ok(x1), m2) && self.parts().2.parses(input, m2, Ok(x2), end) && (exists|e: ParseError| #[trigger] self.parts().3.parses(input, end, Err(e), end)))
                ||| (exists|x0: P0::Result, x1: P1::Result, x2: P2::Result, x3: P3::Result, m1: int, m2: int, m3: int|
                    #![trigger self.parts().0.parses(input, pos, Ok(x0), m1), self.parts().1.parses(input, m1, Ok(x1), m2), self.parts().2.parses(input, m2, Ok(x2), m3), self.parts().3.parses(input, m3, Ok(x3), end)]
                    v == (Some(x0), Some(x1), Some(x2), Some(x3)) && self.parts().0.parses(input, pos, Ok(x0), m1) && self.parts().1.parses(input, m1, Ok(x1), m2) && self.parts().2.parses(input, m2, Ok(x2), m3) && self.parts().3.parses(input, m3, Ok(x3), end))
            },
            Err(_) => false,
        }
    }

    fn parse(&mut self, st: &mut ParseState) -> (r: ParseResult<
        (Option<P0::Result>, Option<P1::Result>, Option<P2::Result>, Option<P3::Result>),
    >) {
        let hold = st.hold();
        let r0 = match (self.0).0.parse(st) {
            Ok(x) => x,
            Err(e) => {
                let ghost ge = e;
                st.release(hold);
                proof {
                    assert(st.holds() =~= old(st).holds());
                }
                return Ok((None, None, None, None));
            },
        };
        let ghost g0 = r0;
        let ghost m1 = st.pos();
        let r1 = match (self.0).1.parse(st) {
            Ok(x) => x,
            Err(e) => {
                let ghost ge = e;
                st.release(hold);
                proof {
                    assert(st.holds() =~= old(st).holds());
                    assert(old(self).parts().0.parses(old(st).input(), old(st).pos(), Ok(g0), st.pos()));
                }
                return Ok((Some(r0), None, None, None));
            },
        };
        let ghost g1 = r1;
        let ghost m2 = st.pos();
        let r2 = match (self.0).2.parse(st) {
            Ok(x) => x,
            Err(e) => {
                let ghost ge = e;
                st.release(hold);
                proof {
                    assert(st.holds() =~= old(st).holds());
                    assert(old(self).parts().0.parses(old(st).input(), old(st).pos(), Ok(g0), m1));
                    assert(old(self).parts().1.parses(old(st).input(), m1, Ok(g1), st.pos()));
                }
                return Ok((Some(r0), Some(r1), None, None));
            },
        };
        let ghost g2 = r2;
        let ghost m3 = st.pos();
        let r3 = match (self.0).3.parse(st) {
            Ok(x) => x,
            Err(e) => {
                let ghost ge = e;
                st.release(hold);
                proof {
                    assert(st.holds() =~= old(st).holds());
                    assert(old(self).parts().0.parses(old(st).input(), old(st).pos(), Ok(g0), m1));
                    assert(old(self).parts().1.parses(old(st).input(), m1, Ok(g1), m2));
                    assert(old(self).parts().2.parses(old(st).input(), m2, Ok(g2), st.pos()));
                }
                return Ok((Some(r0), Some(r1), Some(r2), None));
            },
        };
        let ghost g3 = r3;
        st.release(hold);
        proof {
            assert(st.holds() =~= old(st).holds());
            assert(old(self).parts().0.parses(old(st).input(), old(st).pos(), Ok(g0), m1));
            assert(old(self).parts().1.parses(old(st).input(), m1, Ok(g1), m2));
            assert(old(self).parts().2.parses(old(st).input(), m2, Ok(g2), m3));
            assert(old(self).parts().3.parses(old(st).input(), m3, Ok(g3), st.pos()));
        }
        Ok((Some(r0), Some(r1), Some(r2), Some(r3)))
    }
}

impl<P0: Parser, P1: Parser, P2: Parser, P3: Parser, P4: Parser> Parser for PartialSequence<(P0, P1, P2, P3, P4)> {
    type Result = (Option<P0::Result>, Option<P1::Result>, Option<P2::Result>, Option<P3::Result>, Option<P4::Result>);

    open spec fn callable(self) -> bool {
        self.parts().0.callable() && self.parts().1.callable() && self.parts().2.callable() && self.parts().3.callable() && self.parts().4.callable()
    }

    open spec fn parses(
        self,
        input: Seq<char>,
        pos: int,
        r: ParseResult<(Option<P0::Result>, Option<P1::Result>, Option<P2::Result>, Option<P3::Result>, Option<P4::Result>)>,
        end: int,
    ) -> bool {
        match r {
            Ok(v) => {
                ||| (v == (None::<P0::Result>, None::<P1::Result>, None::<P2::Result>, None::<P3::Result>, None::<P4::Result>) && end == pos && (exists|e: ParseError| #[trigger] self.parts().0.parses(input, pos, Err(e), pos)))
                ||| (exists|x0: P0::Result|
                    #![trigger self.parts().0.parses(input, pos, Ok(x0), end)]
                    v == (Some(x0), None::<P1::Result>, None::<P2::Result>, None::<P3::Result>, None::<P4::Result>) && self.parts().0.parses(input, pos, Ok(x0), end) && (exists|e: ParseError| #[trigger] self.parts().1.parses(input, end, Err(e), end)))
                ||| (exists|x0: P0::Result, x1: P1::Result, m1: int|
                    #![trigger self.parts().0.parses(input, pos, Ok(x0), m1), self.parts().1.parses(input, m1, Ok(x1), end)]
                    v == (Some(x0), Some(x1), None::<P2::Result>, None::<P3::Result>, None::<P4::Result>) && self.parts().0.parses(input, pos, Ok(x0), m1) && self.parts().1.parses(input, m1, Ok(x1), end) && (exists|e: ParseError| #[trigger] self.parts().2.parses(input, end, Err(e), end)))
                ||| (exists|x0: P0::Result, x1: P1::Result, x2: P2::Result, m1: int, m2: int|
                    #![trigger self.parts().0.parses(input, pos, Ok(x0), m1), self.parts().1.parses(input, m1, Ok(x1), m2), self.parts().2.parses(input, m2, Ok(x2), end)]
                    v == (Some(x0), Some(x1), Some(x2), None::<P3::Result>, None::<P4::Result>) && self.parts().0.parses(input, pos, Ok(x0), m1) && self.parts().1.parses(input, m1, Ok(x1), m2) && self.parts().2.parses(input, m2, Ok(x2), end) && (exists|e: ParseError| #[trigger] self.parts().3.parses(input, end, Err(e), end)))
                ||| (exists|x0: P0::Result, x1: P1::Result, x2: P2::Result, x3: P3::Result, m1: int, m2: int, m3: int|
                    #![trigger self.parts().0.parses(input, pos, Ok(x0), m1), self.parts().1.parses(input, m1, Ok(x1), m2), self.parts().2.parses(input, m2, Ok(x2), m3), self.parts().3.parses(input, m3, Ok(x3), end)]
                    v == (Some(x0), Some(x1), Some(x2), Some(x3), None::<P4::Result>) && self.parts().0.parses(input, pos, Ok(x0), m1) && self.parts().1.parses(input, m1, Ok(x1), m2) && self.parts().2.parses(input, m2, Ok(x2), m3) && self.parts().3.parses(input, m3, Ok(x3), end) && (exists|e: ParseError| #[trigger] self.parts().4.parses(input, end, Err(e), end)))
                ||| (exists|x0: P0::Result, x1: P1::Result, x2: P2::Result, x3: P3::Result, x4: P4::Result, m1: int, m2: int, m3: int, m4: int|
                    #![trigger self.parts().0.parses(input, pos, Ok(x0), m1), self.parts().1.parses(input, m1, Ok(x1), m2), self.parts().2.parses(input, m2, Ok(x2), m3), self.parts().3.parses(input, m3, Ok(x3), m4), self.parts().4.parses(input, m4, Ok(x4), end)]
                    v == (Some(x0), Some(x1), Some(x2), Some(x3), Some(x4)) && self.parts().0.parses(input, pos, Ok(x0), m1) && self.parts().1.parses(input, m1, Ok(x1), m2) && self.parts().2.parses(input, m2, Ok(x2), m3) && self.parts().3.parses(input, m3, Ok(x3), m4) && self.parts().4.parses(input, m4, Ok(x4), end))
            },
            Err(_) => false,
        }
    }

    fn parse(&mut self, st: &mut ParseState) -> (r: ParseResult<
        (Option<P0::Result>, Option<P1::Result>, Option<P2::Result>, Option<P3::Result>, Option<P4::Result>),
    >) {
        let hold = st.hold();
        let r0 = match (self.0).0.parse(st) {
            Ok(x) => x,
            Err(e) => {
                let ghost ge = e;
                st.release(hold);
                proof {
                    assert(st.holds() =~= old(st).holds());
                }
                return Ok((None, None, None, None, None));
            },
        };
        let ghost g0 = r0;
        let ghost m1 = st.pos();
        let r1 = match (self.0).1.parse(st) {
            Ok(x) => x,
            Err(e) => {
                let ghost ge = e;
                st.release(hold);
                proof {
                    assert(st.holds() =~= old(st).holds());
                    assert(old(self).parts().0.parses(old(st).input(), old(st).pos(), Ok(g0), st.pos()));
                }
                return Ok((Some(r0), None, None, None, None));
            },
        };
        let ghost g1 = r1;
        let ghost m2 = st.pos();
        let r2 = match (self.0).2.parse(st) {
            Ok(x) => x,
            Err(e) => {
                let ghost ge = e;
                st.release(hold);
                proof {
                    assert(st.holds() =~= old(st).holds());
                    assert(old(self).parts().0.parses(old(st).input(), old(st).pos(), Ok(g0), m1));
                    assert(old(self).parts().1.parses(old(st).input(), m1, Ok(g1), st.pos()));
                }
                return Ok((Some(r0), Some(r1), None, None, None));
            },
        };
        let ghost g2 = r2;
        let ghost m3 = st.pos();
        let r3 = match (self.0).3.parse(st) {
            Ok(x) => x,
            Err(e) => {
                let ghost ge = e;
                st.release(hold);
                proof {
                    assert(st.holds() =~= old(st).holds());
                    assert(old(self).parts().0.parses(old(st).input(), old(st).pos(), Ok(g0), m1));
                    assert(old(self).parts().1.parses(old(st).input(), m1, Ok(g1), m2));
                    assert(old(self).parts().2.parses(old(st).input(), m2, Ok(g2), st.pos()));
                }
                return Ok((Some(r0), Some(r1), Some(r2), None, None));
            },
        };
        let ghost g3 = r3;
        let ghost m4 = st.pos();
        let r4 = match (self.0).4.parse(st) {
            Ok(x) => x,
            Err(e) => {
                let ghost ge = e;
                st.release(hold);
                proof {
                    assert(st.holds() =~= old(st).holds());
                    assert(old(self).parts().0.parses(old(st).input(), old(st).pos(), Ok(g0), m1));
                    assert(old(self).parts().1.parses(old(st).input(), m1, Ok(g1), m2));
                    assert(old(self).parts().2.parses(old(st).input(), m2, Ok(g2), m3));
                    assert(old(self).parts().3.parses(old(st).input(), m3, Ok(g3), st.pos()));
                }
                return Ok((Some(r0), Some(r1), Some(r2), Some(r3), None));
            },
        };
        let ghost g4 = r4;
        st.release(hold);
        proof {
            assert(st.holds() =~= old(st).holds());
            assert(old(self).parts().0.parses(old(st).input(), old(st).pos(), Ok(g0), m1));
            assert(old(self).parts().1.parses(old(st).input(), m1, Ok(g1), m2));
            assert(old(self).parts().2.parses(old(st).input(), m2, Ok(g2), m3));
            assert(old(self).parts().3.parses(old(st).input(), m3, Ok(g3), m4));
            assert(old(self).parts().4.parses(old(st).input(), m4, Ok(g4), st.pos()));
        }
        Ok((Some(r0), Some(r1), Some(r2), Some(r3), Some(r4)))
    }
}

impl<P0: Parser, P1: Parser, P2: Parser, P3: Parser, P4: Parser, P5: Parser> Parser for PartialSequence<(P0, P1, P2, P3, P4, P5)> {
    type Result = (Option<P0::Result>, Option<P1::Result>, Option<P2::Result>, Option<P3::Result>, Option<P4::Result>, Option<P5::Result>);

    open spec fn callable(self) -> bool {
        self.parts().0.callable() && self.parts().1.callable() && self.parts().2.callable() && self.parts().3.callable() && self.parts().4.callable() && self.parts().5.callable()
    }

    open spec fn parses(
        self,
        input: Seq<char>,
        pos: int,
        r: ParseResult<(Option<P0::Result>, Option<P1::Result>, Option<P2::Result>, Option<P3::Result>, Option<P4::Result>, Option<P5::Result>)>,
        end: int,
    ) -> bool {
        match r {
            Ok(v) => {
                ||| (v == (None::<P0::Result>, None::<P1::Result>, None::<P2::Result>, None::<P3::Result>, None::<P4::Result>, None::<P5::Result>) && end == pos && (exists|e: ParseError| #[trigger] self.parts().0.parses(input, pos, Err(e), pos)))
                ||| (exists|x0: P0::Result|
                    #![trigger self.parts().0.parses(input, pos, Ok(x0), end)]
                    v == (Some(x0), None::<P1::Result>, None::<P2::Result>, None::<P3::Result>, None::<P4::Result>, None::<P5::Result>) && self.parts().0.parses(input, pos, Ok(x0), end) && (exists|e: ParseError| #[trigger] self.parts().1.parses(input, end, Err(e), end)))
                ||| (exists|x0: P0::Result, x1: P1::Result, m1: int|
                    #![trigger self.parts().0.parses(input, pos, Ok(x0), m1), self.parts().1.parses(input, m1, Ok(x1), end)]
                    v == (Some(x0), Some(x1), None::<P2::Result>, None::<P3::Result>, None::<P4::Result>, None::<P5::Result>) && self.parts().0.parses(input, pos, Ok(x0), m1) && self.parts().1.parses(input, m1, Ok(x1), end) && (exists|e: ParseError| #[trigger] self.parts().2.parses(input, end, Err(e), end)))
                ||| (exists|x0: P0::Result, x1: P1::Result, x2: P2::Result, m1: int, m2: int|
                    #![trigger self.parts().0.parses(input, pos, Ok(x0), m1), self.parts().1.parses(input, m1, Ok(x1), m2), self.parts().2.parses(input, m2, Ok(x2), end)]
                    v == (Some(x0), Some(x1), Some(x2), None::<P3::Result>, None::<P4::Result>, None::<P5::Result>) && self.parts().0.parses(input, pos, Ok(x0), m1) && self.parts().1.parses(input, m1, Ok(x1), m2) && self.parts().2.parses(input, m2, Ok(x2), end) && (exists|e: ParseError| #[trigger] self.parts().3.parses(input, end, Err(e), end)))
                ||| (exists|x0: P0::Result, x1: P1::Result, x2: P2::Result, x3: P3::Result, m1: int, m2: int, m3: int|
                    #![trigger self.parts().0.parses(input, pos, Ok(x0), m1), self.parts().1.parses(input, m1, Ok(x1), m2), self.parts().2.parses(input, m2, Ok(x2), m3), self.parts().3.parses(input, m3, Ok(x3), end)]
                    v == (Some(x0), Some(x1), Some(x2), Some(x3), None::<P4::Result>, None::<P5::Result>) && self.parts().0.parses(input, pos, Ok(x0), m1) && self.parts().1.parses(input, m1, Ok(x1), m2) && self.parts().2.parses(input, m2, Ok(x2), m3) && self.parts().3.parses(input, m3, Ok(x3), end) && (exists|e: ParseError| #[trigger] self.parts().4.parses(input, end, Err(e), end)))
                ||| (exists|x0: P0::Result, x1: P1::Result, x2: P2::Result, x3: P3::Result, x4: P4::Result, m1: int, m2: int, m3: int, m4: int|
                    #![trigger self.parts().0.parses(input, pos, Ok(x0), m1), self.parts().1.parses(input, m1, Ok(x1), m2), self.parts().2.parses(input, m2, Ok(x2), m3), self.parts().3.parses(input, m3, Ok(x3), m4), self.parts().4.parses(input, m4, Ok(x4), end)]
                    v == (Some(x0), Some(x1), Some(x2), Some(x3), Some(x4), None::<P5::Result>) && self.parts().0.parses(input, pos, Ok(x0), m1) && self.parts().1.parses(input, m1, Ok(x1), m2) && self.parts().2.parses(input, m2, Ok(x2), m3) && self.parts().3.parses(input, m3, Ok(x3), m4) && self.parts().4.parses(input, m4, Ok(x4), end) && (exists|e: ParseError| #[trigger] self.parts().5.parses(input, end, Err(e), end)))
                ||| (exists|x0: P0::Result, x1: P1::Result, x2: P2::Result, x3: P3::Result, x4: P4::Result, x5: P5::Result, m1: int, m2: int, m3: int, m4: int, m5: int|
                    #![trigger self.parts().0.parses(input, pos, Ok(x0), m1), self.parts().1.parses(input, m1, Ok(x1), m2), self.parts().2.parses(input, m2, Ok(x2), m3), self.parts().3.parses(input, m3, Ok(x3), m4), self.parts().4.parses(input, m4, Ok(x4), m5), self.parts().5.parses(input, m5, Ok(x5), end)]
                    v == (Some(x0), Some(x1), Some(x2), Some(x3), Some(x4), Some(x5)) && self.parts().0.parses(input, pos, Ok(x0), m1) && self.parts().1.parses(input, m1, Ok(x1), m2) && self.parts().2.parses(input, m2, Ok(x2), m3) && self.parts().3.parses(input, m3, Ok(x3), m4) && self.parts().4.parses(input, m4, Ok(x4), m5) && self.parts().5.parses(input, m5, Ok(x5), end))
            },
            Err(_) => false,
        }
    }

    fn parse(&mut self, st: &mut ParseState) -> (r: ParseResult<
        (Option<P0::Result>, Option<P1::Result>, Option<P2::Result>, Option<P3::Result>, Option<P4::Result>, Option<P5::Result>),
    >) {
        let hold = st.hold();
        let r0 = match (self.0).0.parse(st) {
            Ok(x) => x,
            Err(e) => {
                let ghost ge = e;
                st.release(hold);
                proof {
                    assert(st.holds() =~= old(st).holds());
                }
                return Ok((None, None, None, None, None, None));
            },
        };
        let ghost g0 = r0;
        let ghost m1 = st.pos();
        let r1 = match (self.0).1.parse(st) {
            Ok(x) => x,
            Err(e) => {
                let ghost ge = e;
                st.release(hold);
                proof {
                    assert(st.holds() =~= old(st).holds());
                    assert(old(self).parts().0.parses(old(st).input(), old(st).pos(), Ok(g0), st.pos()));
                }
                return Ok((Some(r0), None, None, None, None, None));
            },
        };
        let ghost g1 = r1;
        let ghost m2 = st.pos();
        let r2 = match (self.0).2.parse(st) {
            Ok(x) => x,
            Err(e) => {
                let ghost ge = e;
                st.release(hold);
                proof {
                    assert(st.holds() =~= old(st).holds());
                    assert(old(self).parts().0.parses(old(st).input(), old(st).pos(), Ok(g0), m1));
                    assert(old(self).parts().1.parses(old(st).input(), m1, Ok(g1), st.pos()));
                }
                return Ok((Some(r0), Some(r1), None, None, None, None));
            },
        };
        let ghost g2 = r2;
        let ghost m3 = st.pos();
        let r3 = match (self.0).3.parse(st) {
            Ok(x) => x,
            Err(e) => {
                let ghost ge = e;
                st.release(hold);
                proof {
                    assert(st.holds() =~= old(st).holds());
                    assert(old(self).parts().0.parses(old(st).input(), old(st).pos(), Ok(g0), m1));
                    assert(old(self).parts().1.parses(old(st).input(), m1, Ok(g1), m2));
                    assert(old(self).parts().2.parses(old(st).input(), m2, Ok(g2), st.pos()));
                }
                return Ok((Some(r0), Some(r1), Some(r2), None, None, None));
            },
        };
        let ghost g3 = r3;
        let ghost m4 = st.pos();
        let r4 = match (self.0).4.parse(st) {
            Ok(x) => x,
            Err(e) => {
                let ghost ge = e;
                st.release(hold);
                proof {
                    assert(st.holds() =~= old(st).holds());
                    assert(old(self).parts().0.parses(old(st).input(), old(st).pos(), Ok(g0), m1));
                    assert(old(self).parts().1.parses(old(st).input(), m1, Ok(g1), m2));
                    assert(old(self).parts().2.parses(old(st).input(), m2, Ok(g2), m3));
                    assert(old(self).parts().3.parses(old(st).input(), m3, Ok(g3), st.pos()));
                }
                return Ok((Some(r0), Some(r1), Some(r2), Some(r3), None, None));
            },
        };
        let ghost g4 = r4;
        let ghost m5 = st.pos();
        let r5 = match (self.0).5.parse(st) {
            Ok(x) => x,
            Err(e) => {
                let ghost ge = e;
                st.release(hold);
                proof {
                    assert(st.holds() =~= old(st).holds());
                    assert(old(self).parts().0.parses(old(st).input(), old(st).pos(), Ok(g0), m1));
                    assert(old(self).parts().1.parses(old(st).input(), m1, Ok(g1), m2));
                    assert(old(self).parts().2.parses(old(st).input(), m2, Ok(g2), m3));
                    assert(old(self).parts().3.parses(old(st).input(), m3, Ok(g3), m4));
                    assert(old(self).parts().4.parses(old(st).input(), m4, Ok(g4), st.pos()));
                }
                return Ok((Some(r0), Some(r1), Some(r2), Some(r3), Some(r4), None));
            },
        };
        let ghost g5 = r5;
        st.release(hold);
        proof {
            assert(st.holds() =~= old(st).holds());
            assert(old(self).parts().0.parses(old(st).input(), old(st).pos(), Ok(g0), m1));
            assert(old(self).parts().1.parses(old(st).input(), m1, Ok(g1), m2));
            assert(old(self).parts().2.parses(old(st).input(), m2, Ok(g2), m3));
            assert(old(self).parts().3.parses(old(st).input(), m3, Ok(g3), m4));
            assert(old(self).parts().4.parses(old(st).input(), m4, Ok(g4), m5));
            assert(old(self).parts().5.parses(old(st).input(), m5, Ok(g5), st.pos()));
        }
        Ok((Some(r0), Some(r1), Some(r2), Some(r3), Some(r4), Some(r5)))
    }
}

impl<P0: Parser, P1: Parser, P2: Parser, P3: Parser, P4: Parser, P5: Parser, P6: Parser> Parser for PartialSequence<(P0, P1, P2, P3, P4, P5, P6)> {
    type Result = (Option<P0::Result>, Option<P1::Result>, Option<P2::Result>, Option<P3::Result>, Option<P4::Result>, Option<P5::Result>, Option<P6::Result>);

    open spec fn callable(self) -> bool {
        self.parts().0.callable() && self.parts().1.callable() && self.parts().2.callable() && self.parts().3.callable() && self.parts().4.callable() && self.parts().5.callable() && self.parts().6.callable()
    }

    open spec fn parses(
        self,
        input: Seq<char>,
        pos: int,
        r: ParseResult<(Option<P0::Result>, Option<P1::Result>, Option<P2::Result>, Option<P3::Result>, Option<P4::Result>, Option<P5::Result>, Option<P6::Result>)>,
        end: int,
    ) -> bool {
        match r {
            Ok(v) => {
                ||| (v == (None::<P0::Result>, None::<P1::Result>, None::<P2::Result>, None::<P3::Result>, None::<P4::Result>, None::<P5::Result>, None::<P6::Result>) && end == pos && (exists|e: ParseError| #[trigger] self.parts().0.parses(input, pos, Err(e), pos)))
                ||| (exists|x0: P0::Result|
                    #![trigger self.parts().0.parses(input, pos, Ok(x0), end)]
                    v == (Some(x0), None::<P1::Result>, None::<P2::Result>, None::<P3::Result>, None::<P4::Result>, None::<P5::Result>, None::<P6::Result>) && self.parts().0.parses(input, pos, Ok(x0), end) && (exists|e: ParseError| #[trigger] self.parts().1.parses(input, end, Err(e), end)))
                ||| (exists|x0: P0::Result, x1: P1::Result, m1: int|
                    #![trigger self.parts().0.parses(input, pos, Ok(x0), m1), self.parts().1.parses(input, m1, Ok(x1), end)]
                    v == (Some(x0), Some(x1), None::<P2::Result>, None::<P3::Result>, None::<P4::Result>, None::<P5::Result>, None::<P6::Result>) && self.parts().0.parses(input, pos, Ok(x0), m1) && self.parts().1.parses(input, m1, Ok(x1), end) && (exists|e: ParseError| #[trigger] self.parts().2.parses(input, end, Err(e), end)))
                ||| (exists|x0: P0::Result, x1: P1::Result, x2: P2::Result, m1: int, m2: int|
                    #![trigger self.parts().0.parses(input, pos, Ok(x0), m1), self.parts().1.parses(input, m1, Ok(x1), m2), self.parts().2.parses(input, m2, Ok(x2), end)]
                    v == (Some(x0), Some(x1), Some(x2), None::<P3::Result>, None::<P4::Result>, None::<P5::Result>, None::<P6::Result>) && self.parts().0.parses(input, pos, Ok(x0), m1) && self.parts().1.parses(input, m1, Ok(x1), m2) && self.parts().2.parses(input, m2, Ok(x2), end) && (exists|e: ParseError| #[trigger] self.parts().3.parses(input, end, Err(e), end)))
                ||| (exists|x0: P0::Result, x1: P1::Result, x2: P2::Result, x3: P3::Result, m1: int, m2: int, m3: int|
                    #![trigger self.parts().0.parses(input, pos, Ok(x0), m1), self.parts().1.parses(input, m1, Ok(x1), m2), self.parts().2.parses(input, m2, Ok(x2), m3), self.parts().3.parses(input, m3, Ok(x3), end)]
                    v == (Some(x0), Some(x1), Some(x2), Some(x3), None::<P4::Result>, None::<P5::Result>, None::<P6::Result>) && self.parts().0.parses(input, pos, Ok(x0), m1) && self.parts().1.parses(input, m1, Ok(x1), m2) && self.parts().2.parses(input, m2, Ok(x2), m3) && self.parts().3.parses(input, m3, Ok(x3), end) && (exists|e: ParseError| #[trigger] self.parts().4.parses(input, end, Err(e), end)))
                ||| (exists|x0: P0::Result, x1: P1::Result, x2: P2::Result, x3: P3::Result, x4: P4::Result, m1: int, m2: int, m3: int, m4: int|
                    #![trigger self.parts().0.parses(input, pos, Ok(x0), m1), self.parts().1.parses(input, m1, Ok(x1), m2), self.parts().2.parses(input, m2, Ok(x2), m3), self.parts().3.parses(input, m3, Ok(x3), m4), self.parts().4.parses(input, m4, Ok(x4), end)]
                    v == (Some(x0), Some(x1), Some(x2), Some(x3), Some(x4), None::<P5::Result>, None::<P6::Result>) && self.parts().0.parses(input, pos, Ok(x0), m1) && self.parts().1.parses(input, m1, Ok(x1), m2) && self.parts().2.parses(input, m2, Ok(x2), m3) && self.parts().3.parses(input, m3, Ok(x3), m4) && self.parts().4.parses(input, m4, Ok(x4), end) && (exists|e: ParseError| #[trigger] self.parts().5.parses(input, end, Err(e), end)))
                ||| (exists|x0: P0::Result, x1: P1::Result, x2: P2::Result, x3: P3::Result, x4: P4::Result, x5: P5::Result, m1: int, m2: int, m3: int, m4: int, m5: int|
                    #![trigger self.parts().0.parses(input, pos, Ok(x0), m1), self.parts().1.parses(input, m1, Ok(x1), m2), self.parts().2.parses(input, m2, Ok(x2), m3), self.parts().3.parses(input, m3, Ok(x3), m4), self.parts().4.parses(input, m4, Ok(x4), m5), self.parts().5.parses(input, m5, Ok(x5), end)]
                    v == (Some(x0), Some(x1), Some(x2), Some(x3), Some(x4), Some(x5), None::<P6::Result>) && self.parts().0.parses(input, pos, Ok(x0), m1) && self.parts().1.parses(input, m1, Ok(x1), m2) && self.parts().2.parses(input, m2, Ok(x2), m3) && self.parts().3.parses(input, m3, Ok(x3), m4) && self.parts().4.parses(input, m4, Ok(x4), m5) && self.parts().5.parses(input, m5, Ok(x5), end) && (exists|e: ParseError| #[trigger] self.parts().6.parses(input, end, Err(e), end)))
                ||| (exists|x0: P0::Result, x1: P1::Result, x2: P2::Result, x3: P3::Result, x4: P4::Result, x5: P5::Result, x6: P6::Result, m1: int, m2: int, m3: int, m4: int, m5: int, m6: int|
                    #![trigger self.parts().0.parses(input, pos, Ok(x0), m1), self.parts().1.parses(input, m1, Ok(x1), m2), self.parts().2.parses(input, m2, Ok(x2), m3), self.parts().3.parses(input, m3, Ok(x3), m4), self.parts().4.parses(input, m4, Ok(x4), m5), self.parts().5.parses(input, m5, Ok(x5), m6), self.parts().6.parses(input, m6, Ok(x6), end)]
                    v == (Some(x0), Some(x1), Some(x2), Some(x3), Some(x4), Some(x5), Some(x6)) && self.parts().0.parses(input, pos, Ok(x0), m1) && self.parts().1.parses(input, m1, Ok(x1), m2) && self.parts().2.parses(input, m2, Ok(x2), m3) && self.parts().3.parses(input, m3, Ok(x3), m4) && self.parts().4.parses(input, m4, Ok(x4), m5) && self.parts().5.parses(input, m5, Ok(x5), m6) && self.parts().6.parses(input, m6, Ok(x6), end))
            },
            Err(_) => false,
        }
    }

    fn parse(&mut self, st: &mut ParseState) -> (r: ParseResult<
        (Option<P0::Result>, Option<P1::Result>, Option<P2::Result>, Option<P3::Result>, Option<P4::Result>, Option<P5::Result>, Option<P6::Result>),
    >) {
        let hold = st.hold();
        let r0 = match (self.0).0.parse(st) {
            Ok(x) => x,
            Err(e) => {
                let ghost ge = e;
                st.release(hold);
                proof {
                    assert(st.holds() =~= old(st).holds());
                }
                return Ok((None, None, None, None, None, None, None));
            },
        };
        let ghost g0 = r0;
        let ghost m1 = st.pos();
        let r1 = match (self.0).1.parse(st) {
            Ok(x) => x,
            Err(e) => {
                let ghost ge = e;
                st.release(hold);
                proof {
                    assert(st.holds() =~= old(st).holds());
                    assert(old(self).parts().0.parses(old(st).input(), old(st).pos(), Ok(g0), st.pos()));
                }
                return Ok((Some(r0), None, None, None, None, None, None));
            },
        };
        let ghost g1 = r1;
        let ghost m2 = st.pos();
        let r2 = match (self.0).2.parse(st) {
            Ok(x) => x,
            Err(e) => {
                let ghost ge = e;
                st.release(hold);
                proof {
                    assert(st.holds() =~= old(st).holds());
                    assert(old(self).parts().0.parses(old(st).input(), old(st).pos(), Ok(g0), m1));
                    assert(old(self).parts().1.parses(old(st).input(), m1, Ok(g1), st.pos()));
                }
                return Ok((Some(r0), Some(r1), None, None, None, None, None));
            },
        };
        let ghost g2 = r2;
        let ghost m3 = st.pos();
        let r3 = match (self.0).3.parse(st) {
            Ok(x) => x,
            Err(e) => {
                let ghost ge = e;
                st.release(hold);
                proof {
                    assert(st.holds() =~= old(st).holds());
                    assert(old(self).parts().0.parses(old(st).input(), old(st).pos(), Ok(g0), m1));
                    assert(old(self).parts().1.parses(old(st).input(), m1, Ok(g1), m2));
                    assert(old(self).parts().2.parses(old(st).input(), m2, Ok(g2), st.pos()));
                }
                return Ok((Some(r0), Some(r1), Some(r2), None, None, None, None));
            },
        };
        let ghost g3 = r3;
        let ghost m4 = st.pos();
        let r4 = match (self.0).4.parse(st) {
            Ok(x) => x,
            Err(e) => {
                let ghost ge = e;
                st.release(hold);
                proof {
                    assert(st.holds() =~= old(st).holds());
                    assert(old(self).parts().0.parses(old(st).input(), old(st).pos(), Ok(g0), m1));
                    assert(old(self).parts().1.parses(old(st).input(), m1, Ok(g1), m2));
                    assert(old(self).parts().2.parses(old(st).input(), m2, Ok(g2), m3));
                    assert(old(self).parts().3.parses(old(st).input(), m3, Ok(g3), st.pos()));
                }
                return Ok((Some(r0), Some(r1), Some(r2), Some(r3), None, None, None));
            },
        };
        let ghost g4 = r4;
        let ghost m5 = st.pos();
        let r5 = match (self.0).5.parse(st) {
            Ok(x) => x,
            Err(e) => {
                let ghost ge = e;
                st.release(hold);
                proof {
                    assert(st.holds() =~= old(st).holds());
                    assert(old(self).parts().0.parses(old(st).input(), old(st).pos(), Ok(g0), m1));
                    assert(old(self).parts().1.parses(old(st).input(), m1, Ok(g1), m2));
                    assert(old(self).parts().2.parses(old(st).input(), m2, Ok(g2), m3));
                    assert(old(self).parts().3.parses(old(st).input(), m3, Ok(g3), m4));
                    assert(old(self).parts().4.parses(old(st).input(), m4, Ok(g4), st.pos()));
                }
                return Ok((Some(r0), Some(r1), Some(r2), Some(r3), Some(r4), None, None));
            },
        };
        let ghost g5 = r5;
        let ghost m6 = st.pos();
        let r6 = match (self.0).6.parse(st) {
            Ok(x) => x,
            Err(e) => {
                let ghost ge = e;
                st.release(hold);
                proof {
                    assert(st.holds() =~= old(st).holds());
                    assert(old(self).parts().0.parses(old(st).input(), old(st).pos(), Ok(g0), m1));
                    assert(old(self).parts().1.parses(old(st).input(), m1, Ok(g1), m2));
                    assert(old(self).parts().2.parses(old(st).input(), m2, Ok(g2), m3));
                    assert(old(self).parts().3.parses(old(st).input(), m3, Ok(g3), m4));
                    assert(old(self).parts().4.parses(old(st).input(), m4, Ok(g4), m5));
                    assert(old(self).parts().5.parses(old(st).input(), m5, Ok(g5), st.pos()));
                }
                return Ok((Some(r0), Some(r1), Some(r2), Some(r3), Some(r4), Some(r5), None));
            },
        };
        let ghost g6 = r6;
        st.release(hold);
        proof {
            assert(st.holds() =~= old(st).holds());
            assert(old(self).parts().0.parses(old(st).input(), old(st).pos(), Ok(g0), m1));
            assert(old(self).parts().1.parses(old(st).input(), m1, Ok(g1), m2));
            assert(old(self).parts().2.parses(old(st).input(), m2, Ok(g2), m3));
            assert(old(self).parts().3.parses(old(st).input(), m3, Ok(g3), m4));
            assert(old(self).parts().4.parses(old(st).input(), m4, Ok(g4), m5));
            assert(old(self).parts().5.parses(old(st).input(), m5, Ok(g5), m6));
            assert(old(self).parts().6.parses(old(st).input(), m6, Ok(g6), st.pos()));
        }
        Ok((Some(r0), Some(r1), Some(r2), Some(r3), Some(r4), Some(r5), Some(r6)))
    }
}

impl<P0: Parser, P1: Parser, P2: Parser, P3: Parser, P4: Parser, P5: Parser, P6: Parser, P7: Parser> Parser for PartialSequence<(P0, P1, P2, P3, P4, P5, P6, P7)> {
    type Result = (Option<P0::Result>, Option<P1::Result>, Option<P2::Result>, Option<P3::Result>, Option<P4::Result>, Option<P5::Result>, Option<P6::Result>, Option<P7::Result>);

    open spec fn callable(self) -> bool {
        self.parts().0.callable() && self.parts().1.callable() && self.parts().2.callable() && self.parts().3.callable() && self.parts().4.callable() && self.parts().5.callable() && self.parts().6.callable() && self.parts().7.callable()
    }

    open spec fn parses(
        self,
        input: Seq<char>,
        pos: int,
        r: ParseResult<(Option<P0::Result>, Option<P1::Result>, Option<P2::Result>, Option<P3::Result>, Option<P4::Result>, Option<P5::Result>, Option<P6::Result>, Option<P7::Result>)>,
        end: int,
    ) -> bool {
        match r {
            Ok(v) => {
                ||| (v == (None::<P0::Result>, None::<P1::Result>, None::<P2::Result>, None::<P3::Result>, None::<P4::Result>, None::<P5::Result>, None::<P6::Result>, None::<P7::Result>) && end == pos && (exists|e: ParseError| #[trigger] self.parts().0.parses(input, pos, Err(e), pos)))
                ||| (exists|x0: P0::Result|
                    #![trigger self.parts().0.parses(input, pos, Ok(x0), end)]
                    v == (Some(x0), None::<P1::Result>, None::<P2::Result>, None::<P3::Result>, None::<P4::Result>, None::<P5::Result>, None::<P6::Result>, None::<P7::Result>) && self.parts().0.parses(input, pos, Ok(x0), end) && (exists|e: ParseError| #[trigger] self.parts().1.parses(input, end, Err(e), end)))
                ||| (exists|x0: P0::Result, x1: P1::Result, m1: int|
                    #![trigger self.parts().0.parses(input, pos, Ok(x0), m1), self.parts().1.parses(input, m1, Ok(x1), end)]
                    v == (Some(x0), Some(x1), None::<P2::Result>, None::<P3::Result>, None::<P4::Result>, None::<P5::Result>, None::<P6::Result>, None::<P7::Result>) && self.parts().0.parses(input, pos, Ok(x0), m1) && self.parts().1.parses(input, m1, Ok(x1), end) && (exists|e: ParseError| #[trigger] self.parts().2.parses(input, end, Err(e), end)))
                ||| (exists|x0: P0::Result, x1: P1::Result, x2: P2::Result, m1: int, m2: int|
                    #![trigger self.parts().0.parses(input, pos, Ok(x0), m1), self.parts().1.parses(input, m1, Ok(x1), m2), self.parts().2.parses(input, m2, Ok(x2), end)]
                    v == (Some(x0), Some(x1), Some(x2), None::<P3::Result>, None::<P4::Result>, None::<P5::Result>, None::<P6::Result>, None::<P7::Result>) && self.parts().0.parses(input, pos, Ok(x0), m1) && self.parts().1.parses(input, m1, Ok(x1), m2) && self.parts().2.parses(input, m2, Ok(x2), end) && (exists|e: ParseError| #[trigger] self.parts().3.parses(input, end, Err(e), end)))
                ||| (exists|x0: P0::Result, x1: P1::Result, x2: P2::Result, x3: P3::Result, m1: int, m2: int, m3: int|
                    #![trigger self.parts().0.parses(input, pos, Ok(x0), m1), self.parts().1.parses(input, m1, Ok(x1), m2), self.parts().2.parses(input, m2, Ok(x2), m3), self.parts().3.parses(input, m3, Ok(x3), end)]
                    v == (Some(x0), Some(x1), Some(x2), Some(x3), None::<P4::Result>, None::<P5::Result>, None::<P6::Result>, None::<P7::Result>) && self.parts().0.parses(input, pos, Ok(x0), m1) && self.parts().1.parses(input, m1, Ok(x1), m2) && self.parts().2.parses(input, m2, Ok(x2), m3) && self.parts().3.parses(input, m3, Ok(x3), end) && (exists|e: ParseError| #[trigger] self.parts().4.parses(input, end, Err(e), end)))
                ||| (exists|x0: P0::Result, x1: P1::Result, x2: P2::Result, x3: P3::Result, x4: P4::Result, m1: int, m2: int, m3: int, m4: int|
                    #![trigger self.parts().0.parses(input, pos, Ok(x0), m1), self.parts().1.parses(input, m1, Ok(x1), m2), self.parts().2.parses(input, m2, Ok(x2), m3), self.parts().3.parses(input, m3, Ok(x3), m4), self.parts().4.parses(input, m4, Ok(x4), end)]
                    v == (Some(x0), Some(x1), Some(x2), Some(x3), Some(x4), None::<P5::Result>, None::<P6::Result>, None::<P7::Result>) && self.parts().0.parses(input, pos, Ok(x0), m1) && self.parts().1.parses(input, m1, Ok(x1), m2) && self.parts().2.parses(input, m2, Ok(x2), m3) && self.parts().3.parses(input, m3, Ok(x3), m4) && self.parts().4.parses(input, m4, Ok(x4), end) && (exists|e: ParseError| #[trigger] self.parts().5.parses(input, end, Err(e), end)))
                ||| (exists|x0: P0::Result, x1: P1::Result, x2: P2::Result, x3: P3::Result, x4: P4::Result, x5: P5::Result, m1: int, m2: int, m3: int, m4: int, m5: int|
                    #![trigger self.parts().0.parses(input, pos, Ok(x0), m1), self.parts().1.parses(input, m1, Ok(x1), m2), self.parts().2.parses(input, m2, Ok(x2), m3), self.parts().3.parses(input, m3, Ok(x3), m4), self.parts().4.parses(input, m4, Ok(x4), m5), self.parts().5.parses(input, m5, Ok(x5), end)]
                    v == (Some(x0), Some(x1), Some(x2), Some(x3), Some(x4), Some(x5), None::<P6::Result>, None::<P7::Result>) && self.parts().0.parses(input, pos, Ok(x0), m1) && self.parts().1.parses(input, m1, Ok(x1), m2) && self.parts().2.parses(input, m2, Ok(x2), m3) && self.parts().3.parses(input, m3, Ok(x3), m4) && self.parts().4.parses(input, m4, Ok(x4), m5) && self.parts().5.parses(input, m5, Ok(x5), end) && (exists|e: ParseError| #[trigger] self.parts().6.parses(input, end, Err(e), end)))
                ||| (exists|x0: P0::Result, x1: P1::Result, x2: P2::Result, x3: P3::Result, x4: P4::Result, x5: P5::Result, x6: P6::Result, m1: int, m2: int, m3: int, m4: int, m5: int, m6: int|
                    #![trigger self.parts().0.parses(input, pos, Ok(x0), m1), self.parts().1.parses(input, m1, Ok(x1), m2), self.parts().2.parses(input, m2, Ok(x2), m3), self.parts().3.parses(input, m3, Ok(x3), m4), self.parts().4.parses(input, m4, Ok(x4), m5), self.parts().5.parses(input, m5, Ok(x5), m6), self.parts().6.parses(input, m6, Ok(x6), end)]
                    v == (Some(x0), Some(x1), Some(x2), Some(x3), Some(x4), Some(x5), Some(x6), None::<P7::Result>) && self.parts().0.parses(input, pos, Ok(x0), m1) && self.parts().1.parses(input, m1, Ok(x1), m2) && self.parts().2.parses(input, m2, Ok(x2), m3) && self.parts().3.parses(input, m3, Ok(x3), m4) && self.parts().4.parses(input, m4, Ok(x4), m5) && self.parts().5.parses(input, m5, Ok(x5), m6) && self.parts().6.parses(input, m6, Ok(x6), end) && (exists|e: ParseError| #[trigger] self.parts().7.parses(input, end, Err(e), end)))
                ||| (exists|x0: P0::Result, x1: P1::Result, x2: P2::Result, x3: P3::Result, x4: P4::Result, x5: P5::Result, x6: P6::Result, x7: P7::Result, m1: int, m2: int, m3: int, m4: int, m5: int, m6: int, m7: int|
                    #![trigger self.parts().0.parses(input, pos, Ok(x0), m1), self.parts().1.parses(input, m1, Ok(x1), m2), self.parts().2.parses(input, m2, Ok(x2), m3), self.parts().3.parses(input, m3, Ok(x3), m4), self.parts().4.parses(input, m4, Ok(x4), m5), self.parts().5.parses(input, m5, Ok(x5), m6), self.parts().6.parses(input, m6, Ok(x6), m7), self.parts().7.parses(input, m7, Ok(x7), end)]
                    v == (Some(x0), Some(x1), Some(x2), Some(x3), Some(x4), Some(x5), Some(x6), Some(x7)) && self.parts().0.parses(input, pos, Ok(x0), m1) && self.parts().1.parses(input, m1, Ok(x1), m2) && self.parts().2.parses(input, m2, Ok(x2), m3) && self.parts().3.parses(input, m3, Ok(x3), m4) && self.parts().4.parses(input, m4, Ok(x4), m5) && self.parts().5.parses(input, m5, Ok(x5), m6) && self.parts().6.parses(input, m6, Ok(x6), m7) && self.parts().7.parses(input, m7, Ok(x7), end))
            },
            Err(_) => false,
        }
    }

    fn parse(&mut self, st: &mut ParseState) -> (r: ParseResult<
        (Option<P0::Result>, Option<P1::Result>, Option<P2::Result>, Option<P3::Result>, Option<P4::Result>, Option<P5::Result>, Option<P6::Result>, Option<P7::Result>),
    >) {
        let hold = st.hold();
        let r0 = match (self.0).0.parse(st) {
            Ok(x) => x,
            Err(e) => {
                let ghost ge = e;
                st.release(hold);
                proof {
                    assert(st.holds() =~= old(st).holds());
                }
                return Ok((None, None, None, None, None, None, None, None));
            },
        };
        let ghost g0 = r0;
        let ghost m1 = st.pos();
        let r1 = match (self.0).1.parse(st) {
            Ok(x) => x,
            Err(e) => {
                let ghost ge = e;
                st.release(hold);
                proof {
                    assert(st.holds() =~= old(st).holds());
                    assert(old(self).parts().0.parses(old(st).input(), old(st).pos(), Ok(g0), st.pos()));
                }
                return Ok((Some(r0), None, None, None, None, None, None, None));
            },
        };
        let ghost g1 = r1;
        let ghost m2 = st.pos();
        let r2 = match (self.0).2.parse(st) {
            Ok(x) => x,
            Err(e) => {
                let ghost ge = e;
                st.release(hold);
                proof {
                    assert(st.holds() =~= old(st).holds());
                    assert(old(self).parts().0.parses(old(st).input(), old(st).pos(), Ok(g0), m1));
                    assert(old(self).parts().1.parses(old(st).input(), m1, Ok(g1), st.pos()));
                }
                return Ok((Some(r0), Some(r1), None, None, None, None, None, None));
            },
        };
        let ghost g2 = r2;
        let ghost m3 = st.pos();
        let r3 = match (self.0).3.parse(st) {
            Ok(x) => x,
            Err(e) => {
                let ghost ge = e;
                st.release(hold);
                proof {
                    assert(st.holds() =~= old(st).holds());
                    assert(old(self).parts().0.parses(old(st).input(), old(st).pos(), Ok(g0), m1));
                    assert(old(self).parts().1.parses(old(st).input(), m1, Ok(g1), m2));
                    assert(old(self).parts().2.parses(old(st).input(), m2, Ok(g2), st.pos()));
                }
                return Ok((Some(r0), Some(r1), Some(r2), None, None, None, None, None));
            },
        };
        let ghost g3 = r3;
        let ghost m4 = st.pos();
        let r4 = match (self.0).4.parse(st) {
            Ok(x) => x,
            Err(e) => {
                let ghost ge = e;
                st.release(hold);
                proof {
                    assert(st.holds() =~= old(st).holds());
                    assert(old(self).parts().0.parses(old(st).input(), old(st).pos(), Ok(g0), m1));
                    assert(old(self).parts().1.parses(old(st).input(), m1, Ok(g1), m2));
                    assert(old(self).parts().2.parses(old(st).input(), m2, Ok(g2), m3));
                    assert(old(self).parts().3.parses(old(st).input(), m3, Ok(g3), st.pos()));
                }
                return Ok((Some(r0), Some(r1), Some(r2), Some(r3), None, None, None, None));
            },
        };
        let ghost g4 = r4;
        let ghost m5 = st.pos();
        let r5 = match (self.0).5.parse(st) {
            Ok(x) => x,
            Err(e) => {
                let ghost ge = e;
                st.release(hold);
                proof {
                    assert(st.holds() =~= old(st).holds());
                    assert(old(self).parts().0.parses(old(st).input(), old(st).pos(), Ok(g0), m1));
                    assert(old(self).parts().1.parses(old(st).input(), m1, Ok(g1), m2));
                    assert(old(self).parts().2.parses(old(st).input(), m2, Ok(g2), m3));
                    assert(old(self).parts().3.parses(old(st).input(), m3, Ok(g3), m4));
                    assert(old(self).parts().4.parses(old(st).input(), m4, Ok(g4), st.pos()));
                }
                return Ok((Some(r0), Some(r1), Some(r2), Some(r3), Some(r4), None, None, None));
            },
        };
        let ghost g5 = r5;
        let ghost m6 = st.pos();
        let r6 = match (self.0).6.parse(st) {
            Ok(x) => x,
            Err(e) => {
                let ghost ge = e;
                st.release(hold);
                proof {
                    assert(st.holds() =~= old(st).holds());
                    assert(old(self).parts().0.parses(old(st).input(), old(st).pos(), Ok(g0), m1));
                    assert(old(self).parts().1.parses(old(st).input(), m1, Ok(g1), m2));
                    assert(old(self).parts().2.parses(old(st).input(), m2, Ok(g2), m3));
                    assert(old(self).parts().3.parses(old(st).input(), m3, Ok(g3), m4));
                    assert(old(self).parts().4.parses(old(st).input(), m4, Ok(g4), m5));
                    assert(old(self).parts().5.parses(old(st).input(), m5, Ok(g5), st.pos()));
                }
                return Ok((Some(r0), Some(r1), Some(r2), Some(r3), Some(r4), Some(r5), None, None));
            },
        };
        let ghost g6 = r6;
        let ghost m7 = st.pos();
        let r7 = match (self.0).7.parse(st) {
            Ok(x) => x,
            Err(e) => {
                let ghost ge = e;
                st.release(hold);
                proof {
                    assert(st.holds() =~= old(st).holds());
                    assert(old(self).parts().0.parses(old(st).input(), old(st).pos(), Ok(g0), m1));
                    assert(old(self).parts().1.parses(old(st).input(), m1, Ok(g1), m2));
                    assert(old(self).parts().2.parses(old(st).input(), m2, Ok(g2), m3));
                    assert(old(self).parts().3.parses(old(st).input(), m3, Ok(g3), m4));
                    assert(old(self).parts().4.parses(old(st).input(), m4, Ok(g4), m5));
                    assert(old(self).parts().5.parses(old(st).input(), m5, Ok(g5), m6));
                    assert(old(self).parts().6.parses(old(st).input(), m6, Ok(g6), st.pos()));
                }
                return Ok((Some(r0), Some(r1), Some(r2), Some(r3), Some(r4), Some(r5), Some(r6), None));
            },
        };
        let ghost g7 = r7;
        st.release(hold);
        proof {
            assert(st.holds() =~= old(st).holds());
            assert(old(self).parts().0.parses(old(st).input(), old(st).pos(), Ok(g0), m1));
            assert(old(self).parts().1.parses(old(st).input(), m1, Ok(g1), m2));
            assert(old(self).parts().2.parses(old(st).input(), m2, Ok(g2), m3));
            assert(old(self).parts().3.parses(old(st).input(), m3, Ok(g3), m4));
            assert(old(self).parts().4.parses(old(st).input(), m4, Ok(g4), m5));
            assert(old(self).parts().5.parses(old(st).input(), m5, Ok(g5), m6));
            assert(old(self).parts().6.parses(old(st).input(), m6, Ok(g6), m7));
            assert(old(self).parts().7.parses(old(st).input(), m7, Ok(g7), st.pos()));
        }
        Ok((Some(r0), Some(r1), Some(r2), Some(r3), Some(r4), Some(r5), Some(r6), Some(r7)))
    }
}

impl<P0: Parser, P1: Parser, P2: Parser, P3: Parser, P4: Parser, P5: Parser, P6: Parser, P7: Parser, P8: Parser> Parser for PartialSequence<(P0, P1, P2, P3, P4, P5, P6, P7, P8)> {
    type Result = (Option<P0::Result>, Option<P1::Result>, Option<P2::Result>, Option<P3::Result>, Option<P4::Result>, Option<P5::Result>, Option<P6::Result>, Option<P7::Result>, Option<P8::Result>);

    open spec fn callable(self) -> bool {
        self.parts().0.callable() && self.parts().1.callable() && self.parts().2.callable() && self.parts().3.callable() && self.parts().4.callable() && self.parts().5.callable() && self.parts().6.callable() && self.parts().7.callable() && self.parts().8.callable()
    }

    open spec fn parses(
        self,
        input: Seq<char>,
        pos: int,
        r: ParseResult<(Option<P0::Result>, Option<P1::Result>, Option<P2::Result>, Option<P3::Result>, Option<P4::Result>, Option<P5::Result>, Option<P6::Result>, Option<P7::Result>, Option<P8::Result>)>,
        end: int,
    ) -> bool {
        match r {
            Ok(v) => {
                ||| (v == (None::<P0::Result>, None::<P1::Result>, None::<P2::Result>, None::<P3::Result>, None::<P4::Result>, None::<P5::Result>, None::<P6::Result>, None::<P7::Result>, None::<P8::Result>) && end == pos && (exists|e: ParseError| #[trigger] self.parts().0.parses(input, pos, Err(e), pos)))
                ||| (exists|x0: P0::Result|
                    #![trigger self.parts().0.parses(input, pos, Ok(x0), end)]
                    v == (Some(x0), None::<P1::Result>, None::<P2::Result>, None::<P3::Result>, None::<P4::Result>, None::<P5::Result>, None::<P6::Result>, None::<P7::Result>, None::<P8::Result>) && self.parts().0.parses(input, pos, Ok(x0), end) && (exists|e: ParseError| #[trigger] self.parts().1.parses(input, end, Err(e), end)))
                ||| (exists|x0: P0::Result, x1: P1::Result, m1: int|
                    #![trigger self.parts().0.parses(input, pos, Ok(x0), m1), self.parts().1.parses(input, m1, Ok(x1), end)]
                    v == (Some(x0), Some(x1), None::<P2::Result>, None::<P3::Result>, None::<P4::Result>, None::<P5::Result>, None::<P6::Result>, None::<P7::Result>, None::<P8::Result>) && self.parts().0.parses(input, pos, Ok(x0), m1) && self.parts().1.parses(input, m1, Ok(x1), end) && (exists|e: ParseError| #[trigger] self.parts().2.parses(input, end, Err(e), end)))
                ||| (exists|x0: P0::Result, x1: P1::Result, x2: P2::Result, m1: int, m2: int|
                    #![trigger self.parts().0.parses(input, pos, Ok(x0), m1), self.parts().1.parses(input, m1, Ok(x1), m2), self.parts().2.parses(input, m2, Ok(x2), end)]
                    v == (Some(x0), Some(x1), Some(x2), None::<P3::Result>, None::<P4::Result>, None::<P5::Result>, None::<P6::Result>, None::<P7::Result>, None::<P8::Result>) && self.parts().0.parses(input, pos, Ok(x0), m1) && self.parts().1.parses(input, m1, Ok(x1), m2) && self.parts().2.parses(input, m2, Ok(x2), end) && (exists|e: ParseError| #[trigger] self.parts().3.parses(input, end, Err(e), end)))
                ||| (exists|x0: P0::Result, x1: P1::Result, x2: P2::Result, x3: P3::Result, m1: int, m2: int, m3: int|
                    #![trigger self.parts().0.parses(input, pos, Ok(x0), m1), self.parts().1.parses(input, m1, Ok(x1), m2), self.parts().2.parses(input, m2, Ok(x2), m3), self.parts().3.parses(input, m3, Ok(x3), end)]
                    v == (Some(x0), Some(x1), Some(x2), Some(x3), None::<P4::Result>, None::<P5::Result>, None::<P6::Result>, None::<P7::Result>, None::<P8::Result>) && self.parts().0.parses(input, pos, Ok(x0), m1) && self.parts().1.parses(input, m1, Ok(x1), m2) && self.parts().2.parses(input, m2, Ok(x2), m3) && self.parts().3.parses(input, m3, Ok(x3), end) && (exists|e: ParseError| #[trigger] self.parts().4.parses(input, end, Err(e), end)))
                ||| (exists|x0: P0::Result, x1: P1::Result, x2: P2::Result, x3: P3::Result, x4: P4::Result, m1: int, m2: int, m3: int, m4: int|
                    #![trigger self.parts().0.parses(input, pos, Ok(x0), m1), self.parts().1.parses(input, m1, Ok(x1), m2), self.parts().2.parses(input, m2, Ok(x2), m3), self.parts().3.parses(input, m3, Ok(x3), m4), self.parts().4.parses(input, m4, Ok(x4), end)]
                    v == (Some(x0), Some(x1), Some(x2), Some(x3), Some(x4), None::<P5::Result>, None::<P6::Result>, None::<P7::Result>, None::<P8::Result>) && self.parts().0.parses(input, pos, Ok(x0), m1) && self.parts().1.parses(input, m1, Ok(x1), m2) && self.parts().2.parses(input, m2, Ok(x2), m3) && self.parts().3.parses(input, m3, Ok(x3), m4) && self.parts().4.parses(input, m4, Ok(x4), end) && (exists|e: ParseError| #[trigger] self.parts().5.parses(input, end, Err(e), end)))
                ||| (exists|x0: P0::Result, x1: P1::Result, x2: P2::Result, x3: P3::Result, x4: P4::Result, x5: P5::Result, m1: int, m2: int, m3: int, m4: int, m5: int|
                    #![trigger self.parts().0.parses(input, pos, Ok(x0), m1), self.parts().1.parses(input, m1, Ok(x1), m2), self.parts().2.parses(input, m2, Ok(x2), m3), self.parts().3.parses(input, m3, Ok(x3), m4), self.parts().4.parses(input, m4, Ok(x4), m5), self.parts().5.parses(input, m5, Ok(x5), end)]
                    v == (Some(x0), Some(x1), Some(x2), Some(x3), Some(x4), Some(x5), None::<P6::Result>, None::<P7::Result>, None::<P8::Result>) && self.parts().0.parses(input, pos, Ok(x0), m1) && self.parts().1.parses(input, m1, Ok(x1), m2) && self.parts().2.parses(input, m2, Ok(x2), m3) && self.parts().3.parses(input, m3, Ok(x3), m4) && self.parts().4.parses(input, m4, Ok(x4), m5) && self.parts().5.parses(input, m5, Ok(x5), end) && (exists|e: ParseError| #[trigger] self.parts().6.parses(input, end, Err(e), end)))
                ||| (exists|x0: P0::Result, x1: P1::Result, x2: P2::Result, x3: P3::Result, x4: P4::Result, x5: P5::Result, x6: P6::Result, m1: int, m2: int, m3: int, m4: int, m5: int, m6: int|
                    #![trigger self.parts().0.parses(input, pos, Ok(x0), m1), self.parts().1.parses(input, m1, Ok(x1), m2), self.parts().2.parses(input, m2, Ok(x2), m3), self.parts().3.parses(input, m3, Ok(x3), m4), self.parts().4.parses(input, m4, Ok(x4), m5), self.parts().5.parses(input, m5, Ok(x5), m6), self.parts().6.parses(input, m6, Ok(x6), end)]
                    v == (Some(x0), Some(x1), Some(x2), Some(x3), Some(x4), Some(x5), Some(x6), None::<P7::Result>, None::<P8::Result>) && self.parts().0.parses(input, pos, Ok(x0), m1) && self.parts().1.parses(input, m1, Ok(x1), m2) && self.parts().2.parses(input, m2, Ok(x2), m3) && self.parts().3.parses(input, m3, Ok(x3), m4) && self.parts().4.parses(input, m4, Ok(x4), m5) && self.parts().5.parses(input, m5, Ok(x5), m6) && self.parts().6.parses(input, m6, Ok(x6), end) && (exists|e: ParseError| #[trigger] self.parts().7.parses(input, end, Err(e), end)))
                ||| (exists|x0: P0::Result, x1: P1::Result, x2: P2::Result, x3: P3::Result, x4: P4::Result, x5: P5::Result, x6: P6::Result, x7: P7::Result, m1: int, m2: int, m3: int, m4: int, m5: int, m6: int, m7: int|
                    #![trigger self.parts().0.parses(input, pos, Ok(x0), m1), self.parts().1.parses(input, m1, Ok(x1), m2), self.parts().2.parses(input, m2, Ok(x2), m3), self.parts().3.parses(input, m3, Ok(x3), m4), self.parts().4.parses(input, m4, Ok(x4), m5), self.parts().5.parses(input, m5, Ok(x5), m6), self.parts().6.parses(input, m6, Ok(x6), m7), self.parts().7.parses(input, m7, Ok(x7), end)]
                    v == (Some(x0), Some(x1), Some(x2), Some(x3), Some(x4), Some(x5), Some(x6), Some(x7), None::<P8::Result>) && self.parts().0.parses(input, pos, Ok(x0), m1) && self.parts().1.parses(input, m1, Ok(x1), m2) && self.parts().2.parses(input, m2, Ok(x2), m3) && self.parts().3.parses(input, m3, Ok(x3), m4) && self.parts().4.parses(input, m4, Ok(x4), m5) && self.parts().5.parses(input, m5, Ok(x5), m6) && self.parts().6.parses(input, m6, Ok(x6), m7) && self.parts().7.parses(input, m7, Ok(x7), end) && (exists|e: ParseError| #[trigger] self.parts().8.parses(input, end, Err(e), end)))
                ||| (exists|x0: P0::Result, x1: P1::Result, x2: P2::Result, x3: P3::Result, x4: P4::Result, x5: P5::Result, x6: P6::Result, x7: P7::Result, x8: P8::Result, m1: int, m2: int, m3: int, m4: int, m5: int, m6: int, m7: int, m8: int|
                    #![trigger self.parts().0.parses(input, pos, Ok(x0), m1), self.parts().1.parses(input, m1, Ok(x1), m2), self.parts().2.parses(input, m2, Ok(x2), m3), self.parts().3.parses(input, m3, Ok(x3), m4), self.parts().4.parses(input, m4, Ok(x4), m5), self.parts().5.parses(input, m5, Ok(x5), m6), self.parts().6.parses(input, m6, Ok(x6), m7), self.parts().7.parses(input, m7, Ok(x7), m8), self.parts().8.parses(input, m8, Ok(x8), end)]
                    v == (Some(x0), Some(x1), Some(x2), Some(x3), Some(x4), Some(x5), Some(x6), Some(x7), Some(x8)) && self.parts().0.parses(input, pos, Ok(x0), m1) && self.parts().1.parses(input, m1, Ok(x1), m2) && self.parts().2.parses(input, m2, Ok(x2), m3) && self.parts().3.parses(input, m3, Ok(x3), m4) && self.parts().4.parses(input, m4, Ok(x4), m5) && self.parts().5.parses(input, m5, Ok(x5), m6) && self.parts().6.parses(input, m6, Ok(x6), m7) && self.parts().7.parses(input, m7, Ok(x7), m8) && self.parts().8.parses(input, m8, Ok(x8), end))
            },
            Err(_) => false,
        }
    }

    fn parse(&mut self, st: &mut ParseState) -> (r: ParseResult<
        (Option<P0::Result>, Option<P1::Result>, Option<P2::Result>, Option<P3::Result>, Option<P4::Result>, Option<P5::Result>, Option<P6::Result>, Option<P7::Result>, Option<P8::Result>),
    >) {
        let hold = st.hold();
        let r0 = match (self.0).0.parse(st) {
            Ok(x) => x,
            Err(e) => {
                let ghost ge = e;
                st.release(hold);
                proof {
                    assert(st.holds() =~= old(st).holds());
                }
                return Ok((None, None, None, None, None, None, None, None, None));
            },
        };
        let ghost g0 = r0;
        let ghost m1 = st.pos();
        let r1 = match (self.0).1.parse(st) {
            Ok(x) => x,
            Err(e) => {
                let ghost ge = e;
                st.release(hold);
                proof {
                    assert(st.holds() =~= old(st).holds());
                    assert(old(self).parts().0.parses(old(st).input(), old(st).pos(), Ok(g0), st.pos()));
                }
                return Ok((Some(r0), None, None, None, None, None, None, None, None));
            },
        };
        let ghost g1 = r1;
        let ghost m2 = st.pos();
        let r2 = match (self.0).2.parse(st) {
            Ok(x) => x,
            Err(e) => {
                let ghost ge = e;
                st.release(hold);
                proof {
                    assert(st.holds() =~= old(st).holds());
                    assert(old(self).parts().0.parses(old(st).input(), old(st).pos(), Ok(g0), m1));
                    assert(old(self).parts().1.parses(old(st).input(), m1, Ok(g1), st.pos()));
                }
                return Ok((Some(r0), Some(r1), None, None, None, None, None, None, None));
            },
        };
        let ghost g2 = r2;
        let ghost m3 = st.pos();
        let r3 = match (self.0).3.parse(st) {
            Ok(x) => x,
            Err(e) => {
                let ghost ge = e;
                st.release(hold);
                proof {
                    assert(st.holds() =~= old(st).holds());
                    assert(old(self).parts().0.parses(old(st).input(), old(st).pos(), Ok(g0), m1));
                    assert(old(self).parts().1.parses(old(st).input(), m1, Ok(g1), m2));
                    assert(old(self).parts().2.parses(old(st).input(), m2, Ok(g2), st.pos()));
                }
                return Ok((Some(r0), Some(r1), Some(r2), None, None, None, None, None, None));
            },
        };
        let ghost g3 = r3;
        let ghost m4 = st.pos();
        let r4 = match (self.0).4.parse(st) {
            Ok(x) => x,
            Err(e) => {
                let ghost ge = e;
                st.release(hold);
                proof {
                    assert(st.holds() =~= old(st).holds());
                    assert(old(self).parts().0.parses(old(st).input(), old(st).pos(), Ok(g0), m1));
                    assert(old(self).parts().1.parses(old(st).input(), m1, Ok(g1), m2));
                    assert(old(self).parts().2.parses(old(st).input(), m2, Ok(g2), m3));
                    assert(old(self).parts().3.parses(old(st).input(), m3, Ok(g3), st.pos()));
                }
                return Ok((Some(r0), Some(r1), Some(r2), Some(r3), None, None, None, None, None));
            },
        };
        let ghost g4 = r4;
        let ghost m5 = st.pos();
        let r5 = match (self.0).5.parse(st) {
            Ok(x) => x,
            Err(e) => {
                let ghost ge = e;
                st.release(hold);
                proof {
                    assert(st.holds() =~= old(st).holds());
                    assert(old(self).parts().0.parses(old(st).input(), old(st).pos(), Ok(g0), m1));
                    assert(old(self).parts().1.parses(old(st).input(), m1, Ok(g1), m2));
                    assert(old(self).parts().2.parses(old(st).input(), m2, Ok(g2), m3));
                    assert(old(self).parts().3.parses(old(st).input(), m3, Ok(g3), m4));
                    assert(old(self).parts().4.parses(old(st).input(), m4, Ok(g4), st.pos()));
                }
                return Ok((Some(r0), Some(r1), Some(r2), Some(r3), Some(r4), None, None, None, None));
            },
        };
        let ghost g5 = r5;
        let ghost m6 = st.pos();
        let r6 = match (self.0).6.parse(st) {
            Ok(x) => x,
            Err(e) => {
                let ghost ge = e;
                st.release(hold);
                proof {
                    assert(st.holds() =~= old(st).holds());
                    assert(old(self).parts().0.parses(old(st).input(), old(st).pos(), Ok(g0), m1));
                    assert(old(self).parts().1.parses(old(st).input(), m1, Ok(g1), m2));
                    assert(old(self).parts().2.parses(old(st).input(), m2, Ok(g2), m3));
                    assert(old(self).parts().3.parses(old(st).input(), m3, Ok(g3), m4));
                    assert(old(self).parts().4.parses(old(st).input(), m4, Ok(g4), m5));
                    assert(old(self).parts().5.parses(old(st).input(), m5, Ok(g5), st.pos()));
                }
                return Ok((Some(r0), Some(r1), Some(r2), Some(r3), Some(r4), Some(r5), None, None, None));
            },
        };
        let ghost g6 = r6;
        let ghost m7 = st.pos();
        let r7 = match (self.0).7.parse(st) {
            Ok(x) => x,
            Err(e) => {
                let ghost ge = e;
                st.release(hold);
                proof {
                    assert(st.holds() =~= old(st).holds());
                    assert(old(self).parts().0.parses(old(st).input(), old(st).pos(), Ok(g0), m1));
                    assert(old(self).parts().1.parses(old(st).input(), m1, Ok(g1), m2));
                    assert(old(self).parts().2.parses(old(st).input(), m2, Ok(g2), m3));
                    assert(old(self).parts().3.parses(old(st).input(), m3, Ok(g3), m4));
                    assert(old(self).parts().4.parses(old(st).input(), m4, Ok(g4), m5));
                    assert(old(self).parts().5.parses(old(st).input(), m5, Ok(g5), m6));
                    assert(old(self).parts().6.parses(old(st).input(), m6, Ok(g6), st.pos()));
                }
                return Ok((Some(r0), Some(r1), Some(r2), Some(r3), Some(r4), Some(r5), Some(r6), None, None));
            },
        };
        let ghost g7 = r7;
        let ghost m8 = st.pos();
        let r8 = match (self.0).8.parse(st) {
            Ok(x) => x,
            Err(e) => {
                let ghost ge = e;
                st.release(hold);
                proof {
                    assert(st.holds() =~= old(st).holds());
                    assert(old(self).parts().0.parses(old(st).input(), old(st).pos(), Ok(g0), m1));
                    assert(old(self).parts().1.parses(old(st).input(), m1, Ok(g1), m2));
                    assert(old(self).parts().2.parses(old(st).input(), m2, Ok(g2), m3));
                    assert(old(self).parts().3.parses(old(st).input(), m3, Ok(g3), m4));
                    assert(old(self).parts().4.parses(old(st).input(), m4, Ok(g4), m5));
                    assert(old(self).parts().5.parses(old(st).input(), m5, Ok(g5), m6));
                    assert(old(self).parts().6.parses(old(st).input(), m6, Ok(g6), m7));
                    assert(old(self).parts().7.parses(old(st).input(), m7, Ok(g7), st.pos()));
                }
                return Ok((Some(r0), Some(r1), Some(r2), Some(r3), Some(r4), Some(r5), Some(r6), Some(r7), None));
            },
        };
        let ghost g8 = r8;
        st.release(hold);
        proof {
            assert(st.holds() =~= old(st).holds());
            assert(old(self).parts().0.parses(old(st).input(), old(st).pos(), Ok(g0), m1));
            assert(old(self).parts().1.parses(old(st).input(), m1, Ok(g1), m2));
            assert(old(self).parts().2.parses(old(st).input(), m2, Ok(g2), m3));
            assert(old(self).parts().3.parses(old(st).input(), m3, Ok(g3), m4));
            assert(old(self).parts().4.parses(old(st).input(), m4, Ok(g4), m5));
            assert(old(self).parts().5.parses(old(st).input(), m5, Ok(g5), m6));
            assert(old(self).parts().6.parses(old(st).input(), m6, Ok(g6), m7));
            assert(old(self).parts().7.parses(old(st).input(), m7, Ok(g7), m8));
            assert(old(self).parts().8.parses(old(st).input(), m8, Ok(g8), st.pos()));
        }
        Ok((Some(r0), Some(r1), Some(r2), Some(r3), Some(r4), Some(r5), Some(r6), Some(r7), Some(r8)))
    }
}

impl<P0: Parser, P1: Parser, P2: Parser, P3: Parser, P4: Parser, P5: Parser, P6: Parser, P7: Parser, P8: Parser, P9: Parser> Parser for PartialSequence<(P0, P1, P2, P3, P4, P5, P6, P7, P8, P9)> {
    type Result = (Option<P0::Result>, Option<P1::Result>, Option<P2::Result>, Option<P3::Result>, Option<P4::Result>, Option<P5::Result>, Option<P6::Result>, Option<P7::Result>, Option<P8::Result>, Option<P9::Result>);

    open spec fn callable(self) -> bool {
        self.parts().0.callable() && self.parts().1.callable() && self.parts().2.callable() && self.parts().3.callable() && self.parts().4.callable() && self.parts().5.callable() && self.parts().6.callable() && self.parts().7.callable() && self.parts().8.callable() && self.parts().9.callable()
    }

    open spec fn parses(
        self,
        input: Seq<char>,
        pos: int,
        r: ParseResult<(Option<P0::Result>, Option<P1::Result>, Option<P2::Result>, Option<P3::Result>, Option<P4::Result>, Option<P5::Result>, Option<P6::Result>, Option<P7::Result>, Option<P8::Result>, Option<P9::Result>)>,
        end: int,
    ) -> bool {
        match r {
            Ok(v) => {
                ||| (v == (None::<P0::Result>, None::<P1::Result>, None::<P2::Result>, None::<P3::Result>, None::<P4::Result>, None::<P5::Result>, None::<P6::Result>, None::<P7::Result>, None::<P8::Result>, None::<P9::Result>) && end == pos && (exists|e: ParseError| #[trigger] self.parts().0.parses(input, pos, Err(e), pos)))
                ||| (exists|x0: P0::Result|
                    #![trigger self.parts().0.parses(input, pos, Ok(x0), end)]
                    v == (Some(x0), None::<P1::Result>, None::<P2::Result>, None::<P3::Result>, None::<P4::Result>, None::<P5::Result>, None::<P6::Result>, None::<P7::Result>, None::<P8::Result>, None::<P9::Result>) && self.parts().0.parses(input, pos, Ok(x0), end) && (exists|e: ParseError| #[trigger] self.parts().1.parses(input, end, Err(e), end)))
                ||| (exists|x0: P0::Result, x1: P1::Result, m1: int|
                    #![trigger self.parts().0.parses(input, pos, Ok(x0), m1), self.parts().1.parses(input, m1, Ok(x1), end)]
                    v == (Some(x0), Some(x1), None::<P2::Result>, None::<P3::Result>, None::<P4::Result>, None::<P5::Result>, None::<P6::Result>, None::<P7::Result>, None::<P8::Result>, None::<P9::Result>) && self.parts().0.parses(input, pos, Ok(x0), m1) && self.parts().1.parses(input, m1, Ok(x1), end) && (exists|e: ParseError| #[trigger] self.parts().2.parses(input, end, Err(e), end)))
                ||| (exists|x0: P0::Result, x1: P1::Result, x2: P2::Result, m1: int, m2: int|
                    #![trigger self.parts().0.parses(input, pos, Ok(x0), m1), self.parts().1.parses(input, m1, Ok(x1), m2), self.parts().2.parses(input, m2, Ok(x2), end)]
                    v == (Some(x0), Some(x1), Some(x2), None::<P3::Result>, None::<P4::Result>, None::<P5::Result>, None::<P6::Result>, None::<P7::Result>, None::<P8::Result>, None::<P9::Result>) && self.parts().0.parses(input, pos, Ok(x0), m1) && self.parts().1.parses(input, m1, Ok(x1), m2) && self.parts().2.parses(input, m2, Ok(x2), end) && (exists|e: ParseError| #[trigger] self.parts().3.parses(input, end, Err(e), end)))
                ||| (exists|x0: P0::Result, x1: P1::Result, x2: P2::Result, x3: P3::Result, m1: int, m2: int, m3: int|
                    #![trigger self.parts().0.parses(input, pos, Ok(x0), m1), self.parts().1.parses(input, m1, Ok(x1), m2), self.parts().2.parses(input, m2, Ok(x2), m3), self.parts().3.parses(input, m3, Ok(x3), end)]
                    v == (Some(x0), Some(x1), Some(x2), Some(x3), None::<P4::Result>, None::<P5::Result>, None::<P6::Result>, None::<P7::Result>, None::<P8::Result>, None::<P9::Result>) && self.parts().0.parses(input, pos, Ok(x0), m1) && self.parts().1.parses(input, m1, Ok(x1), m2) && self.parts().2.parses(input, m2, Ok(x2), m3) && self.parts().3.parses(input, m3, Ok(x3), end) && (exists|e: ParseError| #[trigger] self.parts().4.parses(input, end, Err(e), end)))
                ||| (exists|x0: P0::Result, x1: P1::Result, x2: P2::Result, x3: P3::Result, x4: P4::Result, m1: int, m2: int, m3: int, m4: int|
                    #![trigger self.parts().0.parses(input, pos, Ok(x0), m1), self.parts().1.parses(input, m1, Ok(x1), m2), self.parts().2.parses(input, m2, Ok(x2), m3), self.parts().3.parses(input, m3, Ok(x3), m4), self.parts().4.parses(input, m4, Ok(x4), end)]
                    v == (Some(x0), Some(x1), Some(x2), Some(x3), Some(x4), None::<P5::Result>, None::<P6::Result>, None::<P7::Result>, None::<P8::Result>, None::<P9::Result>) && self.parts().0.parses(input, pos, Ok(x0), m1) && self.parts().1.parses(input, m1, Ok(x1), m2) && self.parts().2.parses(input, m2, Ok(x2), m3) && self.parts().3.parses(input, m3, Ok(x3), m4) && self.parts().4.parses(input, m4, Ok(x4), end) && (exists|e: ParseError| #[trigger] self.parts().5.parses(input, end, Err(e), end)))
                ||| (exists|x0: P0::Result, x1: P1::Result, x2: P2::Result, x3: P3::Result, x4: P4::Result, x5: P5::Result, m1: int, m2: int, m3: int, m4: int, m5: int|
                    #![trigger self.parts().0.parses(input, pos, Ok(x0), m1), self.parts().1.parses(input, m1, Ok(x1), m2), self.parts().2.parses(input, m2, Ok(x2), m3), self.parts().3.parses(input, m3, Ok(x3), m4), self.parts().4.parses(input, m4, Ok(x4), m5), self.parts().5.parses(input, m5, Ok(x5), end)]
                    v == (Some(x0), Some(x1), Some(x2), Some(x3), Some(x4), Some(x5), None::<P6::Result>, None::<P7::Result>, None::<P8::Result>, None::<P9::Result>) && self.parts().0.parses(input, pos, Ok(x0), m1) && self.parts().1.parses(input, m1, Ok(x1), m2) && self.parts().2.parses(input, m2, Ok(x2), m3) && self.parts().3.parses(input, m3, Ok(x3), m4) && self.parts().4.parses(input, m4, Ok(x4), m5) && self.parts().5.parses(input, m5, Ok(x5), end) && (exists|e: ParseError| #[trigger] self.parts().6.parses(input, end, Err(e), end)))
                ||| (exists|x0: P0::Result, x1: P1::Result, x2: P2::Result, x3: P3::Result, x4: P4::Result, x5: P5::Result, x6: P6::Result, m1: int, m2: int, m3: int, m4: int, m5: int, m6: int|
                    #![trigger self.parts().0.parses(input, pos, Ok(x0), m1), self.parts().1.parses(input, m1, Ok(x1), m2), self.parts().2.parses(input, m2, Ok(x2), m3), self.parts().3.parses(input, m3, Ok(x3), m4), self.parts().4.parses(input, m4, Ok(x4), m5), self.parts().5.parses(input, m5, Ok(x5), m6), self.parts().6.parses(input, m6, Ok(x6), end)]
                    v == (Some(x0), Some(x1), Some(x2), Some(x3), Some(x4), Some(x5), Some(x6), None::<P7::Result>, None::<P8::Result>, None::<P9::Result>) && self.parts().0.parses(input, pos, Ok(x0), m1) && self.parts().1.parses(input, m1, Ok(x1), m2) && self.parts().2.parses(input, m2, Ok(x2), m3) && self.parts().3.parses(input, m3, Ok(x3), m4) && self.parts().4.parses(input, m4, Ok(x4), m5) && self.parts().5.parses(input, m5, Ok(x5), m6) && self.parts().6.parses(input, m6, Ok(x6), end) && (exists|e: ParseError| #[trigger] self.parts().7.parses(input, end, Err(e), end)))
                ||| (exists|x0: P0::Result, x1: P1::Result, x2: P2::Result, x3: P3::Result, x4: P4::Result, x5: P5::Result, x6: P6::Result, x7: P7::Result, m1: int, m2: int, m3: int, m4: int, m5: int, m6: int, m7: int|
                    #![trigger self.parts().0.parses(input, pos, Ok(x0), m1), self.parts().1.parses(input, m1, Ok(x1), m2), self.parts().2.parses(input, m2, Ok(x2), m3), self.parts().3.parses(input, m3, Ok(x3), m4), self.parts().4.parses(input, m4, Ok(x4), m5), self.parts().5.parses(input, m5, Ok(x5), m6), self.parts().6.parses(input, m6, Ok(x6), m7), self.parts().7.parses(input, m7, Ok(x7), end)]
                    v == (Some(x0), Some(x1), Some(x2), Some(x3), Some(x4), Some(x5), Some(x6), Some(x7), None::<P8::Result>, None::<P9::Result>) && self.parts().0.parses(input, pos, Ok(x0), m1) && self.parts().1.parses(input, m1, Ok(x1), m2) && self.parts().2.parses(input, m2, Ok(x2), m3) && self.parts().3.parses(input, m3, Ok(x3), m4) && self.parts().4.parses(input, m4, Ok(x4), m5) && self.parts().5.parses(input, m5, Ok(x5), m6) && self.parts().6.parses(input, m6, Ok(x6), m7) && self.parts().7.parses(input, m7, Ok(x7), end) && (exists|e: ParseError| #[trigger] self.parts().8.parses(input, end, Err(e), end)))
                ||| (exists|x0: P0::Result, x1: P1::Result, x2: P2::Result, x3: P3::Result, x4: P4::Result, x5: P5::Result, x6: P6::Result, x7: P7::Result, x8: P8::Result, m1: int, m2: int, m3: int, m4: int, m5: int, m6: int, m7: int, m8: int|
                    #![trigger self.parts().0.parses(input, pos, Ok(x0), m1), self.parts().1.parses(input, m1, Ok(x1), m2), self.parts().2.parses(input, m2, Ok(x2), m3), self.parts().3.parses(input, m3, Ok(x3), m4), self.parts().4.parses(input, m4, Ok(x4), m5), self.parts().5.parses(input, m5, Ok(x5), m6), self.parts().6.parses(input, m6, Ok(x6), m7), self.parts().7.parses(input, m7, Ok(x7), m8), self.parts().8.parses(input, m8, Ok(x8), end)]
                    v == (Some(x0), Some(x1), Some(x2), Some(x3), Some(x4), Some(x5), Some(x6), Some(x7), Some(x8), None::<P9::Result>) && self.parts().0.parses(input, pos, Ok(x0), m1) && self.parts().1.parses(input, m1, Ok(x1), m2) && self.parts().2.parses(input, m2, Ok(x2), m3) && self.parts().3.parses(input, m3, Ok(x3), m4) && self.parts().4.parses(input, m4, Ok(x4), m5) && self.parts().5.parses(input, m5, Ok(x5), m6) && self.parts().6.parses(input, m6, Ok(x6), m7) && self.parts().7.parses(input, m7, Ok(x7), m8) && self.parts().8.parses(input, m8, Ok(x8), end) && (exists|e: ParseError| #[trigger] self.parts().9.parses(input, end, Err(e), end)))
                ||| (exists|x0: P0::Result, x1: P1::Result, x2: P2::Result, x3: P3::Result, x4: P4::Result, x5: P5::Result, x6: P6::Result, x7: P7::Result, x8: P8::Result, x9: P9::Result, m1: int, m2: int, m3: int, m4: int, m5: int, m6: int, m7: int, m8: int, m9: int|
                    #![trigger self.parts().0.parses(input, pos, Ok(x0), m1), self.parts().1.parses(input, m1, Ok(x1), m2), self.parts().2.parses(input, m2, Ok(x2), m3), self.parts().3.parses(input, m3, Ok(x3), m4), self.parts().4.parses(input, m4, Ok(x4), m5), self.parts().5.parses(input, m5, Ok(x5), m6), self.parts().6.parses(input, m6, Ok(x6), m7), self.parts().7.parses(input, m7, Ok(x7), m8), self.parts().8.parses(input, m8, Ok(x8), m9), self.parts().9.parses(input, m9, Ok(x9), end)]
                    v == (Some(x0), Some(x1), Some(x2), Some(x3), Some(x4), Some(x5), Some(x6), Some(x7), Some(x8), Some(x9)) && self.parts().0.parses(input, pos, Ok(x0), m1) && self.parts().1.parses(input, m1, Ok(x1), m2) && self.parts().2.parses(input, m2, Ok(x2), m3) && self.parts().3.parses(input, m3, Ok(x3), m4) && self.parts().4.parses(input, m4, Ok(x4), m5) && self.parts().5.parses(input, m5, Ok(x5), m6) && self.parts().6.parses(input, m6, Ok(x6), m7) && self.parts().7.parses(input, m7, Ok(x7), m8) && self.parts().8.parses(input, m8, Ok(x8), m9) && self.parts().9.parses(input, m9, Ok(x9), end))
            },
            Err(_) => false,
        }
    }

    fn parse(&mut self, st: &mut ParseState) -> (r: ParseResult<
        (Option<P0::Result>, Option<P1::Result>, Option<P2::Result>, Option<P3::Result>, Option<P4::Result>, Option<P5::Result>, Option<P6::Result>, Option<P7::Result>, Option<P8::Result>, Option<P9::Result>),
    >) {
        let hold = st.hold();
        let r0 = match (self.0).0.parse(st) {
            Ok(x) => x,
            Err(e) => {
                let ghost ge = e;
                st.release(hold);
                proof {
                    assert(st.holds() =~= old(st).holds());
                }
                return Ok((None, None, None, None, None, None, None, None, None, None));
            },
        };
        let ghost g0 = r0;
        let ghost m1 = st.pos();
        let r1 = match (self.0).1.parse(st) {
            Ok(x) => x,
            Err(e) => {
                let ghost ge = e;
                st.release(hold);
                proof {
                    assert(st.holds() =~= old(st).holds());
                    assert(old(self).parts().0.parses(old(st).input(), old(st).pos(), Ok(g0), st.pos()));
                }
                return Ok((Some(r0), None, None, None, None, None, None, None, None, None));
            },
        };
        let ghost g1 = r1;
        let ghost m2 = st.pos();
        let r2 = match (self.0).2.parse(st) {
            Ok(x) => x,
            Err(e) => {
                let ghost ge = e;
                st.release(hold);
                proof {
                    assert(st.holds() =~= old(st).holds());
                    assert(old(self).parts().0.parses(old(st).input(), old(st).pos(), Ok(g0), m1));
                    assert(old(self).parts().1.parses(old(st).input(), m1, Ok(g1), st.pos()));
                }
                return Ok((Some(r0), Some(r1), None, None, None, None, None, None, None, None));
            },
        };
        let ghost g2 = r2;
        let ghost m3 = st.pos();
        let r3 = match (self.0).3.parse(st) {
            Ok(x) => x,
            Err(e) => {
                let ghost ge = e;
                st.release(hold);
                proof {
                    assert(st.holds() =~= old(st).holds());
                    assert(old(self).parts().0.parses(old(st).input(), old(st).pos(), Ok(g0), m1));
                    assert(old(self).parts().1.parses(old(st).input(), m1, Ok(g1), m2));
                    assert(old(self).parts().2.parses(old(st).input(), m2, Ok(g2), st.pos()));
                }
                return Ok((Some(r0), Some(r1), Some(r2), None, None, None, None, None, None, None));
            },
        };
        let ghost g3 = r3;
        let ghost m4 = st.pos();
        let r4 = match (self.0).4.parse(st) {
            Ok(x) => x,
            Err(e) => {
                let ghost ge = e;
                st.release(hold);
                proof {
                    assert(st.holds() =~= old(st).holds());
                    assert(old(self).parts().0.parses(old(st).input(), old(st).pos(), Ok(g0), m1));
                    assert(old(self).parts().1.parses(old(st).input(), m1, Ok(g1), m2));
                    assert(old(self).parts().2.parses(old(st).input(), m2, Ok(g2), m3));
                    assert(old(self).parts().3.parses(old(st).input(), m3, Ok(g3), st.pos()));
                }
                return Ok((Some(r0), Some(r1), Some(r2), Some(r3), None, None, None, None, None, None));
            },
        };
        let ghost g4 = r4;
        let ghost m5 = st.pos();
        let r5 = match (self.0).5.parse(st) {
            Ok(x) => x,
            Err(e) => {
                let ghost ge = e;
                st.release(hold);
                proof {
                    assert(st.holds() =~= old(st).holds());
                    assert(old(self).parts().0.parses(old(st).input(), old(st).pos(), Ok(g0), m1));
                    assert(old(self).parts().1.parses(old(st).input(), m1, Ok(g1), m2));
                    assert(old(self).parts().2.parses(old(st).input(), m2, Ok(g2), m3));
                    assert(old(self).parts().3.parses(old(st).input(), m3, Ok(g3), m4));
                    assert(old(self).parts().4.parses(old(st).input(), m4, Ok(g4), st.pos()));
                }
                return Ok((Some(r0), Some(r1), Some(r2), Some(r3), Some(r4), None, None, None, None, None));
            },
        };
        let ghost g5 = r5;
        let ghost m6 = st.pos();
        let r6 = match (self.0).6.parse(st) {
            Ok(x) => x,
            Err(e) => {
                let ghost ge = e;
                st.release(hold);
                proof {
                    assert(st.holds() =~= old(st).holds());
                    assert(old(self).parts().0.parses(old(st).input(), old(st).pos(), Ok(g0), m1));
                    assert(old(self).parts().1.parses(old(st).input(), m1, Ok(g1), m2));
                    assert(old(self).parts().2.parses(old(st).input(), m2, Ok(g2), m3));
                    assert(old(self).parts().3.parses(old(st).input(), m3, Ok(g3), m4));
                    assert(old(self).parts().4.parses(old(st).input(), m4, Ok(g4), m5));
                    assert(old(self).parts().5.parses(old(st).input(), m5, Ok(g5), st.pos()));
                }
                return Ok((Some(r0), Some(r1), Some(r2), Some(r3), Some(r4), Some(r5), None, None, None, None));
            },
        };
        let ghost g6 = r6;
        let ghost m7 = st.pos();
        let r7 = match (self.0).7.parse(st) {
            Ok(x) => x,
            Err(e) => {
                let ghost ge = e;
                st.release(hold);
                proof {
                    assert(st.holds() =~= old(st).holds());
                    assert(old(self).parts().0.parses(old(st).input(), old(st).pos(), Ok(g0), m1));
                    assert(old(self).parts().1.parses(old(st).input(), m1, Ok(g1), m2));
                    assert(old(self).parts().2.parses(old(st).input(), m2, Ok(g2), m3));
                    assert(old(self).parts().3.parses(old(st).input(), m3, Ok(g3), m4));
                    assert(old(self).parts().4.parses(old(st).input(), m4, Ok(g4), m5));
                    assert(old(self).parts().5.parses(old(st).input(), m5, Ok(g5), m6));
                    assert(old(self).parts().6.parses(old(st).input(), m6, Ok(g6), st.pos()));
                }
                return Ok((Some(r0), Some(r1), Some(r2), Some(r3), Some(r4), Some(r5), Some(r6), None, None, None));
            },
        };
        let ghost g7 = r7;
        let ghost m8 = st.pos();
        let r8 = match (self.0).8.parse(st) {
            Ok(x) => x,
            Err(e) => {
                let ghost ge = e;
                st.release(hold);
                proof {
                    assert(st.holds() =~= old(st).holds());
                    assert(old(self).parts().0.parses(old(st).input(), old(st).pos(), Ok(g0), m1));
                    assert(old(self).parts().1.parses(old(st).input(), m1, Ok(g1), m2));
                    assert(old(self).parts().2.parses(old(st).input(), m2, Ok(g2), m3));
                    assert(old(self).parts().3.parses(old(st).input(), m3, Ok(g3), m4));
                    assert(old(self).parts().4.parses(old(st).input(), m4, Ok(g4), m5));
                    assert(old(self).parts().5.parses(old(st).input(), m5, Ok(g5), m6));
                    assert(old(self).parts().6.parses(old(st).input(), m6, Ok(g6), m7));
                    assert(old(self).parts().7.parses(old(st).input(), m7, Ok(g7), st.pos()));
                }
                return Ok((Some(r0), Some(r1), Some(r2), Some(r3), Some(r4), Some(r5), Some(r6), Some(r7), None, None));
            },
        };
        let ghost g8 = r8;
        let ghost m9 = st.pos();
        let r9 = match (self.0).9.parse(st) {
            Ok(x) => x,
            Err(e) => {
                let ghost ge = e;
                st.release(hold);
                proof {
                    assert(st.holds() =~= old(st).holds());
                    assert(old(self).parts().0.parses(old(st).input(), old(st).pos(), Ok(g0), m1));
                    assert(old(self).parts().1.parses(old(st).input(), m1, Ok(g1), m2));
                    assert(old(self).parts().2.parses(old(st).input(), m2, Ok(g2), m3));
                    assert(old(self).parts().3.parses(old(st).input(), m3, Ok(g3), m4));
                    assert(old(self).parts().4.parses(old(st).input(), m4, Ok(g4), m5));
                    assert(old(self).parts().5.parses(old(st).input(), m5, Ok(g5), m6));
                    assert(old(self).parts().6.parses(old(st).input(), m6, Ok(g6), m7));
                    assert(old(self).parts().7.parses(old(st).input(), m7, Ok(g7), m8));
                    assert(old(self).parts().8.parses(old(st).input(), m8, Ok(g8), st.pos()));
                }
                return Ok((Some(r0), Some(r1), Some(r2), Some(r3), Some(r4), Some(r5), Some(r6), Some(r7), Some(r8), None));
            },
        };
        let ghost g9 = r9;
        st.release(hold);
        proof {
            assert(st.holds() =~= old(st).holds());
            assert(old(self).parts().0.parses(old(st).input(), old(st).pos(), Ok(g0), m1));
            assert(old(self).parts().1.parses(old(st).input(), m1, Ok(g1), m2));
            assert(old(self).parts().2.parses(old(st).input(), m2, Ok(g2), m3));
            assert(old(self).parts().3.parses(old(st).input(), m3, Ok(g3), m4));
            assert(old(self).parts().4.parses(old(st).input(), m4, Ok(g4), m5));
            assert(old(self).parts().5.parses(old(st).input(), m5, Ok(g5), m6));
            assert(old(self).parts().6.parses(old(st).input(), m6, Ok(g6), m7));
            assert(old(self).parts().7.parses(old(st).input(), m7, Ok(g7), m8));
            assert(old(self).parts().8.parses(old(st).input(), m8, Ok(g8), m9));
            assert(old(self).parts().9.parses(old(st).input(), m9, Ok(g9), st.pos()));
        }
        Ok((Some(r0), Some(r1), Some(r2), Some(r3), Some(r4), Some(r5), Some(r6), Some(r7), Some(r8), Some(r9)))
    }
}

} // verus!
