use vstd::prelude::*;

use std::collections::HashSet;

use crate::combinators::{repeat_chain, Ignore, Repeat, RepeatSpec};
use crate::parser::{execerr, ParseError, ParseResult, Parser};
use crate::state::{str_chars, ParseState};

verus! {

/// The length of the longest common prefix of `target` and the input read
/// from position `pos` on.
pub open spec fn match_len(input: Seq<char>, pos: int, target: Seq<char>) -> int
    decreases target.len(),
{
    if target.len() == 0 || !(0 <= pos < input.len()) || input[pos] != target[0] {
        0
    } else {
        1 + match_len(input, pos + 1, target.skip(1))
    }
}

/// A matched prefix is no longer than the target and stays inside the input.
pub proof fn lemma_match_len_bounds(input: Seq<char>, pos: int, target: Seq<char>)
    requires
        0 <= pos <= input.len(),
    ensures
        0 <= match_len(input, pos, target) <= target.len(),
        pos + match_len(input, pos, target) <= input.len(),
    decreases target.len(),
{
    if target.len() != 0 && pos < input.len() && input[pos] == target[0] {
        lemma_match_len_bounds(input, pos + 1, target.skip(1));
    }
}

/// Characters that match pairwise up to `k` make the matched prefix at least
/// `k` long.
proof fn lemma_match_len_ge(input: Seq<char>, pos: int, target: Seq<char>, k: int)
    requires
        0 <= k <= target.len(),
        0 <= pos,
        pos + k <= input.len(),
        forall|j: int| 0 <= j < k ==> input[pos + j] == target[j],
    ensures
        match_len(input, pos, target) >= k,
    decreases k,
{
    lemma_match_len_bounds(input, pos, target);
    if k > 0 {
        assert(input[pos] == target[0]);
        assert forall|j: int| 0 <= j < k - 1 implies input[pos + 1 + j] == target.skip(1)[j] by {
            assert(input[pos + (j + 1)] == target[j + 1]);
            assert(target.skip(1)[j] == target[j + 1]);
        }
        lemma_match_len_ge(input, pos + 1, target.skip(1), k - 1);
        assert(match_len(input, pos, target) == 1 + match_len(input, pos + 1, target.skip(1)));
    }
}

/// Characters that match pairwise up to `k` and differ (or run out of input)
/// at `k` make the matched prefix exactly `k` long.
proof fn lemma_match_len_eq(input: Seq<char>, pos: int, target: Seq<char>, k: int)
    requires
        0 <= k <= target.len(),
        0 <= pos,
        pos + k <= input.len(),
        forall|j: int| 0 <= j < k ==> input[pos + j] == target[j],
        k < target.len(),
        pos + k == input.len() || input[pos + k] != target[k],
    ensures
        match_len(input, pos, target) == k,
    decreases k,
{
    if k == 0 {
    } else {
        assert(input[pos] == target[0]);
        assert(forall|j: int|
            0 <= j < k - 1 ==> input[pos + 1 + j] == target.skip(1)[j] && input[pos + 1 + j]
                == target[j + 1]);
        assert(target.skip(1)[k - 1] == target[k]);
        lemma_match_len_eq(input, pos + 1, target.skip(1), k - 1);
    }
}

/// StringParser consumes a fixed string: it succeeds exactly where the input
/// continues with that string, and otherwise fails after rewinding whatever
/// prefix it had matched.
#[derive(Clone, Debug, PartialEq)]
pub struct StringParser {
    s: String,
    cs: Vec<char>,
}

impl StringParser {
    /// The string this parser matches.
    pub closed spec fn target(self) -> Seq<char> {
        self.cs@
    }

    pub fn new(s: &str) -> (sp: StringParser)
        ensures
            sp.target() == s@,
            sp.callable(),
    {
        StringParser { s: s.to_owned(), cs: str_chars(s) }
    }
}

impl Parser for StringParser {
    type Result = String;

    closed spec fn callable(self) -> bool {
        self.s@ == self.cs@
    }

    open spec fn parses(self, input: Seq<char>, pos: int, r: ParseResult<String>, end: int) -> bool {
        match r {
            Ok(out) => {
                &&& match_len(input, pos, self.target()) == self.target().len()
                &&& out@ == self.target()
                &&& end == pos + self.target().len()
            },
            Err(e) => {
                &&& end == pos
                &&& match_len(input, pos, self.target()) < self.target().len()
                &&& e matches ParseError::Fail(m, p) && m@ == "string not matched"@ && p as int
                    == pos + match_len(input, pos, self.target())
            },
        }
    }

    fn parse(&mut self, st: &mut ParseState) -> (r: ParseResult<String>) {
        let n = self.cs.len();
        let hold = st.hold();
        let mut k: usize = 0;
        loop
            invariant
                st.wf(),
                self == old(self),
                old(self).callable(),
                n == self.cs@.len(),
                k <= n,
                st.input() == old(st).input(),
                st.holds() == old(st).holds().insert(old(st).pos()),
                hold.target() == old(st).pos(),
                st.pos() == old(st).pos() + k,
                st.pos() <= st.input().len(),
                forall|j: int| 0 <= j < k ==> st.input()[old(st).pos() + j] == self.cs@[j],
            decreases n - k,
        {
            if k == n {
                st.release(hold);
                proof {
                    assert(st.holds() =~= old(st).holds());
                    lemma_match_len_ge(st.input(), old(st).pos(), self.cs@, n as int);
                    lemma_match_len_bounds(st.input(), old(st).pos(), self.cs@);
                }
                return Ok(self.s.clone());
            }
            let expect = self.cs[k];
            match st.peek() {
                Some(c) if c == expect => {
                    st.next();
                    k = k + 1;
                },
                _ => {
                    let ix = st.index();
                    st.reset(hold);
                    proof {
                        assert(st.holds() =~= old(st).holds());
                        lemma_match_len_eq(st.input(), old(st).pos(), self.cs@, k as int);
                    }
                    return Err(ParseError::Fail("string not matched", ix));
                },
            }
        }
    }
}

/// Against input that continues with exactly the target, a literal matcher
/// can only succeed, returning the target with the cursor moved just past
/// it; against input that differs from the target anywhere within its
/// length, it can only fail, with the cursor back at its starting position.
pub proof fn lemma_literal_matcher(
    sp: StringParser,
    input: Seq<char>,
    pos: int,
    r: ParseResult<String>,
    end: int,
)
    requires
        sp.parses(input, pos, r, end),
        0 <= pos <= input.len(),
    ensures
        (pos + sp.target().len() <= input.len() && input.subrange(pos, pos + sp.target().len())
            == sp.target()) ==> (r matches Ok(out) && out@ == sp.target() && end == pos
            + sp.target().len()),
        (exists|j: int|
            0 <= j < sp.target().len() && pos + j < input.len() && input[pos + j] != sp.target()[j])
            ==> (r is Err && end == pos),
        pos + sp.target().len() > input.len() ==> (r is Err && end == pos),
{
    let t = sp.target();
    lemma_match_len_bounds(input, pos, t);
    if pos + t.len() <= input.len() && input.subrange(pos, pos + t.len()) == t {
        assert forall|j: int| 0 <= j < t.len() implies input[pos + j] == t[j] by {
            assert(input.subrange(pos, pos + t.len())[j] == input[pos + j]);
        }
        lemma_match_len_ge(input, pos, t, t.len() as int);
    }
    if exists|j: int| 0 <= j < t.len() && pos + j < input.len() && input[pos + j] != t[j] {
        if match_len(input, pos, t) == t.len() {
            let j = choose|j: int| 0 <= j < t.len() && pos + j < input.len() && input[pos + j]
                != t[j];
            lemma_match_len_chars(input, pos, t);
        }
    }
}

/// Within the matched prefix, input and target agree character by character.
proof fn lemma_match_len_chars(input: Seq<char>, pos: int, target: Seq<char>)
    requires
        0 <= pos <= input.len(),
    ensures
        forall|j: int|
            0 <= j < match_len(input, pos, target) ==> input[pos + j] == target[j],
    decreases target.len(),
{
    if target.len() != 0 && pos < input.len() && input[pos] == target[0] {
        lemma_match_len_chars(input, pos + 1, target.skip(1));
        lemma_match_len_bounds(input, pos + 1, target.skip(1));
        assert(match_len(input, pos, target) == 1 + match_len(input, pos + 1, target.skip(1)));
        assert forall|j: int| 0 <= j < match_len(input, pos, target) implies input[pos + j]
            == target[j] by {
            if j > 0 {
                assert(0 <= j - 1 < match_len(input, pos + 1, target.skip(1)));
                assert(input[pos + 1 + (j - 1)] == target.skip(1)[j - 1]);
                assert(target.skip(1)[j - 1] == target[j]);
            }
        }
    }
}

/// Whether a character is a decimal digit.
pub open spec fn is_digit_char(c: char) -> bool {
    48 <= c as u32 && c as u32 <= 57
}

/// The numeric value of a decimal digit character.
pub open spec fn digit_val(c: char) -> int {
    c as u32 - 48
}

/// The length of the run of decimal digits in the input from `pos` on.
pub open spec fn digit_run_len(input: Seq<char>, pos: int) -> int
    decreases input.len() - pos,
    when 0 <= pos <= input.len()
{
    if pos >= input.len() || !is_digit_char(input[pos]) {
        0
    } else {
        1 + digit_run_len(input, pos + 1)
    }
}

/// The value of the `n` decimal digits of the input starting at `pos`.
pub open spec fn digits_val(input: Seq<char>, pos: int, n: int) -> int
    decreases n,
{
    if n <= 0 {
        0
    } else {
        digits_val(input, pos, n - 1) * 10 + digit_val(input[pos + n - 1])
    }
}

/// The digit run is non-negative and stays inside the input.
pub proof fn lemma_digit_run_bounds(input: Seq<char>, pos: int)
    requires
        0 <= pos <= input.len(),
    ensures
        0 <= digit_run_len(input, pos),
        pos + digit_run_len(input, pos) <= input.len(),
    decreases input.len() - pos,
{
    if pos < input.len() && is_digit_char(input[pos]) {
        lemma_digit_run_bounds(input, pos + 1);
    }
}

/// Every character within the digit run is a decimal digit.
proof fn lemma_digit_run_digits(input: Seq<char>, pos: int)
    requires
        0 <= pos <= input.len(),
    ensures
        forall|j: int| pos <= j < pos + digit_run_len(input, pos) ==> is_digit_char(
            #[trigger] input[j],
        ),
    decreases input.len() - pos,
{
    if pos < input.len() && is_digit_char(input[pos]) {
        lemma_digit_run_digits(input, pos + 1);
        lemma_digit_run_bounds(input, pos + 1);
        assert(digit_run_len(input, pos) == 1 + digit_run_len(input, pos + 1));
    }
}

/// A prefix of `k` digits makes the digit run at least `k` long.
proof fn lemma_digit_run_ge(input: Seq<char>, pos: int, k: int)
    requires
        0 <= pos,
        0 <= k,
        pos + k <= input.len(),
        forall|j: int| pos <= j < pos + k ==> is_digit_char(#[trigger] input[j]),
    ensures
        digit_run_len(input, pos) >= k,
    decreases k,
{
    lemma_digit_run_bounds(input, pos);
    if k > 0 {
        assert(is_digit_char(input[pos]));
        lemma_digit_run_ge(input, pos + 1, k - 1);
        assert(digit_run_len(input, pos) == 1 + digit_run_len(input, pos + 1));
    }
}

/// A prefix of `k` digits bounded by a non-digit or the end of the input
/// makes the digit run exactly `k` long.
proof fn lemma_digit_run_eq(input: Seq<char>, pos: int, k: int)
    requires
        0 <= pos,
        0 <= k,
        pos + k <= input.len(),
        forall|j: int| pos <= j < pos + k ==> is_digit_char(#[trigger] input[j]),
        pos + k == input.len() || !is_digit_char(input[pos + k]),
    ensures
        digit_run_len(input, pos) == k,
{
    lemma_digit_run_ge(input, pos, k);
    lemma_digit_run_bounds(input, pos);
    lemma_digit_run_digits(input, pos);
    if digit_run_len(input, pos) > k {
        assert(is_digit_char(input[pos + k]));
        assert(false);
    }
}

/// The value of a digit string is non-negative.
proof fn lemma_digits_val_nonneg(input: Seq<char>, pos: int, n: int)
    requires
        forall|j: int| pos <= j < pos + n ==> is_digit_char(#[trigger] input[j]),
    ensures
        digits_val(input, pos, n) >= 0,
    decreases n,
{
    if n > 0 {
        lemma_digits_val_nonneg(input, pos, n - 1);
        assert(is_digit_char(input[pos + (n - 1)]));
    }
}

/// Extending a digit string never decreases its value.
proof fn lemma_digits_val_mono(input: Seq<char>, pos: int, k: int, n: int)
    requires
        0 <= k <= n,
        forall|j: int| pos <= j < pos + n ==> is_digit_char(#[trigger] input[j]),
    ensures
        digits_val(input, pos, k) <= digits_val(input, pos, n),
    decreases n,
{
    if n > k {
        lemma_digits_val_mono(input, pos, k, n - 1);
        lemma_digits_val_nonneg(input, pos, n - 1);
        assert(is_digit_char(input[pos + (n - 1)]));
    }
}

/// A numeric type that the `Int` parser can produce: it knows its range,
/// whether it is signed, and how to build a value from a sign and a decimal
/// magnitude.
pub trait IntType: Sized {
    /// Whether the type is signed, and a leading minus is meaningful.
    spec fn signed() -> bool;

    /// The smallest representable value.
    spec fn min_val() -> int;

    /// The largest representable value.
    spec fn max_val() -> int;

    /// The mathematical value.
    spec fn as_int(self) -> int;

    /// Basic facts about the range.
    proof fn bounds_facts()
        ensures
            Self::min_val() <= 0,
            0 < Self::max_val(),
            Self::max_val() <= u128::MAX as int,
            -(u128::MAX as int) <= Self::min_val(),
            !Self::signed() ==> Self::min_val() == 0,
    ;

    /// Whether the type is signed, at run time.
    fn is_signed() -> (b: bool)
        ensures
            b == Self::signed(),
    ;

    /// The value `mag` with the sign `neg` applied, if it is representable.
    fn of_parts(neg: bool, mag: u128) -> (r: Option<Self>)
        ensures
            ({
                let val = if neg {
                    -(mag as int)
                } else {
                    mag as int
                };
                match r {
                    Some(v) => v.as_int() == val && Self::min_val() <= val <= Self::max_val(),
                    None => !(Self::min_val() <= val <= Self::max_val()),
                }
            }),
    ;
}

impl IntType for i8 {
    open spec fn signed() -> bool {
        true
    }

    open spec fn min_val() -> int {
        i8::MIN as int
    }

    open spec fn max_val() -> int {
        i8::MAX as int
    }

    open spec fn as_int(self) -> int {
        self as int
    }

    proof fn bounds_facts() {
    }

    fn is_signed() -> (b: bool) {
        true
    }

    fn of_parts(neg: bool, mag: u128) -> (r: Option<i8>) {
        if neg {
            if mag <= i8::MAX as u128 {
                Some(-(mag as i8))
            } else if mag == (i8::MAX as u128) + 1 {
                Some(i8::MIN)
            } else {
                None
            }
        } else {
            if mag <= i8::MAX as u128 {
                Some(mag as i8)
            } else {
                None
            }
        }
    }
}

impl IntType for i16 {
    open spec fn signed() -> bool {
        true
    }

    open spec fn min_val() -> int {
        i16::MIN as int
    }

    open spec fn max_val() -> int {
        i16::MAX as int
    }

    open spec fn as_int(self) -> int {
        self as int
    }

    proof fn bounds_facts() {
    }

    fn is_signed() -> (b: bool) {
        true
    }

    fn of_parts(neg: bool, mag: u128) -> (r: Option<i16>) {
        if neg {
            if mag <= i16::MAX as u128 {
                Some(-(mag as i16))
            } else if mag == (i16::MAX as u128) + 1 {
                Some(i16::MIN)
            } else {
                None
            }
        } else {
            if mag <= i16::MAX as u128 {
                Some(mag as i16)
            } else {
                None
            }
        }
    }
}

impl IntType for i32 {
    open spec fn signed() -> bool {
        true
    }

    open spec fn min_val() -> int {
        i32::MIN as int
    }

    open spec fn max_val() -> int {
        i32::MAX as int
    }

    open spec fn as_int(self) -> int {
        self as int
    }

    proof fn bounds_facts() {
    }

    fn is_signed() -> (b: bool) {
        true
    }

    fn of_parts(neg: bool, mag: u128) -> (r: Option<i32>) {
        if neg {
            if mag <= i32::MAX as u128 {
                Some(-(mag as i32))
            } else if mag == (i32::MAX as u128) + 1 {
                Some(i32::MIN)
            } else {
                None
            }
        } else {
            if mag <= i32::MAX as u128 {
                Some(mag as i32)
            } else {
                None
            }
        }
    }
}

impl IntType for i64 {
    open spec fn signed() -> bool {
        true
    }

    open spec fn min_val() -> int {
        i64::MIN as int
    }

    open spec fn max_val() -> int {
        i64::MAX as int
    }

    open spec fn as_int(self) -> int {
        self as int
    }

    proof fn bounds_facts() {
    }

    fn is_signed() -> (b: bool) {
        true
    }

    fn of_parts(neg: bool, mag: u128) -> (r: Option<i64>) {
        if neg {
            if mag <= i64::MAX as u128 {
                Some(-(mag as i64))
            } else if mag == (i64::MAX as u128) + 1 {
                Some(i64::MIN)
            } else {
                None
            }
        } else {
            if mag <= i64::MAX as u128 {
                Some(mag as i64)
            } else {
                None
            }
        }
    }
}

impl IntType for i128 {
    open spec fn signed() -> bool {
        true
    }

    open spec fn min_val() -> int {
        i128::MIN as int
    }

    open spec fn max_val() -> int {
        i128::MAX as int
    }

    open spec fn as_int(self) -> int {
        self as int
    }

    proof fn bounds_facts() {
    }

    fn is_signed() -> (b: bool) {
        true
    }

    fn of_parts(neg: bool, mag: u128) -> (r: Option<i128>) {
        if neg {
            if mag <= i128::MAX as u128 {
                Some(-(mag as i128))
            } else if mag == (i128::MAX as u128) + 1 {
                Some(i128::MIN)
            } else {
                None
            }
        } else {
            if mag <= i128::MAX as u128 {
                Some(mag as i128)
            } else {
                None
            }
        }
    }
}

impl IntType for u8 {
    open spec fn signed() -> bool {
        false
    }

    open spec fn min_val() -> int {
        0
    }

    open spec fn max_val() -> int {
        u8::MAX as int
    }

    open spec fn as_int(self) -> int {
        self as int
    }

    proof fn bounds_facts() {
    }

    fn is_signed() -> (b: bool) {
        false
    }

    fn of_parts(neg: bool, mag: u128) -> (r: Option<u8>) {
        if neg {
            if mag == 0 {
                Some(0)
            } else {
                None
            }
        } else {
            if mag <= u8::MAX as u128 {
                Some(mag as u8)
            } else {
                None
            }
        }
    }
}

impl IntType for u16 {
    open spec fn signed() -> bool {
        false
    }

    open spec fn min_val() -> int {
        0
    }

    open spec fn max_val() -> int {
        u16::MAX as int
    }

    open spec fn as_int(self) -> int {
        self as int
    }

    proof fn bounds_facts() {
    }

    fn is_signed() -> (b: bool) {
        false
    }

    fn of_parts(neg: bool, mag: u128) -> (r: Option<u16>) {
        if neg {
            if mag == 0 {
                Some(0)
            } else {
                None
            }
        } else {
            if mag <= u16::MAX as u128 {
                Some(mag as u16)
            } else {
                None
            }
        }
    }
}

impl IntType for u32 {
    open spec fn signed() -> bool {
        false
    }

    open spec fn min_val() -> int {
        0
    }

    open spec fn max_val() -> int {
        u32::MAX as int
    }

    open spec fn as_int(self) -> int {
        self as int
    }

    proof fn bounds_facts() {
    }

    fn is_signed() -> (b: bool) {
        false
    }

    fn of_parts(neg: bool, mag: u128) -> (r: Option<u32>) {
        if neg {
            if mag == 0 {
                Some(0)
            } else {
                None
            }
        } else {
            if mag <= u32::MAX as u128 {
                Some(mag as u32)
            } else {
                None
            }
        }
    }
}

impl IntType for u64 {
    open spec fn signed() -> bool {
        false
    }

    open spec fn min_val() -> int {
        0
    }

    open spec fn max_val() -> int {
        u64::MAX as int
    }

    open spec fn as_int(self) -> int {
        self as int
    }

    proof fn bounds_facts() {
    }

    fn is_signed() -> (b: bool) {
        false
    }

    fn of_parts(neg: bool, mag: u128) -> (r: Option<u64>) {
        if neg {
            if mag == 0 {
                Some(0)
            } else {
                None
            }
        } else {
            if mag <= u64::MAX as u128 {
                Some(mag as u64)
            } else {
                None
            }
        }
    }
}

impl IntType for u128 {
    open spec fn signed() -> bool {
        false
    }

    open spec fn min_val() -> int {
        0
    }

    open spec fn max_val() -> int {
        u128::MAX as int
    }

    open spec fn as_int(self) -> int {
        self as int
    }

    proof fn bounds_facts() {
    }

    fn is_signed() -> (b: bool) {
        false
    }

    fn of_parts(neg: bool, mag: u128) -> (r: Option<u128>) {
        if neg {
            if mag == 0 {
                Some(0)
            } else {
                None
            }
        } else {
            Some(mag)
        }
    }
}

/// Int parses an integer resulting in `IType`. It is recommended to use the
/// specializations such as `Int64` or `Uint32`. A leading minus sign is
/// attempted only when the target type is signed; at least one decimal digit
/// must follow; a syntactically valid number that does not fit the target
/// type is a semantic failure, not a syntax failure.
pub struct Int<IType: IntType>(core::marker::PhantomData<IType>);

/// Parse a 128 bit signed integer.
pub type Int128 = Int<i128>;

/// Parse a 64 bit signed integer.
pub type Int64 = Int<i64>;

/// Parse a 32 bit signed integer.
pub type Int32 = Int<i32>;

/// Parse a 16 bit signed integer.
pub type Int16 = Int<i16>;

/// Parse a 8 bit signed integer.
pub type Int8 = Int<i8>;

/// Parse a 128 bit unsigned integer.
pub type Uint128 = Int<u128>;

/// Parse a 64 bit unsigned integer.
pub type Uint64 = Int<u64>;

/// Parse a 32 bit unsigned integer.
pub type Uint32 = Int<u32>;

/// Parse a 16 bit unsigned integer.
pub type Uint16 = Int<u16>;

/// Parse a 8 bit unsigned integer.
pub type Uint8 = Int<u8>;

impl<IType: IntType> Int<IType> {
    pub fn new() -> (p: Int<IType>)
        ensures
            p.callable(),
    {
        Int(core::marker::PhantomData)
    }
}

impl<IType: IntType> Parser for Int<IType> {
    type Result = IType;

    open spec fn callable(self) -> bool {
        true
    }

    open spec fn parses(self, input: Seq<char>, pos: int, r: ParseResult<IType>, end: int) -> bool {
        let neg = IType::signed() && 0 <= pos < input.len() && input[pos] == '-';
        let dstart = if neg {
            pos + 1
        } else {
            pos
        };
        let n = digit_run_len(input, dstart);
        let mag = digits_val(input, dstart, n);
        let val = if neg {
            -mag
        } else {
            mag
        };
        match r {
            Ok(v) => {
                &&& n > 0
                &&& IType::min_val() <= val <= IType::max_val()
                &&& v.as_int() == val
                &&& end == dstart + n
            },
            Err(e) => {
                &&& end == pos
                &&& (if n == 0 {
                    if dstart >= input.len() {
                        e == ParseError::EOF
                    } else {
                        e matches ParseError::Fail(m, p) && m@ == "no appropriate integer found"@
                            && p as int == pos
                    }
                } else {
                    !(IType::min_val() <= val <= IType::max_val()) && e is ExecFail
                })
            },
        }
    }

    fn parse(&mut self, st: &mut ParseState) -> (r: ParseResult<IType>) {
        let ghost input = st.input();
        let ghost pos0 = st.pos();
        let signed = IType::is_signed();
        let mut neg = false;
        match st.peek() {
            None => {
                return Err(ParseError::EOF);
            },
            Some(c) => {
                if signed && c == '-' {
                    neg = true;
                }
            },
        }
        let hold = st.hold();
        if neg {
            st.next();
        }
        let ghost dstart = st.pos();
        let mut mag: u128 = 0;
        let mut count: usize = 0;
        let mut overflow = false;
        let mut hit_end = false;
        loop
            invariant_except_break
                !overflow,
                !hit_end,
                mag as int == digits_val(input, dstart, count as int),
            invariant
                st.wf(),
                st.input() == input,
                input == old(st).input(),
                pos0 == old(st).pos(),
                st.holds() == old(st).holds().insert(pos0),
                hold.target() == pos0,
                0 <= pos0 <= dstart,
                dstart <= dstart + count == st.pos() <= input.len(),
                forall|j: int| dstart <= j < dstart + count ==> is_digit_char(#[trigger] input[j]),
            ensures
                st.wf(),
                st.input() == input,
                st.holds() == old(st).holds().insert(pos0),
                dstart <= dstart + count == st.pos() <= input.len(),
                forall|j: int| dstart <= j < dstart + count ==> is_digit_char(#[trigger] input[j]),
                !overflow ==> mag as int == digits_val(input, dstart, count as int)
                    && digit_run_len(input, dstart) == count,
                overflow ==> count + 1 <= digit_run_len(input, dstart) && digits_val(
                    input,
                    dstart,
                    count + 1,
                ) > u128::MAX,
                hit_end ==> dstart + count == input.len(),
                !hit_end && !overflow ==> dstart + count < input.len(),
            decreases input.len() - st.pos(),
        {
            let ghost at = st.pos();
            match st.next() {
                None => {
                    hit_end = true;
                    proof {
                        lemma_digit_run_eq(input, dstart, count as int);
                    }
                    break ;
                },
                Some(c) => {
                    let u = c as u32;
                    if 48 <= u && u <= 57 {
                        let d = (u - 48) as u128;
                        let stepped = match mag.checked_mul(10) {
                            Some(m) => m.checked_add(d),
                            None => None,
                        };
                        match stepped {
                            Some(m2) => {
                                mag = m2;
                                count = count + 1;
                            },
                            None => {
                                overflow = true;
                                proof {
                                    assert(is_digit_char(input[dstart + count]));
                                    lemma_digit_run_ge(input, dstart, count + 1);
                                    assert(digits_val(input, dstart, count + 1) == mag * 10
                                        + digit_val(input[dstart + count]));
                                }
                                st.undo_next();
                                break ;
                            },
                        }
                    } else {
                        st.undo_next();
                        proof {
                            lemma_digit_run_eq(input, dstart, count as int);
                        }
                        break ;
                    }
                },
            }
        }
        if count == 0 {
            st.reset(hold);
            proof {
                assert(st.holds() =~= old(st).holds());
                if overflow {
                    vstd::utf8::char_is_scalar(input[dstart]);
                    assert(digits_val(input, dstart, 0) == 0);
                    assert(digits_val(input, dstart, 1) == digit_val(input[dstart]));
                    assert(false);
                }
            }
            if hit_end {
                return Err(ParseError::EOF);
            }
            let ix = st.index();
            return Err(ParseError::Fail("no appropriate integer found", ix));
        }
        if overflow {
            st.reset(hold);
            proof {
                assert(st.holds() =~= old(st).holds());
                let n = digit_run_len(input, dstart);
                lemma_digit_run_bounds(input, dstart);
                lemma_digit_run_digits(input, dstart);
                lemma_digits_val_mono(input, dstart, count + 1, n);
                IType::bounds_facts();
            }
            return Err(execerr("integer value out of range"));
        }
        match IType::of_parts(neg, mag) {
            Some(v) => {
                st.release(hold);
                proof {
                    assert(st.holds() =~= old(st).holds());
                }
                Ok(v)
            },
            None => {
                st.reset(hold);
                proof {
                    assert(st.holds() =~= old(st).holds());
                }
                Err(execerr("integer value out of range"))
            },
        }
    }
}

/// Nothing is a parser that always succeeds, consuming no input.
pub struct Nothing;

impl Parser for Nothing {
    type Result = ();

    open spec fn callable(self) -> bool {
        true
    }

    open spec fn parses(self, input: Seq<char>, pos: int, r: ParseResult<()>, end: int) -> bool {
        match r {
            Ok(_) => end == pos,
            Err(_) => false,
        }
    }

    fn parse(&mut self, st: &mut ParseState) -> (r: ParseResult<()>) {
        Ok(())
    }
}

/// Threshold above which a hashed set is used instead of a vector for
/// character-class matching.
const MATCHSPEC_MANY_THRESHOLD: usize = 20;

/// Efficient matching of one character against a fixed set: a single
/// character is compared directly, a small set is scanned linearly, and a
/// large set is held hashed, by code point. All three representations are
/// behaviorally identical.
enum MatchSpec {
    One(char),
    Few(Vec<char>),
    Many(HashSet<u32>),
}

impl MatchSpec {
    /// Whether this matcher accepts the character.
    spec fn accepts(self, c: char) -> bool {
        match self {
            MatchSpec::One(cc) => c == cc,
            MatchSpec::Few(v) => v@.contains(c),
            MatchSpec::Many(h) => h@.contains(c as u32),
        }
    }

    fn new(chars: &str) -> (m: MatchSpec)
        ensures
            forall|c: char| #[trigger] m.accepts(c) <==> chars@.contains(c),
    {
        let cs = str_chars(chars);
        if cs.len() == 1 {
            let c = cs[0];
            proof {
                assert(cs@[0] == c && chars@.contains(c));
                assert forall|x: char| chars@.contains(x) implies x == c by {
                    let i = choose|i: int| 0 <= i < chars@.len() && chars@[i] == x;
                    assert(i == 0);
                }
                assert forall|x: char|
                    #[trigger] MatchSpec::One(c).accepts(x) <==> chars@.contains(x) by {}
            }
            MatchSpec::One(c)
        } else if cs.len() <= MATCHSPEC_MANY_THRESHOLD {
            proof {
                assert forall|x: char|
                    #[trigger] MatchSpec::Few(cs).accepts(x) <==> chars@.contains(x) by {}
            }
            MatchSpec::Few(cs)
        } else {
            let mut h: HashSet<u32> = HashSet::new();
            let n = cs.len();
            let mut i: usize = 0;
            while i < n
                invariant
                    n == cs@.len(),
                    i <= n,
                    cs@ == chars@,
                    forall|x: char|
                        h@.contains(x as u32) <==> #[trigger] cs@.take(i as int).contains(x),
                decreases n - i,
            {
                let c = cs[i];
                let ghost hpre = h@;
                h.insert(c as u32);
                proof {
                    assert forall|x: char|
                        h@.contains(x as u32) <==> #[trigger] cs@.take(i + 1).contains(x) by {
                        if h@.contains(x as u32) {
                            if x as u32 == c as u32 {
                                vstd::utf8::char_u32_cast(c, c as u32);
                                vstd::utf8::char_u32_cast(x, x as u32);
                                assert(x == c);
                                assert(cs@.take(i + 1)[i as int] == cs@[i as int]);
                                assert(cs@.take(i + 1).contains(x));
                            } else {
                                assert(hpre.contains(x as u32));
                                assert(cs@.take(i as int).contains(x));
                                let j = choose|j: int|
                                    0 <= j < i && #[trigger] cs@.take(i as int)[j] == x;
                                assert(cs@.take(i as int)[j] == cs@[j]);
                                assert(cs@.take(i + 1)[j] == cs@[j]);
                                assert(cs@.take(i + 1).contains(x));
                            }
                        }
                        if cs@.take(i + 1).contains(x) {
                            let j = choose|j: int|
                                0 <= j < i + 1 && #[trigger] cs@.take(i + 1)[j] == x;
                            assert(cs@.take(i + 1)[j] == cs@[j]);
                            if j < i {
                                assert(cs@.take(i as int)[j] == cs@[j]);
                                assert(cs@.take(i as int).contains(x));
                            } else {
                                assert(x == c);
                            }
                            assert(h@.contains(x as u32));
                        }
                    }
                }
                i = i + 1;
            }
            proof {
                assert(cs@.take(n as int) =~= cs@);
                assert forall|x: char|
                    #[trigger] MatchSpec::Many(h).accepts(x) <==> chars@.contains(x) by {
                    assert(cs@.take(n as int).contains(x) <==> h@.contains(x as u32));
                }
            }
            MatchSpec::Many(h)
        }
    }

    fn matches(&self, c: char) -> (r: bool)
        ensures
            r == self.accepts(c),
    {
        match self {
            MatchSpec::One(cc) => c == *cc,
            MatchSpec::Few(cs) => {
                let n = cs.len();
                let mut i: usize = 0;
                while i < n
                    invariant
                        self.accepts(c) == cs@.contains(c),
                        n == cs@.len(),
                        i <= n,
                        forall|j: int| 0 <= j < i ==> cs@[j] != c,
                    decreases n - i,
                {
                    if cs[i] == c {
                        proof {
                            assert(cs@[i as int] == c);
                            assert(cs@.contains(c));
                        }
                        return true;
                    }
                    i = i + 1;
                }
                proof {
                    if cs@.contains(c) {
                        let j = choose|j: int| 0 <= j < cs@.len() && cs@[j] == c;
                        assert(false);
                    }
                }
                false
            },
            MatchSpec::Many(hs) => {
                let code = c as u32;
                hs.contains(&code)
            },
        }
    }
}

/// OneOf matches any single character that is (or, for the complement form,
/// is not) in its fixed set.
pub struct OneOf(MatchSpec, bool);

impl OneOf {
    /// The set of characters on which this parser succeeds.
    pub closed spec fn accepted(self) -> Set<char> {
        Set::new(
            |c: char|
                if self.1 {
                    !self.0.accepts(c)
                } else {
                    self.0.accepts(c)
                },
        )
    }

    pub fn new(chars: &str) -> (o: OneOf)
        ensures
            forall|c: char| #[trigger] o.accepted().contains(c) <==> chars@.contains(c),
            o.callable(),
    {
        OneOf(MatchSpec::new(chars), false)
    }

    /// Create a OneOf parser that parses all characters *not* in the given
    /// set.
    pub fn new_none_of(chars: &str) -> (o: OneOf)
        ensures
            forall|c: char| #[trigger] o.accepted().contains(c) <==> !chars@.contains(c),
            o.callable(),
    {
        OneOf(MatchSpec::new(chars), true)
    }
}

impl Parser for OneOf {
    type Result = char;

    open spec fn callable(self) -> bool {
        true
    }

    open spec fn parses(self, input: Seq<char>, pos: int, r: ParseResult<char>, end: int) -> bool {
        match r {
            Ok(c) => {
                &&& 0 <= pos < input.len()
                &&& input[pos] == c
                &&& self.accepted().contains(c)
                &&& end == pos + 1
            },
            Err(e) => {
                &&& end == pos
                &&& (if pos >= input.len() {
                    e == ParseError::EOF
                } else {
                    !self.accepted().contains(input[pos]) && (e matches ParseError::Fail(m, p)
                        && m@ == "char not matched"@ && p as int == pos)
                })
            },
        }
    }

    fn parse(&mut self, st: &mut ParseState) -> (r: ParseResult<char>) {
        match st.peek() {
            Some(c) => {
                let m = self.0.matches(c);
                if m != self.1 {
                    st.next();
                    Ok(c)
                } else {
                    let ix = st.index();
                    Err(ParseError::Fail("char not matched", ix))
                }
            },
            None => Err(ParseError::EOF),
        }
    }
}

/// A chain of character-class matches reads exactly the next characters of
/// the input, one per collected result, each of them accepted by the class.
pub proof fn lemma_oneof_chain(oo: OneOf, input: Seq<char>, pos: int, vs: Seq<char>, end: int)
    requires
        repeat_chain(oo, input, pos, vs, end),
        0 <= pos <= input.len(),
    ensures
        end == pos + vs.len(),
        end <= input.len(),
        forall|j: int| pos <= j < end ==> #[trigger] input[j] == vs[j - pos],
        forall|j: int| pos <= j < end ==> oo.accepted().contains(#[trigger] input[j]),
    decreases vs.len(),
{
    if vs.len() > 0 {
        let mid = choose|mid: int|
            #[trigger] oo.parses(input, pos, Ok(vs[0]), mid) && repeat_chain(
                oo,
                input,
                mid,
                vs.skip(1),
                end,
            );
        lemma_oneof_chain(oo, input, mid, vs.skip(1), end);
        assert forall|j: int| pos <= j < end implies #[trigger] input[j] == vs[j - pos] by {
            if j > pos {
                assert(input[j] == vs.skip(1)[j - (pos + 1)]);
            }
        }
    }
}

/// Relies on `String::push` of std: it appends exactly the given character
/// to the string.
pub assume_specification[ String::push ](s: &mut String, c: char)
    ensures
        final(s)@ == old(s)@.push(c),
;

/// Reassembles the characters collected by a parser into a string, in
/// encounter order.
pub struct CollectString<P: Parser<Result = Vec<char>>> {
    inner: P,
}

impl<P: Parser<Result = Vec<char>>> CollectString<P> {
    /// The parser whose collected characters are reassembled.
    pub closed spec fn spec_inner(self) -> P {
        self.inner
    }

    pub fn new(p: P) -> (c: CollectString<P>)
        ensures
            c.spec_inner() == p,
    {
        CollectString { inner: p }
    }
}

impl<P: Parser<Result = Vec<char>>> Parser for CollectString<P> {
    type Result = String;

    open spec fn callable(self) -> bool {
        self.spec_inner().callable()
    }

    open spec fn parses(self, input: Seq<char>, pos: int, r: ParseResult<String>, end: int) -> bool {
        match r {
            Ok(s) => exists|v: Vec<char>|
                #[trigger] self.spec_inner().parses(input, pos, Ok(v), end) && s@ == v@,
            Err(e) => end == pos && self.spec_inner().parses(input, pos, Err(e), pos),
        }
    }

    fn parse(&mut self, st: &mut ParseState) -> (r: ParseResult<String>) {
        match self.inner.parse(st) {
            Ok(v) => {
                let mut out = String::new();
                let n = v.len();
                let mut i: usize = 0;
                while i < n
                    invariant
                        n == v@.len(),
                        i <= n,
                        out@ == v@.take(i as int),
                    decreases n - i,
                {
                    out.push(v[i]);
                    proof {
                        assert(v@.take(i as int).push(v@[i as int]) =~= v@.take(i + 1));
                    }
                    i = i + 1;
                }
                proof {
                    assert(v@.take(n as int) =~= v@);
                }
                Ok(out)
            },
            Err(e) => Err(e),
        }
    }
}

/// What a parser of the `string_of` and `string_none_of` family returns on
/// success is exactly the consumed slice of the input: one accepted
/// character per position, in encounter order. And the run is maximal:
/// unless it was cut short by the repetition bound, it stops only at the end
/// of the input or at the first character that the class rejects.
pub proof fn lemma_string_of_exact(
    p: CollectString<Repeat<OneOf>>,
    input: Seq<char>,
    pos: int,
    r: ParseResult<String>,
    end: int,
)
    requires
        p.parses(input, pos, r, end),
        0 <= pos <= input.len(),
    ensures
        r matches Ok(s) ==> end == pos + s@.len() && end <= input.len(),
        r matches Ok(s) ==> forall|j: int|
            pos <= j < end ==> #[trigger] input[j] == s@[j - pos]
                && p.spec_inner().spec_inner().accepted().contains(input[j]),
        (r matches Ok(s) && s@.len() != p.spec_inner().bound().spec_max()) ==> (end == input.len()
            || !p.spec_inner().spec_inner().accepted().contains(input[end])),
{
    match r {
        Ok(s) => {
            let v = choose|v: Vec<char>|
                #[trigger] p.spec_inner().parses(input, pos, Ok(v), end) && s@ == v@;
            let oo = p.spec_inner().spec_inner();
            lemma_oneof_chain(oo, input, pos, v@, end);
            if v@.len() != p.spec_inner().bound().spec_max() {
                let e = choose|e: ParseError| #[trigger] oo.parses(input, end, Err(e), end);
                if end < input.len() {
                    assert(!oo.accepted().contains(input[end]));
                }
            }
        },
        Err(_) => {
        },
    }
}

/// A parser for a string consisting of characters from `chars`, repeated as
/// the bound asks.
pub fn string_of(chars: &str, rp: RepeatSpec) -> (p: CollectString<Repeat<OneOf>>)
    ensures
        p.callable(),
        forall|c: char|
            #[trigger] p.spec_inner().spec_inner().accepted().contains(c) <==> chars@.contains(c),
        p.spec_inner().bound() == rp,
{
    CollectString::new(Repeat::new(OneOf::new(chars), rp))
}

/// A parser for a string consisting of any characters not in the set.
pub fn string_none_of(chars: &str, rp: RepeatSpec) -> (p: CollectString<Repeat<OneOf>>)
    ensures
        p.callable(),
        forall|c: char|
            #[trigger] p.spec_inner().spec_inner().accepted().contains(c) <==> !chars@.contains(c),
        p.spec_inner().bound() == rp,
{
    CollectString::new(Repeat::new(OneOf::new_none_of(chars), rp))
}

/// whitespace consumes any number of spaces, tabs, newlines and carriage
/// returns, discarding them.
pub fn whitespace() -> (p: Ignore<Repeat<OneOf>>)
    ensures
        p.callable(),
        forall|c: char|
            #[trigger] p.spec_inner().spec_inner().accepted().contains(c) <==> " \n\r\t"@.contains(
                c,
            ),
        p.spec_inner().bound() == RepeatSpec::Any,
{
    Ignore::new(Repeat::new(OneOf::new(" \n\r\t"), RepeatSpec::Any))
}

} // verus!
