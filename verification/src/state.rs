use vstd::multiset::Multiset;
use vstd::prelude::*;
use vstd::std_specs::iter::IteratorSpec;
use vstd::utf8;

verus! {

/// How many characters are moved from the source into the buffer at once.
const PREFILL_DEFAULT: usize = 1024;

/// How many consumed characters accumulate before the buffer is reclaimed;
/// reclaiming in blocks keeps the cost amortized constant.
const RECLAIM_THRESHOLD: usize = 1024;

/// Collects the characters of a string into a vector.
pub(crate) fn str_chars(s: &str) -> (r: Vec<char>)
    ensures
        r@ == s@,
{
    let mut it = s.chars();
    let mut r: Vec<char> = Vec::new();
    proof {
        assert(r@ + it.remaining() =~= s@);
    }
    loop
        invariant
            r@ + it.remaining() == s@,
        ensures
            r@ == s@,
        decreases s@.len() - r@.len(),
    {
        match it.next() {
            Some(c) => {
                proof {
                    assert(r@.push(c) + it.remaining() =~= s@);
                }
                r.push(c);
            },
            None => {
                proof {
                    assert(r@ + it.remaining() =~= r@);
                }
                break ;
            },
        }
    }
    r
}

/// The sequence of characters that a lenient UTF-8 decode of `bytes` yields:
/// each well-formed scalar encoding becomes its character, and a byte that
/// does not begin one is skipped rather than failing the whole stream.
pub open spec fn utf8_chars_of(bytes: Seq<u8>) -> Seq<char>
    decreases bytes.len(),
{
    if bytes.len() == 0 {
        Seq::empty()
    } else if utf8::valid_first_scalar(bytes) {
        seq![utf8::decode_first_scalar(bytes) as char] + utf8_chars_of(utf8::pop_first_scalar(bytes))
    } else {
        utf8_chars_of(bytes.skip(1))
    }
}

/// Relies on `char::from_u32` of std: it returns the character with the given
/// code, or `None` when the code is a surrogate or above the Unicode maximum.
pub assume_specification[ char::from_u32 ](v: u32) -> (c: Option<char>)
    ensures
        c is Some <==> utf8::is_scalar(v),
        c matches Some(ch) ==> ch as u32 == v,
;

/// Decode UTF-8 encoded bytes, skipping every byte that does not begin a
/// well-formed scalar encoding.
fn decode_utf8(bytes: &[u8]) -> (r: Vec<char>)
    ensures
        r@ == utf8_chars_of(bytes@),
{
    let n = bytes.len();
    let mut i: usize = 0;
    let mut r: Vec<char> = Vec::new();
    proof {
        assert(bytes@.skip(0) =~= bytes@);
    }
    while i < n
        invariant
            n == bytes@.len(),
            i <= n,
            r@ + utf8_chars_of(bytes@.skip(i as int)) == utf8_chars_of(bytes@),
        decreases n - i,
    {
        let ghost tail = bytes@.skip(i as int);
        let b0 = bytes[i];
        let mut width: usize = 1;
        let mut cp: u32 = 0;
        let mut ok = false;
        proof {
            assert(tail[0] == b0);
        }
        if b0 < 0x80 {
            cp = (b0 & 0x7f) as u32;
            ok = true;
            proof {
                assert(utf8::is_scalar(cp)) by (bit_vector)
                    requires
                        cp == (b0 & 0x7f) as u32 && b0 < 0x80,
                ;
            }
        } else if 0xc0 <= b0 && b0 <= 0xdf {
            width = 2;
            if i + 1 < n {
                let b1 = bytes[i + 1];
                proof {
                    assert(tail[1] == b1);
                }
                if 0x80 <= b1 && b1 <= 0xbf {
                    cp = (((b0 & 0x1f) as u32) << 6u32) | ((b1 & 0x3f) as u32);
                    if cp >= 0x80 {
                        ok = true;
                        proof {
                            assert(cp <= 0x7ff) by (bit_vector)
                                requires
                                    cp == (((b0 & 0x1f) as u32) << 6u32) | ((b1 & 0x3f) as u32),
                            ;
                        }
                    }
                }
            }
        } else if 0xe0 <= b0 && b0 <= 0xef {
            width = 3;
            if n - i > 2 {
                let b1 = bytes[i + 1];
                let b2 = bytes[i + 2];
                proof {
                    assert(tail[1] == b1 && tail[2] == b2);
                }
                if 0x80 <= b1 && b1 <= 0xbf && 0x80 <= b2 && b2 <= 0xbf {
                    cp = (((b0 & 0x0f) as u32) << 12u32) | (((b1 & 0x3f) as u32) << 6u32) | ((b2
                        & 0x3f) as u32);
                    if cp >= 0x800 && !(0xd800 <= cp && cp <= 0xdfff) {
                        ok = true;
                        proof {
                            assert(cp <= 0xffff) by (bit_vector)
                                requires
                                    cp == (((b0 & 0x0f) as u32) << 12u32) | (((b1 & 0x3f) as u32)
                                        << 6u32) | ((b2 & 0x3f) as u32),
                            ;
                        }
                    }
                }
            }
        } else if 0xf0 <= b0 && b0 <= 0xf7 {
            width = 4;
            if n - i > 3 {
                let b1 = bytes[i + 1];
                let b2 = bytes[i + 2];
                let b3 = bytes[i + 3];
                proof {
                    assert(tail[1] == b1 && tail[2] == b2 && tail[3] == b3);
                }
                if 0x80 <= b1 && b1 <= 0xbf && 0x80 <= b2 && b2 <= 0xbf && 0x80 <= b3 && b3
                    <= 0xbf {
                    cp = (((b0 & 0x07) as u32) << 18u32) | (((b1 & 0x3f) as u32) << 12u32) | (((b2
                        & 0x3f) as u32) << 6u32) | ((b3 & 0x3f) as u32);
                    if 0x10000 <= cp && cp <= 0x10ffff {
                        ok = true;
                    }
                }
            }
        }
        if ok {
            proof {
                assert(utf8::valid_first_scalar(tail));
                assert(utf8::decode_first_scalar(tail) == cp);
                assert(utf8::length_of_first_scalar(tail) == width);
                assert(utf8::pop_first_scalar(tail) =~= bytes@.skip(i + width));
            }
            match char::from_u32(cp) {
                Some(ch) => {
                    proof {
                        utf8::char_u32_cast(ch, cp);
                        assert(r@.push(ch) + utf8_chars_of(bytes@.skip(i + width)) =~= r@ + (seq![
                            ch,
                        ] + utf8_chars_of(bytes@.skip(i + width))));
                    }
                    r.push(ch);
                    i = i + width;
                },
                None => {
                    proof {
                        assert(false);
                    }
                },
            }
        } else {
            proof {
                assert(!utf8::valid_first_scalar(tail));
                assert(tail.skip(1) =~= bytes@.skip(i + 1));
            }
            i = i + 1;
        }
    }
    proof {
        assert(bytes@.skip(n as int) =~= Seq::<u8>::empty());
        assert(r@ + utf8_chars_of(bytes@.skip(n as int)) =~= r@);
    }
    r
}

/// A `Hold` represents the parsing state at a certain point. It can be used
/// to "un-consume" input: `ParseState::reset` rolls the cursor back to the
/// held position, `ParseState::release` commits the input consumed since.
/// Every hold must be resolved by exactly one of the two; in verified code
/// the contracts of `hold`, `release` and `reset` enforce this discipline
/// statically, through the multiset of outstanding holds.
pub struct Hold {
    ix: usize,
    released: bool,
}

impl Hold {
    /// The absolute input position that this hold protects.
    pub closed spec fn target(self) -> int {
        self.ix as int
    }

    /// A fresh, unresolved hold on the given position.
    fn new(ix: usize) -> (h: Hold)
        ensures
            h.target() == ix,
    {
        Hold { ix: ix, released: false }
    }

    /// Marks the hold as resolved; called when `release` or `reset` takes
    /// the hold back.
    fn defuse(&mut self)
        ensures
            final(self).target() == old(self).target(),
    {
        self.released = true;
    }
}

/// `ParseState` encapsulates a stream of characters: a cursor over a logical
/// input, served from a retained buffer window that is refilled from a source
/// in blocks and reclaimed from the front once no outstanding hold can reach
/// it any more.
pub struct ParseState {
    /// Retained window of the input: the characters from position `dropped`
    /// up to `dropped + buf.len()`.
    buf: Vec<char>,
    /// Characters of the source not yet moved into the buffer.
    src: Vec<char>,
    /// How many characters of `src` have been moved into the buffer.
    src_pos: usize,
    /// False once the source is known to be exhausted.
    src_live: bool,
    /// Absolute position in the logical input, monotonically increasing
    /// except for hold resets.
    global: usize,
    /// Cursor into `buf`; always `global - dropped`.
    current: usize,
    /// How many characters have been reclaimed from the front of the buffer.
    dropped: usize,
    /// Count of outstanding holds; the retention floor can only advance when
    /// it reaches zero. Pinned at `usize::MAX` if it ever gets there, which
    /// only stops reclamation and is safe.
    live: usize,
    /// The whole logical input.
    all: Ghost<Seq<char>>,
    /// The positions of the outstanding holds.
    pending: Ghost<Multiset<int>>,
}

impl ParseState {
    /// The whole logical input this stream was created over.
    pub closed spec fn input(self) -> Seq<char> {
        self.all@
    }

    /// The absolute position of the cursor in the logical input.
    pub closed spec fn pos(self) -> int {
        self.global as int
    }

    /// The retention floor: input before this position may have been
    /// reclaimed and can no longer be rewound to.
    pub closed spec fn floor(self) -> int {
        self.dropped as int
    }

    /// The positions of all outstanding (unresolved) holds.
    pub closed spec fn holds(self) -> Multiset<int> {
        self.pending@
    }

    /// Whether the source is known to be exhausted.
    pub closed spec fn source_done(self) -> bool {
        !self.src_live
    }

    /// What `peek` returns: the character under the cursor, if any.
    pub open spec fn peek_spec(self) -> Option<char> {
        if self.pos() < self.input().len() {
            Some(self.input()[self.pos()])
        } else {
            None
        }
    }

    pub closed spec fn inv(self) -> bool {
        &&& self.all@.len() <= usize::MAX
        &&& self.src_pos <= self.src.len()
        &&& self.dropped + self.buf.len() + (self.src.len() - self.src_pos) == self.all@.len()
        &&& self.buf@ == self.all@.subrange(self.dropped as int, self.dropped + self.buf.len())
        &&& self.src@.skip(self.src_pos as int) == self.all@.skip(self.dropped + self.buf.len())
        &&& self.current == self.global - self.dropped
        &&& self.current <= self.buf.len()
        &&& (!self.src_live ==> self.src_pos == self.src.len())
        &&& (self.live == usize::MAX || self.live as int == self.pending@.len())
    }

    /// Well-formedness: established by the constructors and preserved by
    /// every method.
    pub open spec fn wf(self) -> bool {
        &&& self.inv()
        &&& 0 <= self.floor() <= self.pos() <= self.input().len() <= usize::MAX
        &&& forall|i: int|
            #[trigger] self.holds().count(i) > 0 ==> self.floor() <= i <= self.input().len()
    }

    fn from_char_vec(chars: Vec<char>) -> (st: ParseState)
        ensures
            st.wf(),
            st.input() == chars@,
            st.pos() == 0,
            st.floor() == 0,
            st.holds() == Multiset::<int>::empty(),
    {
        let st = ParseState {
            buf: Vec::new(),
            src: chars,
            src_pos: 0,
            src_live: true,
            global: 0,
            current: 0,
            dropped: 0,
            live: 0,
            all: Ghost(chars@),
            pending: Ghost(Multiset::empty()),
        };
        proof {
            assert(st.src.len() == st.src@.len());
            assert(st.buf@ =~= st.all@.subrange(0, 0));
            assert(st.src@.skip(0) =~= st.all@.skip(0));
        }
        st
    }

    /// Initialize a `ParseState` from a string.
    pub fn new(s: &str) -> (st: ParseState)
        ensures
            st.wf(),
            st.input() == s@,
            st.pos() == 0,
            st.floor() == 0,
            st.holds() == Multiset::<int>::empty(),
    {
        Self::from_char_vec(str_chars(s))
    }

    /// Initialize a `ParseState` from UTF-8 encoded bytes; malformed byte
    /// sequences are skipped rather than failing the whole stream.
    pub fn from_reader(bytes: &[u8]) -> (st: ParseState)
        ensures
            st.wf(),
            st.input() == utf8_chars_of(bytes@),
            st.pos() == 0,
            st.floor() == 0,
            st.holds() == Multiset::<int>::empty(),
    {
        Self::from_char_vec(decode_utf8(bytes))
    }

    /// Return the current absolute position in the input.
    pub fn index(&self) -> (ix: usize)
        ensures
            ix as int == self.pos(),
    {
        self.global
    }

    /// Returns true when the source is exhausted and the buffered input is
    /// fully consumed.
    pub fn finished(&self) -> (r: bool)
        requires
            self.wf(),
        ensures
            r == (self.source_done() && self.pos() == self.input().len()),
    {
        !self.src_live && self.current == self.buf.len()
    }

    /// Fill the buffer from the source with at most `n` characters; returns
    /// whether any character was moved.
    fn prefill(&mut self, n: usize) -> (got: bool)
        requires
            old(self).wf(),
        ensures
            final(self).wf(),
            final(self).input() == old(self).input(),
            final(self).pos() == old(self).pos(),
            final(self).floor() == old(self).floor(),
            final(self).holds() == old(self).holds(),
            final(self).source_done() == old(self).source_done(),
            final(self).current == old(self).current,
            final(self).buf@.len() >= old(self).buf@.len(),
            got == (n > 0 && old(self).src_pos < old(self).src@.len()),
            got ==> final(self).buf@.len() > old(self).buf@.len(),
    {
        let mut k: usize = 0;
        while k < n && self.src_pos < self.src.len()
            invariant
                old(self).wf(),
                self.inv(),
                k <= n,
                k == self.src_pos - old(self).src_pos,
                self.src_pos <= self.src.len(),
                self.buf@.len() == old(self).buf@.len() + k,
                self.all == old(self).all,
                self.src == old(self).src,
                self.global == old(self).global,
                self.current == old(self).current,
                self.dropped == old(self).dropped,
                self.live == old(self).live,
                self.src_live == old(self).src_live,
                self.pending == old(self).pending,
            decreases n - k,
        {
            let c = self.src[self.src_pos];
            proof {
                assert(self.src@.skip(self.src_pos as int)[0] == self.src@[self.src_pos as int]);
                assert(self.all@.skip(self.dropped + self.buf.len())[0] == self.all@[self.dropped
                    + self.buf.len()]);
                assert(self.buf@.push(c) =~= self.all@.subrange(
                    self.dropped as int,
                    self.dropped + self.buf.len() + 1,
                ));
                assert forall|j: int|
                    0 <= j < self.src@.skip(self.src_pos + 1).len() implies #[trigger] self.src@.skip(
                    self.src_pos + 1,
                )[j] == self.all@.skip(self.dropped + self.buf.len() + 1)[j] by {
                    assert(self.src@.skip(self.src_pos as int)[j + 1] == self.all@.skip(
                        self.dropped + self.buf@.len(),
                    )[j + 1]);
                }
                assert(self.src@.skip(self.src_pos + 1) =~= self.all@.skip(
                    self.dropped + self.buf.len() + 1,
                ));
            }
            self.buf.push(c);
            self.src_pos = self.src_pos + 1;
            k = k + 1;
        }
        proof {
            assert forall|i: int| #[trigger] self.holds().count(i) > 0 implies self.floor() <= i
                <= self.input().len() by {
                assert(old(self).holds().count(i) > 0);
            }
        }
        k > 0
    }

    /// Return and consume the next character of the input, or `None` at the
    /// end of the input.
    pub fn next(&mut self) -> (r: Option<char>)
        requires
            old(self).wf(),
        ensures
            final(self).wf(),
            final(self).input() == old(self).input(),
            final(self).floor() == old(self).floor(),
            final(self).holds() == old(self).holds(),
            old(self).pos() < old(self).input().len() ==> r == Some(
                old(self).input()[old(self).pos()],
            ) && final(self).pos() == old(self).pos() + 1,
            old(self).pos() == old(self).input().len() ==> r is None && final(self).pos() == old(
                self,
            ).pos() && final(self).source_done(),
    {
        if self.current < self.buf.len() {
            let c = self.buf[self.current];
            self.current = self.current + 1;
            self.global = self.global + 1;
            Some(c)
        } else {
            self.prefill(PREFILL_DEFAULT);
            if self.current < self.buf.len() {
                let c = self.buf[self.current];
                self.current = self.current + 1;
                self.global = self.global + 1;
                Some(c)
            } else {
                // The source is dry: mark it as finished.
                self.src_live = false;
                None
            }
        }
    }

    /// Return the next character of the input without advancing.
    pub fn peek(&mut self) -> (r: Option<char>)
        requires
            old(self).wf(),
        ensures
            final(self).wf(),
            final(self).input() == old(self).input(),
            final(self).pos() == old(self).pos(),
            final(self).floor() == old(self).floor(),
            final(self).holds() == old(self).holds(),
            r == old(self).peek_spec(),
    {
        if self.current < self.buf.len() {
            Some(self.buf[self.current])
        } else {
            self.prefill(PREFILL_DEFAULT);
            if self.current < self.buf.len() {
                Some(self.buf[self.current])
            } else {
                self.src_live = false;
                None
            }
        }
    }

    /// Rewind exactly one character; shorthand for using a hold to undo a
    /// single `next()`. Only positions above the retention floor can be
    /// rewound to.
    pub fn undo_next(&mut self)
        requires
            old(self).wf(),
            old(self).pos() > old(self).floor(),
        ensures
            final(self).wf(),
            final(self).input() == old(self).input(),
            final(self).pos() == old(self).pos() - 1,
            final(self).floor() == old(self).floor(),
            final(self).holds() == old(self).holds(),
            final(self).source_done() == old(self).source_done(),
    {
        self.current = self.current - 1;
        self.global = self.global - 1;
        proof {
            assert forall|i: int| #[trigger] self.holds().count(i) > 0 implies self.floor() <= i
                <= self.input().len() by {
                assert(old(self).holds().count(i) > 0);
            }
        }
    }

    /// Remember the current position in the input and protect it from buffer
    /// reclamation until the returned hold is resolved by `release` or
    /// `reset`.
    pub fn hold(&mut self) -> (h: Hold)
        requires
            old(self).wf(),
        ensures
            final(self).wf(),
            final(self).input() == old(self).input(),
            final(self).pos() == old(self).pos(),
            final(self).floor() == old(self).floor(),
            final(self).source_done() == old(self).source_done(),
            h.target() == old(self).pos(),
            final(self).holds() == old(self).holds().insert(old(self).pos()),
    {
        if self.live < usize::MAX {
            self.live = self.live + 1;
        }
        proof {
            self.pending@ = self.pending@.insert(self.global as int);
            assert(self.pending@.len() == old(self).pending@.len() + 1);
            assert forall|i: int| #[trigger] self.holds().count(i) > 0 implies self.floor() <= i
                <= self.input().len() by {
                if i != old(self).pos() {
                    assert(old(self).holds().count(i) == self.holds().count(i));
                }
            }
        }
        Hold::new(self.global)
    }

    /// Reclaim the buffer up to the cursor; only sound once no hold is
    /// outstanding.
    fn reclaim(&mut self)
        requires
            old(self).wf(),
            old(self).holds().len() == 0,
        ensures
            final(self).wf(),
            final(self).input() == old(self).input(),
            final(self).pos() == old(self).pos(),
            final(self).holds() == old(self).holds(),
            final(self).source_done() == old(self).source_done(),
            old(self).floor() <= final(self).floor() <= final(self).pos(),
    {
        let tail = self.buf.split_off(self.current);
        proof {
            assert(tail@ =~= self.all@.subrange(
                self.dropped + self.current,
                self.dropped + self.current + tail@.len(),
            ));
            assert(self.src@.skip(self.src_pos as int) =~= self.all@.skip(
                self.dropped + self.current + tail@.len(),
            ));
        }
        self.buf = tail;
        self.dropped = self.dropped + self.current;
        self.current = 0;
    }

    /// Notify the `ParseState` that a hold is no longer needed: consumption
    /// since the hold becomes permanent, and once no hold is outstanding the
    /// retention floor advances to the cursor and the buffer behind it is
    /// reclaimed.
    pub fn release(&mut self, h: Hold)
        requires
            old(self).wf(),
            old(self).holds().count(h.target()) > 0,
        ensures
            final(self).wf(),
            final(self).input() == old(self).input(),
            final(self).pos() == old(self).pos(),
            final(self).holds() == old(self).holds().remove(h.target()),
            final(self).source_done() == old(self).source_done(),
            old(self).floor() <= final(self).floor() <= final(self).pos(),
    {
        let mut h = h;
        h.defuse();
        proof {
            self.pending@ = self.pending@.remove(h.target());
        }
        if self.live < usize::MAX {
            self.live = self.live - 1;
            if self.live == 0 && self.current >= RECLAIM_THRESHOLD {
                self.reclaim();
            }
        }
    }

    /// Resolve a hold by rolling the cursor back to its position: the input
    /// consumed since the hold was taken will be served again.
    pub fn reset(&mut self, h: Hold)
        requires
            old(self).wf(),
            old(self).holds().count(h.target()) > 0,
            h.target() <= old(self).pos(),
        ensures
            final(self).wf(),
            final(self).input() == old(self).input(),
            final(self).pos() == h.target(),
            final(self).floor() == old(self).floor(),
            final(self).holds() == old(self).holds().remove(h.target()),
            final(self).source_done() == old(self).source_done(),
    {
        let mut h = h;
        let delta = self.global - h.ix;
        self.current = self.current - delta;
        self.global = h.ix;
        proof {
            self.pending@ = self.pending@.remove(h.target());
        }
        if self.live < usize::MAX {
            self.live = self.live - 1;
        }
        h.defuse();
    }

    /// Two streams over the same input and at the same position agree on
    /// `index()` and on what `peek()` and `next()` will serve: rolling back
    /// to a hold therefore restores exactly the observations that would have
    /// been made had no input been consumed since the hold was taken.
    pub proof fn lemma_rewind_restores(s1: ParseState, s2: ParseState)
        requires
            s1.input() == s2.input(),
            s1.pos() == s2.pos(),
        ensures
            s1.peek_spec() == s2.peek_spec(),
    {
    }
}

} // verus!
