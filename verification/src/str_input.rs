//! Text input over a `&str`, addressed by byte offsets that always fall on
//! character boundaries.
use vstd::prelude::*;
use vstd::utf8::*;
use vstd::string::*;
use crate::input::Input;

verus! {

broadcast use {vstd::utf8::encode_utf8_valid_utf8, vstd::utf8::encode_utf8_decode_utf8};

/// Number of bytes in the UTF-8 encoding of a sequence of characters.
pub open spec fn byte_len(s: Seq<char>) -> nat {
    encode_utf8(s).len()
}

/// Number of bytes in the UTF-8 encoding of one character.
pub open spec fn char_width(c: char) -> nat {
    encode_scalar(c as u32).len()
}

/// `pos` is the byte offset of the start of some character of `s` (or of its end).
pub open spec fn is_boundary(s: Seq<char>, pos: int) -> bool {
    exists|k: int| 0 <= k <= s.len() && byte_len(s.take(k)) == pos
}

/// The character index at byte offset `pos`, when `pos` is a boundary.
pub open spec fn char_index(s: Seq<char>, pos: int) -> int {
    choose|k: int| 0 <= k <= s.len() && byte_len(s.take(k)) == pos
}

/// Encoding distributes over concatenation.
pub proof fn lemma_encode_concat(a: Seq<char>, b: Seq<char>)
    ensures
        encode_utf8(a + b) == encode_utf8(a) + encode_utf8(b),
    decreases a.len(),
{
    if a.len() == 0 {
        assert(a + b =~= b);
        assert(encode_utf8(a) =~= Seq::<u8>::empty());
        assert(encode_utf8(a) + encode_utf8(b) =~= encode_utf8(b));
    } else {
        lemma_encode_concat(a.drop_first(), b);
        assert((a + b).drop_first() =~= a.drop_first() + b);
        assert((a + b)[0] == a[0]);
        assert(encode_utf8(a + b) =~= encode_scalar(a[0] as u32) + (encode_utf8(a.drop_first())
            + encode_utf8(b)));
    }
}

/// Every character takes between one and four bytes.
pub proof fn lemma_char_width(c: char)
    ensures
        1 <= char_width(c) <= 4,
        char_width(c) == 1 <==> (c as u32) < 0x80,
{
    char_is_scalar(c);
}

/// The encoding of a single character.
pub proof fn lemma_encode_single(c: char)
    ensures
        encode_utf8(seq![c]) == encode_scalar(c as u32),
{
    reveal_with_fuel(encode_utf8, 2);
    assert(seq![c].drop_first() =~= Seq::<char>::empty());
    assert(encode_scalar(c as u32) + Seq::<u8>::empty() =~= encode_scalar(c as u32));
}

/// Byte length of a prefix grows by the width of the next character.
pub proof fn lemma_byte_len_take_step(s: Seq<char>, k: int)
    requires
        0 <= k < s.len(),
    ensures
        byte_len(s.take(k + 1)) == byte_len(s.take(k)) + char_width(s[k]),
{
    assert(s.take(k + 1) =~= s.take(k) + seq![s[k]]);
    lemma_encode_concat(s.take(k), seq![s[k]]);
    lemma_encode_single(s[k]);
}

/// Byte length is additive.
pub proof fn lemma_byte_len_concat(a: Seq<char>, b: Seq<char>)
    ensures
        byte_len(a + b) == byte_len(a) + byte_len(b),
{
    lemma_encode_concat(a, b);
}

/// Byte length of prefixes is strictly increasing in the number of characters.
pub proof fn lemma_byte_len_take_mono(s: Seq<char>, i: int, j: int)
    requires
        0 <= i <= j <= s.len(),
    ensures
        byte_len(s.take(i)) + (j - i) <= byte_len(s.take(j)),
    decreases j - i,
{
    if i < j {
        lemma_byte_len_take_mono(s, i, j - 1);
        lemma_byte_len_take_step(s, j - 1);
        lemma_char_width(s[j - 1]);
    }
}

/// A boundary determines its character index.
pub proof fn lemma_char_index_unique(s: Seq<char>, k1: int, k2: int)
    requires
        0 <= k1 <= s.len(),
        0 <= k2 <= s.len(),
        byte_len(s.take(k1)) == byte_len(s.take(k2)),
    ensures
        k1 == k2,
{
    if k1 < k2 {
        lemma_byte_len_take_mono(s, k1, k2);
    } else if k2 < k1 {
        lemma_byte_len_take_mono(s, k2, k1);
    }
}

/// The character index of a boundary is the one that produced it.
pub proof fn lemma_char_index_of(s: Seq<char>, k: int)
    requires
        0 <= k <= s.len(),
    ensures
        is_boundary(s, byte_len(s.take(k)) as int),
        char_index(s, byte_len(s.take(k)) as int) == k,
{
    let p = byte_len(s.take(k)) as int;
    assert(0 <= k <= s.len() && byte_len(s.take(k)) == p);
    let k2 = char_index(s, p);
    lemma_char_index_unique(s, k, k2);
}

/// Splitting the encoding after the encoding of a prefix splits at a character boundary.
pub proof fn lemma_prefix_is_char_boundary(a: Seq<char>, b: Seq<char>)
    ensures
        is_char_boundary(encode_utf8(a + b), encode_utf8(a).len() as int),
    decreases a.len(),
{
    let bytes = encode_utf8(a + b);
    lemma_encode_concat(a, b);
    if a.len() == 0 {
    } else {
        let ab = a + b;
        encode_utf8_first_scalar(ab);
        let w = encode_scalar(ab[0] as u32).len() as int;
        assert(ab[0] == a[0]);
        assert(pop_first_scalar(bytes) =~= encode_utf8(ab.drop_first()));
        assert(ab.drop_first() =~= a.drop_first() + b);
        lemma_prefix_is_char_boundary(a.drop_first(), b);
        lemma_char_width(a[0]);
        assert(encode_utf8(a).len() == w + encode_utf8(a.drop_first()).len());
    }
}

/// Two strings with the same encoding are equal.
pub proof fn lemma_encode_injective(x: Seq<char>, y: Seq<char>)
    requires
        encode_utf8(x) == encode_utf8(y),
    ensures
        x == y,
{
    assert(decode_utf8(encode_utf8(x)) == x);
    assert(decode_utf8(encode_utf8(y)) == y);
}

/// Width in bytes of the UTF-8 encoding of `c`.
pub fn len_utf8(c: char) -> (n: usize)
    ensures
        n == char_width(c),
        1 <= n <= 4,
{
    proof {
        char_is_scalar(c);
    }
    let v = c as u32;
    if v < 0x80 {
        1
    } else if v < 0x800 {
        2
    } else if v < 0x10000 {
        3
    } else {
        4
    }
}

/// Splits `s` after its first `k` characters, given the byte offset `pos` of that point.
pub fn split_at_boundary<'a>(s: &'a str, pos: usize, Ghost(k): Ghost<int>) -> (res: (&'a str, &'a str))
    requires
        0 <= k <= s@.len(),
        byte_len(s@.take(k)) == pos,
    ensures
        res.0@ == s@.take(k),
        res.1@ == s@.skip(k),
{
    proof {
        assert(s@ =~= s@.take(k) + s@.skip(k));
        lemma_prefix_is_char_boundary(s@.take(k), s@.skip(k));
        lemma_encode_concat(s@.take(k), s@.skip(k));
    }
    let res = s.split_at(pos);
    proof {
        let bytes = s.spec_bytes();
        assert(res.0.spec_bytes() =~= encode_utf8(s@.take(k)));
        assert(res.1.spec_bytes() =~= encode_utf8(s@.skip(k)));
        lemma_encode_injective(res.0@, s@.take(k));
        lemma_encode_injective(res.1@, s@.skip(k));
    }
    res
}

} // verus!

verus! {

/// A saved position of a `StrInput`: the byte offset it was taken at.
#[derive(Clone, Copy, Debug, PartialEq, Eq, PartialOrd, Ord, Hash, Structural)]
pub struct Checkpoint {
    pub offset: usize,
}

/// Text input: a source string and a byte offset into it that always lies on
/// a character boundary.
#[derive(Clone, Copy, Debug)]
pub struct StrInput<'a> {
    src: &'a str,
    pos: usize,
}

impl<'a> StrInput<'a> {
    /// The position lies on a character boundary of the source.
    pub closed spec fn wf(&self) -> bool {
        &&& is_boundary(self.src@, self.pos as int)
        &&& byte_len(self.src@) <= usize::MAX
    }

    /// The whole source text.
    pub closed spec fn text(&self) -> Seq<char> {
        self.src@
    }

    /// Byte offset of the current position.
    pub closed spec fn pos(&self) -> int {
        self.pos as int
    }

    /// Number of characters consumed so far.
    pub closed spec fn index(&self) -> int {
        char_index(self.src@, self.pos as int)
    }

    /// The characters not yet consumed.
    pub open spec fn rest(&self) -> Seq<char> {
        self.text().skip(self.index())
    }

    /// The state of the same source at character index `k`.
    pub closed spec fn at_index(&self, k: int) -> StrInput<'a> {
        StrInput { src: self.src, pos: byte_len(self.src@.take(k)) as usize }
    }

    /// Facts that always hold of a `StrInput`.
    pub proof fn lemma_wf(&self)
        requires
            self.wf(),
        ensures
            0 <= self.index() <= self.text().len(),
            self.pos() == byte_len(self.text().take(self.index())),
            self.rest().len() == self.text().len() - self.index(),
            0 <= self.pos() <= byte_len(self.text()) <= usize::MAX,
            self.pos() + byte_len(self.rest()) == byte_len(self.text()),
    {
        let k = char_index(self.src@, self.pos as int);
        assert(self.src@ =~= self.src@.take(k) + self.src@.skip(k));
        lemma_byte_len_concat(self.src@.take(k), self.src@.skip(k));
        lemma_byte_len_take_mono(self.src@, k, self.src@.len() as int);
        assert(self.src@.take(self.src@.len() as int) =~= self.src@);
    }

    /// Moving to character index `k` of the same source.
    pub proof fn lemma_at_index(&self, k: int)
        requires
            0 <= k <= self.text().len(),
            self.wf(),
        ensures
            self.at_index(k).wf(),
            self.at_index(k).text() == self.text(),
            self.at_index(k).index() == k,
            self.at_index(k).pos() == byte_len(self.text().take(k)),
            self.at_index(k).rest() == self.text().skip(k),
            is_boundary(self.text(), self.at_index(k).pos()),
    {
        lemma_char_index_of(self.src@, k);
        lemma_byte_len_take_mono(self.src@, k, self.src@.len() as int);
        assert(self.src@.take(self.src@.len() as int) =~= self.src@);
    }

    /// Creates an input positioned at the start of `src`.
    pub fn new(src: &'a str) -> (r: StrInput<'a>)
        ensures
            r.wf(),
            r.text() == src@,
            r.index() == 0,
            r.pos() == 0,
    {
        let _n = str_byte_len(src);
        proof {
            assert(src@.take(0) =~= Seq::<char>::empty());
            lemma_char_index_of(src@, 0);
        }
        StrInput { src, pos: 0 }
    }

    /// The unconsumed part of the source.
    pub fn remaining(&self) -> (r: &'a str)
        requires
            self.wf(),
        ensures
            r@ == self.rest(),
    {
        let ghost k = char_index(self.src@, self.pos as int);
        let (_, rest) = split_at_boundary(self.src, self.pos, Ghost(k));
        rest
    }

    /// The unconsumed part of the source (same as `remaining`).
    pub fn as_str(&self) -> (r: &'a str)
        requires
            self.wf(),
        ensures
            r@ == self.rest(),
    {
        self.remaining()
    }

    /// Moves forward by `n` bytes, which must cover exactly the next `j` characters.
    pub fn advance(&mut self, n: usize, Ghost(j): Ghost<int>)
        requires
            old(self).wf(),
            0 <= j <= old(self).rest().len(),
            n == byte_len(old(self).rest().take(j)),
        ensures
            final(self).wf(),
            *final(self) == old(self).at_index(old(self).index() + j),
            final(self).text() == old(self).text(),
            final(self).index() == old(self).index() + j,
            final(self).pos() == old(self).pos() + n,
            final(self).rest() == old(self).rest().skip(j),
    {
        proof {
            let s = self.src@;
            let k = char_index(s, self.pos as int);
            assert(s.take(k + j) =~= s.take(k) + s.skip(k).take(j));
            lemma_byte_len_concat(s.take(k), s.skip(k).take(j));
            self.lemma_at_index(k + j);
            assert(s.skip(k).skip(j) =~= s.skip(k + j));
        }
        self.pos = self.pos + n;
    }
}

/// The byte length of a `str` (which fits in `usize`).
pub fn str_byte_len(s: &str) -> (n: usize)
    ensures
        n == byte_len(s@),
{
    let b = s.as_bytes();
    b.len()
}

} // verus!

verus! {

impl<'a> Input for StrInput<'a> {
    type Checkpoint = Checkpoint;

    open spec fn wf(&self) -> bool {
        StrInput::wf(self)
    }

    open spec fn spec_offset(&self) -> int {
        self.pos()
    }

    open spec fn spec_end(&self) -> int {
        byte_len(self.text()) as int
    }

    open spec fn spec_is_eof(&self) -> bool {
        self.rest().len() == 0
    }

    open spec fn spec_checkpoint(&self) -> Checkpoint {
        Checkpoint { offset: self.pos() as usize }
    }

    open spec fn can_reset(&self, cp: Checkpoint) -> bool {
        is_boundary(self.text(), cp.offset as int)
    }

    closed spec fn spec_reset(&self, cp: Checkpoint) -> StrInput<'a> {
        StrInput { src: self.src, pos: cp.offset }
    }

    closed spec fn advanced(&self, later: StrInput<'a>) -> bool {
        &&& StrInput::wf(self)
        &&& StrInput::wf(&later)
        &&& self.src == later.src
        &&& self.pos <= later.pos
    }

    proof fn lemma_advanced_wf(a: StrInput<'a>, b: StrInput<'a>) {
    }

    proof fn lemma_offset_bound(&self) {
        self.lemma_wf();
    }

    proof fn lemma_advanced_refl(&self) {
    }

    proof fn lemma_advanced_trans(a: StrInput<'a>, b: StrInput<'a>, c: StrInput<'a>) {
    }

    proof fn lemma_reset_restores(a: StrInput<'a>, b: StrInput<'a>) {
    }

    fn offset(&self) -> (r: usize) {
        self.pos
    }

    fn is_eof(&self) -> (r: bool) {
        proof {
            self.lemma_wf();
            let k = self.index();
            let n = self.text().len() as int;
            assert(self.text().take(n) =~= self.text());
            if k < n {
                lemma_byte_len_take_mono(self.text(), k + 1, n);
                lemma_byte_len_take_mono(self.text(), k, k + 1);
            }
        }
        self.pos == str_byte_len(self.src)
    }

    fn checkpoint(&self) -> (cp: Checkpoint) {
        Checkpoint { offset: self.pos }
    }

    fn reset(&mut self, cp: Checkpoint) {
        proof {
            self.lemma_wf();
        }
        self.pos = cp.offset;
    }
}

impl<'a> StrInput<'a> {
    /// Moving forward to a later index of the same source is an advance.
    pub proof fn lemma_at_index_advanced(&self, k: int)
        requires
            self.wf(),
            self.index() <= k <= self.text().len(),
        ensures
            self.advanced(self.at_index(k)),
    {
        self.lemma_wf();
        self.lemma_at_index(k);
        lemma_byte_len_take_mono(self.text(), self.index(), k);
    }
}

} // verus!

verus! {

/// Splits off the first character of a non-empty string.
pub fn split_first_char<'a>(s: &'a str) -> (res: (char, &'a str))
    requires
        s@.len() > 0,
    ensures
        res.0 == s@[0],
        res.1@ == s@.skip(1),
        byte_len(s@.take(1)) == char_width(res.0),
{
    let c = s.get_char(0);
    let w = len_utf8(c);
    proof {
        assert(s@.take(1) =~= seq![c]);
        lemma_encode_single(c);
    }
    let (_, rest) = split_at_boundary(s, w, Ghost(1));
    (c, rest)
}

/// Whether `s` begins with `prefix`.
pub fn str_starts_with(s: &str, prefix: &str) -> (b: bool)
    ensures
        b == (prefix@.len() <= s@.len() && s@.take(prefix@.len() as int) == prefix@),
{
    let mut a = s;
    let mut p = prefix;
    let ghost mut i: int = 0;
    while !p.is_empty()
        invariant
            0 <= i <= prefix@.len(),
            i <= s@.len(),
            a@ == s@.skip(i),
            p@ == prefix@.skip(i),
            s@.take(i) == prefix@.take(i),
        decreases p@.len(),
    {
        if a.is_empty() {
            return false;
        }
        let (c1, a2) = split_first_char(a);
        let (c2, p2) = split_first_char(p);
        if c1 != c2 {
            proof {
                assert(s@[i] == c1 && prefix@[i] == c2);
                if prefix@.len() <= s@.len() && s@.take(prefix@.len() as int) == prefix@ {
                    assert(s@.take(prefix@.len() as int)[i] == s@[i]);
                }
            }
            return false;
        }
        proof {
            assert(s@.take(i + 1) =~= s@.take(i).push(c1));
            assert(prefix@.take(i + 1) =~= prefix@.take(i).push(c2));
            assert(a2@ =~= s@.skip(i + 1));
            assert(p2@ =~= prefix@.skip(i + 1));
            i = i + 1;
        }
        a = a2;
        p = p2;
    }
    proof {
        assert(prefix@.take(i) =~= prefix@);
    }
    true
}

} // verus!
