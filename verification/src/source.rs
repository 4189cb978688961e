//! Byte ranges into a source text.
//!
//! The parsers count characters; a `SourceRange` counts the bytes of the
//! UTF-8 text it was cut from. This module relates the two and proves that a
//! range taken between two character positions can be cut out again and
//! yields exactly the characters between them.

use vstd::prelude::*;
use vstd::string::*;
use vstd::utf8::*;

verus! {

/// A half-open range of byte offsets into a source text.
#[derive(Debug, Clone, Copy, PartialEq, Eq, Structural)]
pub struct SourceRange {
    pub start: usize,
    pub end: usize,
}

/// The number of bytes that the first `i` characters of `s` take.
pub open spec fn byte_pos(s: Seq<char>, i: int) -> int {
    encode_utf8(s.subrange(0, i)).len() as int
}

/// The number of bytes that `c` takes.
pub open spec fn char_width(c: char) -> int {
    encode_scalar(c as u32).len() as int
}

/// The byte range of the characters `s[a..b]`.
pub open spec fn span(s: Seq<char>, a: int, b: int) -> SourceRange {
    SourceRange { start: byte_pos(s, a) as usize, end: byte_pos(s, b) as usize }
}

impl SourceRange {
    /// Whether the range lies within `source` and cuts no character in two.
    pub open spec fn fits(&self, source: Seq<char>) -> bool {
        let bytes = encode_utf8(source);
        &&& self.start <= self.end <= bytes.len()
        &&& is_char_boundary(bytes, self.start as int)
        &&& is_char_boundary(bytes, self.end as int)
    }

    /// The characters that the range covers in `source`.
    pub open spec fn text(&self, source: Seq<char>) -> Seq<char> {
        decode_utf8(encode_utf8(source).subrange(self.start as int, self.end as int))
    }

    /// Whether the range lies within `source` and cuts no character in two.
    pub fn fits_in(&self, source: &str) -> (b: bool)
        ensures
            b == self.fits(source@),
    {
        let n = source.as_bytes().len();
        self.start <= self.end && self.end <= n && source.is_char_boundary(self.start)
            && source.is_char_boundary(self.end)
    }

    /// The part of `source` that the range covers.
    pub fn slice<'a>(&self, source: &'a str) -> (r: &'a str)
        requires
            self.fits(source@),
        ensures
            r@ == self.text(source@),
    {
        let (head, _) = source.split_at(self.end);
        proof {
            let bytes = encode_utf8(source@);
            encode_utf8_valid_utf8(source@);
            lemma_boundary_in_prefix(bytes, self.start as int, self.end as int);
        }
        let (_, r) = head.split_at(self.start);
        proof {
            let bytes = encode_utf8(source@);
            assert(r.spec_bytes() =~= bytes.subrange(self.start as int, self.end as int));
            encode_utf8_decode_utf8(r@);
        }
        r
    }
}

/// Encoding a concatenation gives the concatenation of the encodings.
pub proof fn lemma_encode_concat(a: Seq<char>, b: Seq<char>)
    ensures
        encode_utf8(a + b) == encode_utf8(a) + encode_utf8(b),
    decreases a.len(),
{
    if a.len() == 0 {
        assert(a + b =~= b);
        assert(encode_utf8(a) + encode_utf8(b) =~= encode_utf8(b));
    } else {
        lemma_encode_concat(a.drop_first(), b);
        assert((a + b).drop_first() =~= a.drop_first() + b);
        assert((a + b)[0] == a[0]);
        assert(encode_utf8(a + b) =~= encode_utf8(a) + encode_utf8(b));
    }
}

/// A position between two valid positions of a valid text is also one of
/// the text's prefix that ends at the later position.
pub proof fn lemma_boundary_in_prefix(bytes: Seq<u8>, p: int, q: int)
    requires
        valid_utf8(bytes),
        0 <= p <= q <= bytes.len(),
        is_char_boundary(bytes, p),
        is_char_boundary(bytes, q),
    ensures
        valid_utf8(bytes.subrange(0, q)),
        is_char_boundary(bytes.subrange(0, q), p),
{
    let prefix = bytes.subrange(0, q);
    valid_utf8_split(bytes, q);
    if p == q {
        is_char_boundary_start_end_of_seq(prefix);
    } else {
        is_char_boundary_iff_not_is_continuation_byte(bytes, p);
        assert(prefix[p] == bytes[p]);
        is_char_boundary_iff_not_is_continuation_byte(prefix, p);
    }
}

/// What holds of the byte position of a character position: it is a place
/// where the text can be cut, and the bytes on either side of it are the
/// encodings of the characters on either side.
pub proof fn lemma_byte_pos(s: Seq<char>, i: int)
    requires
        0 <= i <= s.len(),
    ensures
        0 <= byte_pos(s, i) <= encode_utf8(s).len(),
        is_char_boundary(encode_utf8(s), byte_pos(s, i)),
        encode_utf8(s).subrange(0, byte_pos(s, i)) == encode_utf8(s.subrange(0, i)),
        encode_utf8(s).subrange(byte_pos(s, i), encode_utf8(s).len() as int) == encode_utf8(
            s.subrange(i, s.len() as int),
        ),
{
    let bytes = encode_utf8(s);
    let head = s.subrange(0, i);
    let tail = s.subrange(i, s.len() as int);
    let k = byte_pos(s, i);
    assert(s =~= head + tail);
    lemma_encode_concat(head, tail);
    assert(bytes.subrange(0, k) =~= encode_utf8(head));
    assert(bytes.subrange(k, bytes.len() as int) =~= encode_utf8(tail));
    encode_utf8_valid_utf8(s);
    if k == bytes.len() {
        is_char_boundary_start_end_of_seq(bytes);
    } else {
        let rest = encode_utf8(tail);
        encode_utf8_valid_utf8(tail);
        assert(rest.len() > 0);
        assert(is_char_boundary(rest, 0));
        is_char_boundary_iff_not_is_continuation_byte(rest, 0);
        assert(bytes[k] == rest[0]);
        is_char_boundary_iff_not_is_continuation_byte(bytes, k);
    }
}

/// Byte positions grow with character positions.
pub proof fn lemma_byte_pos_monotonic(s: Seq<char>, a: int, b: int)
    requires
        0 <= a <= b <= s.len(),
    ensures
        byte_pos(s, a) <= byte_pos(s, b),
        byte_pos(s, b) - byte_pos(s, a) == encode_utf8(s.subrange(a, b)).len(),
{
    let head = s.subrange(0, a);
    let mid = s.subrange(a, b);
    assert(s.subrange(0, b) =~= head + mid);
    lemma_encode_concat(head, mid);
}

/// The byte position after a character is the one before it plus the
/// character's width.
pub proof fn lemma_byte_pos_step(s: Seq<char>, i: int)
    requires
        0 <= i < s.len(),
    ensures
        byte_pos(s, i + 1) == byte_pos(s, i) + char_width(s[i]),
        char_width(s[i]) >= 1,
{
    lemma_byte_pos_monotonic(s, i, i + 1);
    let one = s.subrange(i, i + 1);
    assert(one.drop_first() =~= Seq::<char>::empty());
    assert(encode_utf8(one) =~= encode_scalar(s[i] as u32)) by {
        reveal_with_fuel(encode_utf8, 2);
    }
}

/// The bytes between the byte positions of two character positions hold
/// exactly the characters between them.
pub proof fn lemma_text_between(s: Seq<char>, a: int, b: int)
    requires
        0 <= a <= b <= s.len(),
    ensures
        decode_utf8(encode_utf8(s).subrange(byte_pos(s, a), byte_pos(s, b))) == s.subrange(a, b),
{
    let bytes = encode_utf8(s);
    lemma_byte_pos(s, a);
    lemma_byte_pos(s, b);
    lemma_byte_pos_monotonic(s, a, b);
    let p = byte_pos(s, a);
    let q = byte_pos(s, b);
    let head = s.subrange(0, a);
    let mid = s.subrange(a, b);
    assert(s.subrange(0, b) =~= head + mid);
    lemma_encode_concat(head, mid);
    assert(bytes.subrange(0, q) == encode_utf8(head) + encode_utf8(mid));
    assert(bytes.subrange(p, q) =~= bytes.subrange(0, q).subrange(p, q));
    assert(bytes.subrange(p, q) =~= encode_utf8(mid));
    encode_utf8_decode_utf8(mid);
}

/// The byte range between two character positions fits the text, and covers
/// exactly the characters between them.
pub proof fn lemma_span(s: Seq<char>, a: int, b: int)
    requires
        0 <= a <= b <= s.len(),
        encode_utf8(s).len() <= usize::MAX,
    ensures
        span(s, a, b).fits(s),
        span(s, a, b).text(s) == s.subrange(a, b),
        span(s, a, b).start == byte_pos(s, a),
        span(s, a, b).end == byte_pos(s, b),
{
    lemma_byte_pos(s, a);
    lemma_byte_pos(s, b);
    lemma_byte_pos_monotonic(s, a, b);
    lemma_text_between(s, a, b);
}

/// The number of bytes that `c` takes.
pub fn utf8_width(c: char) -> (w: usize)
    ensures
        w == char_width(c),
        1 <= w <= 4,
{
    proof {
        char_is_scalar(c);
    }
    let v: u32 = c as u32;
    if v < 0x80 {
        1
    } else if v < 0x800 {
        2
    } else if v < 0x10000 {
        3
    } else {
        4
    }
}

/// Whether `table` holds the byte position of every character position of
/// `s`, the one past the last character included.
pub open spec fn is_offset_table(table: Seq<usize>, s: Seq<char>) -> bool {
    &&& table.len() == s.len() + 1
    &&& encode_utf8(s).len() <= usize::MAX
    &&& forall|i: int| 0 <= i <= s.len() ==> #[trigger] table[i] == byte_pos(s, i)
}

/// The byte position of every character position of `source`.
pub fn offset_table(source: &str, text: &Vec<char>) -> (table: Vec<usize>)
    requires
        text@ == source@,
    ensures
        is_offset_table(table@, text@),
{
    let total: usize = source.as_bytes().len();
    let mut table: Vec<usize> = Vec::new();
    let mut at: usize = 0;
    let mut i: usize = 0;
    assert(text@.subrange(0, 0) =~= Seq::<char>::empty());
    while i < text.len()
        invariant
            i <= text@.len(),
            total == encode_utf8(text@).len(),
            table@.len() == i,
            at == byte_pos(text@, i as int),
            forall|k: int| 0 <= k < i ==> #[trigger] table@[k] == byte_pos(text@, k),
        decreases text@.len() - i,
    {
        table.push(at);
        let w = utf8_width(text[i]);
        proof {
            lemma_byte_pos_step(text@, i as int);
            lemma_byte_pos(text@, i + 1);
        }
        at = at + w;
        i = i + 1;
    }
    table.push(at);
    table
}

/// The byte range of the characters `a..b`.
pub fn range_from(table: &Vec<usize>, Ghost(s): Ghost<Seq<char>>, a: usize, b: usize) -> (r:
    SourceRange)
    requires
        is_offset_table(table@, s),
        a <= b <= s.len(),
    ensures
        r == span(s, a as int, b as int),
        r.fits(s),
        r.text(s) == s.subrange(a as int, b as int),
        r.start == byte_pos(s, a as int),
        r.end == byte_pos(s, b as int),
{
    proof {
        lemma_span(s, a as int, b as int);
    }
    SourceRange { start: table[a], end: table[b] }
}

} // verus!
