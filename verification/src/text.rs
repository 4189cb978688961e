//! Characters and character sequences: classification, scanning, and the
//! conversions between `String` and `Vec<char>` that the parsers work on.
//!
//! Every scanner reads a window `[pos, end)` of a character sequence and is
//! specified by a recursive function over that same window.

use crate::source::{
    byte_pos, lemma_byte_pos_monotonic, lemma_byte_pos_step, lemma_encode_concat,
};
use vstd::prelude::*;
use vstd::std_specs::iter::IteratorSpec;
use vstd::string::*;
use vstd::utf8::*;

verus! {

broadcast use vstd::string::group_string_axioms;

/// What `char::is_whitespace` answers for a character.
pub uninterp spec fn white_space(c: char) -> bool;

/// What `char::is_alphanumeric` answers for a character.
pub uninterp spec fn alphanumeric(c: char) -> bool;

/// What `char::is_alphabetic` answers for a character.
pub uninterp spec fn alphabetic(c: char) -> bool;

/// Whether an ASCII character is white space: the blank, and the five
/// characters from the tab to the carriage return.
pub open spec fn ascii_white_space(c: char) -> bool {
    c == ' ' || ('\t' <= c && c <= '\r')
}

/// Whether an ASCII character is a letter.
pub open spec fn ascii_letter(c: char) -> bool {
    ('a' <= c && c <= 'z') || ('A' <= c && c <= 'Z')
}

/// Whether an ASCII character is a letter or a digit.
pub open spec fn ascii_letter_or_digit(c: char) -> bool {
    ascii_letter(c) || ('0' <= c && c <= '9')
}

/// Whether a character is white space: for an ASCII character by the list
/// above, for any other as `char::is_whitespace` answers.
pub open spec fn is_white(c: char) -> bool {
    if c <= '\u{7f}' {
        ascii_white_space(c)
    } else {
        white_space(c)
    }
}

/// Whether a character is a letter: for an ASCII character by the list
/// above, for any other as `char::is_alphabetic` answers.
pub open spec fn is_letter(c: char) -> bool {
    if c <= '\u{7f}' {
        ascii_letter(c)
    } else {
        alphabetic(c)
    }
}

/// Whether a character is a letter or a digit: for an ASCII character by
/// the list above, for any other as `char::is_alphanumeric` answers.
pub open spec fn is_letter_or_digit(c: char) -> bool {
    if c <= '\u{7f}' {
        ascii_letter_or_digit(c)
    } else {
        alphanumeric(c)
    }
}

/// Calls `char::is_whitespace`, which tells whether the character has the
/// property `White_Space` of Unicode. The contract names its answer, and
/// says what the answer is for the ASCII characters, of which that property
/// holds the blank, tab, line feed, vertical tab, form feed and carriage
/// return.
#[verifier::external_body]
pub(crate) fn is_whitespace(c: char) -> (b: bool)
    ensures
        b == white_space(c),
        c <= '\u{7f}' ==> b == ascii_white_space(c),
{
    c.is_whitespace()
}

/// Calls `char::is_alphanumeric`, which tells whether the character has the
/// property `Alphabetic` of Unicode or is of one of its number categories.
/// The contract names its answer, and says what the answer is for the ASCII
/// characters, of which these hold the letters and the digits.
#[verifier::external_body]
pub(crate) fn is_alphanumeric(c: char) -> (b: bool)
    ensures
        b == alphanumeric(c),
        c <= '\u{7f}' ==> b == ascii_letter_or_digit(c),
{
    c.is_alphanumeric()
}

/// Calls `char::is_alphabetic`, which tells whether the character has the
/// property `Alphabetic` of Unicode. The contract names its answer, and
/// says what the answer is for the ASCII characters, of which that property
/// holds the letters.
#[verifier::external_body]
pub(crate) fn is_alphabetic(c: char) -> (b: bool)
    ensures
        b == alphabetic(c),
        c <= '\u{7f}' ==> b == ascii_letter(c),
{
    c.is_alphabetic()
}

/// Calls `String::push`, which appends one character to the string.
#[verifier::external_body]
pub(crate) fn push_char(s: &mut String, c: char)
    ensures
        final(s)@ == old(s)@.push(c),
{
    s.push(c)
}

/// Whether the string has a last character and it is `c`. Only the last
/// character is looked at, however long the string is.
pub fn ends_with_char(s: &str, c: char) -> (b: bool)
    ensures
        b == (s@.len() > 0 && s@.last() == c),
{
    if s.is_empty() {
        return false;
    }
    let n = s.as_bytes().len();
    let ghost bytes = encode_utf8(s@);
    proof {
        lemma_byte_pos_step(s@, 0);
        lemma_byte_pos_monotonic(s@, 0, 1);
        lemma_byte_pos_monotonic(s@, 1, s@.len() as int);
        assert(s@.subrange(0, s@.len() as int) =~= s@);
        assert(byte_pos(s@, s@.len() as int) == bytes.len());
        assert(byte_pos(s@, 0) >= 0);
        assert(n >= 1);
        encode_utf8_valid_utf8(s@);
        is_char_boundary_start_end_of_seq(bytes);
    }
    // The last character starts at the last place before the end where
    // the bytes can be cut.
    let mut p: usize = n - 1;
    while p > 0 && !s.is_char_boundary(p)
        invariant
            p < n,
        decreases p,
    {
        p = p - 1;
    }
    let (head, tail) = s.split_at(p);
    let m = tail.unicode_len();
    proof {
        lemma_encode_concat(head@, tail@);
        assert(encode_utf8(head@ + tail@) =~= bytes);
        encode_utf8_decode_utf8(head@ + tail@);
        encode_utf8_decode_utf8(s@);
        assert(s@ == head@ + tail@);
        if m == 0 {
            assert(tail@ =~= Seq::<char>::empty());
            assert(encode_utf8(tail@).len() == 0);
            assert(bytes.subrange(p as int, n as int).len() == n - p);
        }
    }
    tail.get_char(m - 1) == c
}

/// The sets of characters that the grammar distinguishes.
#[derive(Clone, Copy, Debug, PartialEq, Eq)]
pub enum CharClass {
    /// A space or a tab.
    Blank,
    /// `0` to `9`.
    Digit,
    /// `A` to `Z`.
    Upper,
    /// An ASCII letter.
    AsciiLetter,
    /// An ASCII letter or digit, or `_`: what a directive's key is made of.
    KeyChar,
    /// `A` to `Z`, `_` or `-`: what a property's key is made of.
    PropertyChar,
    /// What a tag is made of.
    TagChar,
    /// A letter of any script.
    Letter,
    /// Unicode white space.
    White,
    /// Anything but Unicode white space.
    NonWhite,
    /// Neither `\r` nor `\n`.
    InLine,
    /// What a literal text chunk is made of: no character that may open
    /// another inline element.
    Plain,
    /// What the body of a bare link is made of.
    LinkBody,
    /// The one character given.
    Only(char),
    /// Every character but the one given.
    Except(char),
}

impl CharClass {
    pub open spec fn has(self, c: char) -> bool {
        match self {
            CharClass::Blank => c == ' ' || c == '\t',
            CharClass::Digit => '0' <= c && c <= '9',
            CharClass::Upper => 'A' <= c && c <= 'Z',
            CharClass::AsciiLetter => ('A' <= c && c <= 'Z') || ('a' <= c && c <= 'z'),
            CharClass::KeyChar => ('A' <= c && c <= 'Z') || ('a' <= c && c <= 'z') || ('0' <= c
                && c <= '9') || c == '_',
            CharClass::PropertyChar => ('A' <= c && c <= 'Z') || c == '_' || c == '-',
            CharClass::TagChar => is_letter_or_digit(c) || c == '_' || c == '-' || c == '@' || c == '+',
            CharClass::Letter => is_letter(c),
            CharClass::White => is_white(c),
            CharClass::NonWhite => !is_white(c),
            CharClass::InLine => c != '\r' && c != '\n',
            CharClass::Plain => !(c == '[' || c == '<' || c == '*' || c == '/' || c == '_' || c
                == '+' || c == '~' || c == '=' || c == '\\' || c == 'h' || c == 'f' || c == 'i'
                || c == 'm'),
            CharClass::LinkBody => !is_white(c) && c != ')' && c != ']' && c != '>',
            CharClass::Only(d) => c == d,
            CharClass::Except(d) => c != d,
        }
    }
}

/// Whether `c` belongs to `class`.
pub fn in_class(c: char, class: CharClass) -> (b: bool)
    ensures
        b == class.has(c),
{
    match class {
        CharClass::Blank => c == ' ' || c == '\t',
        CharClass::Digit => '0' <= c && c <= '9',
        CharClass::Upper => 'A' <= c && c <= 'Z',
        CharClass::AsciiLetter => ('A' <= c && c <= 'Z') || ('a' <= c && c <= 'z'),
        CharClass::KeyChar => ('A' <= c && c <= 'Z') || ('a' <= c && c <= 'z') || ('0' <= c && c
            <= '9') || c == '_',
        CharClass::PropertyChar => ('A' <= c && c <= 'Z') || c == '_' || c == '-',
        CharClass::TagChar => is_alphanumeric(c) || c == '_' || c == '-' || c == '@' || c == '+',
        CharClass::Letter => is_alphabetic(c),
        CharClass::White => is_whitespace(c),
        CharClass::NonWhite => !is_whitespace(c),
        CharClass::InLine => c != '\r' && c != '\n',
        CharClass::Plain => !(c == '[' || c == '<' || c == '*' || c == '/' || c == '_' || c == '+'
            || c == '~' || c == '=' || c == '\\' || c == 'h' || c == 'f' || c == 'i' || c == 'm'),
        CharClass::LinkBody => !is_whitespace(c) && c != ')' && c != ']' && c != '>',
        CharClass::Only(d) => c == d,
        CharClass::Except(d) => c != d,
    }
}

/// The first position at or after `pos` whose character is outside `class`,
/// or `end` if there is none before it.
pub open spec fn skip_class(s: Seq<char>, pos: int, end: int, class: CharClass) -> int
    decreases end - pos,
{
    if pos < end && class.has(s[pos]) {
        skip_class(s, pos + 1, end, class)
    } else {
        pos
    }
}

/// The least `e` such that `s[e..end]` lies wholly in `class`: where the
/// window ends once its trailing run of `class` is cut off.
pub open spec fn skip_class_back(s: Seq<char>, pos: int, end: int, class: CharClass) -> int
    decreases end - pos,
{
    if pos < end && class.has(s[end - 1]) {
        skip_class_back(s, pos, end - 1, class)
    } else {
        end
    }
}

/// Every character that a scan passes over is in the class it scans for.
pub proof fn lemma_skip_class_run(s: Seq<char>, pos: int, end: int, class: CharClass, i: int)
    requires
        pos <= i < skip_class(s, pos, end, class),
    ensures
        class.has(s[i]),
        i < end,
    decreases end - pos,
{
    if pos < end && class.has(s[pos]) {
        if i > pos {
            lemma_skip_class_run(s, pos + 1, end, class, i);
        }
    }
}

/// Scans forward over the run of `class` that starts at `pos`.
pub fn skip(text: &Vec<char>, pos: usize, end: usize, class: CharClass) -> (r: usize)
    requires
        pos <= end <= text@.len(),
    ensures
        r == skip_class(text@, pos as int, end as int, class),
        pos <= r <= end,
{
    let mut i: usize = pos;
    while i < end && in_class(text[i], class)
        invariant
            pos <= i <= end <= text@.len(),
            skip_class(text@, pos as int, end as int, class) == skip_class(
                text@,
                i as int,
                end as int,
                class,
            ),
        decreases end - i,
    {
        i = i + 1;
    }
    i
}

/// Scans backward over the run of `class` that ends at `end`.
pub fn skip_back(text: &Vec<char>, pos: usize, end: usize, class: CharClass) -> (r: usize)
    requires
        pos <= end <= text@.len(),
    ensures
        r == skip_class_back(text@, pos as int, end as int, class),
        pos <= r <= end,
{
    let mut e: usize = end;
    while pos < e && in_class(text[e - 1], class)
        invariant
            pos <= e <= end <= text@.len(),
            skip_class_back(text@, pos as int, end as int, class) == skip_class_back(
                text@,
                pos as int,
                e as int,
                class,
            ),
        decreases e - pos,
    {
        e = e - 1;
    }
    e
}

/// Whether `pat` stands at `pos` and ends within the window.
pub open spec fn has_at(s: Seq<char>, pos: int, end: int, pat: Seq<char>) -> bool {
    pos + pat.len() <= end && s.subrange(pos, pos + pat.len()) == pat
}

/// Whether the characters of `pat` stand at `pos`, within the window.
pub fn starts_with_at(text: &Vec<char>, pos: usize, end: usize, pat: &str) -> (b: bool)
    requires
        pos <= end <= text@.len(),
    ensures
        b == has_at(text@, pos as int, end as int, pat@),
        b ==> pos + pat@.len() <= end,
{
    let p = chars_of(pat);
    if p.len() > end - pos {
        return false;
    }
    let mut k: usize = 0;
    while k < p.len()
        invariant
            pos <= end <= text@.len(),
            p@ == pat@,
            pos + p@.len() <= end,
            k <= p@.len(),
            text@.subrange(pos as int, pos + k) == p@.subrange(0, k as int),
        decreases p@.len() - k,
    {
        if text[pos + k] != p[k] {
            proof {
                let whole = text@.subrange(pos as int, pos + p@.len());
                assert(whole[k as int] != p@[k as int]);
            }
            return false;
        }
        k = k + 1;
        assert(text@.subrange(pos as int, pos + k) =~= p@.subrange(0, k as int));
    }
    assert(p@.subrange(0, k as int) =~= p@);
    true
}

/// Whether the window `text[pos..end]` holds exactly the characters of
/// `pat`.
pub fn window_is(text: &Vec<char>, pos: usize, end: usize, pat: &str) -> (b: bool)
    requires
        pos <= end <= text@.len(),
    ensures
        b == (text@.subrange(pos as int, end as int) == pat@),
{
    starts_with_at(text, pos, end, pat) && pat.unicode_len() == end - pos
}

/// Whether `v` holds exactly the characters of `pat`.
pub fn chars_are(v: &Vec<char>, pat: &str) -> (b: bool)
    ensures
        b == (v@ == pat@),
{
    let p = chars_of(pat);
    same_chars(v, &p)
}

/// `s` with each of `A` to `Z` lowered.
pub open spec fn lowered(s: Seq<char>) -> Seq<char> {
    Seq::new(s.len(), |i: int| ascii_lower(s[i]))
}

/// The characters `text[from..to]` with each of `A` to `Z` lowered.
pub fn lower_chars(text: &Vec<char>, from: usize, to: usize) -> (r: Vec<char>)
    requires
        from <= to <= text@.len(),
    ensures
        r@ == lowered(text@.subrange(from as int, to as int)),
{
    let mut r: Vec<char> = Vec::new();
    let mut i: usize = from;
    while i < to
        invariant
            from <= i <= to <= text@.len(),
            r@.len() == i - from,
            forall|k: int| 0 <= k < i - from ==> #[trigger] r@[k] == ascii_lower(text@[from + k]),
        decreases to - i,
    {
        r.push(to_ascii_lower(text[i]));
        i = i + 1;
    }
    assert(r@ =~= lowered(text@.subrange(from as int, to as int)));
    r
}

/// The views of a sequence of lines.
pub open spec fn lines_view(v: Seq<Vec<char>>) -> Seq<Seq<char>> {
    Seq::new(v.len(), |i: int| v[i]@)
}

/// The characters `text[from..to]`.
pub fn chars_in(text: &Vec<char>, from: usize, to: usize) -> (r: Vec<char>)
    requires
        from <= to <= text@.len(),
    ensures
        r@ == text@.subrange(from as int, to as int),
{
    let mut r: Vec<char> = Vec::new();
    push_range(&mut r, text, from, to);
    assert(r@ =~= text@.subrange(from as int, to as int));
    r
}

/// The last position `p` in the window with `s[p] == a` and `s[p + 1] == b`,
/// or `-1`.
pub open spec fn find_last_pair(s: Seq<char>, pos: int, end: int, a: char, b: char) -> int
    decreases end - pos,
{
    if end - pos < 2 {
        -1
    } else if s[end - 2] == a && s[end - 1] == b {
        end - 2
    } else {
        find_last_pair(s, pos, end - 1, a, b)
    }
}

/// Looks for the last place in the window at which `a` is followed by `b`.
pub fn rfind_pair(text: &Vec<char>, pos: usize, end: usize, a: char, b: char) -> (r: Option<usize>)
    requires
        pos <= end <= text@.len(),
    ensures
        match r {
            Some(i) => i == find_last_pair(text@, pos as int, end as int, a, b) && pos <= i && i
                + 2 <= end && text@[i as int] == a && text@[i + 1] == b,
            None => find_last_pair(text@, pos as int, end as int, a, b) == -1,
        },
{
    let mut e: usize = end;
    while e - pos >= 2
        invariant
            pos <= e <= end <= text@.len(),
            find_last_pair(text@, pos as int, end as int, a, b) == find_last_pair(
                text@,
                pos as int,
                e as int,
                a,
                b,
            ),
        decreases e - pos,
    {
        if text[e - 2] == a && text[e - 1] == b {
            return Some(e - 2);
        }
        e = e - 1;
    }
    None
}

/// The first position `p` in the window with `s[p] == a` and `s[p + 1] == b`,
/// or `-1`.
pub open spec fn find_first_pair(s: Seq<char>, pos: int, end: int, a: char, b: char) -> int
    decreases end - pos,
{
    if end - pos < 2 {
        -1
    } else if s[pos] == a && s[pos + 1] == b {
        pos
    } else {
        find_first_pair(s, pos + 1, end, a, b)
    }
}

/// Looks for the first place in the window at which `a` is followed by `b`.
pub fn find_pair(text: &Vec<char>, pos: usize, end: usize, a: char, b: char) -> (r: Option<usize>)
    requires
        pos <= end <= text@.len(),
    ensures
        match r {
            Some(i) => i == find_first_pair(text@, pos as int, end as int, a, b) && pos <= i && i
                + 2 <= end && text@[i as int] == a && text@[i + 1] == b,
            None => find_first_pair(text@, pos as int, end as int, a, b) == -1,
        },
{
    let mut i: usize = pos;
    while end - i >= 2
        invariant
            pos <= i <= end <= text@.len(),
            find_first_pair(text@, pos as int, end as int, a, b) == find_first_pair(
                text@,
                i as int,
                end as int,
                a,
                b,
            ),
        decreases end - i,
    {
        if text[i] == a && text[i + 1] == b {
            return Some(i);
        }
        i = i + 1;
    }
    None
}

/// Whether `a` and then `b` stand at `pos`, within the window.
pub open spec fn pair_at(s: Seq<char>, pos: int, end: int, a: char, b: char) -> bool {
    pos + 2 <= end && s[pos] == a && s[pos + 1] == b
}

/// Whether `a` and then `b` stand at `pos`, within the window.
pub fn is_pair_at(text: &Vec<char>, pos: usize, end: usize, a: char, b: char) -> (r: bool)
    requires
        pos <= end <= text@.len(),
    ensures
        r == pair_at(text@, pos as int, end as int, a, b),
{
    end - pos >= 2 && text[pos] == a && text[pos + 1] == b
}

/// A window with the white space at both of its ends cut off.
pub open spec fn trimmed(s: Seq<char>, pos: int, end: int) -> (int, int) {
    let a = skip_class(s, pos, end, CharClass::White);
    (a, skip_class_back(s, a, end, CharClass::White))
}

/// Cuts the white space off both ends of a window.
pub fn trim(text: &Vec<char>, pos: usize, end: usize) -> (r: (usize, usize))
    requires
        pos <= end <= text@.len(),
    ensures
        (r.0 as int, r.1 as int) == trimmed(text@, pos as int, end as int),
        pos <= r.0 <= r.1 <= end,
{
    let a = skip(text, pos, end, CharClass::White);
    let b = skip_back(text, a, end, CharClass::White);
    (a, b)
}

/// Whether a window holds nothing but white space.
pub open spec fn is_blank(s: Seq<char>, pos: int, end: int) -> bool {
    skip_class(s, pos, end, CharClass::White) == end
}

/// `c`, or its lower-case form if it is one of `A` to `Z`.
pub open spec fn ascii_lower(c: char) -> char {
    if 'A' <= c && c <= 'Z' {
        ((c as u8 + 32) as u8) as char
    } else {
        c
    }
}

/// Lowers one of `A` to `Z` and leaves every other character as it is.
pub fn to_ascii_lower(c: char) -> (r: char)
    ensures
        r == ascii_lower(c),
{
    if 'A' <= c && c <= 'Z' {
        let b: u8 = c as u8;
        (b + 32) as char
    } else {
        c
    }
}

/// The characters of a string, in order.
pub fn chars_of(s: &str) -> (v: Vec<char>)
    ensures
        v@ == s@,
{
    let mut it = s.chars();
    let mut v: Vec<char> = Vec::new();
    loop
        invariant
            v@ + it.remaining() == s@,
        decreases s@.len() - v@.len(),
    {
        match it.next() {
            Some(c) => {
                v.push(c);
                assert(v@ + it.remaining() =~= s@);
            },
            None => {
                assert(v@ =~= s@);
                return v;
            },
        }
    }
}

/// The string made of `text[from..to]`.
pub fn string_of(text: &Vec<char>, from: usize, to: usize) -> (r: String)
    requires
        from <= to <= text@.len(),
    ensures
        r@ == text@.subrange(from as int, to as int),
{
    let mut r = String::new();
    let mut i: usize = from;
    while i < to
        invariant
            from <= i <= to <= text@.len(),
            r@ == text@.subrange(from as int, i as int),
        decreases to - i,
    {
        push_char(&mut r, text[i]);
        i = i + 1;
        assert(r@ =~= text@.subrange(from as int, i as int));
    }
    r
}

/// The string made of all of `text`.
pub fn string_from(text: &Vec<char>) -> (r: String)
    ensures
        r@ == text@,
{
    let r = string_of(text, 0, text.len());
    assert(text@.subrange(0, text@.len() as int) =~= text@);
    r
}

/// Appends `text[from..to]` to `out`.
pub fn push_range(out: &mut Vec<char>, text: &Vec<char>, from: usize, to: usize)
    requires
        from <= to <= text@.len(),
    ensures
        final(out)@ == old(out)@ + text@.subrange(from as int, to as int),
{
    let mut i: usize = from;
    while i < to
        invariant
            from <= i <= to <= text@.len(),
            out@ == old(out)@ + text@.subrange(from as int, i as int),
        decreases to - i,
    {
        out.push(text[i]);
        i = i + 1;
        assert(out@ =~= old(out)@ + text@.subrange(from as int, i as int));
    }
}

/// Whether two character sequences are the same.
pub fn same_chars(a: &Vec<char>, b: &Vec<char>) -> (r: bool)
    ensures
        r == (a@ == b@),
{
    if a.len() != b.len() {
        return false;
    }
    let mut i: usize = 0;
    while i < a.len()
        invariant
            a@.len() == b@.len(),
            i <= a@.len(),
            a@.subrange(0, i as int) == b@.subrange(0, i as int),
        decreases a@.len() - i,
    {
        if a[i] != b[i] {
            return false;
        }
        i = i + 1;
        assert(a@.subrange(0, i as int) =~= b@.subrange(0, i as int)) by {
            assert(a@.subrange(0, i as int) =~= a@.subrange(0, i - 1).push(a@[i - 1]));
            assert(b@.subrange(0, i as int) =~= b@.subrange(0, i - 1).push(b@[i - 1]));
        }
    }
    assert(a@.subrange(0, i as int) =~= a@);
    assert(b@.subrange(0, i as int) =~= b@);
    true
}

/// Whether `a` comes before `b` in the order of strings: at the first place
/// where they differ `a` has the smaller character, or `a` is a proper
/// prefix of `b`.
pub open spec fn seq_lt(a: Seq<char>, b: Seq<char>) -> bool
    decreases a.len(),
{
    if b.len() == 0 {
        false
    } else if a.len() == 0 {
        true
    } else if a[0] != b[0] {
        a[0] < b[0]
    } else {
        seq_lt(a.drop_first(), b.drop_first())
    }
}

/// Compares two character sequences in the order of strings.
pub fn chars_lt(a: &Vec<char>, b: &Vec<char>) -> (r: bool)
    ensures
        r == seq_lt(a@, b@),
{
    let mut i: usize = 0;
    assert(a@.subrange(0, a@.len() as int) =~= a@);
    assert(b@.subrange(0, b@.len() as int) =~= b@);
    loop
        invariant
            i <= a@.len(),
            i <= b@.len(),
            seq_lt(a@, b@) == seq_lt(
                a@.subrange(i as int, a@.len() as int),
                b@.subrange(i as int, b@.len() as int),
            ),
        decreases a@.len() - i,
    {
        let ghost ra = a@.subrange(i as int, a@.len() as int);
        let ghost rb = b@.subrange(i as int, b@.len() as int);
        if i >= b.len() {
            return false;
        }
        if i >= a.len() {
            return true;
        }
        assert(ra[0] == a@[i as int] && rb[0] == b@[i as int]);
        if a[i] != b[i] {
            return a[i] < b[i];
        }
        assert(ra.drop_first() =~= a@.subrange(i + 1, a@.len() as int));
        assert(rb.drop_first() =~= b@.subrange(i + 1, b@.len() as int));
        i = i + 1;
    }
}

} // verus!
