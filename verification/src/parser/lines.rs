//! Lines: where they end, which of them are headings, and what a parse
//! failure shows of them.

use crate::tags::Tag;
use crate::text::{chars_of, is_pair_at, pair_at, skip, skip_class, string_of, CharClass};
use vstd::prelude::*;

verus! {

/// Where the line that holds `pos` ends: at the first `\r` or `\n`, or at
/// the end of the text.
pub open spec fn line_end(s: Seq<char>, pos: int) -> int {
    skip_class(s, pos, s.len() as int, CharClass::InLine)
}

/// The length of the line ending that stands at `pos`: 1 for `\n`, 2 for
/// `\r\n`, 0 where there is none.
pub open spec fn eol_len(s: Seq<char>, pos: int) -> int {
    if pos < s.len() && s[pos] == '\n' {
        1
    } else if pair_at(s, pos, s.len() as int, '\r', '\n') {
        2
    } else {
        0
    }
}

/// Whether the line that holds `pos` ends in a line ending or with the
/// text. It does not where a `\r` stands without a `\n` after it.
pub open spec fn line_ok(s: Seq<char>, pos: int) -> bool {
    let e = line_end(s, pos);
    e == s.len() || eol_len(s, e) > 0
}

/// Where the line after the one that holds `pos` starts.
pub open spec fn next_line(s: Seq<char>, pos: int) -> int {
    let e = line_end(s, pos);
    e + eol_len(s, e)
}

/// What a failure shows: the text from where parsing stopped up to the next
/// `\n`.
pub open spec fn fragment_at(s: Seq<char>, at: int) -> Seq<char> {
    s.subrange(at, skip_class(s, at, s.len() as int, CharClass::Except('\n')))
}

/// The end of a line's content and the start of the next line.
#[derive(Clone, Copy, Debug)]
pub struct Line {
    pub end: usize,
    pub next: usize,
}

/// The length of the line ending at `pos`.
pub fn eol_at(text: &Vec<char>, pos: usize) -> (n: usize)
    requires
        pos <= text@.len(),
    ensures
        n == eol_len(text@, pos as int),
        pos + n <= text@.len(),
{
    if pos < text.len() && text[pos] == '\n' {
        1
    } else if is_pair_at(text, pos, text.len(), '\r', '\n') {
        2
    } else {
        0
    }
}

/// Reads the line that starts at `pos`, unless a `\r` without a `\n` ends
/// it.
pub fn till_eol(text: &Vec<char>, pos: usize) -> (r: Option<Line>)
    requires
        pos <= text@.len(),
    ensures
        match r {
            Some(l) => line_ok(text@, pos as int) && l.end == line_end(text@, pos as int)
                && l.next == next_line(text@, pos as int) && pos <= l.end <= l.next
                <= text@.len() && (pos < text@.len() ==> pos < l.next),
            None => !line_ok(text@, pos as int),
        },
{
    let end = skip(text, pos, text.len(), CharClass::InLine);
    let n = eol_at(text, end);
    if end == text.len() || n > 0 {
        Some(Line { end, next: end + n })
    } else {
        None
    }
}

/// Where the run of stars that starts at `pos` ends.
pub open spec fn stars_end(s: Seq<char>, pos: int) -> int {
    skip_class(s, pos, s.len() as int, CharClass::Only('*'))
}

/// Whether a heading starts at `pos`: one or more stars and then a space.
pub open spec fn heading_line_at(s: Seq<char>, pos: int) -> bool {
    let k = stars_end(s, pos);
    pos < k && k < s.len() && s[k] == ' '
}

/// The level of the heading line at `pos`: the number of its stars, as far
/// as eight bits hold it.
pub open spec fn level_at(s: Seq<char>, pos: int) -> u8 {
    ((stars_end(s, pos) - pos) % 256) as u8
}

/// Whether a heading starts at `pos`.
pub fn is_heading_at(text: &Vec<char>, pos: usize) -> (b: bool)
    requires
        pos <= text@.len(),
    ensures
        b == heading_line_at(text@, pos as int),
        b ==> pos + 2 <= text@.len(),
{
    let k = skip(text, pos, text.len(), CharClass::Only('*'));
    pos < k && k < text.len() && text[k] == ' '
}

/// The number of stars at `pos`.
pub fn stars_at(text: &Vec<char>, pos: usize) -> (n: usize)
    requires
        pos <= text@.len(),
    ensures
        n == stars_end(text@, pos as int) - pos,
        pos + n <= text@.len(),
{
    let k = skip(text, pos, text.len(), CharClass::Only('*'));
    k - pos
}

/// The level of the heading line at `pos`.
pub fn heading_level_at(text: &Vec<char>, pos: usize) -> (level: u8)
    requires
        pos <= text@.len(),
    ensures
        level == level_at(text@, pos as int),
{
    let n = stars_at(text, pos);
    (n % 256) as u8
}

/// Whether `s` starts with a heading line: one or more stars and then a
/// space.
pub fn is_heading_line(s: &str) -> (b: bool)
    ensures
        b == heading_line_at(s@, 0),
{
    let text = chars_of(s);
    is_heading_at(&text, 0)
}

/// The number of stars that `s` starts with.
pub fn count_stars(s: &str) -> (n: usize)
    ensures
        n == stars_end(s@, 0),
{
    let text = chars_of(s);
    stars_at(&text, 0)
}

/// The tags between the colons of `s[pos..end]`, in the order in which they
/// stand. A part that is empty, or holds a character that no tag may hold,
/// is passed over.
pub open spec fn tags_in(s: Seq<char>, pos: int, end: int) -> Seq<Seq<char>>
    decreases end - pos,
{
    if pos > end {
        Seq::empty()
    } else {
        let c = skip_class(s, pos, end, CharClass::Except(':'));
        let rest = if pos <= c < end {
            tags_in(s, c + 1, end)
        } else {
            Seq::empty()
        };
        if pos < c && skip_class(s, pos, c, CharClass::TagChar) == c {
            seq![s.subrange(pos, c)] + rest
        } else {
            rest
        }
    }
}

/// Reads the tags between the colons of `text[pos..end]`.
pub fn parse_tags_in(text: &Vec<char>, pos: usize, end: usize) -> (r: Vec<Tag>)
    requires
        pos <= end <= text@.len(),
    ensures
        crate::tags::tags_view(r@) == tags_in(text@, pos as int, end as int),
{
    let mut out: Vec<Tag> = Vec::new();
    let mut i: usize = pos;
    assert(crate::tags::tags_view(out@) =~= Seq::<Seq<char>>::empty());
    assert(Seq::<Seq<char>>::empty() + tags_in(text@, pos as int, end as int) =~= tags_in(
        text@,
        pos as int,
        end as int,
    ));
    loop
        invariant
            pos <= i <= end <= text@.len(),
            tags_in(text@, pos as int, end as int) == crate::tags::tags_view(out@) + tags_in(
                text@,
                i as int,
                end as int,
            ),
        decreases end - i,
    {
        let c = skip(text, i, end, CharClass::Except(':'));
        let ghost rest = if c < end {
            tags_in(text@, c + 1, end as int)
        } else {
            Seq::<Seq<char>>::empty()
        };
        if i < c && skip(text, i, c, CharClass::TagChar) == c {
            let tag = Tag(string_of(text, i, c));
            let ghost before = crate::tags::tags_view(out@);
            out.push(tag);
            proof {
                assert(crate::tags::tags_view(out@) =~= before.push(text@.subrange(i as int, c as int)));
                assert(before + (seq![text@.subrange(i as int, c as int)] + rest)
                    =~= crate::tags::tags_view(out@) + rest);
            }
        }
        if c < end {
            i = c + 1;
        } else {
            assert(crate::tags::tags_view(out@) + Seq::<Seq<char>>::empty()
                =~= crate::tags::tags_view(out@));
            return out;
        }
    }
}

/// The tags between the colons of `s`.
pub fn parse_colon_tags_inline(s: &str) -> (r: Vec<Tag>)
    ensures
        crate::tags::tags_view(r@) == tags_in(s@, 0, s@.len() as int),
{
    let text = chars_of(s);
    parse_tags_in(&text, 0, text.len())
}

/// The words of `s[pos..end]`: its runs of characters that are not white
/// space.
pub open spec fn words_in(s: Seq<char>, pos: int, end: int) -> Seq<Seq<char>>
    decreases end - pos,
{
    let a = skip_class(s, pos, end, CharClass::White);
    let b = skip_class(s, a, end, CharClass::NonWhite);
    if pos <= a < b <= end {
        seq![s.subrange(a, b)] + words_in(s, b, end)
    } else {
        Seq::empty()
    }
}

/// Reads the words of `text[pos..end]`.
pub fn split_words(text: &Vec<char>, pos: usize, end: usize) -> (r: Vec<String>)
    requires
        pos <= end <= text@.len(),
    ensures
        crate::model::strings_view(r@) == words_in(text@, pos as int, end as int),
{
    let mut out: Vec<String> = Vec::new();
    let mut i: usize = pos;
    assert(crate::model::strings_view(out@) =~= Seq::<Seq<char>>::empty());
    assert(Seq::<Seq<char>>::empty() + words_in(text@, pos as int, end as int) =~= words_in(
        text@,
        pos as int,
        end as int,
    ));
    loop
        invariant
            pos <= i <= end <= text@.len(),
            words_in(text@, pos as int, end as int) == crate::model::strings_view(out@)
                + words_in(text@, i as int, end as int),
        decreases end - i,
    {
        let a = skip(text, i, end, CharClass::White);
        let b = skip(text, a, end, CharClass::NonWhite);
        if a < b {
            let ghost before = crate::model::strings_view(out@);
            out.push(string_of(text, a, b));
            proof {
                let w = text@.subrange(a as int, b as int);
                assert(crate::model::strings_view(out@) =~= before.push(w));
                assert(before + (seq![w] + words_in(text@, b as int, end as int))
                    =~= crate::model::strings_view(out@) + words_in(text@, b as int, end as int));
            }
            i = b;
        } else {
            assert(crate::model::strings_view(out@) + Seq::<Seq<char>>::empty()
                =~= crate::model::strings_view(out@));
            return out;
        }
    }
}

} // verus!
