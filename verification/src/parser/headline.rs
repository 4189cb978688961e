//! Headlines: the one line that opens a heading.

use crate::model::{Priority, TodoKeyword, TodoKeywordView};
use crate::parser::inline::{parse_rich_text_in, rich_text_in};
use crate::parser::lines::{
    heading_level_at, heading_line_at, is_heading_at, level_at, parse_tags_in, stars_end, tags_in,
};
use crate::source::{is_offset_table, offset_table, range_from, span};
use crate::tags::{sorted_insert_all, TagSet};
use crate::text::{
    chars_of, find_last_pair, is_pair_at, pair_at, rfind_pair, skip, skip_back, skip_class,
    skip_class_back, string_of, trim, trimmed, CharClass,
};
use crate::tree::{bare_heading, Heading, HeadingView};
use vstd::prelude::*;

verus! {

/// The TODO keyword at `pos`: a run of capital letters with at least one
/// blank after it. The result is the keyword, if there is one, and the
/// place where the rest of the headline starts.
pub open spec fn keyword_at(s: Seq<char>, pos: int) -> (Option<Seq<char>>, int) {
    let n = s.len() as int;
    let u = skip_class(s, pos, n, CharClass::Upper);
    let b = skip_class(s, u, n, CharClass::Blank);
    if pos < u && u < b {
        (Some(s.subrange(pos, u)), b)
    } else {
        (None, pos)
    }
}

/// The priority at `pos`: `[#`, one character and `]`, and the blanks after
/// it.
pub open spec fn priority_at(s: Seq<char>, pos: int) -> (Option<char>, int) {
    let n = s.len() as int;
    if pair_at(s, pos, n, '[', '#') && pos + 3 < n && s[pos + 3] == ']' {
        (Some(s[pos + 2]), skip_class(s, pos + 4, n, CharClass::Blank))
    } else {
        (None, pos)
    }
}

/// The tags at the end of the title text `s[pos..end]`, and where the
/// title itself ends. The tags are what follows the last ` :`, if the text
/// ends in a colon.
pub open spec fn title_tags(s: Seq<char>, pos: int, end: int) -> (Seq<Seq<char>>, int) {
    let p = find_last_pair(s, pos, end, ' ', ':');
    if p >= 0 && s[end - 1] == ':' {
        let (a, b) = trimmed(s, p + 1, end);
        (
            sorted_insert_all(Seq::empty(), tags_in(s, a, b)),
            skip_class_back(s, pos, p, CharClass::White),
        )
    } else {
        (Seq::empty(), end)
    }
}

/// The heading that the headline at `pos` opens, and the start of the next
/// line: stars, blanks, optionally a keyword, optionally a priority, the
/// title, optionally tags.
pub open spec fn headline_at(s: Seq<char>, pos: int) -> (HeadingView, int) {
    let n = s.len() as int;
    let a = skip_class(s, stars_end(s, pos), n, CharClass::Blank);
    let (todo, b) = keyword_at(s, a);
    let (priority, c) = priority_at(s, b);
    let e = skip_class(s, c, n, CharClass::Except('\n'));
    let (tags, title_end) = title_tags(s, c, skip_class_back(s, c, e, CharClass::White));
    let next = if e < n {
        e + 1
    } else {
        e
    };
    (
        HeadingView {
            todo: match todo {
                Some(text) => Some(TodoKeywordView { text, is_done: false }),
                None => None,
            },
            priority: match priority {
                Some(c) => Some(Priority(c)),
                None => None,
            },
            tags,
            headline_range: Some(span(s, pos, next)),
            ..bare_heading(level_at(s, pos), rich_text_in(s, c, title_end))
        },
        next,
    )
}

/// Reads the headline at `pos`.
pub fn headline_in(text: &Vec<char>, table: &Vec<usize>, pos: usize) -> (r: (Heading, usize))
    requires
        is_offset_table(table@, text@),
        pos <= text@.len(),
        heading_line_at(text@, pos as int),
    ensures
        (r.0@, r.1 as int) == headline_at(text@, pos as int),
        pos < r.1 <= text@.len(),
        r.0.tags.wf(),
        r.0.headline_range matches Some(range) && range.fits(text@),
{
    let n = text.len();
    let level = heading_level_at(text, pos);
    let k = skip(text, pos, n, CharClass::Only('*'));
    let a = skip(text, k, n, CharClass::Blank);
    let u = skip(text, a, n, CharClass::Upper);
    let ub = skip(text, u, n, CharClass::Blank);
    let (todo, b) = if a < u && u < ub {
        (Some(TodoKeyword { text: string_of(text, a, u), is_done: false }), ub)
    } else {
        (None, a)
    };
    let (priority, c) = if is_pair_at(text, b, n, '[', '#') && n - b > 3 && text[b + 3] == ']' {
        (Some(Priority(text[b + 2])), skip(text, b + 4, n, CharClass::Blank))
    } else {
        (None, b)
    };
    let e = skip(text, c, n, CharClass::Except('\n'));
    let te = skip_back(text, c, e, CharClass::White);
    let mut tags = TagSet::new();
    let mut title_end = te;
    match rfind_pair(text, c, te, ' ', ':') {
        Some(p) => {
            if text[te - 1] == ':' {
                let (ta, tb) = trim(text, p + 1, te);
                let found = parse_tags_in(text, ta, tb);
                tags.insert_all(&found);
                title_end = skip_back(text, c, p, CharClass::White);
            }
        },
        None => {},
    }
    let next = if e < n {
        e + 1
    } else {
        e
    };
    let mut h = Heading::new(level, parse_rich_text_in(text, c, title_end));
    h.todo = todo;
    h.priority = priority;
    h.tags = tags;
    h.headline_range = Some(range_from(table, Ghost(text@), pos, next));
    (h, next)
}

/// Reads the headline that `s` starts with, if it starts with one. The
/// result is the number of characters of the headline, its line ending
/// included, and the heading.
pub fn parse_headline(s: &str) -> (r: Option<(usize, Heading)>)
    ensures
        r is Some <==> heading_line_at(s@, 0),
        r matches Some((next, h)) ==> (h@, next as int) == headline_at(s@, 0),
{
    let text = chars_of(s);
    let table = offset_table(s, &text);
    if is_heading_at(&text, 0) {
        let (h, next) = headline_in(&text, &table, 0);
        Some((next, h))
    } else {
        None
    }
}

} // verus!
