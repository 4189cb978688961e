//! Horizontal rules and lists.

use crate::model::{
    blocks_view, list_items_view, lemma_list_items_view_push, Block, BlockView, Checkbox, List,
    ListItem, ListItemView, ListKind, ListView,
};
use crate::parser::inline::{parse_rich_text_in, rich_text_in};
use crate::parser::lines::{eol_at, eol_len, line_end, line_ok, next_line, till_eol};
use crate::tags::TagSet;
use crate::text::{skip, skip_back, skip_class, skip_class_back, CharClass};
use vstd::prelude::*;

verus! {

/// A horizontal rule at `pos`: blanks, one or more dashes, blanks and a
/// line ending. The result is the start of the next line.
pub open spec fn rule_at(s: Seq<char>, pos: int) -> Option<int> {
    let n = s.len() as int;
    let a = skip_class(s, pos, n, CharClass::Blank);
    let d = skip_class(s, a, n, CharClass::Only('-'));
    let b = skip_class(s, d, n, CharClass::Blank);
    if a < d && eol_len(s, b) > 0 {
        Some(b + eol_len(s, b))
    } else {
        None
    }
}

/// Reads a horizontal rule at `pos`.
pub fn parse_hr(text: &Vec<char>, pos: usize) -> (r: Option<usize>)
    requires
        pos <= text@.len(),
    ensures
        match r {
            Some(next) => rule_at(text@, pos as int) == Some(next as int) && pos < next
                <= text@.len(),
            None => rule_at(text@, pos as int) is None,
        },
{
    let n = text.len();
    let a = skip(text, pos, n, CharClass::Blank);
    let d = skip(text, a, n, CharClass::Only('-'));
    let b = skip(text, d, n, CharClass::Blank);
    let eol = eol_at(text, b);
    if a < d && eol > 0 {
        Some(b + eol)
    } else {
        None
    }
}

/// The bullet of a list item at `pos`: blanks, then `-` or `+`, or digits
/// and `.` or `)`, then at least one blank. The result is the kind of list
/// and the place after the blanks.
pub open spec fn bullet_at(s: Seq<char>, pos: int) -> Option<(ListKind, int)> {
    let n = s.len() as int;
    let a = skip_class(s, pos, n, CharClass::Blank);
    let u = skip_class(s, a + 1, n, CharClass::Blank);
    let d = skip_class(s, a, n, CharClass::Digit);
    let o = skip_class(s, d + 1, n, CharClass::Blank);
    if a < n && (s[a] == '-' || s[a] == '+') && a + 1 < u {
        Some((ListKind::Unordered, u))
    } else if a < d && d < n && (s[d] == '.' || s[d] == ')') && d + 1 < o {
        Some((ListKind::Ordered, o))
    } else {
        None
    }
}

/// A checkbox at `pos`: `[ ]`, `[-]`, `[X]` or `[x]`, and at least one
/// blank.
pub open spec fn checkbox_at(s: Seq<char>, pos: int) -> Option<(Checkbox, int)> {
    let n = s.len() as int;
    let b = skip_class(s, pos + 3, n, CharClass::Blank);
    if pos + 3 <= n && s[pos] == '[' && s[pos + 2] == ']' && pos + 3 < b {
        if s[pos + 1] == ' ' {
            Some((Checkbox::Empty, b))
        } else if s[pos + 1] == '-' {
            Some((Checkbox::Partial, b))
        } else if s[pos + 1] == 'X' || s[pos + 1] == 'x' {
            Some((Checkbox::Checked, b))
        } else {
            None
        }
    } else {
        None
    }
}

/// A list item at `pos`: a bullet, optionally a checkbox, and the rest of
/// the line as one paragraph, without the white space at its end.
pub open spec fn list_item_at(s: Seq<char>, pos: int) -> Option<(ListKind, ListItemView, int)> {
    match bullet_at(s, pos) {
        Some((kind, b)) => {
            let (checkbox, c) = match checkbox_at(s, b) {
                Some((state, c)) => (Some(state), c),
                None => (None, b),
            };
            if line_ok(s, c) {
                let e = line_end(s, c);
                let te = skip_class_back(s, c, e, CharClass::White);
                Some(
                    (
                        kind,
                        ListItemView {
                            label: None,
                            content: seq![BlockView::Paragraph(rich_text_in(s, c, te))],
                            checkbox,
                            counter: None,
                            tags: Seq::empty(),
                        },
                        next_line(s, c),
                    ),
                )
            } else {
                None
            }
        },
        None => None,
    }
}

/// The items of a list of the given kind from `pos` on, after `acc`, up to
/// the first line that is no item of that kind.
pub open spec fn list_items_from(s: Seq<char>, pos: int, kind: ListKind, acc: Seq<ListItemView>) -> (
    Seq<ListItemView>,
    int,
)
    decreases s.len() - pos,
{
    match list_item_at(s, pos) {
        Some((k, item, next)) => if k == kind && pos < next <= s.len() {
            list_items_from(s, next, kind, acc.push(item))
        } else {
            (acc, pos)
        },
        None => (acc, pos),
    }
}

/// A list at `pos`: one item and the items of its kind that follow it.
pub open spec fn list_at(s: Seq<char>, pos: int) -> Option<(ListView, int)> {
    match list_item_at(s, pos) {
        Some((kind, first, next)) => if pos < next <= s.len() {
            let (items, end) = list_items_from(s, next, kind, seq![first]);
            Some((ListView { kind, items }, end))
        } else {
            None
        },
        None => None,
    }
}

/// Reads a checkbox at `pos`.
pub fn parse_checkbox(text: &Vec<char>, pos: usize) -> (r: Option<(Checkbox, usize)>)
    requires
        pos <= text@.len(),
    ensures
        match r {
            Some((state, next)) => checkbox_at(text@, pos as int) == Some((state, next as int))
                && pos < next <= text@.len(),
            None => checkbox_at(text@, pos as int) is None,
        },
{
    let n = text.len();
    if !(n - pos >= 3 && text[pos] == '[' && text[pos + 2] == ']') {
        return None;
    }
    let b = skip(text, pos + 3, n, CharClass::Blank);
    if !(pos + 3 < b) {
        return None;
    }
    let c = text[pos + 1];
    if c == ' ' {
        Some((Checkbox::Empty, b))
    } else if c == '-' {
        Some((Checkbox::Partial, b))
    } else if c == 'X' || c == 'x' {
        Some((Checkbox::Checked, b))
    } else {
        None
    }
}

/// Reads the bullet of a list item at `pos`.
fn parse_bullet(text: &Vec<char>, pos: usize) -> (r: Option<(ListKind, usize)>)
    requires
        pos <= text@.len(),
    ensures
        match r {
            Some((kind, next)) => bullet_at(text@, pos as int) == Some((kind, next as int)) && pos
                < next <= text@.len(),
            None => bullet_at(text@, pos as int) is None,
        },
{
    let n = text.len();
    let a = skip(text, pos, n, CharClass::Blank);
    if a < n && (text[a] == '-' || text[a] == '+') {
        let u = skip(text, a + 1, n, CharClass::Blank);
        if a + 1 < u {
            return Some((ListKind::Unordered, u));
        }
    }
    let d = skip(text, a, n, CharClass::Digit);
    if a < d && d < n && (text[d] == '.' || text[d] == ')') {
        let o = skip(text, d + 1, n, CharClass::Blank);
        if d + 1 < o {
            return Some((ListKind::Ordered, o));
        }
    }
    None
}

/// Reads a list item at `pos`.
pub fn parse_list_item(text: &Vec<char>, pos: usize) -> (r: Option<(ListKind, ListItem, usize)>)
    requires
        pos <= text@.len(),
    ensures
        match r {
            Some((kind, item, next)) => list_item_at(text@, pos as int) == Some(
                (kind, item@, next as int),
            ) && pos < next <= text@.len(),
            None => list_item_at(text@, pos as int) is None,
        },
{
    let (kind, b) = match parse_bullet(text, pos) {
        Some(found) => found,
        None => { return None; },
    };
    let (checkbox, c) = match parse_checkbox(text, b) {
        Some((state, c)) => (Some(state), c),
        None => (None, b),
    };
    let line = match till_eol(text, c) {
        Some(line) => line,
        None => { return None; },
    };
    let te = skip_back(text, c, line.end, CharClass::White);
    let paragraph = Block::Paragraph(parse_rich_text_in(text, c, te));
    let mut content: Vec<Block> = Vec::new();
    content.push(paragraph);
    assert(blocks_view(content@) =~= seq![paragraph@]);
    let item = ListItem { label: None, content, checkbox, counter: None, tags: TagSet::new() };
    Some((kind, item, line.next))
}

/// Reads a list at `pos`.
pub fn parse_list(text: &Vec<char>, pos: usize) -> (r: Option<(List, usize)>)
    requires
        pos <= text@.len(),
    ensures
        match r {
            Some((list, next)) => list_at(text@, pos as int) == Some((list@, next as int)) && pos
                < next <= text@.len(),
            None => list_at(text@, pos as int) is None,
        },
{
    let (kind, first, start) = match parse_list_item(text, pos) {
        Some(found) => found,
        None => { return None; },
    };
    let mut items: Vec<ListItem> = Vec::new();
    let ghost first_view = first@;
    items.push(first);
    assert(list_items_view(items@) =~= seq![first_view]);
    let mut i: usize = start;
    loop
        invariant
            pos < start <= i <= text@.len(),
            list_items_from(text@, start as int, kind, seq![first_view]) == list_items_from(
                text@,
                i as int,
                kind,
                list_items_view(items@),
            ),
        ensures
            pos < i <= text@.len(),
            list_items_from(text@, start as int, kind, seq![first_view]) == (
                list_items_view(items@),
                i as int,
            ),
        decreases text@.len() - i,
    {
        match parse_list_item(text, i) {
            Some((k, item, next)) => {
                if k == kind {
                    proof {
                        lemma_list_items_view_push(items@, item);
                    }
                    items.push(item);
                    i = next;
                } else {
                    break ;
                }
            },
            None => {
                break ;
            },
        }
    }
    Some((List { kind, items }, i))
}

} // verus!
