//! The inline markup parser: from a run of text to a list of inline nodes.
//!
//! It never fails. Where no element matches, one character becomes literal
//! text, so every character of the input ends up in some node.

use crate::model::{
    inlines_view, lemma_inlines_view_push, Emphasis, Inline, InlineView, Link, LinkKind,
    LinkKindView, LinkView, RichText,
};
use crate::text::{
    chars_of, find_first_pair, find_pair, has_at, is_pair_at, is_white, is_whitespace, pair_at,
    skip, skip_class, starts_with_at, string_of, trim, trimmed, CharClass,
};
use vstd::prelude::*;
use vstd::string::*;

verus! {

/* ------------------------------ What is read ------------------------------ */

/// What the target `s[pos..end]` of a link points at. White space around
/// the target does not count.
pub open spec fn link_kind_of(s: Seq<char>, pos: int, end: int) -> LinkKindView {
    let (a, b) = trimmed(s, pos, end);
    if has_at(s, a, b, "http://"@) || has_at(s, a, b, "https://"@) {
        LinkKindView::Http { url: s.subrange(a, b) }
    } else if has_at(s, a, b, "id:"@) {
        LinkKindView::Id { id: s.subrange(a + "id:"@.len(), b) }
    } else if has_at(s, a, b, "file:"@) {
        let p = a + "file:"@.len();
        let k = find_first_pair(s, p, b, ':', ':');
        if k >= 0 {
            LinkKindView::File { path: s.subrange(p, k), search: Some(s.subrange(k + 2, b)) }
        } else {
            LinkKindView::File { path: s.subrange(p, b), search: None }
        }
    } else {
        let c = skip_class(s, a, b, CharClass::Except(':'));
        if c < b {
            LinkKindView::Custom { protocol: s.subrange(a, c), target: s.subrange(c + 1, b) }
        } else {
            LinkKindView::File { path: s.subrange(a, b), search: None }
        }
    }
}

/// `<<name>>` at `pos`.
pub open spec fn target_at(s: Seq<char>, pos: int, end: int) -> Option<(InlineView, int)> {
    if pair_at(s, pos, end, '<', '<') {
        let c = find_first_pair(s, pos + 2, end, '>', '>');
        if c >= 0 {
            Some((InlineView::Target(s.subrange(pos + 2, c)), c + 2))
        } else {
            None
        }
    } else {
        None
    }
}

/// `[fn:label]` at `pos`.
pub open spec fn footnote_at(s: Seq<char>, pos: int, end: int) -> Option<(InlineView, int)> {
    if has_at(s, pos, end, "[fn:"@) {
        let a = pos + "[fn:"@.len();
        let c = skip_class(s, a, end, CharClass::Except(']'));
        if c < end {
            Some((InlineView::FootnoteRef(s.subrange(a, c)), c + 1))
        } else {
            None
        }
    } else {
        None
    }
}

/// The body of a span that `delim` opens at `pos` and closes again: at least
/// one character, none of them `delim`. The result is the place of the
/// closing `delim`.
pub open spec fn span_close(s: Seq<char>, pos: int, end: int, delim: char) -> Option<int> {
    if pos < end && s[pos] == delim {
        let c = skip_class(s, pos + 1, end, CharClass::Except(delim));
        if pos + 1 < c && c < end {
            Some(c)
        } else {
            None
        }
    } else {
        None
    }
}

/// `~code~` at `pos`.
pub open spec fn code_at(s: Seq<char>, pos: int, end: int) -> Option<(InlineView, int)> {
    match span_close(s, pos, end, '~') {
        Some(c) => Some((InlineView::Code(s.subrange(pos + 1, c)), c + 1)),
        None => None,
    }
}

/// `=verbatim=` at `pos`.
pub open spec fn verbatim_at(s: Seq<char>, pos: int, end: int) -> Option<(InlineView, int)> {
    match span_close(s, pos, end, '=') {
        Some(c) => Some((InlineView::Verbatim(s.subrange(pos + 1, c)), c + 1)),
        None => None,
    }
}

/// Whether one of the schemes of a bare link stands at `pos`; the result is
/// the place after it.
pub open spec fn scheme_at(s: Seq<char>, pos: int, end: int) -> Option<int> {
    if has_at(s, pos, end, "https://"@) {
        Some(pos + "https://"@.len())
    } else if has_at(s, pos, end, "http://"@) {
        Some(pos + "http://"@.len())
    } else if has_at(s, pos, end, "mailto:"@) {
        Some(pos + "mailto:"@.len())
    } else if has_at(s, pos, end, "file:"@) {
        Some(pos + "file:"@.len())
    } else if has_at(s, pos, end, "id:"@) {
        Some(pos + "id:"@.len())
    } else {
        None
    }
}

/// A bare link at `pos`: a scheme and at least one character after it, up
/// to white space or one of `)`, `]`, `>`.
pub open spec fn autolink_at(s: Seq<char>, pos: int, end: int) -> Option<(InlineView, int)> {
    match scheme_at(s, pos, end) {
        Some(a) => {
            let e = skip_class(s, a, end, CharClass::LinkBody);
            if a < e {
                Some(
                    (InlineView::Link(LinkView { kind: link_kind_of(s, pos, e), desc: None }), e),
                )
            } else {
                None
            }
        },
        None => None,
    }
}

/// An entity at `pos`: a backslash and at least one ASCII letter.
pub open spec fn entity_at(s: Seq<char>, pos: int, end: int) -> Option<(InlineView, int)> {
    if pos < end && s[pos] == '\\' {
        let e = skip_class(s, pos + 1, end, CharClass::AsciiLetter);
        if pos + 1 < e {
            Some((InlineView::Entity(s.subrange(pos, e)), e))
        } else {
            None
        }
    } else {
        None
    }
}

/// A chunk of literal text at `pos`: at least one character, none of which
/// may open another element.
pub open spec fn chunk_at(s: Seq<char>, pos: int, end: int) -> Option<(InlineView, int)> {
    let e = skip_class(s, pos, end, CharClass::Plain);
    if pos < e {
        Some((InlineView::Text(s.subrange(pos, e)), e))
    } else {
        None
    }
}

/// The elements that do not nest, tried in their order of priority after
/// the link in brackets.
pub open spec fn flat_before_emphasis(s: Seq<char>, pos: int, end: int) -> Option<
    (InlineView, int),
> {
    if target_at(s, pos, end) is Some {
        target_at(s, pos, end)
    } else if footnote_at(s, pos, end) is Some {
        footnote_at(s, pos, end)
    } else if code_at(s, pos, end) is Some {
        code_at(s, pos, end)
    } else {
        verbatim_at(s, pos, end)
    }
}

/// The elements that are tried after the emphasis spans.
pub open spec fn flat_after_emphasis(s: Seq<char>, pos: int, end: int) -> Option<
    (InlineView, int),
> {
    if autolink_at(s, pos, end) is Some {
        autolink_at(s, pos, end)
    } else if entity_at(s, pos, end) is Some {
        entity_at(s, pos, end)
    } else {
        chunk_at(s, pos, end)
    }
}

/// `nodes` in front of what `rest` holds.
pub open spec fn prepend(nodes: Seq<InlineView>, rest: Option<(Seq<InlineView>, int)>) -> Option<
    (Seq<InlineView>, int),
> {
    match rest {
        Some((more, p)) => Some((nodes + more, p)),
        None => None,
    }
}

/// A link in brackets at `pos`: `[[target]]` or `[[target][description]]`.
/// The description is rich text itself.
pub open spec fn link_at(s: Seq<char>, pos: int, end: int) -> Option<(InlineView, int)>
    decreases end - pos, 0int,
{
    if pair_at(s, pos, end, '[', '[') {
        let a = pos + 2;
        let m = find_first_pair(s, a, end, ']', '[');
        if m >= 0 {
            let d = m + 2;
            let c = find_first_pair(s, d, end, ']', ']');
            if c >= 0 && a <= m && d <= c && c + 2 <= end {
                Some(
                    (
                        InlineView::Link(
                            LinkView {
                                kind: link_kind_of(s, a, m),
                                desc: Some(coalesced(inlines_in(s, d, c))),
                            },
                        ),
                        c + 2,
                    ),
                )
            } else {
                None
            }
        } else {
            let c = find_first_pair(s, a, end, ']', ']');
            if c >= 0 {
                Some((InlineView::Link(LinkView { kind: link_kind_of(s, a, c), desc: None }), c + 2))
            } else {
                None
            }
        }
    } else {
        None
    }
}

/// An emphasis span at `pos`: `delim`, not followed by white space, then
/// rich text up to the next `delim` that no inner element has taken. The
/// body is rich text itself: its adjacent literal texts are joined.
pub open spec fn emphasis_at(s: Seq<char>, pos: int, end: int, delim: char, kind: Emphasis) -> Option<
    (InlineView, int),
>
    decreases end - pos, 1int,
{
    if pos < end && s[pos] == delim && !(pos + 1 < end && is_white(s[pos + 1])) {
        match inlines_until(s, pos + 1, end, delim) {
            Some((children, p)) => Some(
                (InlineView::Emphasis { kind, children: coalesced(children) }, p + 1),
            ),
            None => None,
        }
    } else {
        None
    }
}

/// The element at `pos`, by priority: link in brackets, target, footnote
/// reference, code, verbatim, the four emphasis spans, bare link, entity,
/// chunk of literal text.
pub open spec fn atom_at(s: Seq<char>, pos: int, end: int) -> Option<(InlineView, int)>
    decreases end - pos, 2int,
{
    if link_at(s, pos, end) is Some {
        link_at(s, pos, end)
    } else if flat_before_emphasis(s, pos, end) is Some {
        flat_before_emphasis(s, pos, end)
    } else if emphasis_at(s, pos, end, '*', Emphasis::Bold) is Some {
        emphasis_at(s, pos, end, '*', Emphasis::Bold)
    } else if emphasis_at(s, pos, end, '/', Emphasis::Italic) is Some {
        emphasis_at(s, pos, end, '/', Emphasis::Italic)
    } else if emphasis_at(s, pos, end, '_', Emphasis::Underline) is Some {
        emphasis_at(s, pos, end, '_', Emphasis::Underline)
    } else if emphasis_at(s, pos, end, '+', Emphasis::Strike) is Some {
        emphasis_at(s, pos, end, '+', Emphasis::Strike)
    } else {
        flat_after_emphasis(s, pos, end)
    }
}

/// The node that starts at `pos` and the place after it: the element
/// there, or else the one character there as literal text.
pub open spec fn node_at(s: Seq<char>, pos: int, end: int) -> (InlineView, int)
    decreases end - pos, 3int,
{
    match atom_at(s, pos, end) {
        Some((node, next)) if pos < next <= end => (node, next),
        _ => (InlineView::Text(seq![s[pos]]), pos + 1),
    }
}

/// The nodes from `pos` up to the first `stop` that no element has taken,
/// and the place of that `stop`; nothing if there is none.
pub open spec fn inlines_until(s: Seq<char>, pos: int, end: int, stop: char) -> Option<
    (Seq<InlineView>, int),
>
    decreases end - pos, 4int,
{
    if pos >= end {
        None
    } else if s[pos] == stop {
        Some((Seq::empty(), pos))
    } else {
        let (node, next) = node_at(s, pos, end);
        if pos < next <= end {
            prepend(seq![node], inlines_until(s, next, end, stop))
        } else {
            None
        }
    }
}

/// The nodes of the window, in order.
pub open spec fn inlines_in(s: Seq<char>, pos: int, end: int) -> Seq<InlineView>
    decreases end - pos, 4int,
{
    if pos >= end {
        Seq::empty()
    } else {
        let (node, next) = node_at(s, pos, end);
        if pos < next <= end {
            seq![node] + inlines_in(s, next, end)
        } else {
            Seq::empty()
        }
    }
}

/// `nodes` with every run of adjacent literal texts joined into one. What
/// the elements hold, the body of a span and the description of a link, is
/// joined where it is read.
pub open spec fn coalesced(nodes: Seq<InlineView>) -> Seq<InlineView>
    decreases nodes.len(),
{
    if nodes.len() == 0 {
        nodes
    } else {
        let head = coalesced(nodes.drop_last());
        let x = nodes.last();
        if head.len() > 0 && head.last() is Text && x is Text {
            head.drop_last().push(InlineView::Text(head.last()->Text_0 + x->Text_0))
        } else {
            head.push(x)
        }
    }
}

/// The rich text that the window `s[pos..end]` stands for.
pub open spec fn rich_text_in(s: Seq<char>, pos: int, end: int) -> Seq<InlineView> {
    coalesced(inlines_in(s, pos, end))
}

/// The rich text that a run of text stands for.
pub open spec fn rich_text(s: Seq<char>) -> Seq<InlineView> {
    rich_text_in(s, 0, s.len() as int)
}

/* ------------------------------- The parser ------------------------------- */

/// Tells what the target of a link points at.
pub fn link_kind_from_target(t: &str) -> (r: LinkKind)
    ensures
        r@ == link_kind_of(t@, 0, t@.len() as int),
{
    let text = chars_of(t);
    link_kind_in(&text, 0, text.len())
}

/// Tells what the target `text[pos..end]` of a link points at.
pub fn link_kind_in(text: &Vec<char>, pos: usize, end: usize) -> (r: LinkKind)
    requires
        pos <= end <= text@.len(),
    ensures
        r@ == link_kind_of(text@, pos as int, end as int),
{
    let (a, b) = trim(text, pos, end);
    if starts_with_at(text, a, b, "http://") || starts_with_at(text, a, b, "https://") {
        LinkKind::Http { url: string_of(text, a, b) }
    } else if starts_with_at(text, a, b, "id:") {
        let n = "id:".unicode_len();
        LinkKind::Id { id: string_of(text, a + n, b) }
    } else if starts_with_at(text, a, b, "file:") {
        let n = "file:".unicode_len();
        let p = a + n;
        match find_pair(text, p, b, ':', ':') {
            Some(k) => LinkKind::File {
                path: string_of(text, p, k),
                search: Some(string_of(text, k + 2, b)),
            },
            None => LinkKind::File { path: string_of(text, p, b), search: None },
        }
    } else {
        let c = skip(text, a, b, CharClass::Except(':'));
        if c < b {
            LinkKind::Custom { protocol: string_of(text, a, c), target: string_of(text, c + 1, b) }
        } else {
            LinkKind::File { path: string_of(text, a, b), search: None }
        }
    }
}

/// Reads `<<name>>` at `pos`.
pub fn parse_target_inline(text: &Vec<char>, pos: usize, end: usize) -> (r: Option<(Inline, usize)>)
    requires
        pos <= end <= text@.len(),
    ensures
        match r {
            Some((node, next)) => target_at(text@, pos as int, end as int) == Some(
                (node@, next as int),
            ) && pos < next <= end,
            None => target_at(text@, pos as int, end as int) is None,
        },
{
    if is_pair_at(text, pos, end, '<', '<') {
        match find_pair(text, pos + 2, end, '>', '>') {
            Some(c) => Some((Inline::Target(string_of(text, pos + 2, c)), c + 2)),
            None => None,
        }
    } else {
        None
    }
}

/// Reads `[fn:label]` at `pos`.
pub fn parse_footnote_ref(text: &Vec<char>, pos: usize, end: usize) -> (r: Option<(Inline, usize)>)
    requires
        pos <= end <= text@.len(),
    ensures
        match r {
            Some((node, next)) => footnote_at(text@, pos as int, end as int) == Some(
                (node@, next as int),
            ) && pos < next <= end,
            None => footnote_at(text@, pos as int, end as int) is None,
        },
{
    if starts_with_at(text, pos, end, "[fn:") {
        let n = "[fn:".unicode_len();
        let a = pos + n;
        let c = skip(text, a, end, CharClass::Except(']'));
        if c < end {
            Some((Inline::FootnoteRef(string_of(text, a, c)), c + 1))
        } else {
            None
        }
    } else {
        None
    }
}

/// Reads a code span (`~`) or a verbatim span (`=`) at `pos`.
pub fn parse_code_like(text: &Vec<char>, pos: usize, end: usize, delim: char) -> (r: Option<
    (String, usize),
>)
    requires
        pos <= end <= text@.len(),
    ensures
        match r {
            Some((body, next)) => span_close(text@, pos as int, end as int, delim) == Some(
                next - 1,
            ) && body@ == text@.subrange(pos + 1, next - 1) && pos < next <= end,
            None => span_close(text@, pos as int, end as int, delim) is None,
        },
{
    if pos < end && text[pos] == delim {
        let c = skip(text, pos + 1, end, CharClass::Except(delim));
        if pos + 1 < c && c < end {
            Some((string_of(text, pos + 1, c), c + 1))
        } else {
            None
        }
    } else {
        None
    }
}

/// Reads a bare link at `pos`.
pub fn parse_autolink(text: &Vec<char>, pos: usize, end: usize) -> (r: Option<(Inline, usize)>)
    requires
        pos <= end <= text@.len(),
    ensures
        match r {
            Some((node, next)) => autolink_at(text@, pos as int, end as int) == Some(
                (node@, next as int),
            ) && pos < next <= end,
            None => autolink_at(text@, pos as int, end as int) is None,
        },
{
    let after: Option<usize> = if starts_with_at(text, pos, end, "https://") {
        Some(pos + "https://".unicode_len())
    } else if starts_with_at(text, pos, end, "http://") {
        Some(pos + "http://".unicode_len())
    } else if starts_with_at(text, pos, end, "mailto:") {
        Some(pos + "mailto:".unicode_len())
    } else if starts_with_at(text, pos, end, "file:") {
        Some(pos + "file:".unicode_len())
    } else if starts_with_at(text, pos, end, "id:") {
        Some(pos + "id:".unicode_len())
    } else {
        None
    };
    match after {
        Some(a) => {
            let e = skip(text, a, end, CharClass::LinkBody);
            if a < e {
                let kind = link_kind_in(text, pos, e);
                Some((Inline::Link(Link { kind, desc: None }), e))
            } else {
                None
            }
        },
        None => None,
    }
}

/// Reads an entity at `pos`.
pub fn parse_entity_inline(text: &Vec<char>, pos: usize, end: usize) -> (r: Option<(Inline, usize)>)
    requires
        pos <= end <= text@.len(),
    ensures
        match r {
            Some((node, next)) => entity_at(text@, pos as int, end as int) == Some(
                (node@, next as int),
            ) && pos < next <= end,
            None => entity_at(text@, pos as int, end as int) is None,
        },
{
    if pos < end && text[pos] == '\\' {
        let e = skip(text, pos + 1, end, CharClass::AsciiLetter);
        if pos + 1 < e {
            Some((Inline::Entity(string_of(text, pos, e)), e))
        } else {
            None
        }
    } else {
        None
    }
}

/// Reads a chunk of literal text at `pos`.
pub fn parse_text_chunk(text: &Vec<char>, pos: usize, end: usize) -> (r: Option<(Inline, usize)>)
    requires
        pos <= end <= text@.len(),
    ensures
        match r {
            Some((node, next)) => chunk_at(text@, pos as int, end as int) == Some(
                (node@, next as int),
            ) && pos < next <= end,
            None => chunk_at(text@, pos as int, end as int) is None,
        },
{
    let e = skip(text, pos, end, CharClass::Plain);
    if pos < e {
        Some((Inline::Text(string_of(text, pos, e)), e))
    } else {
        None
    }
}

/// Reads a target, a footnote reference, a code span or a verbatim span at
/// `pos`, whichever comes first in that order.
fn parse_flat_before_emphasis(text: &Vec<char>, pos: usize, end: usize) -> (r: Option<
    (Inline, usize),
>)
    requires
        pos <= end <= text@.len(),
    ensures
        match r {
            Some((node, next)) => flat_before_emphasis(text@, pos as int, end as int) == Some(
                (node@, next as int),
            ) && pos < next <= end,
            None => flat_before_emphasis(text@, pos as int, end as int) is None,
        },
{
    if let Some(r) = parse_target_inline(text, pos, end) {
        return Some(r);
    }
    if let Some(r) = parse_footnote_ref(text, pos, end) {
        return Some(r);
    }
    if let Some((body, next)) = parse_code_like(text, pos, end, '~') {
        return Some((Inline::Code(body), next));
    }
    if let Some((body, next)) = parse_code_like(text, pos, end, '=') {
        return Some((Inline::Verbatim(body), next));
    }
    None
}

/// Reads a bare link, an entity or a chunk of literal text at `pos`,
/// whichever comes first in that order.
fn parse_flat_after_emphasis(text: &Vec<char>, pos: usize, end: usize) -> (r: Option<
    (Inline, usize),
>)
    requires
        pos <= end <= text@.len(),
    ensures
        match r {
            Some((node, next)) => flat_after_emphasis(text@, pos as int, end as int) == Some(
                (node@, next as int),
            ) && pos < next <= end,
            None => flat_after_emphasis(text@, pos as int, end as int) is None,
        },
{
    if let Some(r) = parse_autolink(text, pos, end) {
        return Some(r);
    }
    if let Some(r) = parse_entity_inline(text, pos, end) {
        return Some(r);
    }
    parse_text_chunk(text, pos, end)
}

/// Reads a link in brackets at `pos`.
pub fn parse_link_bracketed(text: &Vec<char>, pos: usize, end: usize) -> (r: Option<(Inline, usize)>)
    requires
        pos <= end <= text@.len(),
    ensures
        match r {
            Some((node, next)) => link_at(text@, pos as int, end as int) == Some(
                (node@, next as int),
            ) && pos < next <= end,
            None => link_at(text@, pos as int, end as int) is None,
        },
    decreases end - pos, 0int,
{
    if !is_pair_at(text, pos, end, '[', '[') {
        return None;
    }
    let a = pos + 2;
    match find_pair(text, a, end, ']', '[') {
        Some(m) => {
            let d = m + 2;
            match find_pair(text, d, end, ']', ']') {
                Some(c) => {
                    let kind = link_kind_in(text, a, m);
                    let nodes = parse_inlines(text, d, c);
                    let desc = coalesce_nodes(nodes);
                    Some((Inline::Link(Link { kind, desc: Some(desc) }), c + 2))
                },
                None => None,
            }
        },
        None => {
            match find_pair(text, a, end, ']', ']') {
                Some(c) => {
                    let kind = link_kind_in(text, a, c);
                    Some((Inline::Link(Link { kind, desc: None }), c + 2))
                },
                None => None,
            }
        },
    }
}

/// Reads an emphasis span that `delim` opens at `pos`.
pub fn parse_emph_with(text: &Vec<char>, pos: usize, end: usize, delim: char, kind: Emphasis) -> (r:
    Option<(Inline, usize)>)
    requires
        pos <= end <= text@.len(),
    ensures
        match r {
            Some((node, next)) => emphasis_at(text@, pos as int, end as int, delim, kind) == Some(
                (node@, next as int),
            ) && pos < next <= end,
            None => emphasis_at(text@, pos as int, end as int, delim, kind) is None,
        },
    decreases end - pos, 1int,
{
    if pos < end && text[pos] == delim && !(pos + 1 < end && is_whitespace(text[pos + 1])) {
        match parse_inlines_until(text, pos + 1, end, delim) {
            Some((nodes, p)) => {
                let children = coalesce_nodes(nodes);
                Some((Inline::Emphasis { kind, children }, p + 1))
            },
            None => None,
        }
    } else {
        None
    }
}

/// Reads the element at `pos`, if one stands there.
pub fn inline_atom(text: &Vec<char>, pos: usize, end: usize) -> (r: Option<(Inline, usize)>)
    requires
        pos <= end <= text@.len(),
    ensures
        match r {
            Some((node, next)) => atom_at(text@, pos as int, end as int) == Some(
                (node@, next as int),
            ) && pos < next <= end,
            None => atom_at(text@, pos as int, end as int) is None,
        },
    decreases end - pos, 2int,
{
    if let Some(r) = parse_link_bracketed(text, pos, end) {
        return Some(r);
    }
    if let Some(r) = parse_flat_before_emphasis(text, pos, end) {
        return Some(r);
    }
    if let Some(r) = parse_emph_with(text, pos, end, '*', Emphasis::Bold) {
        return Some(r);
    }
    if let Some(r) = parse_emph_with(text, pos, end, '/', Emphasis::Italic) {
        return Some(r);
    }
    if let Some(r) = parse_emph_with(text, pos, end, '_', Emphasis::Underline) {
        return Some(r);
    }
    if let Some(r) = parse_emph_with(text, pos, end, '+', Emphasis::Strike) {
        return Some(r);
    }
    parse_flat_after_emphasis(text, pos, end)
}

/// Reads the node that starts at `pos`: the element there, or else the one
/// character there as literal text.
fn parse_node(text: &Vec<char>, pos: usize, end: usize) -> (r: (Inline, usize))
    requires
        pos < end <= text@.len(),
    ensures
        node_at(text@, pos as int, end as int) == (r.0@, r.1 as int),
        pos < r.1 <= end,
    decreases end - pos, 3int,
{
    match inline_atom(text, pos, end) {
        Some((node, next)) => (node, next),
        None => {
            let one = string_of(text, pos, pos + 1);
            assert(one@ =~= seq![text@[pos as int]]);
            (Inline::Text(one), pos + 1)
        },
    }
}

proof fn lemma_prepend_step(
    nodes: Seq<InlineView>,
    x: InlineView,
    rest: Option<(Seq<InlineView>, int)>,
)
    ensures
        prepend(nodes, prepend(seq![x], rest)) == prepend(nodes.push(x), rest),
{
    match rest {
        Some((more, p)) => {
            assert(nodes + (seq![x] + more) =~= nodes.push(x) + more);
        },
        None => {},
    }
}

/// Reads nodes from `pos` up to the first `stop` that no element takes.
pub fn parse_inlines_until(text: &Vec<char>, pos: usize, end: usize, stop: char) -> (r: Option<
    (Vec<Inline>, usize),
>)
    requires
        pos <= end <= text@.len(),
    ensures
        match r {
            Some((nodes, p)) => inlines_until(text@, pos as int, end as int, stop) == Some(
                (inlines_view(nodes@), p as int),
            ) && pos <= p < end && text@[p as int] == stop,
            None => inlines_until(text@, pos as int, end as int, stop) is None,
        },
    decreases end - pos, 4int,
{
    let mut out: Vec<Inline> = Vec::new();
    let mut i: usize = pos;
    assert(inlines_view(out@) =~= Seq::<InlineView>::empty());
    proof {
        let r = inlines_until(text@, pos as int, end as int, stop);
        match r {
            Some((more, p)) => {
                assert(Seq::<InlineView>::empty() + more =~= more);
            },
            None => {},
        }
    }
    loop
        invariant
            pos <= i <= end <= text@.len(),
            inlines_until(text@, pos as int, end as int, stop) == prepend(
                inlines_view(out@),
                inlines_until(text@, i as int, end as int, stop),
            ),
        decreases end - i,
    {
        if i >= end {
            return None;
        }
        if text[i] == stop {
            assert(inlines_view(out@) + Seq::<InlineView>::empty() =~= inlines_view(out@));
            return Some((out, i));
        }
        let (node, next) = parse_node(text, i, end);
        proof {
            lemma_prepend_step(
                inlines_view(out@),
                node@,
                inlines_until(text@, next as int, end as int, stop),
            );
            lemma_inlines_view_push(out@, node);
        }
        out.push(node);
        i = next;
    }
}

/// Reads the nodes of the window, in order.
pub fn parse_inlines(text: &Vec<char>, pos: usize, end: usize) -> (r: Vec<Inline>)
    requires
        pos <= end <= text@.len(),
    ensures
        inlines_view(r@) == inlines_in(text@, pos as int, end as int),
    decreases end - pos, 4int,
{
    let mut out: Vec<Inline> = Vec::new();
    let mut i: usize = pos;
    assert(inlines_view(out@) + inlines_in(text@, pos as int, end as int) =~= inlines_in(
        text@,
        pos as int,
        end as int,
    ));
    while i < end
        invariant
            pos <= i <= end <= text@.len(),
            inlines_in(text@, pos as int, end as int) == inlines_view(out@) + inlines_in(
                text@,
                i as int,
                end as int,
            ),
        decreases end - i,
    {
        let (node, next) = parse_node(text, i, end);
        proof {
            lemma_inlines_view_push(out@, node);
            assert(inlines_view(out@) + (seq![node@] + inlines_in(
                text@,
                next as int,
                end as int,
            )) =~= inlines_view(out@).push(node@) + inlines_in(text@, next as int, end as int));
        }
        out.push(node);
        i = next;
    }
    assert(inlines_view(out@) + Seq::<InlineView>::empty() =~= inlines_view(out@));
    out
}

/// Joins every run of adjacent literal texts of `nodes` into one.
pub fn coalesce_nodes(nodes: Vec<Inline>) -> (r: Vec<Inline>)
    ensures
        inlines_view(r@) == coalesced(inlines_view(nodes@)),
{
    let ghost all = nodes@;
    let mut nodes = nodes;
    // The nodes are taken off the end, so they are turned round first.
    let mut turned: Vec<Inline> = Vec::new();
    while nodes.len() > 0
        invariant
            nodes@.len() + turned@.len() == all.len(),
            nodes@ == all.subrange(0, nodes@.len() as int),
            forall|k: int|
                0 <= k < turned@.len() ==> #[trigger] turned@[k] == all[all.len() - 1 - k],
        decreases nodes@.len(),
    {
        let ghost before = nodes@;
        match nodes.pop() {
            Some(x) => {
                turned.push(x);
                assert(nodes@ =~= all.subrange(0, nodes@.len() as int));
            },
            None => {},
        }
    }
    let mut out: Vec<Inline> = Vec::new();
    assert(all.subrange(0, 0) =~= Seq::<Inline>::empty());
    assert(inlines_view(Seq::<Inline>::empty()) =~= Seq::<InlineView>::empty());
    assert(inlines_view(out@) =~= Seq::<InlineView>::empty());
    while turned.len() > 0
        invariant
            turned@.len() <= all.len(),
            forall|k: int|
                0 <= k < turned@.len() ==> #[trigger] turned@[k] == all[all.len() - 1 - k],
            inlines_view(out@) == coalesced(
                inlines_view(all.subrange(0, all.len() - turned@.len())),
            ),
        decreases turned@.len(),
    {
        let ghost done = all.len() - turned@.len();
        let ghost head = inlines_view(out@);
        let x = match turned.pop() {
            Some(x) => x,
            None => { return out; },
        };
        assert(x == all[done]);
        proof {
            let upto = all.subrange(0, done + 1);
            assert(upto.drop_last() =~= all.subrange(0, done));
            assert(inlines_view(upto).drop_last() =~= inlines_view(all.subrange(0, done)));
            assert(inlines_view(upto).last() == x@);
        }
        let last = out.pop();
        match (last, x) {
            (Some(Inline::Text(prev)), Inline::Text(t)) => {
                let ghost shorter = out@;
                let mut joined = prev;
                joined.append(t.as_str());
                let node = Inline::Text(joined);
                proof {
                    lemma_inlines_view_push(shorter, node);
                    assert(head.drop_last() =~= inlines_view(shorter));
                }
                out.push(node);
            },
            (Some(other), x) => {
                let ghost shorter = out@;
                proof {
                    lemma_inlines_view_push(shorter, other);
                    lemma_inlines_view_push(shorter.push(other), x);
                    assert(shorter.push(other) =~= out@.push(other));
                }
                out.push(other);
                out.push(x);
            },
            (None, x) => {
                proof {
                    lemma_inlines_view_push(out@, x);
                }
                out.push(x);
            },
        }
    }
    assert(all.subrange(0, all.len() as int) =~= all);
    out
}

/// Joins every run of adjacent literal texts of `xs` into one.
pub fn coalesce_text(xs: &mut Vec<Inline>)
    ensures
        inlines_view(final(xs)@) == coalesced(inlines_view(old(xs)@)),
{
    let mut taken: Vec<Inline> = Vec::new();
    core::mem::swap(xs, &mut taken);
    let mut joined = coalesce_nodes(taken);
    core::mem::swap(xs, &mut joined);
}

/// Parses a run of text into inline nodes. Every character of the run ends
/// up in a node, and no two literal texts stand side by side in the result.
pub fn parse_inlines_str(s: &str) -> (r: Vec<Inline>)
    ensures
        inlines_view(r@) == rich_text(s@),
{
    let text = chars_of(s);
    let nodes = parse_inlines(&text, 0, text.len());
    coalesce_nodes(nodes)
}

/// Parses the characters of `text` into rich text.
pub fn parse_rich_text(text: &Vec<char>) -> (r: RichText)
    ensures
        r@ == rich_text(text@),
{
    let nodes = parse_inlines(text, 0, text.len());
    RichText { inlines: coalesce_nodes(nodes) }
}

/// Parses the characters `text[pos..end]` into rich text.
pub fn parse_rich_text_in(text: &Vec<char>, pos: usize, end: usize) -> (r: RichText)
    requires
        pos <= end <= text@.len(),
    ensures
        r@ == rich_text_in(text@, pos as int, end as int),
{
    let nodes = parse_inlines(text, pos, end);
    RichText { inlines: coalesce_nodes(nodes) }
}

/// The rich text that a run of text stands for.
pub fn rt_text(s: &str) -> (r: RichText)
    ensures
        r@ == rich_text(s@),
{
    RichText { inlines: parse_inlines_str(s) }
}

} // verus!
