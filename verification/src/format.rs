//! The formatter: from a document back to text.
//!
//! A part of the document that still has the range it was read from, in a
//! file that still has its source text, is copied from that text as it
//! stands. Every other part is written in canonical form from its fields.

use crate::calendar::{decimal, decimal_string};
use crate::entries::{entries_get, entries_len, map_entries};
use crate::model::{
    blocks_view, clock_view, inlines_view, list_items_view, sourced_blocks_view, strings_view,
    Block, BlockView, BlockWithSource, BlockWithSourceView, Checkbox, ClockEntry, ClockEntryView,
    DateOffset, Emphasis, Inline, InlineView, Link, LinkKind, LinkKindView, List, ListItem,
    ListItemView, ListKind, Logbook, LogbookView, Planning, PropertyDrawer, RepeaterKind, RichText,
    SrcBlock, SrcBlockView, Timestamp,
};
use crate::text::{
    chars_of, ends_with_char, push_char, skip, skip_back, skip_class, skip_class_back, string_of,
    CharClass,
};
use crate::source::SourceRange;
use crate::tags::tags_view;
use crate::tree::{
    blocks_fit, clock_valid, file_wf, heading_wf, headings_view, headings_wf, range_fits, Heading,
    HeadingView, OrgFile, OrgFileView,
};
use vstd::prelude::*;
use vstd::string::*;

verus! {

/* ------------------------------- Timestamps ------------------------------- */

/// The size of a number, whatever its sign.
pub open spec fn magnitude(x: int) -> nat {
    if x < 0 {
        (-x) as nat
    } else {
        x as nat
    }
}

/// An offset as a cookie shows it: the size of its first unit that is not
/// zero, in the order weeks, days, months, years, hours, and the unit's
/// letter; minutes if every other unit is zero.
pub open spec fn offset_text(o: DateOffset) -> Seq<char> {
    if o.weeks != 0 {
        decimal(magnitude(o.weeks as int)).push('w')
    } else if o.days != 0 {
        decimal(magnitude(o.days as int)).push('d')
    } else if o.months != 0 {
        decimal(magnitude(o.months as int)).push('m')
    } else if o.years != 0 {
        decimal(magnitude(o.years as int)).push('y')
    } else if o.hours != 0 {
        decimal(magnitude(o.hours as int)).push('h')
    } else {
        decimal(magnitude(o.minutes as int)).push('m')
    }
}

/// The size of `x` in decimal, and then `unit`.
fn render_amount(x: i32, unit: char) -> (r: String)
    ensures
        r@ == decimal(magnitude(x as int)).push(unit),
{
    let wide: i64 = x as i64;
    let size: u64 = if wide < 0 {
        (-wide) as u64
    } else {
        wide as u64
    };
    let mut r = decimal_string(size);
    push_char(&mut r, unit);
    r
}

/// Writes an offset as a cookie shows it.
pub fn render_offset(offset: &DateOffset) -> (r: String)
    ensures
        r@ == offset_text(*offset),
{
    if offset.weeks != 0 {
        render_amount(offset.weeks, 'w')
    } else if offset.days != 0 {
        render_amount(offset.days, 'd')
    } else if offset.months != 0 {
        render_amount(offset.months, 'm')
    } else if offset.years != 0 {
        render_amount(offset.years, 'y')
    } else if offset.hours != 0 {
        render_amount(offset.hours, 'h')
    } else {
        render_amount(offset.minutes, 'm')
    }
}

/// The mark of a repeater.
pub open spec fn repeater_mark(kind: RepeaterKind) -> Seq<char> {
    match kind {
        RepeaterKind::FromLast => "+"@,
        RepeaterKind::FromBase => "++"@,
        RepeaterKind::FromNow => ".+"@,
    }
}

/// The bracket that opens a timestamp.
pub open spec fn opening(active: bool) -> char {
    if active {
        '<'
    } else {
        '['
    }
}

/// The bracket that closes a timestamp.
pub open spec fn closing(active: bool) -> char {
    if active {
        '>'
    } else {
        ']'
    }
}

/// A timestamp with its date written.
pub open spec fn timestamp_date(ts: Timestamp) -> Seq<char> {
    seq![opening(ts.active)] + ts.date.text()
}

/// A timestamp with its date and its time written.
pub open spec fn timestamp_time(ts: Timestamp) -> Seq<char> {
    match ts.time {
        Some(t) => timestamp_date(ts).push(' ') + t.text(),
        None => timestamp_date(ts),
    }
}

/// A timestamp with date, time and repeater written.
pub open spec fn timestamp_repeater(ts: Timestamp) -> Seq<char> {
    match ts.repeater {
        Some(r) => timestamp_time(ts).push(' ') + repeater_mark(r.kind) + offset_text(r.interval),
        None => timestamp_time(ts),
    }
}

/// A timestamp with date, time, repeater and delay written.
pub open spec fn timestamp_delay(ts: Timestamp) -> Seq<char> {
    match ts.delay {
        Some(d) => timestamp_repeater(ts).push(' ').push(
            if d.before {
                '-'
            } else {
                '+'
            },
        ) + offset_text(d.offset),
        None => timestamp_repeater(ts),
    }
}

/// A timestamp in canonical form: the opening bracket, the date, and, as
/// far as they are there, a blank and the time, a blank and the repeater, a
/// blank and the delay; then the closing bracket.
pub open spec fn timestamp_text(ts: Timestamp) -> Seq<char> {
    timestamp_delay(ts).push(closing(ts.active))
}

/// Writes a timestamp in canonical form.
pub fn render_timestamp(ts: &Timestamp) -> (r: String)
    requires
        ts.valid(),
    ensures
        r@ == timestamp_text(*ts),
{
    let mut buf = String::new();
    push_char(
        &mut buf,
        if ts.active {
            '<'
        } else {
            '['
        },
    );
    let date = ts.date.render();
    buf.append(date.as_str());
    assert(buf@ =~= timestamp_date(*ts));
    match ts.time {
        Some(time) => {
            push_char(&mut buf, ' ');
            let text = time.render();
            buf.append(text.as_str());
        },
        None => {},
    }
    match &ts.repeater {
        Some(repeater) => {
            push_char(&mut buf, ' ');
            match repeater.kind {
                RepeaterKind::FromLast => buf.append("+"),
                RepeaterKind::FromBase => buf.append("++"),
                RepeaterKind::FromNow => buf.append(".+"),
            }
            let text = render_offset(&repeater.interval);
            buf.append(text.as_str());
        },
        None => {},
    }
    match &ts.delay {
        Some(delay) => {
            push_char(&mut buf, ' ');
            push_char(
                &mut buf,
                if delay.before {
                    '-'
                } else {
                    '+'
                },
            );
            let text = render_offset(&delay.offset);
            buf.append(text.as_str());
        },
        None => {},
    }
    push_char(
        &mut buf,
        if ts.active {
            '>'
        } else {
            ']'
        },
    );
    buf
}

/* -------------------------------- Rich text -------------------------------- */

/// The target of a link in canonical form.
pub open spec fn link_target_text(kind: LinkKindView) -> Seq<char> {
    match kind {
        LinkKindView::File { path, search } => match search {
            Some(search) => "file:"@ + path + "::"@ + search,
            None => "file:"@ + path,
        },
        LinkKindView::Http { url } => url,
        LinkKindView::Id { id } => "id:"@ + id,
        LinkKindView::Custom { protocol, target } => protocol.push(':') + target,
    }
}

/// Writes the target of a link in canonical form.
pub fn render_link_target(kind: &LinkKind) -> (r: String)
    ensures
        r@ == link_target_text(kind@),
{
    match kind {
        LinkKind::File { path, search } => {
            let mut r = "file:".to_owned();
            r.append(path.as_str());
            match search {
                Some(search) => {
                    r.append("::");
                    r.append(search.as_str());
                },
                None => {},
            }
            r
        },
        LinkKind::Http { url } => url.clone(),
        LinkKind::Id { id } => {
            let mut r = "id:".to_owned();
            r.append(id.as_str());
            r
        },
        LinkKind::Custom { protocol, target } => {
            let mut r = protocol.clone();
            push_char(&mut r, ':');
            r.append(target.as_str());
            r
        },
    }
}

/// The character that marks a kind of emphasis.
pub open spec fn emphasis_mark(kind: Emphasis) -> char {
    match kind {
        Emphasis::Bold => '*',
        Emphasis::Italic => '/',
        Emphasis::Underline => '_',
        Emphasis::Strike => '+',
        Emphasis::Mark => '=',
    }
}

/// An inline element in canonical form.
pub open spec fn inline_text(x: InlineView) -> Seq<char>
    decreases x,
{
    match x {
        InlineView::Text(t) => t,
        InlineView::Emphasis { kind, children } => (seq![emphasis_mark(kind)] + rich_text_text(
            children,
        )).push(emphasis_mark(kind)),
        InlineView::Code(t) => (seq!['~'] + t).push('~'),
        InlineView::Verbatim(t) => (seq!['='] + t).push('='),
        InlineView::Link(l) => match l.desc {
            Some(d) => "[["@ + link_target_text(l.kind) + "]["@ + rich_text_text(d) + "]]"@,
            None => "[["@ + link_target_text(l.kind) + "]]"@,
        },
        InlineView::Target(t) => "<<"@ + t + ">>"@,
        InlineView::FootnoteRef(t) => ("[fn:"@ + t).push(']'),
        InlineView::Entity(t) => t,
        InlineView::Unknown { kind, raw } => raw,
    }
}

/// Rich text in canonical form: its elements one after the other.
pub open spec fn rich_text_text(v: Seq<InlineView>) -> Seq<char>
    decreases v,
{
    if v.len() == 0 {
        Seq::empty()
    } else {
        rich_text_text(v.drop_last()) + inline_text(v.last())
    }
}

/// Writes an inline element in canonical form.
pub fn render_inline(x: &Inline) -> (r: String)
    ensures
        r@ == inline_text(x@),
    decreases x,
{
    match x {
        Inline::Text(t) => t.clone(),
        Inline::Emphasis { kind, children } => {
            let mark = match kind {
                Emphasis::Bold => '*',
                Emphasis::Italic => '/',
                Emphasis::Underline => '_',
                Emphasis::Strike => '+',
                Emphasis::Mark => '=',
            };
            let mut buf = String::new();
            push_char(&mut buf, mark);
            let inner = render_rich_text(children);
            buf.append(inner.as_str());
            push_char(&mut buf, mark);
            assert(buf@ =~= inline_text(x@));
            buf
        },
        Inline::Code(t) => {
            let mut buf = String::new();
            push_char(&mut buf, '~');
            buf.append(t.as_str());
            push_char(&mut buf, '~');
            assert(buf@ =~= inline_text(x@));
            buf
        },
        Inline::Verbatim(t) => {
            let mut buf = String::new();
            push_char(&mut buf, '=');
            buf.append(t.as_str());
            push_char(&mut buf, '=');
            assert(buf@ =~= inline_text(x@));
            buf
        },
        Inline::Link(link) => {
            let mut buf = "[[".to_owned();
            let target = render_link_target(&link.kind);
            buf.append(target.as_str());
            match &link.desc {
                Some(desc) => {
                    buf.append("][");
                    let inner = render_rich_text(desc);
                    buf.append(inner.as_str());
                },
                None => {},
            }
            buf.append("]]");
            buf
        },
        Inline::Target(t) => {
            let mut buf = "<<".to_owned();
            buf.append(t.as_str());
            buf.append(">>");
            buf
        },
        Inline::FootnoteRef(t) => {
            let mut buf = "[fn:".to_owned();
            buf.append(t.as_str());
            push_char(&mut buf, ']');
            buf
        },
        Inline::Entity(t) => t.clone(),
        Inline::Unknown { kind, raw } => raw.clone(),
    }
}

/// Writes rich text in canonical form.
pub fn render_rich_text(inlines: &Vec<Inline>) -> (r: String)
    ensures
        r@ == rich_text_text(inlines_view(inlines@)),
    decreases inlines,
{
    let ghost all = inlines_view(inlines@);
    let mut buf = String::new();
    let mut i: usize = 0;
    while i < inlines.len()
        invariant
            i <= inlines@.len(),
            all == inlines_view(inlines@),
            buf@ == rich_text_text(all.subrange(0, i as int)),
        decreases inlines@.len() - i,
    {
        let part = render_inline(&inlines[i]);
        proof {
            let upto = all.subrange(0, i + 1);
            assert(upto.drop_last() =~= all.subrange(0, i as int));
            assert(upto.last() == inlines@[i as int]@);
        }
        buf.append(part.as_str());
        i = i + 1;
    }
    assert(all.subrange(0, all.len() as int) =~= all);
    buf
}

/// What an inline element reads as without its markup.
pub open spec fn inline_plain(x: InlineView) -> Seq<char>
    decreases x,
{
    match x {
        InlineView::Text(t) => t,
        InlineView::Emphasis { kind, children } => plain_text_of(children),
        InlineView::Code(t) => t,
        InlineView::Verbatim(t) => t,
        InlineView::Link(l) => match l.desc {
            Some(d) => plain_text_of(d),
            None => match l.kind {
                LinkKindView::Http { url } => url,
                LinkKindView::File { path, search } => path,
                LinkKindView::Id { id } => id,
                LinkKindView::Custom { protocol, target } => protocol.push(':') + target,
            },
        },
        InlineView::Target(t) => t,
        InlineView::FootnoteRef(t) => t,
        InlineView::Entity(t) => t,
        InlineView::Unknown { kind, raw } => raw,
    }
}

/// What rich text reads as without its markup: the text of its elements,
/// one after the other. A link reads as its description, or as its target
/// if it has none.
pub open spec fn plain_text_of(v: Seq<InlineView>) -> Seq<char>
    decreases v,
{
    if v.len() == 0 {
        Seq::empty()
    } else {
        plain_text_of(v.drop_last()) + inline_plain(v.last())
    }
}

/// Adds to `out` what an inline element reads as without its markup.
fn push_plain(x: &Inline, out: &mut String)
    ensures
        final(out)@ == old(out)@ + inline_plain(x@),
    decreases x,
{
    match x {
        Inline::Text(t) => out.append(t.as_str()),
        Inline::Emphasis { kind, children } => push_plain_all(children, out),
        Inline::Code(t) => out.append(t.as_str()),
        Inline::Verbatim(t) => out.append(t.as_str()),
        Inline::Link(link) => match &link.desc {
            Some(desc) => push_plain_all(desc, out),
            None => match &link.kind {
                LinkKind::Http { url } => out.append(url.as_str()),
                LinkKind::File { path, search } => out.append(path.as_str()),
                LinkKind::Id { id } => out.append(id.as_str()),
                LinkKind::Custom { protocol, target } => {
                    out.append(protocol.as_str());
                    push_char(out, ':');
                    out.append(target.as_str());
                    assert(out@ =~= old(out)@ + inline_plain(x@));
                },
            },
        },
        Inline::Target(t) => out.append(t.as_str()),
        Inline::FootnoteRef(t) => out.append(t.as_str()),
        Inline::Entity(t) => out.append(t.as_str()),
        Inline::Unknown { kind, raw } => out.append(raw.as_str()),
    }
}

/// Adds to `out` what rich text reads as without its markup.
fn push_plain_all(inlines: &Vec<Inline>, out: &mut String)
    ensures
        final(out)@ == old(out)@ + plain_text_of(inlines_view(inlines@)),
    decreases inlines,
{
    let ghost all = inlines_view(inlines@);
    let mut i: usize = 0;
    assert(out@ =~= old(out)@ + plain_text_of(all.subrange(0, 0)));
    while i < inlines.len()
        invariant
            i <= inlines@.len(),
            all == inlines_view(inlines@),
            out@ == old(out)@ + plain_text_of(all.subrange(0, i as int)),
        decreases inlines@.len() - i,
    {
        proof {
            let upto = all.subrange(0, i + 1);
            assert(upto.drop_last() =~= all.subrange(0, i as int));
            assert(upto.last() == inlines@[i as int]@);
        }
        let ghost before = out@;
        push_plain(&inlines[i], out);
        assert(out@ =~= old(out)@ + plain_text_of(all.subrange(0, i + 1)));
        i = i + 1;
    }
    assert(all.subrange(0, all.len() as int) =~= all);
}

impl RichText {
    /// What the text reads as without its markup.
    pub fn plain_text(&self) -> (r: String)
        ensures
            r@ == plain_text_of(self@),
    {
        let mut s = String::new();
        push_plain_all(&self.inlines, &mut s);
        assert(s@ =~= plain_text_of(self@));
        s
    }
}

/* --------------------------------- Blocks --------------------------------- */

/// `t`, with a line break after it unless it ends in one.
pub open spec fn with_newline(t: Seq<char>) -> Seq<char> {
    if t.len() > 0 && t.last() == '\n' {
        t
    } else {
        t.push('\n')
    }
}

/// Adds `t` to `out`, and a line break unless `t` ends in one.
fn push_with_newline(out: &mut String, t: &str)
    ensures
        final(out)@ == old(out)@ + with_newline(t@),
{
    out.append(t);
    if !ends_with_char(t, '\n') {
        push_char(out, '\n');
        assert(out@ =~= old(out)@ + with_newline(t@));
    }
}

/// The lines of `t` from `pos` on, each behind `> ` and with a line break
/// after it. A line ends at `\n` or `\r\n`, or with the text.
pub open spec fn quoted(t: Seq<char>, pos: int) -> Seq<char>
    decreases t.len() - pos,
{
    let n = t.len() as int;
    if pos >= n {
        Seq::empty()
    } else {
        let e = skip_class(t, pos, n, CharClass::Except('\n'));
        let cut = if e < n && pos < e && t[e - 1] == '\r' {
            e - 1
        } else {
            e
        };
        let next = if e < n {
            e + 1
        } else {
            e
        };
        if pos < next <= n {
            ("> "@ + t.subrange(pos, cut)).push('\n') + quoted(t, next)
        } else {
            Seq::empty()
        }
    }
}

/// Adds the lines of `t` to `out`, each behind `> `.
fn push_quoted(out: &mut String, t: &str)
    ensures
        final(out)@ == old(out)@ + quoted(t@, 0),
{
    let text = chars_of(t);
    let n = text.len();
    let mut i: usize = 0;
    assert(out@ + quoted(text@, 0) =~= old(out)@ + quoted(t@, 0));
    while i < n
        invariant
            i <= n,
            n == text@.len(),
            text@ == t@,
            out@ + quoted(text@, i as int) == old(out)@ + quoted(t@, 0),
        decreases n - i,
    {
        let e = skip(&text, i, n, CharClass::Except('\n'));
        let cut = if e < n && i < e && text[e - 1] == '\r' {
            e - 1
        } else {
            e
        };
        let next = if e < n {
            e + 1
        } else {
            e
        };
        let ghost before = out@;
        out.append("> ");
        let line = string_of(&text, i, cut);
        out.append(line.as_str());
        push_char(out, '\n');
        proof {
            let piece = ("> "@ + text@.subrange(i as int, cut as int)).push('\n');
            assert(out@ =~= before + piece);
            assert(before + (piece + quoted(text@, next as int)) =~= (before + piece) + quoted(
                text@,
                next as int,
            ));
        }
        i = next;
    }
    assert(out@ + Seq::<char>::empty() =~= out@);
}

/// `t` without the line breaks at its end.
pub open spec fn without_newlines(t: Seq<char>) -> Seq<char> {
    t.subrange(0, skip_class_back(t, 0, t.len() as int, CharClass::Only('\n')))
}

/// The header parameters of a source block, each as ` key=value`.
pub open spec fn parameters_text(p: Seq<(Seq<char>, Seq<char>)>) -> Seq<char>
    decreases p.len(),
{
    if p.len() == 0 {
        Seq::empty()
    } else {
        (parameters_text(p.drop_last()).push(' ') + p.last().0).push('=') + p.last().1
    }
}

/// A source block in canonical form.
pub open spec fn src_block_text(src: SrcBlockView) -> Seq<char> {
    let head = match src.language {
        Some(language) => "#+BEGIN_SRC"@.push(' ') + language,
        None => "#+BEGIN_SRC"@,
    };
    (head + parameters_text(src.parameters)).push('\n') + with_newline(src.code)
        + "#+END_SRC\n"@
}

/// The raw lines of a table, each with a line break after it.
pub open spec fn table_text(lines: Seq<Seq<char>>) -> Seq<char>
    decreases lines.len(),
{
    if lines.len() == 0 {
        Seq::empty()
    } else {
        table_text(lines.drop_last()) + with_newline(lines.last())
    }
}

/// The bullet of a kind of list.
pub open spec fn bullet_text(kind: ListKind) -> Seq<char> {
    match kind {
        ListKind::Unordered => "-"@,
        ListKind::Ordered => "1."@,
        ListKind::Description => "::"@,
    }
}

/// The character in a checkbox.
pub open spec fn checkbox_mark(state: Checkbox) -> char {
    match state {
        Checkbox::Empty => ' ',
        Checkbox::Partial => '-',
        Checkbox::Checked => 'X',
    }
}

/// What stands before the content of a list item: bullet, blank, and as
/// far as they are there checkbox and label.
pub open spec fn item_head(kind: ListKind, item: ListItemView) -> Seq<char> {
    let bullet = bullet_text(kind).push(' ');
    let boxed = match item.checkbox {
        Some(state) => bullet.push('[').push(checkbox_mark(state)) + "] "@,
        None => bullet,
    };
    match item.label {
        Some(label) => boxed + rich_text_text(label) + " :: "@,
        None => boxed,
    }
}

/// A block in canonical form.
pub open spec fn block_text(b: BlockView) -> Seq<char>
    decreases b,
{
    match b {
        BlockView::Paragraph(t) => rich_text_text(t).push('\n'),
        BlockView::List(l) => list_text(l.kind, l.items),
        BlockView::Quote(blocks) => quote_text(blocks),
        BlockView::Example { raw } => "#+BEGIN_EXAMPLE\n"@ + with_newline(raw)
            + "#+END_EXAMPLE\n"@,
        BlockView::SrcBlock(src) => src_block_text(src),
        BlockView::Drawer(d) => (seq![':'] + d.name + ":\n"@) + blocks_text(d.content)
            + ":END:\n"@,
        BlockView::Table(lines) => table_text(lines),
        BlockView::HorizontalRule => "-----\n"@,
        BlockView::Comment(t) => t.push('\n'),
        BlockView::Directive { key, value } => ("#+"@ + key + ": "@ + value).push('\n'),
        BlockView::Unknown { kind, raw } => with_newline(raw),
    }
}

/// Blocks in canonical form, one after the other.
pub open spec fn blocks_text(v: Seq<BlockView>) -> Seq<char>
    decreases v,
{
    if v.len() == 0 {
        Seq::empty()
    } else {
        blocks_text(v.drop_last()) + block_text(v.last())
    }
}

/// The blocks of a quote: every line of every block behind `> `.
pub open spec fn quote_text(v: Seq<BlockView>) -> Seq<char>
    decreases v,
{
    if v.len() == 0 {
        Seq::empty()
    } else {
        quote_text(v.drop_last()) + quoted(block_text(v.last()), 0)
    }
}

/// The content of a list item: the first block on the bullet's line,
/// without the line breaks at its end and with one after it; every other
/// block behind two blanks.
pub open spec fn item_content(v: Seq<BlockView>) -> Seq<char>
    decreases v,
{
    if v.len() == 0 {
        Seq::empty()
    } else if v.len() == 1 {
        without_newlines(block_text(v[0])).push('\n')
    } else {
        item_content(v.drop_last()) + "  "@ + block_text(v.last())
    }
}

/// A list item in canonical form.
pub open spec fn item_text(kind: ListKind, item: ListItemView) -> Seq<char>
    decreases item,
{
    if item.content.len() == 0 {
        item_head(kind, item).push('\n')
    } else {
        item_head(kind, item) + item_content(item.content)
    }
}

/// A list in canonical form: its items, one after the other.
pub open spec fn list_text(kind: ListKind, items: Seq<ListItemView>) -> Seq<char>
    decreases items,
{
    if items.len() == 0 {
        Seq::empty()
    } else {
        list_text(kind, items.drop_last()) + item_text(kind, items.last())
    }
}

/// Writes a source block in canonical form.
fn render_src_block(src: &SrcBlock) -> (r: String)
    ensures
        r@ == src_block_text(src@),
{
    let mut buf = "#+BEGIN_SRC".to_owned();
    match &src.language {
        Some(language) => {
            push_char(&mut buf, ' ');
            buf.append(language.as_str());
        },
        None => {},
    }
    let ghost head = buf@;
    let ghost all = map_entries(src.parameters);
    let n = entries_len(&src.parameters);
    let mut i: usize = 0;
    assert(buf@ =~= head + parameters_text(all.subrange(0, 0)));
    while i < n
        invariant
            i <= n,
            n == all.len(),
            all == map_entries(src.parameters),
            buf@ == head + parameters_text(all.subrange(0, i as int)),
        decreases n - i,
    {
        match entries_get(&src.parameters, i) {
            Some((k, v)) => {
                proof {
                    let upto = all.subrange(0, i + 1);
                    assert(upto.drop_last() =~= all.subrange(0, i as int));
                    assert(upto.last() == all[i as int]);
                }
                push_char(&mut buf, ' ');
                buf.append(k.as_str());
                push_char(&mut buf, '=');
                buf.append(v.as_str());
                assert(buf@ =~= head + parameters_text(all.subrange(0, i + 1)));
            },
            None => {},
        }
        i = i + 1;
    }
    assert(all.subrange(0, all.len() as int) =~= all);
    push_char(&mut buf, '\n');
    push_with_newline(&mut buf, src.code.as_str());
    buf.append("#+END_SRC\n");
    buf
}

/// Writes a block in canonical form.
pub fn render_block(block: &Block) -> (r: String)
    ensures
        r@ == block_text(block@),
    decreases block,
{
    match block {
        Block::Paragraph(text) => {
            let mut buf = render_rich_text(&text.inlines);
            push_char(&mut buf, '\n');
            buf
        },
        Block::List(list) => render_list(list.kind, &list.items),
        Block::Quote(blocks) => render_quote(blocks),
        Block::Example { raw } => {
            let mut buf = "#+BEGIN_EXAMPLE\n".to_owned();
            push_with_newline(&mut buf, raw.as_str());
            buf.append("#+END_EXAMPLE\n");
            buf
        },
        Block::SrcBlock(src) => render_src_block(src),
        Block::Drawer(drawer) => {
            let mut buf = String::new();
            push_char(&mut buf, ':');
            buf.append(drawer.name.as_str());
            buf.append(":\n");
            let inner = render_blocks(&drawer.content);
            buf.append(inner.as_str());
            buf.append(":END:\n");
            assert(buf@ =~= block_text(block@));
            buf
        },
        Block::Table(table) => {
            let ghost all = strings_view(table.raw@);
            let mut buf = String::new();
            let mut i: usize = 0;
            while i < table.raw.len()
                invariant
                    i <= table.raw@.len(),
                    all == strings_view(table.raw@),
                    buf@ == table_text(all.subrange(0, i as int)),
                decreases table.raw@.len() - i,
            {
                proof {
                    let upto = all.subrange(0, i + 1);
                    assert(upto.drop_last() =~= all.subrange(0, i as int));
                    assert(upto.last() == table.raw@[i as int]@);
                }
                push_with_newline(&mut buf, table.raw[i].as_str());
                i = i + 1;
            }
            assert(all.subrange(0, all.len() as int) =~= all);
            buf
        },
        Block::HorizontalRule => "-----\n".to_owned(),
        Block::Comment(text) => {
            let mut buf = text.clone();
            push_char(&mut buf, '\n');
            buf
        },
        Block::Directive { key, value } => {
            let mut buf = "#+".to_owned();
            buf.append(key.as_str());
            buf.append(": ");
            buf.append(value.as_str());
            push_char(&mut buf, '\n');
            buf
        },
        Block::Unknown { kind, raw } => {
            let mut buf = String::new();
            push_with_newline(&mut buf, raw.as_str());
            assert(buf@ =~= with_newline(raw@));
            buf
        },
    }
}

/// Writes the blocks of a quote: every line of every block behind `> `.
fn render_quote(blocks: &Vec<Block>) -> (r: String)
    ensures
        r@ == quote_text(blocks_view(blocks@)),
    decreases blocks,
{
    let ghost all = blocks_view(blocks@);
    let mut buf = String::new();
    let mut i: usize = 0;
    while i < blocks.len()
        invariant
            i <= blocks@.len(),
            all == blocks_view(blocks@),
            buf@ == quote_text(all.subrange(0, i as int)),
        decreases blocks@.len() - i,
    {
        let inner = render_block(&blocks[i]);
        proof {
            let upto = all.subrange(0, i + 1);
            assert(upto.drop_last() =~= all.subrange(0, i as int));
            assert(upto.last() == blocks@[i as int]@);
        }
        push_quoted(&mut buf, inner.as_str());
        i = i + 1;
    }
    assert(all.subrange(0, all.len() as int) =~= all);
    buf
}

/// Writes blocks in canonical form, one after the other.
pub fn render_blocks(blocks: &Vec<Block>) -> (r: String)
    ensures
        r@ == blocks_text(blocks_view(blocks@)),
    decreases blocks,
{
    let ghost all = blocks_view(blocks@);
    let mut buf = String::new();
    let mut i: usize = 0;
    while i < blocks.len()
        invariant
            i <= blocks@.len(),
            all == blocks_view(blocks@),
            buf@ == blocks_text(all.subrange(0, i as int)),
        decreases blocks@.len() - i,
    {
        let inner = render_block(&blocks[i]);
        proof {
            let upto = all.subrange(0, i + 1);
            assert(upto.drop_last() =~= all.subrange(0, i as int));
            assert(upto.last() == blocks@[i as int]@);
        }
        buf.append(inner.as_str());
        i = i + 1;
    }
    assert(all.subrange(0, all.len() as int) =~= all);
    buf
}

/// Writes the content of a list item.
fn render_item_content(content: &Vec<Block>) -> (r: String)
    ensures
        r@ == item_content(blocks_view(content@)),
    decreases content,
{
    let ghost all = blocks_view(content@);
    let mut buf = String::new();
    let mut i: usize = 0;
    while i < content.len()
        invariant
            i <= content@.len(),
            all == blocks_view(content@),
            buf@ == item_content(all.subrange(0, i as int)),
        decreases content@.len() - i,
    {
        let rendered = render_block(&content[i]);
        proof {
            let upto = all.subrange(0, i + 1);
            assert(upto.drop_last() =~= all.subrange(0, i as int));
            assert(upto.last() == content@[i as int]@);
            assert(upto[0] == all[0]);
        }
        if i == 0 {
            let text = chars_of(rendered.as_str());
            let cut = skip_back(&text, 0, text.len(), CharClass::Only('\n'));
            let kept = string_of(&text, 0, cut);
            buf.append(kept.as_str());
            push_char(&mut buf, '\n');
            assert(buf@ =~= without_newlines(rendered@).push('\n'));
        } else {
            buf.append("  ");
            buf.append(rendered.as_str());
        }
        i = i + 1;
    }
    assert(all.subrange(0, all.len() as int) =~= all);
    buf
}

/// Writes a list item in canonical form.
fn render_list_item(kind: ListKind, item: &ListItem) -> (r: String)
    ensures
        r@ == item_text(kind, item@),
    decreases item,
{
    let mut buf = String::new();
    match kind {
        ListKind::Unordered => buf.append("-"),
        ListKind::Ordered => buf.append("1."),
        ListKind::Description => buf.append("::"),
    }
    push_char(&mut buf, ' ');
    match item.checkbox {
        Some(state) => {
            let mark = match state {
                Checkbox::Empty => ' ',
                Checkbox::Partial => '-',
                Checkbox::Checked => 'X',
            };
            push_char(&mut buf, '[');
            push_char(&mut buf, mark);
            buf.append("] ");
        },
        None => {},
    }
    match &item.label {
        Some(label) => {
            let text = render_rich_text(&label.inlines);
            buf.append(text.as_str());
            buf.append(" :: ");
        },
        None => {},
    }
    assert(buf@ =~= item_head(kind, item@));
    if item.content.len() == 0 {
        push_char(&mut buf, '\n');
    } else {
        let content = render_item_content(&item.content);
        buf.append(content.as_str());
    }
    buf
}

/// Writes a list in canonical form.
pub fn render_list(kind: ListKind, items: &Vec<ListItem>) -> (r: String)
    ensures
        r@ == list_text(kind, list_items_view(items@)),
    decreases items,
{
    let ghost all = list_items_view(items@);
    let mut buf = String::new();
    let mut i: usize = 0;
    while i < items.len()
        invariant
            i <= items@.len(),
            all == list_items_view(items@),
            buf@ == list_text(kind, all.subrange(0, i as int)),
        decreases items@.len() - i,
    {
        let inner = render_list_item(kind, &items[i]);
        proof {
            let upto = all.subrange(0, i + 1);
            assert(upto.drop_last() =~= all.subrange(0, i as int));
            assert(upto.last() == items@[i as int]@);
        }
        buf.append(inner.as_str());
        i = i + 1;
    }
    assert(all.subrange(0, all.len() as int) =~= all);
    buf
}

/* -------------------------------- Headings -------------------------------- */

/// As many stars as the level says.
pub open spec fn stars(level: u8) -> Seq<char> {
    Seq::new(level as nat, |i: int| '*')
}

/// Tags as they stand at the end of a headline, each with a colon after it.
pub open spec fn tags_text(tags: Seq<Seq<char>>) -> Seq<char>
    decreases tags.len(),
{
    if tags.len() == 0 {
        Seq::empty()
    } else {
        (tags_text(tags.drop_last()) + tags.last()).push(':')
    }
}

/// A headline up to and including the blank after its stars.
pub open spec fn headline_stars(h: HeadingView) -> Seq<char> {
    stars(h.level).push(' ')
}

/// A headline up to and including its keyword.
pub open spec fn headline_keyword(h: HeadingView) -> Seq<char> {
    match h.todo {
        Some(t) => (headline_stars(h) + t.text).push(' '),
        None => headline_stars(h),
    }
}

/// A headline up to and including its priority.
pub open spec fn headline_priority(h: HeadingView) -> Seq<char> {
    match h.priority {
        Some(p) => (headline_keyword(h) + "[#"@).push(p.0) + "] "@,
        None => headline_keyword(h),
    }
}

/// A headline in canonical form: the stars, a blank, and as far as they
/// are there the keyword and a blank, the priority in `[#` and `]` and a
/// blank; then the title; then, if there are tags, a blank, a colon and
/// each tag with a colon after it.
pub open spec fn headline_text(h: HeadingView) -> Seq<char> {
    let titled = headline_priority(h) + rich_text_text(h.title);
    if h.tags.len() > 0 {
        (titled.push(' ').push(':') + tags_text(h.tags)).push('\n')
    } else {
        titled.push('\n')
    }
}

/// Writes a headline in canonical form.
pub fn render_headline(heading: &Heading) -> (r: String)
    ensures
        r@ == headline_text(heading@),
{
    let mut buf = String::new();
    let mut k: u8 = 0;
    while k < heading.level
        invariant
            k <= heading.level,
            buf@ == stars(k),
        decreases heading.level - k,
    {
        push_char(&mut buf, '*');
        k = k + 1;
        assert(buf@ =~= stars(k));
    }
    push_char(&mut buf, ' ');
    match &heading.todo {
        Some(todo) => {
            buf.append(todo.text.as_str());
            push_char(&mut buf, ' ');
        },
        None => {},
    }
    match &heading.priority {
        Some(priority) => {
            buf.append("[#");
            push_char(&mut buf, priority.0);
            buf.append("] ");
        },
        None => {},
    }
    assert(buf@ == headline_priority(heading@));
    let title = render_rich_text(&heading.title.inlines);
    buf.append(title.as_str());
    if !heading.tags.is_empty() {
        push_char(&mut buf, ' ');
        push_char(&mut buf, ':');
        let ghost head = buf@;
        let ghost all = heading.tags@;
        let mut i: usize = 0;
        assert(buf@ =~= head + tags_text(all.subrange(0, 0)));
        while i < heading.tags.items.len()
            invariant
                i <= heading.tags.items@.len(),
                all == tags_view(heading.tags.items@),
                buf@ == head + tags_text(all.subrange(0, i as int)),
            decreases heading.tags.items@.len() - i,
        {
            proof {
                let upto = all.subrange(0, i + 1);
                assert(upto.drop_last() =~= all.subrange(0, i as int));
                assert(upto.last() == heading.tags.items@[i as int]@);
            }
            buf.append(heading.tags.items[i].0.as_str());
            push_char(&mut buf, ':');
            assert(buf@ =~= head + tags_text(all.subrange(0, i + 1)));
            i = i + 1;
        }
        assert(all.subrange(0, all.len() as int) =~= all);
    }
    push_char(&mut buf, '\n');
    buf
}

/// `acc`, and after it the field of a planning line if its timestamp is
/// there. A blank parts it from what stands before it.
pub open spec fn planning_part(acc: Seq<char>, label: Seq<char>, ts: Option<Timestamp>) -> Seq<char> {
    match ts {
        Some(t) => (if acc.len() > 0 {
            acc.push(' ')
        } else {
            acc
        }) + label + timestamp_text(t),
        None => acc,
    }
}

/// A planning line in canonical form: `SCHEDULED:`, `DEADLINE:` and
/// `CLOSED:` in that order, each with its timestamp, as far as they are
/// there.
pub open spec fn planning_text(p: Planning) -> Seq<char> {
    planning_part(
        planning_part(
            planning_part(Seq::empty(), "SCHEDULED: "@, p.scheduled),
            "DEADLINE: "@,
            p.deadline,
        ),
        "CLOSED: "@,
        p.closed,
    ).push('\n')
}

/// Adds the field of a planning line to `buf` if its timestamp is there.
fn push_planning_part(buf: &mut String, any: bool, label: &str, ts: &Option<Timestamp>) -> (r: bool)
    requires
        any == (old(buf)@.len() > 0),
        ts matches Some(t) ==> t.valid(),
    ensures
        final(buf)@ == planning_part(old(buf)@, label@, *ts),
        r == (final(buf)@.len() > 0),
{
    match ts {
        Some(t) => {
            if any {
                push_char(buf, ' ');
            }
            buf.append(label);
            let text = render_timestamp(t);
            buf.append(text.as_str());
            true
        },
        None => any,
    }
}

/// Writes a planning line in canonical form.
pub fn render_planning(plan: &Planning) -> (r: String)
    requires
        plan.valid(),
    ensures
        r@ == planning_text(*plan),
{
    let mut line = String::new();
    let any = push_planning_part(&mut line, false, "SCHEDULED: ", &plan.scheduled);
    let any = push_planning_part(&mut line, any, "DEADLINE: ", &plan.deadline);
    let _ = push_planning_part(&mut line, any, "CLOSED: ", &plan.closed);
    push_char(&mut line, '\n');
    line
}

/// The lines of a property drawer, each as `:KEY: value`.
pub open spec fn property_lines(p: Seq<(Seq<char>, Seq<char>)>) -> Seq<char>
    decreases p.len(),
{
    if p.len() == 0 {
        Seq::empty()
    } else {
        (((property_lines(p.drop_last()).push(':') + p.last().0) + ": "@) + p.last().1).push('\n')
    }
}

/// A property drawer in canonical form.
pub open spec fn properties_text(p: Seq<(Seq<char>, Seq<char>)>) -> Seq<char> {
    ":PROPERTIES:\n"@ + property_lines(p) + ":END:\n"@
}

/// Writes a property drawer in canonical form.
pub fn render_properties(props: &PropertyDrawer) -> (r: String)
    ensures
        r@ == properties_text(props@),
{
    let mut buf = ":PROPERTIES:\n".to_owned();
    let ghost head = buf@;
    let ghost all = map_entries(props.props);
    let n = entries_len(&props.props);
    let mut i: usize = 0;
    assert(buf@ =~= head + property_lines(all.subrange(0, 0)));
    while i < n
        invariant
            i <= n,
            n == all.len(),
            all == map_entries(props.props),
            buf@ == head + property_lines(all.subrange(0, i as int)),
        decreases n - i,
    {
        match entries_get(&props.props, i) {
            Some((k, v)) => {
                proof {
                    let upto = all.subrange(0, i + 1);
                    assert(upto.drop_last() =~= all.subrange(0, i as int));
                    assert(upto.last() == all[i as int]);
                }
                push_char(&mut buf, ':');
                buf.append(k.as_str());
                buf.append(": ");
                buf.append(v.as_str());
                push_char(&mut buf, '\n');
                assert(buf@ =~= head + property_lines(all.subrange(0, i + 1)));
            },
            None => {},
        }
        i = i + 1;
    }
    assert(all.subrange(0, all.len() as int) =~= all);
    buf.append(":END:\n");
    buf
}

/// `x` in decimal, with `-` in front if it is below zero.
pub open spec fn signed_decimal(x: int) -> Seq<char> {
    if x < 0 {
        seq!['-'] + decimal((-x) as nat)
    } else {
        decimal(x as nat)
    }
}

/// `x` in decimal, with a zero in front if it is a single digit.
pub open spec fn two_or_more(x: int) -> Seq<char> {
    if 0 <= x < 10 {
        seq!['0'] + decimal(x as nat)
    } else {
        signed_decimal(x)
    }
}

/// The quotient of `x` by 60, rounded towards zero.
pub open spec fn hours_of(x: int) -> int {
    if x >= 0 {
        x / 60
    } else {
        -((-x) / 60)
    }
}

/// What is left of `x` after its hours are taken out; it has the sign of
/// `x`.
pub open spec fn minutes_of(x: int) -> int {
    if x >= 0 {
        x % 60
    } else {
        -((-x) % 60)
    }
}

/// The duration of a clock line: ` => `, hours, `:` and minutes with at
/// least two digits.
pub open spec fn duration_text(minutes: i64) -> Seq<char> {
    (" => "@ + signed_decimal(hours_of(minutes as int))).push(':') + two_or_more(
        minutes_of(minutes as int),
    )
}

/// Adds `x` to `out`, with `-` in front if `negative` and `x` is not zero.
fn push_signed(out: &mut String, negative: bool, x: u64)
    ensures
        final(out)@ == old(out)@ + signed_decimal(
            if negative {
                -(x as int)
            } else {
                x as int
            },
        ),
{
    if negative && x > 0 {
        push_char(out, '-');
    }
    let digits = decimal_string(x);
    out.append(digits.as_str());
    assert(out@ =~= old(out)@ + signed_decimal(
        if negative {
            -(x as int)
        } else {
            x as int
        },
    ));
}

/// Adds the duration of a clock line to `out`.
fn push_duration(out: &mut String, minutes: i64)
    ensures
        final(out)@ == old(out)@ + duration_text(minutes),
{
    let negative = minutes < 0;
    let size: u64 = if minutes >= 0 {
        minutes as u64
    } else if minutes == i64::MIN {
        9223372036854775808
    } else {
        (-minutes) as u64
    };
    let h: u64 = size / 60;
    let m: u64 = size % 60;
    out.append(" => ");
    push_signed(out, negative, h);
    push_char(out, ':');
    if (!negative || m == 0) && m < 10 {
        push_char(out, '0');
        let digits = decimal_string(m);
        out.append(digits.as_str());
    } else {
        push_signed(out, negative, m);
    }
    assert(out@ =~= old(out)@ + duration_text(minutes));
}

/// A clock line in canonical form: `CLOCK: `, the start, and as far as
/// they are there `--` with the end and the duration.
pub open spec fn clock_line_text(c: ClockEntryView) -> Seq<char> {
    let started = "CLOCK: "@ + timestamp_text(c.start);
    let ended = match c.end {
        Some(end) => started + "--"@ + timestamp_text(end),
        None => started,
    };
    match c.minutes {
        Some(minutes) => (ended + duration_text(minutes)).push('\n'),
        None => ended.push('\n'),
    }
}

/// Clock lines in canonical form, one after the other.
pub open spec fn clock_lines(v: Seq<ClockEntryView>) -> Seq<char>
    decreases v.len(),
{
    if v.len() == 0 {
        Seq::empty()
    } else {
        clock_lines(v.drop_last()) + clock_line_text(v.last())
    }
}

/// Lines as they stand, each with a line break after it.
pub open spec fn raw_lines(v: Seq<Seq<char>>) -> Seq<char>
    decreases v.len(),
{
    if v.len() == 0 {
        Seq::empty()
    } else {
        raw_lines(v.drop_last()) + v.last().push('\n')
    }
}

/// A logbook in canonical form: `:LOGBOOK:`, the clock lines, the other
/// lines as they stand, and `:END:`.
pub open spec fn logbook_text(log: LogbookView) -> Seq<char> {
    ":LOGBOOK:\n"@ + clock_lines(log.clock) + raw_lines(log.raw) + ":END:\n"@
}

/// Writes a clock line in canonical form.
fn render_clock_line(entry: &ClockEntry) -> (r: String)
    requires
        entry.start.valid(),
        entry.end matches Some(t) ==> t.valid(),
    ensures
        r@ == clock_line_text(entry@),
{
    let mut buf = "CLOCK: ".to_owned();
    let start = render_timestamp(&entry.start);
    buf.append(start.as_str());
    match &entry.end {
        Some(end) => {
            buf.append("--");
            let text = render_timestamp(end);
            buf.append(text.as_str());
        },
        None => {},
    }
    match entry.minutes {
        Some(minutes) => {
            push_duration(&mut buf, minutes);
        },
        None => {},
    }
    push_char(&mut buf, '\n');
    buf
}

/// Writes clock lines in canonical form, one after the other.
fn render_clock_lines(clock: &Vec<ClockEntry>) -> (r: String)
    requires
        clock_valid(clock_view(clock@)),
    ensures
        r@ == clock_lines(clock_view(clock@)),
{
    let ghost all = clock_view(clock@);
    let mut buf = String::new();
    let mut i: usize = 0;
    while i < clock.len()
        invariant
            i <= clock@.len(),
            all == clock_view(clock@),
            clock_valid(all),
            buf@ == clock_lines(all.subrange(0, i as int)),
        decreases clock@.len() - i,
    {
        let entry = &clock[i];
        proof {
            let upto = all.subrange(0, i + 1);
            assert(upto.drop_last() =~= all.subrange(0, i as int));
            assert(upto.last() == entry@);
            assert(all[i as int] == entry@);
        }
        let line = render_clock_line(entry);
        buf.append(line.as_str());
        i = i + 1;
    }
    assert(all.subrange(0, all.len() as int) =~= all);
    buf
}

/// Writes lines as they stand, each with a line break after it.
fn render_raw_lines(raw: &Vec<String>) -> (r: String)
    ensures
        r@ == raw_lines(strings_view(raw@)),
{
    let ghost all = strings_view(raw@);
    let mut buf = String::new();
    let mut j: usize = 0;
    while j < raw.len()
        invariant
            j <= raw@.len(),
            all == strings_view(raw@),
            buf@ == raw_lines(all.subrange(0, j as int)),
        decreases raw@.len() - j,
    {
        proof {
            let upto = all.subrange(0, j + 1);
            assert(upto.drop_last() =~= all.subrange(0, j as int));
            assert(upto.last() == raw@[j as int]@);
        }
        let ghost before = buf@;
        buf.append(raw[j].as_str());
        push_char(&mut buf, '\n');
        assert(buf@ =~= before + raw@[j as int]@.push('\n'));
        j = j + 1;
    }
    assert(all.subrange(0, all.len() as int) =~= all);
    buf
}

/// Writes a logbook in canonical form.
pub fn render_logbook(log: &Logbook) -> (r: String)
    requires
        clock_valid(log@.clock),
    ensures
        r@ == logbook_text(log@),
{
    let mut buf = ":LOGBOOK:\n".to_owned();
    let clock = render_clock_lines(&log.clock);
    buf.append(clock.as_str());
    let raw = render_raw_lines(&log.raw);
    buf.append(raw.as_str());
    buf.append(":END:\n");
    buf
}

/* -------------------------------- Documents -------------------------------- */

/// The view of a source text that may be absent.
pub open spec fn source_view(source: Option<&str>) -> Option<Seq<char>> {
    match source {
        Some(s) => Some(s@),
        None => None,
    }
}

/// The text of a part of the document: what its range covers in the source
/// text where it has a range and the file has its source text, and its
/// canonical form otherwise.
pub open spec fn part_text(
    range: Option<SourceRange>,
    source: Option<Seq<char>>,
    canonical: Seq<char>,
) -> Seq<char> {
    match (range, source) {
        (Some(r), Some(text)) => r.text(text),
        _ => canonical,
    }
}

/// The canonical form of a heading's planning: a planning line, or nothing
/// where no timestamp is set.
pub open spec fn planning_canonical(p: Planning) -> Seq<char> {
    if p.is_empty() {
        Seq::empty()
    } else {
        planning_text(p)
    }
}

/// The canonical form of a heading's properties: a drawer, or nothing
/// where there are no properties.
pub open spec fn properties_canonical(p: Seq<(Seq<char>, Seq<char>)>) -> Seq<char> {
    if p.len() == 0 {
        Seq::empty()
    } else {
        properties_text(p)
    }
}

/// The canonical form of a heading's logbook: a drawer, or nothing where
/// it has neither clock lines nor other lines.
pub open spec fn logbook_canonical(log: LogbookView) -> Seq<char> {
    if log.clock.len() == 0 && log.raw.len() == 0 {
        Seq::empty()
    } else {
        logbook_text(log)
    }
}

/// The text of a block: copied or canonical.
pub open spec fn sourced_block_text(b: BlockWithSourceView, source: Option<Seq<char>>) -> Seq<char> {
    part_text(b.source, source, block_text(b.block))
}

/// The text of blocks, one after the other.
pub open spec fn sourced_blocks_text(v: Seq<BlockWithSourceView>, source: Option<Seq<char>>) -> Seq<
    char,
>
    decreases v.len(),
{
    if v.len() == 0 {
        Seq::empty()
    } else {
        sourced_blocks_text(v.drop_last(), source) + sourced_block_text(v.last(), source)
    }
}

/// `out`, with a line break after it unless it ends in one or the heading
/// that follows is a root.
pub open spec fn on_new_line(out: Seq<char>, is_root: bool) -> Seq<char> {
    if !is_root && !(out.len() > 0 && out.last() == '\n') {
        out.push('\n')
    } else {
        out
    }
}

/// What a heading adds to the text before its children: headline,
/// planning, properties, logbook and blocks, in that order, each copied or
/// canonical.
pub open spec fn heading_own_text(h: HeadingView, source: Option<Seq<char>>) -> Seq<char> {
    part_text(h.headline_range, source, headline_text(h)) + part_text(
        h.planning_range,
        source,
        planning_canonical(h.planning),
    ) + part_text(h.properties_range, source, properties_canonical(h.properties)) + part_text(
        h.logbook_range,
        source,
        logbook_canonical(h.logbook),
    ) + sourced_blocks_text(h.blocks, source)
}

/// The text `out` with a heading written after it: the heading's own
/// parts, then its children, each starting on a new line.
pub open spec fn heading_onto(
    out: Seq<char>,
    h: HeadingView,
    source: Option<Seq<char>>,
    is_root: bool,
) -> Seq<char>
    decreases h,
{
    headings_onto(
        on_new_line(out, is_root) + heading_own_text(h, source),
        h.children,
        source,
        false,
    )
}

/// The text `out` with headings written after it, one after the other.
pub open spec fn headings_onto(
    out: Seq<char>,
    v: Seq<HeadingView>,
    source: Option<Seq<char>>,
    is_root: bool,
) -> Seq<char>
    decreases v,
{
    if v.len() == 0 {
        out
    } else {
        heading_onto(headings_onto(out, v.drop_last(), source, is_root), v.last(), source, is_root)
    }
}

/// The text of a document: its preamble, then its headings.
pub open spec fn format_text(f: OrgFileView) -> Seq<char> {
    headings_onto(sourced_blocks_text(f.preamble, f.source_text), f.headings, f.source_text, true)
}

/// Adds the text of a block to `out`: copied or canonical.
pub fn append_block(out: &mut String, block: &BlockWithSource, source: Option<&str>)
    requires
        range_fits(block.source, source_view(source)),
    ensures
        final(out)@ == old(out)@ + sourced_block_text(block@, source_view(source)),
{
    match (block.source, source) {
        (Some(range), Some(text)) => {
            out.append(range.slice(text));
        },
        _ => {
            let rendered = render_block(&block.block);
            out.append(rendered.as_str());
        },
    }
}

/// Adds the text of blocks to `out`, one after the other.
fn append_blocks(out: &mut String, blocks: &Vec<BlockWithSource>, source: Option<&str>)
    requires
        blocks_fit(sourced_blocks_view(blocks@), source_view(source)),
    ensures
        final(out)@ == old(out)@ + sourced_blocks_text(
            sourced_blocks_view(blocks@),
            source_view(source),
        ),
{
    let ghost all = sourced_blocks_view(blocks@);
    let ghost src = source_view(source);
    let mut i: usize = 0;
    assert(out@ =~= old(out)@ + sourced_blocks_text(all.subrange(0, 0), src));
    while i < blocks.len()
        invariant
            i <= blocks@.len(),
            all == sourced_blocks_view(blocks@),
            src == source_view(source),
            blocks_fit(all, src),
            out@ == old(out)@ + sourced_blocks_text(all.subrange(0, i as int), src),
        decreases blocks@.len() - i,
    {
        proof {
            let upto = all.subrange(0, i + 1);
            assert(upto.drop_last() =~= all.subrange(0, i as int));
            assert(upto.last() == blocks@[i as int]@);
            assert(all[i as int] == blocks@[i as int]@);
        }
        append_block(out, &blocks[i], source);
        assert(out@ =~= old(out)@ + sourced_blocks_text(all.subrange(0, i + 1), src));
        i = i + 1;
    }
    assert(all.subrange(0, all.len() as int) =~= all);
}

/// Adds a heading's headline to `out`: copied or canonical.
fn append_headline(out: &mut String, heading: &Heading, source: Option<&str>)
    requires
        range_fits(heading.headline_range, source_view(source)),
    ensures
        final(out)@ == old(out)@ + part_text(
            heading@.headline_range,
            source_view(source),
            headline_text(heading@),
        ),
{
    match (heading.headline_range, source) {
        (Some(range), Some(text)) => {
            out.append(range.slice(text));
        },
        _ => {
            let rendered = render_headline(heading);
            out.append(rendered.as_str());
        },
    }
}

/// Adds a heading's planning to `out`: copied or canonical.
fn append_planning(out: &mut String, heading: &Heading, source: Option<&str>)
    requires
        range_fits(heading.planning_range, source_view(source)),
        heading.planning.valid(),
    ensures
        final(out)@ == old(out)@ + part_text(
            heading@.planning_range,
            source_view(source),
            planning_canonical(heading@.planning),
        ),
{
    match (heading.planning_range, source) {
        (Some(range), Some(text)) => {
            out.append(range.slice(text));
        },
        _ => {
            if heading.planning.scheduled.is_some() || heading.planning.deadline.is_some()
                || heading.planning.closed.is_some() {
                let rendered = render_planning(&heading.planning);
                out.append(rendered.as_str());
            } else {
                assert(out@ =~= old(out)@ + Seq::<char>::empty());
            }
        },
    }
}

/// Adds a heading's properties to `out`: copied or canonical.
fn append_properties(out: &mut String, heading: &Heading, source: Option<&str>)
    requires
        range_fits(heading.properties_range, source_view(source)),
    ensures
        final(out)@ == old(out)@ + part_text(
            heading@.properties_range,
            source_view(source),
            properties_canonical(heading@.properties),
        ),
{
    match (heading.properties_range, source) {
        (Some(range), Some(text)) => {
            out.append(range.slice(text));
        },
        _ => {
            if entries_len(&heading.properties.props) > 0 {
                let rendered = render_properties(&heading.properties);
                out.append(rendered.as_str());
            } else {
                assert(out@ =~= old(out)@ + Seq::<char>::empty());
            }
        },
    }
}

/// Adds a heading's logbook to `out`: copied or canonical.
fn append_logbook(out: &mut String, heading: &Heading, source: Option<&str>)
    requires
        range_fits(heading.logbook_range, source_view(source)),
        clock_valid(heading@.logbook.clock),
    ensures
        final(out)@ == old(out)@ + part_text(
            heading@.logbook_range,
            source_view(source),
            logbook_canonical(heading@.logbook),
        ),
{
    match (heading.logbook_range, source) {
        (Some(range), Some(text)) => {
            out.append(range.slice(text));
        },
        _ => {
            if heading.logbook.clock.len() > 0 || heading.logbook.raw.len() > 0 {
                let rendered = render_logbook(&heading.logbook);
                out.append(rendered.as_str());
            } else {
                assert(out@ =~= old(out)@ + Seq::<char>::empty());
            }
        },
    }
}

/// Five texts added one by one are their concatenation added at once.
proof fn lemma_five_parts(
    o: Seq<char>,
    a: Seq<char>,
    b: Seq<char>,
    c: Seq<char>,
    d: Seq<char>,
    e: Seq<char>,
)
    ensures
        o + a + b + c + d + e == o + (a + b + c + d + e),
{
    assert(o + a + b + c + d + e =~= o + (a + b + c + d + e));
}

/// Adds a heading's own parts to `out`.
fn append_heading_parts(out: &mut String, heading: &Heading, source: Option<&str>)
    requires
        heading_wf(heading@, source_view(source)),
    ensures
        final(out)@ == old(out)@ + heading_own_text(heading@, source_view(source)),
{
    let ghost src = source_view(source);
    let ghost h = heading@;
    let ghost a = part_text(h.headline_range, src, headline_text(h));
    let ghost b = part_text(h.planning_range, src, planning_canonical(h.planning));
    let ghost c = part_text(h.properties_range, src, properties_canonical(h.properties));
    let ghost d = part_text(h.logbook_range, src, logbook_canonical(h.logbook));
    let ghost e = sourced_blocks_text(h.blocks, src);
    append_headline(out, heading, source);
    append_planning(out, heading, source);
    append_properties(out, heading, source);
    append_logbook(out, heading, source);
    append_blocks(out, &heading.section.blocks, source);
    proof {
        lemma_five_parts(old(out)@, a, b, c, d, e);
    }
}

/// Adds a heading and everything under it to `out`. A heading that is no
/// root starts on a new line.
pub fn format_heading(out: &mut String, heading: &Heading, source: Option<&str>, is_root_level: bool)
    requires
        heading_wf(heading@, source_view(source)),
    ensures
        final(out)@ == heading_onto(old(out)@, heading@, source_view(source), is_root_level),
    decreases heading,
{
    if !is_root_level && !ends_with_char(out.as_str(), '\n') {
        push_char(out, '\n');
    }
    append_heading_parts(out, heading, source);
    proof {
        let kids = headings_view(heading.children@);
        assert(kids == heading@.children);
        assert forall|i: int| 0 <= i < kids.len() implies heading_wf(
            #[trigger] kids[i],
            source_view(source),
        ) by {
            assert(heading_wf(heading@.children[i], source_view(source)));
        }
    }
    format_headings(out, &heading.children, source, false);
}

/// Adds headings and everything under them to `out`, one after the other.
pub fn format_headings(
    out: &mut String,
    headings: &Vec<Heading>,
    source: Option<&str>,
    is_root_level: bool,
)
    requires
        headings_wf(headings_view(headings@), source_view(source)),
    ensures
        final(out)@ == headings_onto(
            old(out)@,
            headings_view(headings@),
            source_view(source),
            is_root_level,
        ),
    decreases headings,
{
    let ghost all = headings_view(headings@);
    let ghost src = source_view(source);
    let mut i: usize = 0;
    while i < headings.len()
        invariant
            i <= headings@.len(),
            all == headings_view(headings@),
            src == source_view(source),
            headings_wf(all, src),
            out@ == headings_onto(old(out)@, all.subrange(0, i as int), src, is_root_level),
        decreases headings@.len() - i,
    {
        proof {
            let upto = all.subrange(0, i + 1);
            assert(upto.drop_last() =~= all.subrange(0, i as int));
            assert(upto.last() == headings@[i as int]@);
            assert(all[i as int] == headings@[i as int]@);
        }
        format_heading(out, &headings[i], source, is_root_level);
        i = i + 1;
    }
    assert(all.subrange(0, all.len() as int) =~= all);
}

/// Formats a document: the preamble, then every heading with what stands
/// under it, in the order of the document.
pub fn format_org_file(file: &OrgFile) -> (r: String)
    requires
        file_wf(file@),
    ensures
        r@ == format_text(file@),
{
    let source: Option<&str> = match &file.source_text {
        Some(text) => Some(text.as_str()),
        None => None,
    };
    let mut out = String::new();
    append_blocks(&mut out, &file.preamble, source);
    assert(out@ =~= sourced_blocks_text(file@.preamble, file@.source_text));
    format_headings(&mut out, &file.headings, source, true);
    out
}

/* ------------------------- Checking before writing ------------------------- */

/// Whether a range, if there is one, can be cut out of the source text, if
/// there is one.
pub fn range_is_usable(range: Option<SourceRange>, source: Option<&str>) -> (b: bool)
    ensures
        b == range_fits(range, source_view(source)),
{
    match (range, source) {
        (Some(r), Some(text)) => r.fits_in(text),
        _ => true,
    }
}

/// Whether the range of every block can be cut out of the source text.
fn blocks_are_usable(blocks: &Vec<BlockWithSource>, source: Option<&str>) -> (b: bool)
    ensures
        b == blocks_fit(sourced_blocks_view(blocks@), source_view(source)),
{
    let ghost all = sourced_blocks_view(blocks@);
    let mut i: usize = 0;
    while i < blocks.len()
        invariant
            i <= blocks@.len(),
            all == sourced_blocks_view(blocks@),
            forall|k: int| 0 <= k < i ==> range_fits((#[trigger] all[k]).source, source_view(source)),
        decreases blocks@.len() - i,
    {
        if !range_is_usable(blocks[i].source, source) {
            assert(all[i as int].source == blocks@[i as int].source);
            return false;
        }
        assert(all[i as int].source == blocks@[i as int].source);
        i = i + 1;
    }
    true
}

/// Whether every timestamp of the clock entries exists.
fn clock_is_valid(clock: &Vec<ClockEntry>) -> (b: bool)
    ensures
        b == clock_valid(clock_view(clock@)),
{
    let ghost all = clock_view(clock@);
    let mut i: usize = 0;
    while i < clock.len()
        invariant
            i <= clock@.len(),
            all == clock_view(clock@),
            forall|k: int|
                0 <= k < i ==> (#[trigger] all[k]).start.valid() && (all[k].end matches Some(t)
                    ==> t.valid()),
        decreases clock@.len() - i,
    {
        let entry = &clock[i];
        assert(all[i as int] == entry@);
        let ok = entry.start.is_valid() && match entry.end {
            Some(t) => t.is_valid(),
            None => true,
        };
        if !ok {
            return false;
        }
        i = i + 1;
    }
    true
}

/// Whether a heading is well formed with respect to the given source text.
pub fn heading_is_well_formed(heading: &Heading, source: Option<&str>) -> (b: bool)
    ensures
        b == heading_wf(heading@, source_view(source)),
    decreases heading,
{
    let own = range_is_usable(heading.headline_range, source) && range_is_usable(
        heading.planning_range,
        source,
    ) && range_is_usable(heading.properties_range, source) && range_is_usable(
        heading.logbook_range,
        source,
    ) && heading.planning.is_valid() && clock_is_valid(&heading.logbook.clock)
        && heading.tags.is_ascending() && blocks_are_usable(&heading.section.blocks, source);
    if !own {
        return false;
    }
    let kids = headings_are_well_formed(&heading.children, source);
    proof {
        let views = headings_view(heading.children@);
        assert(views == heading@.children);
        if kids {
            assert forall|i: int| 0 <= i < heading@.children.len() implies heading_wf(
                #[trigger] heading@.children[i],
                source_view(source),
            ) by {
                assert(heading_wf(views[i], source_view(source)));
            }
        } else {
            let i = choose|i: int|
                0 <= i < views.len() && !heading_wf(#[trigger] views[i], source_view(source));
            assert(!heading_wf(heading@.children[i], source_view(source)));
        }
    }
    kids
}

/// Whether each of the headings is well formed with respect to the given
/// source text.
pub fn headings_are_well_formed(headings: &Vec<Heading>, source: Option<&str>) -> (b: bool)
    ensures
        b == headings_wf(headings_view(headings@), source_view(source)),
    decreases headings,
{
    let ghost all = headings_view(headings@);
    let mut i: usize = 0;
    while i < headings.len()
        invariant
            i <= headings@.len(),
            all == headings_view(headings@),
            forall|k: int| 0 <= k < i ==> heading_wf(#[trigger] all[k], source_view(source)),
        decreases headings@.len() - i,
    {
        assert(all[i as int] == headings@[i as int]@);
        if !heading_is_well_formed(&headings[i], source) {
            return false;
        }
        i = i + 1;
    }
    true
}

impl OrgFile {
    /// Whether the file is well formed, so that it can be formatted.
    pub fn is_well_formed(&self) -> (b: bool)
        ensures
            b == file_wf(self@),
    {
        let source: Option<&str> = match &self.source_text {
            Some(text) => Some(text.as_str()),
            None => None,
        };
        self.file_tags.is_ascending() && blocks_are_usable(&self.preamble, source)
            && headings_are_well_formed(&self.headings, source)
    }
}

/// Formats a document if it is well formed, and says so if it is not.
pub fn try_format_org_file(file: &OrgFile) -> (r: Option<String>)
    ensures
        r is Some <==> file_wf(file@),
        r matches Some(text) ==> text@ == format_text(file@),
{
    if file.is_well_formed() {
        Some(format_org_file(file))
    } else {
        None
    }
}

} // verus!
