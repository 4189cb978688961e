//! The listing of an agenda: which items a window of days keeps, the order
//! in which they are shown, and how a line of the listing reads.

use crate::agenda::{AgendaItem, AgendaItemView, AgendaWhenKind};
use crate::calendar::{Date, DateTime, Time};
use crate::format::tags_text;
use crate::tags::{tags_view, Tag};
use vstd::prelude::*;
use vstd::seq_lib::to_multiset_insert;
use vstd::string::*;

verus! {

/* ------------------------------- The window ------------------------------- */

/// Whether an item is kept by a window of days: a task without a date
/// always, any other item if its day is none before `from` and none after
/// `to`, where these are given.
pub open spec fn in_window(item: AgendaItem, from: Option<Date>, to: Option<Date>) -> bool {
    item.when_kind == AgendaWhenKind::Todo || ((from matches Some(first)
        ==> !item.span.start.date.before(&first)) && (to matches Some(last) ==> !last.before(
        &item.span.start.date,
    )))
}

/// The items that the window keeps, in their order.
pub open spec fn kept(items: Seq<AgendaItem>, from: Option<Date>, to: Option<Date>) -> Seq<
    AgendaItem,
>
    decreases items.len(),
{
    if items.len() == 0 {
        Seq::empty()
    } else if in_window(items.last(), from, to) {
        kept(items.drop_last(), from, to).push(items.last())
    } else {
        kept(items.drop_last(), from, to)
    }
}

/// The items that the references point at.
pub open spec fn shown(v: Seq<&AgendaItem>) -> Seq<AgendaItem> {
    Seq::new(v.len(), |i: int| *v[i])
}

/// Whether an item is kept by a window of days.
pub fn is_in_window(item: &AgendaItem, from: Option<Date>, to: Option<Date>) -> (b: bool)
    ensures
        b == in_window(*item, from, to),
{
    if let AgendaWhenKind::Todo = item.when_kind {
        return true;
    }
    let early = match from {
        Some(first) => item.span.start.date.is_before(&first),
        None => false,
    };
    let late = match to {
        Some(last) => last.is_before(&item.span.start.date),
        None => false,
    };
    !early && !late
}

/// The items that a window of days keeps, in their order.
pub fn within<'a>(items: &'a Vec<AgendaItem>, from: Option<Date>, to: Option<Date>) -> (r: Vec<
    &'a AgendaItem,
>)
    ensures
        shown(r@) == kept(items@, from, to),
{
    let mut out: Vec<&AgendaItem> = Vec::new();
    let mut i: usize = 0;
    assert(items@.subrange(0, 0) =~= Seq::<AgendaItem>::empty());
    assert(shown(out@) =~= Seq::<AgendaItem>::empty());
    while i < items.len()
        invariant
            i <= items@.len(),
            shown(out@) == kept(items@.subrange(0, i as int), from, to),
        decreases items@.len() - i,
    {
        let ghost before = shown(out@);
        assert(items@.subrange(0, i + 1).drop_last() =~= items@.subrange(0, i as int));
        if is_in_window(&items[i], from, to) {
            out.push(&items[i]);
            assert(shown(out@) =~= before.push(items@[i as int]));
        }
        i = i + 1;
    }
    assert(items@.subrange(0, items@.len() as int) =~= items@);
    out
}

/* -------------------------------- The order -------------------------------- */

/// Whether the time `a` lies before the time `b`.
pub open spec fn time_before(a: Time, b: Time) -> bool {
    a.hour < b.hour || (a.hour == b.hour && (a.minute < b.minute || (a.minute == b.minute
        && a.second < b.second)))
}

/// Whether the moment `a` lies before the moment `b`.
pub open spec fn moment_before(a: DateTime, b: DateTime) -> bool {
    a.date.before(&b.date) || (a.date == b.date && time_before(a.time, b.time))
}

/// Whether the moment `a` lies before the moment `b`.
pub fn is_moment_before(a: &DateTime, b: &DateTime) -> (r: bool)
    ensures
        r == moment_before(*a, *b),
{
    if a.date.is_before(&b.date) {
        return true;
    }
    let same_day = a.date.year == b.date.year && a.date.month == b.date.month && a.date.day
        == b.date.day;
    same_day && (a.time.hour < b.time.hour || (a.time.hour == b.time.hour && (a.time.minute
        < b.time.minute || (a.time.minute == b.time.minute && a.time.second < b.time.second))))
}

/// Where an item that starts at `at` goes into `v`: in front of the items
/// at the end of `v` that start later, and so behind every item that
/// starts at the same moment.
pub open spec fn place_of(v: Seq<AgendaItem>, at: DateTime) -> int
    decreases v.len(),
{
    if v.len() > 0 && moment_before(at, v.last().span.start) {
        place_of(v.drop_last(), at)
    } else {
        v.len() as int
    }
}

/// The items by their start, earliest first; items that start at the same
/// moment keep their order.
pub open spec fn by_start(items: Seq<AgendaItem>) -> Seq<AgendaItem>
    decreases items.len(),
{
    if items.len() == 0 {
        Seq::empty()
    } else {
        let head = by_start(items.drop_last());
        head.insert(place_of(head, items.last().span.start), items.last())
    }
}

/// Whether no item starts before one that stands in front of it.
pub open spec fn starts_ascend(v: Seq<AgendaItem>) -> bool {
    forall|i: int, j: int|
        0 <= i < j < v.len() ==> !moment_before(#[trigger] v[j].span.start, #[trigger] v[i].span.start)
}

/// What holds of the place of an item: the items behind it start later,
/// the item in front of it does not.
pub proof fn lemma_place_of(v: Seq<AgendaItem>, at: DateTime)
    ensures
        0 <= place_of(v, at) <= v.len(),
        forall|k: int| place_of(v, at) <= k < v.len() ==> moment_before(at, #[trigger] v[k].span.start),
        place_of(v, at) > 0 ==> !moment_before(at, v[place_of(v, at) - 1].span.start),
    decreases v.len(),
{
    if v.len() > 0 && moment_before(at, v.last().span.start) {
        let head = v.drop_last();
        lemma_place_of(head, at);
        assert forall|k: int| place_of(v, at) <= k < v.len() implies moment_before(
            at,
            #[trigger] v[k].span.start,
        ) by {
            if k < head.len() {
                assert(v[k] == head[k]);
            }
        }
        if place_of(v, at) > 0 {
            assert(v[place_of(v, at) - 1] == head[place_of(v, at) - 1]);
        }
    }
}

/// The items by their start hold every item as often as it was given, and
/// none starts before one in front of it.
pub proof fn lemma_by_start(items: Seq<AgendaItem>)
    ensures
        by_start(items).to_multiset() == items.to_multiset(),
        by_start(items).len() == items.len(),
        starts_ascend(by_start(items)),
    decreases items.len(),
{
    if items.len() == 0 {
        assert(by_start(items) =~= items);
    } else {
        let head = by_start(items.drop_last());
        let x = items.last();
        let p = place_of(head, x.span.start);
        lemma_by_start(items.drop_last());
        lemma_place_of(head, x.span.start);
        to_multiset_insert(head, p, x);
        vstd::seq_lib::to_multiset_build(items.drop_last(), x);
        assert(items.drop_last().push(x) =~= items);
        let r = head.insert(p, x);
        assert forall|i: int, j: int| 0 <= i < j < r.len() implies !moment_before(
            #[trigger] r[j].span.start,
            #[trigger] r[i].span.start,
        ) by {
            if j < p {
                assert(r[i] == head[i] && r[j] == head[j]);
            } else if j == p {
                assert(r[i] == head[i]);
                if i < p - 1 {
                    assert(!moment_before(head[p - 1].span.start, head[i].span.start));
                }
            } else if i < p {
                assert(r[i] == head[i] && r[j] == head[j - 1]);
            } else if i == p {
                assert(r[j] == head[j - 1]);
            } else {
                assert(r[i] == head[i - 1] && r[j] == head[j - 1]);
            }
        }
    }
}

/// Puts the items in the order of their start, earliest first; items that
/// start at the same moment keep their order.
pub fn in_order<'a>(items: &Vec<&'a AgendaItem>) -> (r: Vec<&'a AgendaItem>)
    ensures
        shown(r@) == by_start(shown(items@)),
        shown(r@).to_multiset() == shown(items@).to_multiset(),
        starts_ascend(shown(r@)),
{
    let ghost all = shown(items@);
    let mut out: Vec<&AgendaItem> = Vec::new();
    let mut i: usize = 0;
    assert(all.subrange(0, 0) =~= Seq::<AgendaItem>::empty());
    assert(shown(out@) =~= Seq::<AgendaItem>::empty());
    while i < items.len()
        invariant
            i <= items@.len(),
            all == shown(items@),
            shown(out@) == by_start(all.subrange(0, i as int)),
            out@.len() == i,
        decreases items@.len() - i,
    {
        let next = items[i];
        let ghost head = shown(out@);
        let mut p: usize = out.len();
        assert(head.subrange(0, p as int) =~= head);
        while p > 0 && is_moment_before(&next.span.start, &out[p - 1].span.start)
            invariant
                p <= out@.len(),
                head == shown(out@),
                place_of(head, next.span.start) == place_of(
                    head.subrange(0, p as int),
                    next.span.start,
                ),
            decreases p,
        {
            assert(head.subrange(0, p as int).drop_last() =~= head.subrange(0, p - 1));
            p = p - 1;
        }
        proof {
            assert(all.subrange(0, i + 1).drop_last() =~= all.subrange(0, i as int));
            assert(all.subrange(0, i + 1).last() == *next);
            lemma_by_start(all.subrange(0, i as int));
        }
        out.insert(p, next);
        assert(shown(out@) =~= head.insert(p as int, *next));
        i = i + 1;
    }
    proof {
        assert(all.subrange(0, all.len() as int) =~= all);
        lemma_by_start(all);
    }
    out
}

/* --------------------------------- A line --------------------------------- */

/// The word that a line shows for the kind of an item.
pub open spec fn kind_word(kind: AgendaWhenKind) -> Seq<char> {
    match kind {
        AgendaWhenKind::Scheduled => "SCHEDULED"@,
        AgendaWhenKind::Deadline => "DEADLINE"@,
        AgendaWhenKind::Timestamp => "TIMESTAMP"@,
        AgendaWhenKind::Closed => "CLOSED"@,
        AgendaWhenKind::Todo => "TODO"@,
    }
}

/// `s` with blanks behind it up to `width` characters; `s` itself where it
/// is as long or longer.
pub open spec fn padded(s: Seq<char>, width: int) -> Seq<char> {
    if s.len() >= width {
        s
    } else {
        s + Seq::new((width - s.len()) as nat, |i: int| ' ')
    }
}

/// The tags at the end of a line: nothing where there are none, else a
/// blank, a colon, and each tag with a colon behind it.
pub open spec fn line_tags(tags: Seq<Seq<char>>) -> Seq<char> {
    if tags.len() == 0 {
        Seq::empty()
    } else {
        seq![' ', ':'] + tags_text(tags)
    }
}

/// The day of an item as a line shows it: a dash for a task without a
/// date.
pub open spec fn line_day(item: AgendaItemView) -> Seq<char> {
    if item.when_kind == AgendaWhenKind::Todo {
        seq!['\u{2014}']
    } else {
        item.span.start.date.text()
    }
}

/// The keyword of an item as a line shows it.
pub open spec fn line_keyword(item: AgendaItemView) -> Seq<char> {
    match item.todo {
        Some(t) => t.text,
        None => Seq::empty(),
    }
}

/// A line of the listing up to its title: the day of the item; the kind in
/// ten columns; the keyword in eight; the title.
pub open spec fn line_head(item: AgendaItemView) -> Seq<char> {
    line_day(item).push(' ') + padded(kind_word(item.when_kind), 10).push(' ') + padded(
        line_keyword(item),
        8,
    ).push(' ') + item.title
}

/// A line of the listing: day, kind, keyword, title and tags.
pub open spec fn line_text(item: AgendaItemView) -> Seq<char> {
    line_head(item) + line_tags(item.tags)
}

/// Appends `s` to `out`, with blanks behind it up to `width` characters.
fn append_padded(out: &mut String, s: &str, width: usize)
    ensures
        final(out)@ == old(out)@ + padded(s@, width as int),
{
    out.append(s);
    let n = s.unicode_len();
    let mut i: usize = n;
    while i < width
        invariant
            n == s@.len(),
            n <= i,
            i <= width || i == n,
            out@ == old(out)@ + s@ + Seq::new((i - n) as nat, |k: int| ' '),
        decreases width - i,
    {
        out.append(" ");
        proof {
            reveal_strlit(" ");
            assert(" "@ =~= seq![' ']);
        }
        i = i + 1;
        assert(out@ =~= old(out)@ + s@ + Seq::new((i - n) as nat, |k: int| ' '));
    }
    assert(out@ =~= old(out)@ + padded(s@, width as int));
}

/// The word that a line shows for the kind of an item.
fn kind_name(kind: AgendaWhenKind) -> (r: &'static str)
    ensures
        r@ == kind_word(kind),
{
    match kind {
        AgendaWhenKind::Scheduled => "SCHEDULED",
        AgendaWhenKind::Deadline => "DEADLINE",
        AgendaWhenKind::Timestamp => "TIMESTAMP",
        AgendaWhenKind::Closed => "CLOSED",
        AgendaWhenKind::Todo => "TODO",
    }
}

/// Writes the day of an item as a line shows it.
fn render_day(item: &AgendaItem) -> (r: String)
    requires
        item.when_kind != AgendaWhenKind::Todo ==> item.span.start.date.valid(),
    ensures
        r@ == line_day(item@),
{
    if let AgendaWhenKind::Todo = item.when_kind {
        let mut dash = String::new();
        dash.append("\u{2014}");
        proof {
            reveal_strlit("\u{2014}");
            assert(dash@ =~= seq!['\u{2014}']);
        }
        dash
    } else {
        item.span.start.date.render()
    }
}

/// Appends a blank to `out`.
fn append_blank(out: &mut String)
    ensures
        final(out)@ == old(out)@.push(' '),
{
    out.append(" ");
    proof {
        reveal_strlit(" ");
        assert(out@ =~= old(out)@.push(' '));
    }
}

/// Writes a line of the listing up to its title.
fn render_line_head(item: &AgendaItem) -> (r: String)
    requires
        item.when_kind != AgendaWhenKind::Todo ==> item.span.start.date.valid(),
    ensures
        r@ == line_head(item@),
{
    let mut out = render_day(item);
    append_blank(&mut out);
    append_padded(&mut out, kind_name(item.when_kind), 10);
    append_blank(&mut out);
    match &item.todo {
        Some(t) => append_padded(&mut out, t.text.as_str(), 8),
        None => {
            proof {
                reveal_strlit("");
                assert(""@ =~= Seq::<char>::empty());
            }
            append_padded(&mut out, "", 8)
        },
    }
    append_blank(&mut out);
    out.append(item.title.as_str());
    assert(out@ =~= line_head(item@));
    out
}

/// Appends the tags at the end of a line.
fn append_line_tags(out: &mut String, tags: &Vec<Tag>)
    ensures
        final(out)@ == old(out)@ + line_tags(tags_view(tags@)),
{
    let ghost all = tags_view(tags@);
    if tags.len() == 0 {
        assert(out@ =~= old(out)@ + line_tags(all));
        return;
    }
    out.append(" :");
    proof {
        reveal_strlit(" :");
        assert(" :"@ =~= seq![' ', ':']);
    }
    let ghost head = out@;
    let mut i: usize = 0;
    assert(out@ =~= head + tags_text(all.subrange(0, 0)));
    while i < tags.len()
        invariant
            i <= tags@.len(),
            all == tags_view(tags@),
            out@ == head + tags_text(all.subrange(0, i as int)),
        decreases tags@.len() - i,
    {
        proof {
            let upto = all.subrange(0, i + 1);
            assert(upto.drop_last() =~= all.subrange(0, i as int));
            assert(upto.last() == tags@[i as int]@);
        }
        out.append(tags[i].0.as_str());
        out.append(":");
        proof {
            reveal_strlit(":");
            assert(":"@ =~= seq![':']);
            assert(out@ =~= head + tags_text(all.subrange(0, i + 1)));
        }
        i = i + 1;
    }
    assert(all.subrange(0, all.len() as int) =~= all);
    assert(out@ =~= old(out)@ + line_tags(all));
}

/// Writes a line of the listing for an item.
pub fn render_line(item: &AgendaItem) -> (r: String)
    requires
        item.when_kind != AgendaWhenKind::Todo ==> item.span.start.date.valid(),
    ensures
        r@ == line_text(item@),
{
    let mut out = render_line_head(item);
    append_line_tags(&mut out, &item.tags);
    out
}

} // verus!
