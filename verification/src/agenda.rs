//! Agenda items: what the headings of a file give to a view by date.
//!
//! Each timestamp of a heading's planning gives one item. A heading that is
//! a task still to do and has no planning gives an item without a date, if
//! such items are asked for.

use crate::calendar::{first_date, midnight, Date, DateTime, Time, MIN_YEAR};
use crate::format::plain_text_of;
use crate::model::{
    clone_opt_todo, opt_todo_view, random_id, strings_view, HeadingId, OrgFileId, Priority,
    Timestamp, TodoKeyword, TodoKeywordView,
};
use crate::tags::{tags_view, Tag};
use crate::tree::{Heading, OrgFile};
use vstd::prelude::*;

verus! {

/// Which date of a heading an agenda item stands for.
#[derive(Debug, Clone, Copy, PartialEq, Eq, Structural)]
pub enum AgendaWhenKind {
    Scheduled,
    Deadline,
    /// A timestamp in the headline or in the text.
    Timestamp,
    Closed,
    /// A task without a date.
    Todo,
}

/// A stretch of time: a start, and an end if it has one.
#[derive(Debug, Clone, Copy, PartialEq, Eq, Structural)]
pub struct TimeSpan {
    pub start: DateTime,
    pub end: Option<DateTime>,
}

/// One line of an agenda.
#[derive(Debug, Clone, PartialEq, Eq)]
pub struct AgendaItem {
    pub id: u128,
    pub source_file: OrgFileId,
    pub source_heading: HeadingId,
    pub when_kind: AgendaWhenKind,
    pub span: TimeSpan,
    /// Whether the timestamp is an active one.
    pub active: bool,
    /// The title of the heading, without markup.
    pub title: String,
    pub todo: Option<TodoKeyword>,
    pub priority: Option<Priority>,
    pub tags: Vec<Tag>,
    /// The titles of the headings from the root down to this one.
    pub context_path: Vec<String>,
}

/// An agenda item without its identity, which is drawn at random.
pub struct AgendaItemView {
    pub source_file: OrgFileId,
    pub source_heading: HeadingId,
    pub when_kind: AgendaWhenKind,
    pub span: TimeSpan,
    pub active: bool,
    pub title: Seq<char>,
    pub todo: Option<TodoKeywordView>,
    pub priority: Option<Priority>,
    pub tags: Seq<Seq<char>>,
    pub context_path: Seq<Seq<char>>,
}

impl View for AgendaItem {
    type V = AgendaItemView;

    open spec fn view(&self) -> AgendaItemView {
        AgendaItemView {
            source_file: self.source_file,
            source_heading: self.source_heading,
            when_kind: self.when_kind,
            span: self.span,
            active: self.active,
            title: self.title@,
            todo: opt_todo_view(self.todo),
            priority: self.priority,
            tags: tags_view(self.tags@),
            context_path: strings_view(self.context_path@),
        }
    }
}

/// The views of a sequence of agenda items.
pub open spec fn items_view(v: Seq<AgendaItem>) -> Seq<AgendaItemView> {
    Seq::new(v.len(), |i: int| v[i]@)
}

impl AgendaItem {
    /// An agenda item with a fresh identity and the given parts.
    pub fn new(
        source_file: OrgFileId,
        source_heading: HeadingId,
        when_kind: AgendaWhenKind,
        span: TimeSpan,
        active: bool,
        title: String,
        todo: Option<TodoKeyword>,
        priority: Option<Priority>,
        tags: Vec<Tag>,
        context_path: Vec<String>,
    ) -> (r: AgendaItem)
        ensures
            r@ == (AgendaItemView {
                source_file,
                source_heading,
                when_kind,
                span,
                active,
                title: title@,
                todo: opt_todo_view(todo),
                priority,
                tags: tags_view(tags@),
                context_path: strings_view(context_path@),
            }),
    {
        AgendaItem {
            id: random_id(),
            source_file,
            source_heading,
            when_kind,
            span,
            active,
            title,
            todo,
            priority,
            tags,
            context_path,
        }
    }
}

/// A range of days, both ends included.
#[derive(Debug, Clone, Copy, PartialEq, Eq, Structural)]
pub struct AgendaRange {
    pub from: Date,
    pub to: Date,
}

impl AgendaRange {
    /// Whether the day of `dt` lies in the range.
    pub fn contains(&self, dt: DateTime) -> (b: bool)
        ensures
            b == (!dt.date.before(&self.from) && !self.to.before(&dt.date)),
    {
        !dt.date.is_before(&self.from) && !self.to.is_before(&dt.date)
    }
}

/// What to take into an agenda.
#[derive(Debug, Clone, Copy, PartialEq, Eq, Structural)]
pub struct ProjectOptions {
    /// Whether tasks without a date are taken.
    pub include_todos: bool,
}

impl Default for ProjectOptions {
    fn default() -> (r: ProjectOptions)
        ensures
            !r.include_todos,
    {
        ProjectOptions { include_todos: false }
    }
}

/// The stretch of time that a timestamp stands for. Without a time it
/// starts at midnight. Its end, if it has one, is on the day it starts
/// unless the end names a day, and at the time it starts unless the end
/// names a time.
pub open spec fn span_of(ts: Timestamp) -> TimeSpan {
    let start_time = match ts.time {
        Some(t) => t,
        None => midnight(),
    };
    TimeSpan {
        start: DateTime { date: ts.date, time: start_time },
        end: match ts.end {
            Some(e) => Some(
                DateTime {
                    date: match e.date {
                        Some(d) => d,
                        None => ts.date,
                    },
                    time: match e.time {
                        Some(t) => t,
                        None => start_time,
                    },
                },
            ),
            None => None,
        },
    }
}

/// The stretch of time that a timestamp stands for.
pub fn ts_to_span(ts: &Timestamp) -> (r: TimeSpan)
    ensures
        r == span_of(*ts),
{
    let start_time = match ts.time {
        Some(t) => t,
        None => Time { hour: 0, minute: 0, second: 0 },
    };
    let end = match ts.end {
        Some(e) => Some(
            DateTime {
                date: match e.date {
                    Some(d) => d,
                    None => ts.date,
                },
                time: match e.time {
                    Some(t) => t,
                    None => start_time,
                },
            },
        ),
        None => None,
    };
    TimeSpan { start: DateTime { date: ts.date, time: start_time }, end }
}

/// The stretch of time that stands for "no date": it starts with the first
/// day there is and has no end.
pub open spec fn placeholder_span() -> TimeSpan {
    TimeSpan { start: DateTime { date: first_date(), time: midnight() }, end: None }
}

/// The stretch of time that stands for "no date".
pub fn todo_placeholder_span() -> (r: TimeSpan)
    ensures
        r == placeholder_span(),
{
    TimeSpan {
        start: DateTime {
            date: Date { year: MIN_YEAR, month: 1, day: 1 },
            time: Time { hour: 0, minute: 0, second: 0 },
        },
        end: None,
    }
}

/// The item that one date of a heading gives.
pub open spec fn dated_item(
    file: OrgFileId,
    h: Heading,
    kind: AgendaWhenKind,
    ts: Timestamp,
    path: Seq<Seq<char>>,
) -> AgendaItemView {
    AgendaItemView {
        source_file: file,
        source_heading: h.id,
        when_kind: kind,
        span: span_of(ts),
        active: ts.active,
        title: plain_text_of(h@.title),
        todo: h@.todo,
        priority: h.priority,
        tags: h@.tags,
        context_path: path,
    }
}

/// `items`, and after them the item of a date if the date is there.
pub open spec fn with_dated(
    items: Seq<AgendaItemView>,
    file: OrgFileId,
    h: Heading,
    kind: AgendaWhenKind,
    ts: Option<Timestamp>,
    path: Seq<Seq<char>>,
) -> Seq<AgendaItemView> {
    match ts {
        Some(t) => items.push(dated_item(file, h, kind, t, path)),
        None => items,
    }
}

/// Whether a heading gives an item without a date: such items are asked
/// for, and the heading is a task that is not done and has no planning.
pub open spec fn gives_todo_item(h: Heading, opts: ProjectOptions) -> bool {
    opts.include_todos && (h.todo matches Some(t) && !t.is_done) && h.planning.is_empty()
}

/// The items that a heading itself gives: scheduled, deadline, closed, in
/// that order, as far as they are there; or else the item without a date.
pub open spec fn own_items(file: OrgFileId, h: Heading, path: Seq<Seq<char>>, opts: ProjectOptions) -> Seq<
    AgendaItemView,
> {
    let dated = with_dated(
        with_dated(
            with_dated(Seq::empty(), file, h, AgendaWhenKind::Scheduled, h.planning.scheduled, path),
            file,
            h,
            AgendaWhenKind::Deadline,
            h.planning.deadline,
            path,
        ),
        file,
        h,
        AgendaWhenKind::Closed,
        h.planning.closed,
        path,
    );
    if gives_todo_item(h, opts) {
        dated.push(
            AgendaItemView {
                source_file: file,
                source_heading: h.id,
                when_kind: AgendaWhenKind::Todo,
                span: placeholder_span(),
                active: false,
                title: plain_text_of(h@.title),
                todo: h@.todo,
                priority: h.priority,
                tags: h@.tags,
                context_path: path,
            },
        )
    } else {
        dated
    }
}

/// The items of a heading and of the headings under it, a heading's own
/// items first. `path` holds the titles of the headings above.
pub open spec fn heading_items(
    file: OrgFileId,
    h: Heading,
    path: Seq<Seq<char>>,
    opts: ProjectOptions,
) -> Seq<AgendaItemView>
    decreases h,
{
    let here = path.push(plain_text_of(h@.title));
    own_items(file, h, here, opts) + headings_items(file, h.children@, here, opts)
}

/// The items of headings that stand one behind the other.
pub open spec fn headings_items(
    file: OrgFileId,
    v: Seq<Heading>,
    path: Seq<Seq<char>>,
    opts: ProjectOptions,
) -> Seq<AgendaItemView>
    decreases v,
{
    if v.len() == 0 {
        Seq::empty()
    } else {
        headings_items(file, v.drop_last(), path, opts) + heading_items(file, v.last(), path, opts)
    }
}

/// The items of the files, one file after the other.
pub open spec fn files_items(files: Seq<&OrgFile>, opts: ProjectOptions) -> Seq<AgendaItemView>
    decreases files.len(),
{
    if files.len() == 0 {
        Seq::empty()
    } else {
        files_items(files.drop_last(), opts) + headings_items(
            files.last().id,
            files.last().headings@,
            Seq::empty(),
            opts,
        )
    }
}

/// A copy of strings.
fn copy_path(path: &Vec<String>) -> (r: Vec<String>)
    ensures
        strings_view(r@) == strings_view(path@),
{
    crate::model::clone_strings(path)
}

/// The item that one date of a heading gives.
pub fn make_item(file: &OrgFile, h: &Heading, kind: AgendaWhenKind, ts: &Timestamp, ctx: &Vec<String>) -> (r:
    AgendaItem)
    ensures
        r@ == dated_item(file.id, *h, kind, *ts, strings_view(ctx@)),
{
    let tags = h.tags.clone();
    AgendaItem::new(
        file.id,
        h.id,
        kind,
        ts_to_span(ts),
        ts.active,
        h.title.plain_text(),
        clone_opt_todo(&h.todo),
        h.priority,
        tags.items,
        copy_path(ctx),
    )
}

/// Adds the items of a heading and of the headings under it to `out`.
/// `path` holds the titles of the headings above, and holds them again
/// afterwards.
pub fn walk_heading(
    file: &OrgFile,
    h: &Heading,
    path: &mut Vec<String>,
    out: &mut Vec<AgendaItem>,
    opts: ProjectOptions,
)
    ensures
        items_view(final(out)@) == items_view(old(out)@) + heading_items(
            file.id,
            *h,
            strings_view(old(path)@),
            opts,
        ),
        strings_view(final(path)@) == strings_view(old(path)@),
    decreases h,
{
    let ghost above = strings_view(path@);
    let ghost before = items_view(out@);
    let title = h.title.plain_text();
    path.push(title);
    let ghost here = strings_view(path@);
    assert(here =~= above.push(plain_text_of(h@.title)));
    let mut has_planning = false;
    match &h.planning.scheduled {
        Some(ts) => {
            has_planning = true;
            let item = make_item(file, h, AgendaWhenKind::Scheduled, ts, path);
            out.push(item);
        },
        None => {},
    }
    assert(items_view(out@) =~= before + with_dated(
        Seq::empty(),
        file.id,
        *h,
        AgendaWhenKind::Scheduled,
        h.planning.scheduled,
        here,
    ));
    let ghost one = items_view(out@);
    match &h.planning.deadline {
        Some(ts) => {
            has_planning = true;
            let item = make_item(file, h, AgendaWhenKind::Deadline, ts, path);
            out.push(item);
            assert(items_view(out@) =~= one.push(item@));
        },
        None => {},
    }
    let ghost two = items_view(out@);
    match &h.planning.closed {
        Some(ts) => {
            has_planning = true;
            let item = make_item(file, h, AgendaWhenKind::Closed, ts, path);
            out.push(item);
            assert(items_view(out@) =~= two.push(item@));
        },
        None => {},
    }
    let ghost three = items_view(out@);
    if opts.include_todos {
        match &h.todo {
            Some(todo) => {
                if !todo.is_done && !has_planning {
                    let tags = h.tags.clone();
                    let item = AgendaItem::new(
                        file.id,
                        h.id,
                        AgendaWhenKind::Todo,
                        todo_placeholder_span(),
                        false,
                        h.title.plain_text(),
                        clone_opt_todo(&h.todo),
                        h.priority,
                        tags.items,
                        copy_path(path),
                    );
                    out.push(item);
                    assert(items_view(out@) =~= three.push(item@));
                }
            },
            None => {},
        }
    }
    assert(items_view(out@) =~= before + own_items(file.id, *h, here, opts));
    let ghost own = items_view(out@);
    let mut i: usize = 0;
    assert(h.children@.subrange(0, 0) =~= Seq::<Heading>::empty());
    assert(items_view(out@) =~= own + headings_items(
        file.id,
        h.children@.subrange(0, 0),
        here,
        opts,
    ));
    while i < h.children.len()
        invariant
            i <= h.children@.len(),
            strings_view(path@) == here,
            items_view(out@) == own + headings_items(
                file.id,
                h.children@.subrange(0, i as int),
                here,
                opts,
            ),
        decreases h.children@.len() - i,
    {
        proof {
            let upto = h.children@.subrange(0, i + 1);
            assert(upto.drop_last() =~= h.children@.subrange(0, i as int));
            assert(upto.last() == h.children@[i as int]);
        }
        walk_heading(file, &h.children[i], path, out, opts);
        assert(items_view(out@) =~= own + headings_items(
            file.id,
            h.children@.subrange(0, i + 1),
            here,
            opts,
        ));
        i = i + 1;
    }
    assert(h.children@.subrange(0, h.children@.len() as int) =~= h.children@);
    let ghost full = path@;
    path.pop();
    proof {
        assert(path@ =~= full.drop_last());
        assert(strings_view(full.drop_last()) =~= strings_view(full).drop_last());
        assert(above.push(plain_text_of(h@.title)).drop_last() =~= above);
    }
    assert(strings_view(path@) =~= above);
    assert(items_view(out@) =~= before + heading_items(file.id, *h, above, opts));
}

/// Adds the agenda items of a file to `out`.
fn push_file_items(file: &OrgFile, out: &mut Vec<AgendaItem>, opts: ProjectOptions)
    ensures
        items_view(final(out)@) == items_view(old(out)@) + headings_items(
            file.id,
            file.headings@,
            Seq::empty(),
            opts,
        ),
{
    let ghost before = items_view(out@);
    let mut context: Vec<String> = Vec::new();
    assert(strings_view(context@) =~= Seq::<Seq<char>>::empty());
    let mut i: usize = 0;
    assert(file.headings@.subrange(0, 0) =~= Seq::<Heading>::empty());
    assert(items_view(out@) =~= before + headings_items(
        file.id,
        file.headings@.subrange(0, 0),
        Seq::empty(),
        opts,
    ));
    while i < file.headings.len()
        invariant
            i <= file.headings@.len(),
            strings_view(context@) == Seq::<Seq<char>>::empty(),
            items_view(out@) == before + headings_items(
                file.id,
                file.headings@.subrange(0, i as int),
                Seq::empty(),
                opts,
            ),
        decreases file.headings@.len() - i,
    {
        proof {
            let upto = file.headings@.subrange(0, i + 1);
            assert(upto.drop_last() =~= file.headings@.subrange(0, i as int));
            assert(upto.last() == file.headings@[i as int]);
        }
        walk_heading(file, &file.headings[i], &mut context, out, opts);
        assert(items_view(out@) =~= before + headings_items(
            file.id,
            file.headings@.subrange(0, i + 1),
            Seq::empty(),
            opts,
        ));
        i = i + 1;
    }
    assert(file.headings@.subrange(0, file.headings@.len() as int) =~= file.headings@);
}

/// The agenda items of a file, with the options given.
pub fn project_file_with_options(file: &OrgFile, opts: ProjectOptions) -> (r: Vec<AgendaItem>)
    ensures
        items_view(r@) == headings_items(file.id, file.headings@, Seq::empty(), opts),
{
    let mut out: Vec<AgendaItem> = Vec::new();
    assert(items_view(out@) =~= Seq::<AgendaItemView>::empty());
    push_file_items(file, &mut out, opts);
    assert(items_view(out@) =~= headings_items(file.id, file.headings@, Seq::empty(), opts));
    out
}

/// The agenda items of a file: those with a date.
pub fn project_file(file: &OrgFile) -> (r: Vec<AgendaItem>)
    ensures
        items_view(r@) == headings_items(
            file.id,
            file.headings@,
            Seq::empty(),
            ProjectOptions { include_todos: false },
        ),
{
    project_file_with_options(file, ProjectOptions { include_todos: false })
}

/// The agenda items of files, one file after the other, with the options
/// given.
pub fn project_files_with_options(files: &Vec<&OrgFile>, opts: ProjectOptions) -> (r: Vec<AgendaItem>)
    ensures
        items_view(r@) == files_items(files@, opts),
{
    let mut all: Vec<AgendaItem> = Vec::new();
    let mut i: usize = 0;
    assert(items_view(all@) =~= files_items(files@.subrange(0, 0), opts));
    while i < files.len()
        invariant
            i <= files@.len(),
            items_view(all@) == files_items(files@.subrange(0, i as int), opts),
        decreases files@.len() - i,
    {
        proof {
            let upto = files@.subrange(0, i + 1);
            assert(upto.drop_last() =~= files@.subrange(0, i as int));
            assert(upto.last() == files@[i as int]);
        }
        push_file_items(files[i], &mut all, opts);
        i = i + 1;
    }
    assert(files@.subrange(0, files@.len() as int) =~= files@);
    all
}

/// The agenda items of files: those with a date.
pub fn project_files(files: &Vec<&OrgFile>) -> (r: Vec<AgendaItem>)
    ensures
        items_view(r@) == files_items(files@, ProjectOptions { include_todos: false }),
{
    project_files_with_options(files, ProjectOptions { include_todos: false })
}

} // verus!
