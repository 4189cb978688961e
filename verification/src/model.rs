//! The document model: the typed tree and its value types.
//!
//! Each type that holds text has a view, in which a string is the sequence
//! of its characters and a vector is the sequence of its elements' views.
//! The contracts of the parsers and of the formatter speak of those views.

use crate::calendar::{Date, Time};
use crate::entries::{entries_clone, entries_new, map_entries};
use crate::source::SourceRange;
use crate::tags::TagSet;
use indexmap::IndexMap;
use vstd::prelude::*;
use vstd::string::*;

verus! {

/* ------------------------------- Identities ------------------------------- */

/// Whether a number is an identifier of the random kind: 128 bits of which
/// the four that give the version say 4, and the two that give the variant
/// say that the layout is the common one. The other 122 bits are free.
pub open spec fn is_random_id(id: u128) -> bool {
    id & 0x0000_0000_0000_f000_c000_0000_0000_0000u128
        == 0x0000_0000_0000_4000_8000_0000_0000_0000u128
}

/// Calls `uuid::Uuid::new_v4` and hands out, through `Uuid::as_u128`, the
/// 128 bits that it made. `new_v4` draws them at random and then sets the
/// bits of version and variant, so the number is an identifier of the
/// random kind; no more is promised of it.
#[verifier::external_body]
pub(crate) fn random_id() -> (r: u128)
    ensures
        is_random_id(r),
{
    uuid::Uuid::new_v4().as_u128()
}

/// The identity of a file.
#[derive(Debug, Clone, Copy, PartialEq, Eq, Structural, PartialOrd, Ord, Hash)]
pub struct OrgFileId(pub u128);

impl OrgFileId {
    /// A fresh identity, drawn at random.
    pub fn new() -> (r: OrgFileId)
        ensures
            is_random_id(r.0),
    {
        OrgFileId(random_id())
    }
}

/// The identity of a heading.
#[derive(Debug, Clone, Copy, PartialEq, Eq, Structural, PartialOrd, Ord, Hash)]
pub struct HeadingId(pub u128);

impl HeadingId {
    /// A fresh identity, drawn at random.
    pub fn new() -> (r: HeadingId)
        ensures
            is_random_id(r.0),
    {
        HeadingId(random_id())
    }
}

/* ------------------------------ Small values ------------------------------ */

/// The views of a sequence of strings.
pub open spec fn strings_view(v: Seq<String>) -> Seq<Seq<char>> {
    Seq::new(v.len(), |i: int| v[i]@)
}

/// The view of a string that may be absent.
pub open spec fn opt_string_view(o: Option<String>) -> Option<Seq<char>> {
    match o {
        Some(s) => Some(s@),
        None => None,
    }
}

/// A single-letter priority, as in `[#A]`.
#[derive(Debug, Clone, Copy, PartialEq, Eq, Structural, PartialOrd, Ord, Hash)]
pub struct Priority(pub char);

/// A TODO keyword, with a flag that tells whether it marks a task as done.
#[derive(Debug, Clone, PartialEq, Eq)]
pub struct TodoKeyword {
    pub text: String,
    pub is_done: bool,
}

pub struct TodoKeywordView {
    pub text: Seq<char>,
    pub is_done: bool,
}

impl View for TodoKeyword {
    type V = TodoKeywordView;

    open spec fn view(&self) -> TodoKeywordView {
        TodoKeywordView { text: self.text@, is_done: self.is_done }
    }
}

/// The view of a keyword that may be absent.
pub open spec fn opt_todo_view(o: Option<TodoKeyword>) -> Option<TodoKeywordView> {
    match o {
        Some(t) => Some(t@),
        None => None,
    }
}

/// A sequence of TODO keywords; a literal `|` parts the open states from the
/// done states.
#[derive(Debug, Clone, PartialEq, Eq)]
pub struct TodoSequence {
    pub items: Vec<String>,
}

impl View for TodoSequence {
    type V = Seq<Seq<char>>;

    open spec fn view(&self) -> Seq<Seq<char>> {
        strings_view(self.items@)
    }
}

/// An offset in calendar units. A month or a year has no fixed length, so an
/// offset is not a duration.
#[derive(Debug, Clone, Copy, PartialEq, Eq, Structural)]
pub struct DateOffset {
    pub years: i32,
    pub months: i32,
    pub weeks: i32,
    pub days: i32,
    pub hours: i32,
    pub minutes: i32,
}

impl DateOffset {
    /// An offset of `w` weeks.
    pub fn weeks(w: i32) -> (r: DateOffset)
        ensures
            r == (DateOffset { years: 0, months: 0, weeks: w, days: 0, hours: 0, minutes: 0 }),
    {
        DateOffset { years: 0, months: 0, weeks: w, days: 0, hours: 0, minutes: 0 }
    }

    /// An offset of `d` days.
    pub fn days(d: i32) -> (r: DateOffset)
        ensures
            r == (DateOffset { years: 0, months: 0, weeks: 0, days: d, hours: 0, minutes: 0 }),
    {
        DateOffset { years: 0, months: 0, weeks: 0, days: d, hours: 0, minutes: 0 }
    }
}

/// From where a repeating timestamp counts: `+` from the last date, `++`
/// from the base date, `.+` from today.
#[derive(Debug, Clone, Copy, PartialEq, Eq, Structural)]
pub enum RepeaterKind {
    FromLast,
    FromBase,
    FromNow,
}

/// A repeater cookie such as `+1w`.
#[derive(Debug, Clone, Copy, PartialEq, Eq, Structural)]
pub struct Repeater {
    pub kind: RepeaterKind,
    pub interval: DateOffset,
}

/// A delay or warning cookie such as `-2d`.
#[derive(Debug, Clone, Copy, PartialEq, Eq, Structural)]
pub struct Delay {
    pub before: bool,
    pub offset: DateOffset,
}

/// The end of a timestamp that is a range. Without a date the range ends on
/// the day it starts.
#[derive(Debug, Clone, Copy, PartialEq, Eq, Structural)]
pub struct TimestampEnd {
    pub date: Option<Date>,
    pub time: Option<Time>,
}

/// A timestamp: active (`<...>`) or inactive (`[...]`), a date, and
/// optionally a time, a zone as seconds east of Greenwich, an end, a
/// repeater and a delay.
#[derive(Debug, Clone, Copy, PartialEq, Eq, Structural)]
pub struct Timestamp {
    pub active: bool,
    pub date: Date,
    pub time: Option<Time>,
    pub tz: Option<i32>,
    pub end: Option<TimestampEnd>,
    pub repeater: Option<Repeater>,
    pub delay: Option<Delay>,
}

impl Timestamp {
    /// Whether the date and the time of the timestamp exist.
    pub open spec fn valid(&self) -> bool {
        &&& self.date.valid()
        &&& self.time matches Some(t) ==> t.valid()
    }

    /// Whether the date and the time of the timestamp exist.
    pub fn is_valid(&self) -> (b: bool)
        ensures
            b == self.valid(),
    {
        self.date.is_valid() && match self.time {
            Some(t) => t.is_valid(),
            None => true,
        }
    }
}

/// The timestamps of a heading's planning line.
#[derive(Debug, Clone, Copy, PartialEq, Eq, Structural)]
pub struct Planning {
    pub scheduled: Option<Timestamp>,
    pub deadline: Option<Timestamp>,
    pub closed: Option<Timestamp>,
}

impl Planning {
    /// Whether no timestamp is set.
    pub open spec fn is_empty(&self) -> bool {
        self.scheduled is None && self.deadline is None && self.closed is None
    }

    /// Whether every timestamp that is set is valid.
    pub open spec fn valid(&self) -> bool {
        &&& self.scheduled matches Some(t) ==> t.valid()
        &&& self.deadline matches Some(t) ==> t.valid()
        &&& self.closed matches Some(t) ==> t.valid()
    }

    /// Whether every timestamp that is set is valid.
    pub fn is_valid(&self) -> (b: bool)
        ensures
            b == self.valid(),
    {
        (match self.scheduled {
            Some(t) => t.is_valid(),
            None => true,
        }) && (match self.deadline {
            Some(t) => t.is_valid(),
            None => true,
        }) && (match self.closed {
            Some(t) => t.is_valid(),
            None => true,
        })
    }
}

impl Default for Planning {
    fn default() -> (r: Planning)
        ensures
            r == (Planning { scheduled: None, deadline: None, closed: None }),
    {
        Planning { scheduled: None, deadline: None, closed: None }
    }
}

/* --------------------------------- Errors --------------------------------- */

/// What a document can have that the model does not allow.
#[derive(Debug, Clone, Copy, PartialEq, Eq, Structural)]
pub enum DomainError {
    /// A heading with a level that is not one of 1 to 8.
    InvalidLevel(u8),
    /// Two headings with one identity.
    DuplicateHeadingId,
    InvalidTimestamp,
}

impl DomainError {
    /// The error as one reads it.
    pub open spec fn text(self) -> Seq<char> {
        match self {
            DomainError::InvalidLevel(level) => "heading level "@ + crate::calendar::decimal(
                level as nat,
            ) + " is out of bounds (1..=8)"@,
            DomainError::DuplicateHeadingId => "duplicate heading id"@,
            DomainError::InvalidTimestamp => "invalid timestamp"@,
        }
    }

    /// The error as one reads it.
    pub fn message(&self) -> (r: String)
        ensures
            r@ == self.text(),
    {
        match self {
            DomainError::InvalidLevel(level) => {
                let mut r = "heading level ".to_owned();
                let digits = crate::calendar::decimal_string(*level as u64);
                r.append(digits.as_str());
                r.append(" is out of bounds (1..=8)");
                r
            },
            DomainError::DuplicateHeadingId => "duplicate heading id".to_owned(),
            DomainError::InvalidTimestamp => "invalid timestamp".to_owned(),
        }
    }
}

/* ------------------------------- Inline text ------------------------------- */

#[derive(Debug, Clone, Copy, PartialEq, Eq, Structural)]
pub enum Emphasis {
    Bold,
    Italic,
    Underline,
    Strike,
    Mark,
}

/// What a link points at.
#[derive(Debug, PartialEq, Eq)]
pub enum LinkKind {
    File { path: String, search: Option<String> },
    Http { url: String },
    Id { id: String },
    Custom { protocol: String, target: String },
}

pub enum LinkKindView {
    File { path: Seq<char>, search: Option<Seq<char>> },
    Http { url: Seq<char> },
    Id { id: Seq<char> },
    Custom { protocol: Seq<char>, target: Seq<char> },
}

impl View for LinkKind {
    type V = LinkKindView;

    open spec fn view(&self) -> LinkKindView {
        match self {
            LinkKind::File { path, search } => LinkKindView::File {
                path: path@,
                search: opt_string_view(*search),
            },
            LinkKind::Http { url } => LinkKindView::Http { url: url@ },
            LinkKind::Id { id } => LinkKindView::Id { id: id@ },
            LinkKind::Custom { protocol, target } => LinkKindView::Custom {
                protocol: protocol@,
                target: target@,
            },
        }
    }
}

/// A link, with the text that describes it if it has one.
#[derive(Debug, PartialEq, Eq)]
pub struct Link {
    pub kind: LinkKind,
    pub desc: Option<Vec<Inline>>,
}

pub struct LinkView {
    pub kind: LinkKindView,
    pub desc: Option<Seq<InlineView>>,
}

/// An element of rich text. `Unknown` keeps what the parser does not model.
#[allow(inconsistent_fields)]
#[derive(Debug, PartialEq, Eq)]
pub enum Inline {
    Text(String),
    Emphasis { kind: Emphasis, children: Vec<Inline> },
    Code(String),
    Verbatim(String),
    Link(Link),
    Target(String),
    FootnoteRef(String),
    Entity(String),
    Unknown { kind: String, raw: String },
}

#[allow(inconsistent_fields)]
pub enum InlineView {
    Text(Seq<char>),
    Emphasis { kind: Emphasis, children: Seq<InlineView> },
    Code(Seq<char>),
    Verbatim(Seq<char>),
    Link(LinkView),
    Target(Seq<char>),
    FootnoteRef(Seq<char>),
    Entity(Seq<char>),
    Unknown { kind: Seq<char>, raw: Seq<char> },
}

pub open spec fn inline_view(x: Inline) -> InlineView
    decreases x,
{
    match x {
        Inline::Text(t) => InlineView::Text(t@),
        Inline::Emphasis { kind, children } => InlineView::Emphasis {
            kind,
            children: inlines_view(children@),
        },
        Inline::Code(t) => InlineView::Code(t@),
        Inline::Verbatim(t) => InlineView::Verbatim(t@),
        Inline::Link(l) => InlineView::Link(
            LinkView {
                kind: l.kind@,
                desc: match l.desc {
                    Some(d) => Some(inlines_view(d@)),
                    None => None,
                },
            },
        ),
        Inline::Target(t) => InlineView::Target(t@),
        Inline::FootnoteRef(t) => InlineView::FootnoteRef(t@),
        Inline::Entity(t) => InlineView::Entity(t@),
        Inline::Unknown { kind, raw } => InlineView::Unknown { kind: kind@, raw: raw@ },
    }
}

pub open spec fn inlines_view(v: Seq<Inline>) -> Seq<InlineView>
    decreases v,
{
    Seq::new(
        v.len(),
        |i: int|
            if 0 <= i < v.len() {
                inline_view(v[i])
            } else {
                arbitrary()
            },
    )
}

impl View for Inline {
    type V = InlineView;

    open spec fn view(&self) -> InlineView {
        inline_view(*self)
    }
}

impl View for Link {
    type V = LinkView;

    open spec fn view(&self) -> LinkView {
        LinkView {
            kind: self.kind@,
            desc: match self.desc {
                Some(d) => Some(inlines_view(d@)),
                None => None,
            },
        }
    }
}

/// A run of rich text, as in a headline or a paragraph.
#[derive(Debug, Clone, PartialEq, Eq)]
pub struct RichText {
    pub inlines: Vec<Inline>,
}

impl View for RichText {
    type V = Seq<InlineView>;

    open spec fn view(&self) -> Seq<InlineView> {
        inlines_view(self.inlines@)
    }
}

impl Default for RichText {
    fn default() -> (r: RichText)
        ensures
            r@ == Seq::<InlineView>::empty(),
    {
        let r = RichText { inlines: Vec::new() };
        assert(r@ =~= Seq::<InlineView>::empty());
        r
    }
}

/// Pushing an element onto a vector pushes its view onto the vector's view.
pub proof fn lemma_inlines_view_push(v: Seq<Inline>, x: Inline)
    ensures
        inlines_view(v.push(x)) == inlines_view(v).push(x@),
{
    assert(inlines_view(v.push(x)) =~= inlines_view(v).push(x@));
}

/* --------------------------------- Blocks --------------------------------- */

#[derive(Debug, Clone, Copy, PartialEq, Eq, Structural)]
pub enum ListKind {
    Unordered,
    Ordered,
    Description,
}

#[derive(Debug, Clone, Copy, PartialEq, Eq, Structural)]
pub enum Checkbox {
    Empty,
    Partial,
    Checked,
}

/// A source block: language, header parameters and code.
#[derive(Debug, PartialEq, Eq)]
pub struct SrcBlock {
    pub language: Option<String>,
    pub parameters: IndexMap<String, String>,
    pub code: String,
}

pub struct SrcBlockView {
    pub language: Option<Seq<char>>,
    pub parameters: Seq<(Seq<char>, Seq<char>)>,
    pub code: Seq<char>,
}

impl View for SrcBlock {
    type V = SrcBlockView;

    open spec fn view(&self) -> SrcBlockView {
        SrcBlockView {
            language: opt_string_view(self.language),
            parameters: map_entries(self.parameters),
            code: self.code@,
        }
    }
}

/// A table, kept as its raw lines.
#[derive(Debug, Clone, PartialEq, Eq)]
pub struct Table {
    pub raw: Vec<String>,
}

impl View for Table {
    type V = Seq<Seq<char>>;

    open spec fn view(&self) -> Seq<Seq<char>> {
        strings_view(self.raw@)
    }
}

/// A named drawer and the blocks in it.
#[derive(Debug, PartialEq, Eq)]
pub struct Drawer {
    pub name: String,
    pub content: Vec<Block>,
}

pub struct DrawerView {
    pub name: Seq<char>,
    pub content: Seq<BlockView>,
}

/// An item of a list.
#[derive(Debug, PartialEq, Eq)]
pub struct ListItem {
    pub label: Option<RichText>,
    pub content: Vec<Block>,
    pub checkbox: Option<Checkbox>,
    pub counter: Option<i64>,
    pub tags: TagSet,
}

pub struct ListItemView {
    pub label: Option<Seq<InlineView>>,
    pub content: Seq<BlockView>,
    pub checkbox: Option<Checkbox>,
    pub counter: Option<i64>,
    pub tags: Seq<Seq<char>>,
}

/// A list: its kind and its items.
#[derive(Debug, PartialEq, Eq)]
pub struct List {
    pub kind: ListKind,
    pub items: Vec<ListItem>,
}

pub struct ListView {
    pub kind: ListKind,
    pub items: Seq<ListItemView>,
}

/// A block-level element. `Unknown` keeps what the parser does not model.
#[derive(Debug, PartialEq, Eq)]
pub enum Block {
    Paragraph(RichText),
    List(List),
    Quote(Vec<Block>),
    Example { raw: String },
    SrcBlock(SrcBlock),
    Drawer(Drawer),
    Table(Table),
    HorizontalRule,
    Comment(String),
    Directive { key: String, value: String },
    Unknown { kind: String, raw: String },
}

pub enum BlockView {
    Paragraph(Seq<InlineView>),
    List(ListView),
    Quote(Seq<BlockView>),
    Example { raw: Seq<char> },
    SrcBlock(SrcBlockView),
    Drawer(DrawerView),
    Table(Seq<Seq<char>>),
    HorizontalRule,
    Comment(Seq<char>),
    Directive { key: Seq<char>, value: Seq<char> },
    Unknown { kind: Seq<char>, raw: Seq<char> },
}

pub open spec fn block_view(b: Block) -> BlockView
    decreases b,
{
    match b {
        Block::Paragraph(t) => BlockView::Paragraph(t@),
        Block::List(l) => BlockView::List(
            ListView { kind: l.kind, items: list_items_view(l.items@) },
        ),
        Block::Quote(bs) => BlockView::Quote(blocks_view(bs@)),
        Block::Example { raw } => BlockView::Example { raw: raw@ },
        Block::SrcBlock(s) => BlockView::SrcBlock(s@),
        Block::Drawer(d) => BlockView::Drawer(
            DrawerView { name: d.name@, content: blocks_view(d.content@) },
        ),
        Block::Table(t) => BlockView::Table(t@),
        Block::HorizontalRule => BlockView::HorizontalRule,
        Block::Comment(t) => BlockView::Comment(t@),
        Block::Directive { key, value } => BlockView::Directive { key: key@, value: value@ },
        Block::Unknown { kind, raw } => BlockView::Unknown { kind: kind@, raw: raw@ },
    }
}

pub open spec fn blocks_view(v: Seq<Block>) -> Seq<BlockView>
    decreases v,
{
    Seq::new(
        v.len(),
        |i: int|
            if 0 <= i < v.len() {
                block_view(v[i])
            } else {
                arbitrary()
            },
    )
}

pub open spec fn list_item_view(item: ListItem) -> ListItemView
    decreases item,
{
    ListItemView {
        label: match item.label {
            Some(t) => Some(t@),
            None => None,
        },
        content: blocks_view(item.content@),
        checkbox: item.checkbox,
        counter: item.counter,
        tags: item.tags@,
    }
}

pub open spec fn list_items_view(v: Seq<ListItem>) -> Seq<ListItemView>
    decreases v,
{
    Seq::new(
        v.len(),
        |i: int|
            if 0 <= i < v.len() {
                list_item_view(v[i])
            } else {
                arbitrary()
            },
    )
}

impl View for Block {
    type V = BlockView;

    open spec fn view(&self) -> BlockView {
        block_view(*self)
    }
}

impl View for ListItem {
    type V = ListItemView;

    open spec fn view(&self) -> ListItemView {
        list_item_view(*self)
    }
}

impl View for List {
    type V = ListView;

    open spec fn view(&self) -> ListView {
        ListView { kind: self.kind, items: list_items_view(self.items@) }
    }
}

impl View for Drawer {
    type V = DrawerView;

    open spec fn view(&self) -> DrawerView {
        DrawerView { name: self.name@, content: blocks_view(self.content@) }
    }
}

pub proof fn lemma_blocks_view_push(v: Seq<Block>, x: Block)
    ensures
        blocks_view(v.push(x)) == blocks_view(v).push(x@),
{
    assert(blocks_view(v.push(x)) =~= blocks_view(v).push(x@));
}

pub proof fn lemma_list_items_view_push(v: Seq<ListItem>, x: ListItem)
    ensures
        list_items_view(v.push(x)) == list_items_view(v).push(x@),
{
    assert(list_items_view(v.push(x)) =~= list_items_view(v).push(x@));
}

/// A block together with the range of the source text that it was read
/// from. The range is absent on a block that was made or changed by hand.
#[derive(Debug, Clone, PartialEq, Eq)]
pub struct BlockWithSource {
    pub block: Block,
    pub source: Option<SourceRange>,
}

pub struct BlockWithSourceView {
    pub block: BlockView,
    pub source: Option<SourceRange>,
}

impl View for BlockWithSource {
    type V = BlockWithSourceView;

    open spec fn view(&self) -> BlockWithSourceView {
        BlockWithSourceView { block: self.block@, source: self.source }
    }
}

impl BlockWithSource {
    /// A block without a source range.
    pub fn new(block: Block) -> (r: BlockWithSource)
        ensures
            r.block == block,
            r.source is None,
    {
        BlockWithSource { block, source: None }
    }

    /// A block with the source range it was read from.
    pub fn from_source(block: Block, source: SourceRange) -> (r: BlockWithSource)
        ensures
            r.block == block,
            r.source == Some(source),
    {
        BlockWithSource { block, source: Some(source) }
    }

    /// Marks the block as changed: it forgets its source range.
    pub fn mark_dirty(&mut self)
        ensures
            final(self).block == old(self).block,
            final(self).source is None,
    {
        self.source = None;
    }
}

pub open spec fn sourced_blocks_view(v: Seq<BlockWithSource>) -> Seq<BlockWithSourceView> {
    Seq::new(v.len(), |i: int| v[i]@)
}

pub proof fn lemma_sourced_blocks_view_push(v: Seq<BlockWithSource>, x: BlockWithSource)
    ensures
        sourced_blocks_view(v.push(x)) == sourced_blocks_view(v).push(x@),
{
    assert(sourced_blocks_view(v.push(x)) =~= sourced_blocks_view(v).push(x@));
}

/// The content under a headline, up to the next heading.
#[derive(Debug, Clone, PartialEq, Eq)]
pub struct Section {
    pub blocks: Vec<BlockWithSource>,
}

impl View for Section {
    type V = Seq<BlockWithSourceView>;

    open spec fn view(&self) -> Seq<BlockWithSourceView> {
        sourced_blocks_view(self.blocks@)
    }
}

impl Default for Section {
    fn default() -> (r: Section)
        ensures
            r@ == Seq::<BlockWithSourceView>::empty(),
    {
        let r = Section { blocks: Vec::new() };
        assert(r@ =~= Seq::<BlockWithSourceView>::empty());
        r
    }
}

/* --------------------------------- Drawers --------------------------------- */

/// The property drawer of a heading: keys and values in the order in which
/// the keys first came.
#[derive(Debug, PartialEq, Eq)]
pub struct PropertyDrawer {
    pub props: IndexMap<String, String>,
}

impl View for PropertyDrawer {
    type V = Seq<(Seq<char>, Seq<char>)>;

    open spec fn view(&self) -> Seq<(Seq<char>, Seq<char>)> {
        map_entries(self.props)
    }
}

impl Default for PropertyDrawer {
    fn default() -> (r: PropertyDrawer)
        ensures
            r@ == Seq::<(Seq<char>, Seq<char>)>::empty(),
    {
        PropertyDrawer { props: entries_new() }
    }
}

impl Clone for PropertyDrawer {
    fn clone(&self) -> (r: PropertyDrawer)
        ensures
            r@ == self@,
    {
        PropertyDrawer { props: entries_clone(&self.props) }
    }
}

/// One `CLOCK:` line of a logbook.
#[derive(Debug, Clone, PartialEq, Eq)]
pub struct ClockEntry {
    pub start: Timestamp,
    pub end: Option<Timestamp>,
    /// The duration after `=>`, in minutes.
    pub minutes: Option<i64>,
    pub raw: Option<String>,
}

pub struct ClockEntryView {
    pub start: Timestamp,
    pub end: Option<Timestamp>,
    pub minutes: Option<i64>,
    pub raw: Option<Seq<char>>,
}

impl View for ClockEntry {
    type V = ClockEntryView;

    open spec fn view(&self) -> ClockEntryView {
        ClockEntryView {
            start: self.start,
            end: self.end,
            minutes: self.minutes,
            raw: opt_string_view(self.raw),
        }
    }
}

pub open spec fn clock_view(v: Seq<ClockEntry>) -> Seq<ClockEntryView> {
    Seq::new(v.len(), |i: int| v[i]@)
}

/// A recorded change of a heading's TODO state.
#[derive(Debug, Clone, PartialEq, Eq)]
pub struct StateChange {
    pub from: Option<TodoKeyword>,
    pub to: Option<TodoKeyword>,
    pub at: Option<Timestamp>,
    pub note: Option<String>,
}

pub struct StateChangeView {
    pub from: Option<TodoKeywordView>,
    pub to: Option<TodoKeywordView>,
    pub at: Option<Timestamp>,
    pub note: Option<Seq<char>>,
}

impl View for StateChange {
    type V = StateChangeView;

    open spec fn view(&self) -> StateChangeView {
        StateChangeView {
            from: opt_todo_view(self.from),
            to: opt_todo_view(self.to),
            at: self.at,
            note: opt_string_view(self.note),
        }
    }
}

pub open spec fn state_changes_view(v: Seq<StateChange>) -> Seq<StateChangeView> {
    Seq::new(v.len(), |i: int| v[i]@)
}

/// The logbook of a heading: clock entries, state changes, and the lines
/// that are neither, kept as they stand.
#[derive(Debug, Clone, PartialEq, Eq)]
pub struct Logbook {
    pub clock: Vec<ClockEntry>,
    pub state_changes: Vec<StateChange>,
    pub raw: Vec<String>,
}

pub struct LogbookView {
    pub clock: Seq<ClockEntryView>,
    pub state_changes: Seq<StateChangeView>,
    pub raw: Seq<Seq<char>>,
}

impl View for Logbook {
    type V = LogbookView;

    open spec fn view(&self) -> LogbookView {
        LogbookView {
            clock: clock_view(self.clock@),
            state_changes: state_changes_view(self.state_changes@),
            raw: strings_view(self.raw@),
        }
    }
}

/// The logbook without entries.
pub open spec fn empty_logbook() -> LogbookView {
    LogbookView { clock: Seq::empty(), state_changes: Seq::empty(), raw: Seq::empty() }
}

impl Default for Logbook {
    fn default() -> (r: Logbook)
        ensures
            r@ == empty_logbook(),
    {
        let r = Logbook { clock: Vec::new(), state_changes: Vec::new(), raw: Vec::new() };
        assert(r@.clock =~= Seq::<ClockEntryView>::empty());
        assert(r@.state_changes =~= Seq::<StateChangeView>::empty());
        assert(r@.raw =~= Seq::<Seq<char>>::empty());
        r
    }
}

/* --------------------------------- Copies --------------------------------- */

/// Two vectors whose elements have the same views have the same view.
pub proof fn lemma_inlines_view_eq(a: Seq<Inline>, b: Seq<Inline>)
    requires
        a.len() == b.len(),
        forall|k: int| 0 <= k < a.len() ==> #[trigger] inline_view(a[k]) == inline_view(b[k]),
    ensures
        inlines_view(a) == inlines_view(b),
{
    assert forall|j: int| 0 <= j < a.len() implies inlines_view(a)[j] == inlines_view(b)[j] by {
        assert(inline_view(a[j]) == inline_view(b[j]));
    }
    assert(inlines_view(a) =~= inlines_view(b));
}

/// Two vectors whose elements have the same views have the same view.
pub proof fn lemma_blocks_view_eq(a: Seq<Block>, b: Seq<Block>)
    requires
        a.len() == b.len(),
        forall|k: int| 0 <= k < a.len() ==> #[trigger] block_view(a[k]) == block_view(b[k]),
    ensures
        blocks_view(a) == blocks_view(b),
{
    assert forall|j: int| 0 <= j < a.len() implies blocks_view(a)[j] == blocks_view(b)[j] by {
        assert(block_view(a[j]) == block_view(b[j]));
    }
    assert(blocks_view(a) =~= blocks_view(b));
}

/// Two vectors whose elements have the same views have the same view.
pub proof fn lemma_list_items_view_eq(a: Seq<ListItem>, b: Seq<ListItem>)
    requires
        a.len() == b.len(),
        forall|k: int| 0 <= k < a.len() ==> #[trigger] list_item_view(a[k]) == list_item_view(
            b[k],
        ),
    ensures
        list_items_view(a) == list_items_view(b),
{
    assert forall|j: int| 0 <= j < a.len() implies list_items_view(a)[j] == list_items_view(
        b,
    )[j] by {
        assert(list_item_view(a[j]) == list_item_view(b[j]));
    }
    assert(list_items_view(a) =~= list_items_view(b));
}

/// A copy of a string that may be absent.
pub fn clone_opt_string(o: &Option<String>) -> (r: Option<String>)
    ensures
        opt_string_view(r) == opt_string_view(*o),
{
    match o {
        Some(s) => Some(s.clone()),
        None => None,
    }
}

/// A copy of a vector of strings.
pub fn clone_strings(v: &Vec<String>) -> (r: Vec<String>)
    ensures
        strings_view(r@) == strings_view(v@),
{
    let mut r: Vec<String> = Vec::new();
    let mut i: usize = 0;
    while i < v.len()
        invariant
            i <= v@.len(),
            r@.len() == i,
            forall|k: int| 0 <= k < i ==> #[trigger] r@[k]@ == v@[k]@,
        decreases v@.len() - i,
    {
        r.push(v[i].clone());
        i = i + 1;
    }
    assert(strings_view(r@) =~= strings_view(v@));
    r
}

fn clone_link_kind(k: &LinkKind) -> (r: LinkKind)
    ensures
        r@ == k@,
{
    match k {
        LinkKind::File { path, search } => LinkKind::File {
            path: path.clone(),
            search: clone_opt_string(search),
        },
        LinkKind::Http { url } => LinkKind::Http { url: url.clone() },
        LinkKind::Id { id } => LinkKind::Id { id: id.clone() },
        LinkKind::Custom { protocol, target } => LinkKind::Custom {
            protocol: protocol.clone(),
            target: target.clone(),
        },
    }
}

impl Clone for LinkKind {
    fn clone(&self) -> (r: LinkKind)
        ensures
            r@ == self@,
    {
        clone_link_kind(self)
    }
}

/// A copy of an inline element.
pub fn clone_inline(x: &Inline) -> (r: Inline)
    ensures
        r@ == x@,
    decreases x,
{
    match x {
        Inline::Text(t) => Inline::Text(t.clone()),
        Inline::Emphasis { kind, children } => Inline::Emphasis {
            kind: *kind,
            children: clone_inlines(children),
        },
        Inline::Code(t) => Inline::Code(t.clone()),
        Inline::Verbatim(t) => Inline::Verbatim(t.clone()),
        Inline::Link(l) => Inline::Link(
            Link {
                kind: clone_link_kind(&l.kind),
                desc: match &l.desc {
                    Some(d) => Some(clone_inlines(d)),
                    None => None,
                },
            },
        ),
        Inline::Target(t) => Inline::Target(t.clone()),
        Inline::FootnoteRef(t) => Inline::FootnoteRef(t.clone()),
        Inline::Entity(t) => Inline::Entity(t.clone()),
        Inline::Unknown { kind, raw } => Inline::Unknown { kind: kind.clone(), raw: raw.clone() },
    }
}

/// A copy of a vector of inline elements.
pub fn clone_inlines(v: &Vec<Inline>) -> (r: Vec<Inline>)
    ensures
        inlines_view(r@) == inlines_view(v@),
    decreases v,
{
    let mut r: Vec<Inline> = Vec::new();
    let mut i: usize = 0;
    while i < v.len()
        invariant
            i <= v@.len(),
            r@.len() == i,
            forall|k: int| 0 <= k < i ==> #[trigger] inline_view(r@[k]) == inline_view(v@[k]),
        decreases v@.len() - i,
    {
        r.push(clone_inline(&v[i]));
        i = i + 1;
    }
    proof {
        lemma_inlines_view_eq(r@, v@);
    }
    r
}

impl Clone for Inline {
    fn clone(&self) -> (r: Inline)
        ensures
            r@ == self@,
    {
        clone_inline(self)
    }
}

impl Clone for Link {
    fn clone(&self) -> (r: Link)
        ensures
            r@ == self@,
    {
        Link {
            kind: clone_link_kind(&self.kind),
            desc: match &self.desc {
                Some(d) => Some(clone_inlines(d)),
                None => None,
            },
        }
    }
}

impl Clone for SrcBlock {
    fn clone(&self) -> (r: SrcBlock)
        ensures
            r@ == self@,
    {
        SrcBlock {
            language: clone_opt_string(&self.language),
            parameters: entries_clone(&self.parameters),
            code: self.code.clone(),
        }
    }
}

/// A copy of a block.
pub fn clone_block(b: &Block) -> (r: Block)
    ensures
        r@ == b@,
    decreases b,
{
    match b {
        Block::Paragraph(t) => Block::Paragraph(RichText { inlines: clone_inlines(&t.inlines) }),
        Block::List(l) => Block::List(List { kind: l.kind, items: clone_list_items(&l.items) }),
        Block::Quote(bs) => Block::Quote(clone_blocks(bs)),
        Block::Example { raw } => Block::Example { raw: raw.clone() },
        Block::SrcBlock(s) => Block::SrcBlock(s.clone()),
        Block::Drawer(d) => Block::Drawer(
            Drawer { name: d.name.clone(), content: clone_blocks(&d.content) },
        ),
        Block::Table(t) => {
            let r = Table { raw: clone_strings(&t.raw) };
            Block::Table(r)
        },
        Block::HorizontalRule => Block::HorizontalRule,
        Block::Comment(t) => Block::Comment(t.clone()),
        Block::Directive { key, value } => Block::Directive {
            key: key.clone(),
            value: value.clone(),
        },
        Block::Unknown { kind, raw } => Block::Unknown { kind: kind.clone(), raw: raw.clone() },
    }
}

/// A copy of a vector of blocks.
pub fn clone_blocks(v: &Vec<Block>) -> (r: Vec<Block>)
    ensures
        blocks_view(r@) == blocks_view(v@),
    decreases v,
{
    let mut r: Vec<Block> = Vec::new();
    let mut i: usize = 0;
    while i < v.len()
        invariant
            i <= v@.len(),
            r@.len() == i,
            forall|k: int| 0 <= k < i ==> #[trigger] block_view(r@[k]) == block_view(v@[k]),
        decreases v@.len() - i,
    {
        r.push(clone_block(&v[i]));
        i = i + 1;
    }
    proof {
        lemma_blocks_view_eq(r@, v@);
    }
    r
}

/// A copy of a list item.
pub fn clone_list_item(item: &ListItem) -> (r: ListItem)
    ensures
        r@ == item@,
    decreases item,
{
    let tags = item.tags.clone();
    let label = match &item.label {
        Some(t) => Some(RichText { inlines: clone_inlines(&t.inlines) }),
        None => None,
    };
    ListItem {
        label,
        content: clone_blocks(&item.content),
        checkbox: item.checkbox,
        counter: item.counter,
        tags,
    }
}

/// A copy of a vector of list items.
pub fn clone_list_items(v: &Vec<ListItem>) -> (r: Vec<ListItem>)
    ensures
        list_items_view(r@) == list_items_view(v@),
    decreases v,
{
    let mut r: Vec<ListItem> = Vec::new();
    let mut i: usize = 0;
    while i < v.len()
        invariant
            i <= v@.len(),
            r@.len() == i,
            forall|k: int| 0 <= k < i ==> #[trigger] list_item_view(r@[k]) == list_item_view(v@[k]),
        decreases v@.len() - i,
    {
        r.push(clone_list_item(&v[i]));
        i = i + 1;
    }
    proof {
        lemma_list_items_view_eq(r@, v@);
    }
    r
}

impl Clone for Block {
    fn clone(&self) -> (r: Block)
        ensures
            r@ == self@,
    {
        clone_block(self)
    }
}

impl Clone for ListItem {
    fn clone(&self) -> (r: ListItem)
        ensures
            r@ == self@,
    {
        clone_list_item(self)
    }
}

impl Clone for List {
    fn clone(&self) -> (r: List)
        ensures
            r@ == self@,
    {
        List { kind: self.kind, items: clone_list_items(&self.items) }
    }
}

impl Clone for Drawer {
    fn clone(&self) -> (r: Drawer)
        ensures
            r@ == self@,
    {
        Drawer { name: self.name.clone(), content: clone_blocks(&self.content) }
    }
}

/// A copy of a keyword that may be absent.
pub fn clone_opt_todo(o: &Option<TodoKeyword>) -> (r: Option<TodoKeyword>)
    ensures
        opt_todo_view(r) == opt_todo_view(*o),
{
    match o {
        Some(t) => Some(TodoKeyword { text: t.text.clone(), is_done: t.is_done }),
        None => None,
    }
}

/// A copy of a vector of blocks with their source ranges.
pub fn clone_sourced_blocks(v: &Vec<BlockWithSource>) -> (r: Vec<BlockWithSource>)
    ensures
        sourced_blocks_view(r@) == sourced_blocks_view(v@),
{
    let mut r: Vec<BlockWithSource> = Vec::new();
    let mut i: usize = 0;
    while i < v.len()
        invariant
            i <= v@.len(),
            r@.len() == i,
            forall|k: int| 0 <= k < i ==> #[trigger] r@[k]@ == v@[k]@,
        decreases v@.len() - i,
    {
        r.push(BlockWithSource { block: clone_block(&v[i].block), source: v[i].source });
        i = i + 1;
    }
    assert(sourced_blocks_view(r@) =~= sourced_blocks_view(v@));
    r
}

/// A copy of a logbook.
pub fn clone_logbook(log: &Logbook) -> (r: Logbook)
    ensures
        r@ == log@,
{
    let mut clock: Vec<ClockEntry> = Vec::new();
    let mut i: usize = 0;
    while i < log.clock.len()
        invariant
            i <= log.clock@.len(),
            clock@.len() == i,
            forall|k: int| 0 <= k < i ==> #[trigger] clock@[k]@ == log.clock@[k]@,
        decreases log.clock@.len() - i,
    {
        let c = &log.clock[i];
        clock.push(
            ClockEntry {
                start: c.start,
                end: c.end,
                minutes: c.minutes,
                raw: clone_opt_string(&c.raw),
            },
        );
        i = i + 1;
    }
    let mut state_changes: Vec<StateChange> = Vec::new();
    let mut j: usize = 0;
    while j < log.state_changes.len()
        invariant
            j <= log.state_changes@.len(),
            state_changes@.len() == j,
            forall|k: int|
                0 <= k < j ==> #[trigger] state_changes@[k]@ == log.state_changes@[k]@,
        decreases log.state_changes@.len() - j,
    {
        let c = &log.state_changes[j];
        state_changes.push(
            StateChange {
                from: clone_opt_todo(&c.from),
                to: clone_opt_todo(&c.to),
                at: c.at,
                note: clone_opt_string(&c.note),
            },
        );
        j = j + 1;
    }
    let r = Logbook { clock, state_changes, raw: clone_strings(&log.raw) };
    assert(r@.clock =~= log@.clock);
    assert(r@.state_changes =~= log@.state_changes);
    r
}

} // verus!
