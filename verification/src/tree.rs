//! The outline itself: headings, and the file that owns them.

use crate::entries::{entries_clone, entries_new, map_entries};
use crate::model::{
    clone_inlines, clone_logbook, clone_opt_string, clone_opt_todo, clone_sourced_blocks,
    opt_string_view, opt_todo_view, sourced_blocks_view, BlockWithSource, BlockWithSourceView,
    HeadingId, InlineView, Logbook, LogbookView, OrgFileId, Planning, Priority, PropertyDrawer,
    RichText, Section, TodoKeyword, TodoKeywordView, TodoSequence,
};
use crate::source::SourceRange;
use crate::tags::TagSet;
use indexmap::IndexMap;
use std::path::PathBuf;
use vstd::prelude::*;

verus! {

#[verifier::external_type_specification]
#[verifier::external_body]
pub struct ExPathBuf(PathBuf);

/// `PathBuf::clone` makes a path equal to the one it copies.
pub assume_specification[ <PathBuf as Clone>::clone ](path: &PathBuf) -> (r: PathBuf)
    ensures
        r == *path,
;

/* -------------------------------- Headings -------------------------------- */

/// A heading of the outline, with what stands under its headline and with
/// its child headings.
///
/// Each of the four ranges, where present, says that the part it stands for
/// is still as it was read from the source text. Whoever changes a field
/// that a range covers has to clear that range.
#[derive(Debug, PartialEq, Eq)]
pub struct Heading {
    pub id: HeadingId,
    /// The number of stars. Meant to be 1 to 8; nothing enforces it.
    pub level: u8,
    pub title: RichText,
    pub todo: Option<TodoKeyword>,
    pub priority: Option<Priority>,
    pub tags: TagSet,
    pub planning: Planning,
    pub properties: PropertyDrawer,
    pub logbook: Logbook,
    pub section: Section,
    pub children: Vec<Heading>,
    pub canonical_id: Option<String>,
    pub headline_range: Option<SourceRange>,
    pub planning_range: Option<SourceRange>,
    pub properties_range: Option<SourceRange>,
    pub logbook_range: Option<SourceRange>,
}

pub struct HeadingView {
    pub level: u8,
    pub title: Seq<InlineView>,
    pub todo: Option<TodoKeywordView>,
    pub priority: Option<Priority>,
    pub tags: Seq<Seq<char>>,
    pub planning: Planning,
    pub properties: Seq<(Seq<char>, Seq<char>)>,
    pub logbook: LogbookView,
    pub blocks: Seq<BlockWithSourceView>,
    pub children: Seq<HeadingView>,
    pub canonical_id: Option<Seq<char>>,
    pub headline_range: Option<SourceRange>,
    pub planning_range: Option<SourceRange>,
    pub properties_range: Option<SourceRange>,
    pub logbook_range: Option<SourceRange>,
}

pub open spec fn heading_view(h: Heading) -> HeadingView
    decreases h,
{
    HeadingView {
        level: h.level,
        title: h.title@,
        todo: opt_todo_view(h.todo),
        priority: h.priority,
        tags: h.tags@,
        planning: h.planning,
        properties: h.properties@,
        logbook: h.logbook@,
        blocks: h.section@,
        children: headings_view(h.children@),
        canonical_id: opt_string_view(h.canonical_id),
        headline_range: h.headline_range,
        planning_range: h.planning_range,
        properties_range: h.properties_range,
        logbook_range: h.logbook_range,
    }
}

pub open spec fn headings_view(v: Seq<Heading>) -> Seq<HeadingView>
    decreases v,
{
    Seq::new(
        v.len(),
        |i: int|
            if 0 <= i < v.len() {
                heading_view(v[i])
            } else {
                arbitrary()
            },
    )
}

impl View for Heading {
    type V = HeadingView;

    open spec fn view(&self) -> HeadingView {
        heading_view(*self)
    }
}

pub proof fn lemma_headings_view_push(v: Seq<Heading>, x: Heading)
    ensures
        headings_view(v.push(x)) == headings_view(v).push(x@),
{
    assert(headings_view(v.push(x)) =~= headings_view(v).push(x@));
}

pub proof fn lemma_headings_view_eq(a: Seq<Heading>, b: Seq<Heading>)
    requires
        a.len() == b.len(),
        forall|k: int| 0 <= k < a.len() ==> #[trigger] heading_view(a[k]) == heading_view(b[k]),
    ensures
        headings_view(a) == headings_view(b),
{
    assert forall|j: int| 0 <= j < a.len() implies headings_view(a)[j] == headings_view(b)[j] by {
        assert(heading_view(a[j]) == heading_view(b[j]));
    }
    assert(headings_view(a) =~= headings_view(b));
}

/// A heading that has a level and a title and nothing else.
pub open spec fn bare_heading(level: u8, title: Seq<InlineView>) -> HeadingView {
    HeadingView {
        level,
        title,
        todo: None,
        priority: None,
        tags: Seq::empty(),
        planning: Planning { scheduled: None, deadline: None, closed: None },
        properties: Seq::empty(),
        logbook: crate::model::empty_logbook(),
        blocks: Seq::empty(),
        children: Seq::empty(),
        canonical_id: None,
        headline_range: None,
        planning_range: None,
        properties_range: None,
        logbook_range: None,
    }
}

impl Heading {
    /// A heading with a fresh identity, the given level and title, and
    /// nothing else.
    pub fn new(level: u8, title: RichText) -> (r: Heading)
        ensures
            r@ == bare_heading(level, title@),
    {
        let r = Heading {
            id: HeadingId::new(),
            level,
            title,
            todo: None,
            priority: None,
            tags: TagSet::new(),
            planning: Planning::default(),
            properties: PropertyDrawer::default(),
            logbook: Logbook::default(),
            section: Section::default(),
            children: Vec::new(),
            canonical_id: None,
            headline_range: None,
            planning_range: None,
            properties_range: None,
            logbook_range: None,
        };
        assert(r@.children =~= Seq::<HeadingView>::empty());
        r
    }

    /// Tells the formatter that level, keyword, priority, title or tags
    /// have changed: the headline is written anew.
    pub fn mark_headline_dirty(&mut self)
        ensures
            final(self)@ == (HeadingView { headline_range: None, ..old(self)@ }),
            final(self).id == old(self).id,
    {
        self.headline_range = None;
    }

    /// Tells the formatter that the planning timestamps have changed.
    pub fn mark_planning_dirty(&mut self)
        ensures
            final(self)@ == (HeadingView { planning_range: None, ..old(self)@ }),
            final(self).id == old(self).id,
    {
        self.planning_range = None;
    }

    /// Tells the formatter that the properties have changed.
    pub fn mark_properties_dirty(&mut self)
        ensures
            final(self)@ == (HeadingView { properties_range: None, ..old(self)@ }),
            final(self).id == old(self).id,
    {
        self.properties_range = None;
    }

    /// Tells the formatter that the logbook has changed.
    pub fn mark_logbook_dirty(&mut self)
        ensures
            final(self)@ == (HeadingView { logbook_range: None, ..old(self)@ }),
            final(self).id == old(self).id,
    {
        self.logbook_range = None;
    }
}

/// Whether each heading of `r` has the identity of its counterpart in
/// `src`, and so on under each.
pub open spec fn ids_follow(src: Seq<Heading>, r: Seq<Heading>) -> bool
    decreases src,
{
    src.len() == r.len() && forall|i: int|
        0 <= i < src.len() ==> (#[trigger] r[i]).id == src[i].id && ids_follow(
            src[i].children@,
            r[i].children@,
        )
}

/// A copy of a heading and of everything under it, with the same
/// identities.
pub fn clone_heading(h: &Heading) -> (r: Heading)
    ensures
        r@ == h@,
        r.id == h.id,
        ids_follow(h.children@, r.children@),
    decreases h,
{
    Heading {
        id: h.id,
        level: h.level,
        title: RichText { inlines: clone_inlines(&h.title.inlines) },
        todo: clone_opt_todo(&h.todo),
        priority: h.priority,
        tags: h.tags.clone(),
        planning: h.planning,
        properties: h.properties.clone(),
        logbook: clone_logbook(&h.logbook),
        section: Section { blocks: clone_sourced_blocks(&h.section.blocks) },
        children: clone_headings(&h.children),
        canonical_id: clone_opt_string(&h.canonical_id),
        headline_range: h.headline_range,
        planning_range: h.planning_range,
        properties_range: h.properties_range,
        logbook_range: h.logbook_range,
    }
}

/// A copy of a heading without the headings under it, with the same
/// identity.
pub fn clone_heading_alone(h: &Heading) -> (r: Heading)
    ensures
        r@ == (HeadingView { children: Seq::empty(), ..h@ }),
        r.id == h.id,
{
    let r = Heading {
        id: h.id,
        level: h.level,
        title: RichText { inlines: clone_inlines(&h.title.inlines) },
        todo: clone_opt_todo(&h.todo),
        priority: h.priority,
        tags: h.tags.clone(),
        planning: h.planning,
        properties: h.properties.clone(),
        logbook: clone_logbook(&h.logbook),
        section: Section { blocks: clone_sourced_blocks(&h.section.blocks) },
        children: Vec::new(),
        canonical_id: clone_opt_string(&h.canonical_id),
        headline_range: h.headline_range,
        planning_range: h.planning_range,
        properties_range: h.properties_range,
        logbook_range: h.logbook_range,
    };
    assert(r@.children =~= Seq::<HeadingView>::empty());
    r
}

/// A copy of a vector of headings, with the same identities.
pub fn clone_headings(v: &Vec<Heading>) -> (r: Vec<Heading>)
    ensures
        headings_view(r@) == headings_view(v@),
        r@.len() == v@.len(),
        forall|k: int| 0 <= k < v@.len() ==> #[trigger] r@[k].id == v@[k].id,
        ids_follow(v@, r@),
    decreases v,
{
    let mut r: Vec<Heading> = Vec::new();
    let mut i: usize = 0;
    while i < v.len()
        invariant
            i <= v@.len(),
            r@.len() == i,
            forall|k: int| 0 <= k < i ==> #[trigger] heading_view(r@[k]) == heading_view(v@[k]),
            forall|k: int|
                0 <= k < i ==> (#[trigger] r@[k]).id == v@[k].id && ids_follow(
                    v@[k].children@,
                    r@[k].children@,
                ),
        decreases v@.len() - i,
    {
        r.push(clone_heading(&v[i]));
        i = i + 1;
    }
    proof {
        lemma_headings_view_eq(r@, v@);
    }
    r
}

impl Clone for Heading {
    fn clone(&self) -> (r: Heading)
        ensures
            r@ == self@,
            r.id == self.id,
            ids_follow(self.children@, r.children@),
    {
        clone_heading(self)
    }
}

/* ----------------------------- Well-formedness ----------------------------- */

/// Whether a range, if there is one, can be cut out of the source text, if
/// there is one.
pub open spec fn range_fits(range: Option<SourceRange>, source: Option<Seq<char>>) -> bool {
    match (range, source) {
        (Some(r), Some(text)) => r.fits(text),
        _ => true,
    }
}

/// Whether the range of every block can be cut out of the source text.
pub open spec fn blocks_fit(blocks: Seq<BlockWithSourceView>, source: Option<Seq<char>>) -> bool {
    forall|i: int| 0 <= i < blocks.len() ==> range_fits((#[trigger] blocks[i]).source, source)
}

/// Whether every timestamp of the clock entries exists.
pub open spec fn clock_valid(clock: Seq<crate::model::ClockEntryView>) -> bool {
    forall|i: int|
        0 <= i < clock.len() ==> (#[trigger] clock[i]).start.valid() && (clock[i].end matches Some(
            t,
        ) ==> t.valid())
}

/// Whether a heading is well formed with respect to the given source text:
/// its ranges can be cut out of that text, its timestamps exist, its tags
/// stand in order, and the same holds of the headings under it. Such a
/// heading can be formatted.
pub open spec fn heading_wf(h: HeadingView, source: Option<Seq<char>>) -> bool
    decreases h,
{
    &&& range_fits(h.headline_range, source)
    &&& range_fits(h.planning_range, source)
    &&& range_fits(h.properties_range, source)
    &&& range_fits(h.logbook_range, source)
    &&& h.planning.valid()
    &&& clock_valid(h.logbook.clock)
    &&& crate::tags::ascending(h.tags)
    &&& blocks_fit(h.blocks, source)
    &&& forall|i: int|
        0 <= i < h.children.len() ==> heading_wf(#[trigger] h.children[i], source)
}

/// Whether each of the headings can be formatted against the given source
/// text.
pub open spec fn headings_wf(v: Seq<HeadingView>, source: Option<Seq<char>>) -> bool {
    forall|i: int| 0 <= i < v.len() ==> heading_wf(#[trigger] v[i], source)
}

/// Whether a file is well formed: every range in it can be cut out of its
/// source text, every timestamp in it exists, and its tags and those of its
/// headings stand in order. Such a file can be formatted.
pub open spec fn file_wf(f: OrgFileView) -> bool {
    &&& crate::tags::ascending(f.file_tags)
    &&& blocks_fit(f.preamble, f.source_text)
    &&& headings_wf(f.headings, f.source_text)
}

/// Whether the levels nest: every heading under `h` lies deeper than the
/// heading it stands under.
pub open spec fn levels_nest(h: HeadingView) -> bool
    decreases h,
{
    forall|i: int|
        0 <= i < h.children.len() ==> (#[trigger] h.children[i]).level > h.level && levels_nest(
            h.children[i],
        )
}

/// Whether the levels nest in each of the headings.
pub open spec fn all_nest(v: Seq<HeadingView>) -> bool {
    forall|i: int| 0 <= i < v.len() ==> levels_nest(#[trigger] v[i])
}

/* ------------------------------ File settings ------------------------------ */

/// What a file says of itself in its `#+KEY: VALUE` lines.
#[derive(Debug, PartialEq, Eq)]
pub struct FileSettings {
    pub todo_sequences: Vec<TodoSequence>,
    /// The priorities that the file knows; `A`, `B`, `C` unless it says
    /// otherwise.
    pub priorities: Vec<Priority>,
    /// The zone of timestamps that name none, as seconds east of Greenwich.
    pub default_tz: Option<i32>,
    /// Every other key with its value, in the order in which the keys came.
    pub meta: IndexMap<String, String>,
}

pub struct FileSettingsView {
    pub todo_sequences: Seq<Seq<Seq<char>>>,
    pub priorities: Seq<Priority>,
    pub default_tz: Option<i32>,
    pub meta: Seq<(Seq<char>, Seq<char>)>,
}

pub open spec fn todo_sequences_view(v: Seq<TodoSequence>) -> Seq<Seq<Seq<char>>> {
    Seq::new(v.len(), |i: int| v[i]@)
}

impl View for FileSettings {
    type V = FileSettingsView;

    open spec fn view(&self) -> FileSettingsView {
        FileSettingsView {
            todo_sequences: todo_sequences_view(self.todo_sequences@),
            priorities: self.priorities@,
            default_tz: self.default_tz,
            meta: map_entries(self.meta),
        }
    }
}

/// The settings of a file that says nothing of itself.
pub open spec fn default_settings() -> FileSettingsView {
    FileSettingsView {
        todo_sequences: Seq::empty(),
        priorities: seq![Priority('A'), Priority('B'), Priority('C')],
        default_tz: None,
        meta: Seq::empty(),
    }
}

impl FileSettings {
    /// The priorities of a file that names none.
    pub fn default_priorities() -> (r: Vec<Priority>)
        ensures
            r@ == seq![Priority('A'), Priority('B'), Priority('C')],
    {
        let mut r: Vec<Priority> = Vec::new();
        r.push(Priority('A'));
        r.push(Priority('B'));
        r.push(Priority('C'));
        assert(r@ =~= seq![Priority('A'), Priority('B'), Priority('C')]);
        r
    }
}

impl Default for FileSettings {
    fn default() -> (r: FileSettings)
        ensures
            r@ == default_settings(),
    {
        let r = FileSettings {
            todo_sequences: Vec::new(),
            priorities: FileSettings::default_priorities(),
            default_tz: None,
            meta: entries_new(),
        };
        assert(r@.todo_sequences =~= Seq::<Seq<Seq<char>>>::empty());
        r
    }
}

impl Clone for FileSettings {
    fn clone(&self) -> (r: FileSettings)
        ensures
            r@ == self@,
    {
        let mut todo_sequences: Vec<TodoSequence> = Vec::new();
        let mut i: usize = 0;
        while i < self.todo_sequences.len()
            invariant
                i <= self.todo_sequences@.len(),
                todo_sequences@.len() == i,
                forall|k: int|
                    0 <= k < i ==> (#[trigger] todo_sequences@[k])@ == self.todo_sequences@[k]@,
            decreases self.todo_sequences@.len() - i,
        {
            todo_sequences.push(
                TodoSequence { items: crate::model::clone_strings(&self.todo_sequences[i].items) },
            );
            i = i + 1;
        }
        let mut priorities: Vec<Priority> = Vec::new();
        let mut j: usize = 0;
        while j < self.priorities.len()
            invariant
                j <= self.priorities@.len(),
                priorities@ == self.priorities@.subrange(0, j as int),
            decreases self.priorities@.len() - j,
        {
            priorities.push(self.priorities[j]);
            j = j + 1;
            assert(priorities@ =~= self.priorities@.subrange(0, j as int));
        }
        assert(self.priorities@.subrange(0, self.priorities@.len() as int) =~= self.priorities@);
        let r = FileSettings {
            todo_sequences,
            priorities,
            default_tz: self.default_tz,
            meta: entries_clone(&self.meta),
        };
        assert(r@.todo_sequences =~= self@.todo_sequences);
        r
    }
}

/* ---------------------------------- Files ---------------------------------- */

/// A file: the root of the outline.
///
/// `source_text` is the text that the file was parsed from. The ranges in
/// the tree point into it, so they mean something only as long as it stays
/// as it is. A file that was built by hand has none.
#[derive(Debug, PartialEq, Eq)]
pub struct OrgFile {
    pub id: OrgFileId,
    pub path: Option<PathBuf>,
    pub title: Option<String>,
    pub file_tags: TagSet,
    pub settings: FileSettings,
    /// What stands before the first heading.
    pub preamble: Vec<BlockWithSource>,
    /// The top-level headings.
    pub headings: Vec<Heading>,
    pub source_text: Option<String>,
}

pub struct OrgFileView {
    pub title: Option<Seq<char>>,
    pub file_tags: Seq<Seq<char>>,
    pub settings: FileSettingsView,
    pub preamble: Seq<BlockWithSourceView>,
    pub headings: Seq<HeadingView>,
    pub source_text: Option<Seq<char>>,
}

impl View for OrgFile {
    type V = OrgFileView;

    open spec fn view(&self) -> OrgFileView {
        OrgFileView {
            title: opt_string_view(self.title),
            file_tags: self.file_tags@,
            settings: self.settings@,
            preamble: sourced_blocks_view(self.preamble@),
            headings: headings_view(self.headings@),
            source_text: opt_string_view(self.source_text),
        }
    }
}

impl Clone for OrgFile {
    fn clone(&self) -> (r: OrgFile)
        ensures
            r@ == self@,
            r.id == self.id,
            r.path == self.path,
            ids_follow(self.headings@, r.headings@),
    {
        OrgFile {
            id: self.id,
            path: self.path.clone(),
            title: clone_opt_string(&self.title),
            file_tags: self.file_tags.clone(),
            settings: self.settings.clone(),
            preamble: clone_sourced_blocks(&self.preamble),
            headings: clone_headings(&self.headings),
            source_text: clone_opt_string(&self.source_text),
        }
    }
}

/// A file that holds nothing.
pub open spec fn empty_file() -> OrgFileView {
    OrgFileView {
        title: None,
        file_tags: Seq::empty(),
        settings: default_settings(),
        preamble: Seq::empty(),
        headings: Seq::empty(),
        source_text: None,
    }
}

impl OrgFile {
    /// A file with a fresh identity that holds nothing.
    pub fn new(path: Option<PathBuf>) -> (r: OrgFile)
        ensures
            r@ == empty_file(),
            r.path == path,
    {
        let r = OrgFile {
            id: OrgFileId::new(),
            path,
            title: None,
            file_tags: TagSet::new(),
            settings: FileSettings::default(),
            preamble: Vec::new(),
            headings: Vec::new(),
            source_text: None,
        };
        assert(r@.preamble =~= Seq::<BlockWithSourceView>::empty());
        assert(r@.headings =~= Seq::<HeadingView>::empty());
        r
    }
}

} // verus!
