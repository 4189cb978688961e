//! A new journal entry: a template, and the tasks of earlier entries that
//! are still to do, carried over under the headings they stood under.

use crate::calendar::Date;
use crate::entries::{entries_get, entries_insert, entries_len, key_index, map_entries};
use crate::format::{format_org_file, format_text, plain_text_of};
use crate::journal::{
    date_like, incomplete, is_incomplete_todo, looks_like_date_heading, normalize, normalized,
    normalized_path, reschedule_planning_in_place, rescheduled_planning, scrubbed,
    scrubbed_heading, ReschedulePolicy,
};
use crate::laws::lemma_source_order_gives_source;
use crate::model::{
    clock_view, strings_view, Inline, InlineView, LogbookView, OrgFileId, Planning, RichText,
};
use crate::order::in_source_order;
use crate::parser::{parse_document, parse_org_from_str, ParseError};
use crate::tags::sorted_insert_all;
use crate::text::{chars_of, same_chars};
use crate::tree::{
    bare_heading, clone_heading_alone, file_wf, heading_wf, headings_view, headings_wf,
    ids_follow, lemma_headings_view_push, FileSettingsView, Heading, HeadingView, OrgFile,
    OrgFileView,
};
use crate::workspace::{
    files_in, first_with_path, folders_in, pointed_at, FileContent, OrgFileEntry, OrgWorkspace,
    RelPath,
};
use indexmap::IndexMap;
use vstd::prelude::*;

verus! {

/* ---------------------------- Gathering the tasks ---------------------------- */

/// Whether two paths have the same segments.
pub fn same_path(a: &Vec<String>, b: &Vec<String>) -> (r: bool)
    ensures
        r == (strings_view(a@) == strings_view(b@)),
{
    if a.len() != b.len() {
        assert(strings_view(a@).len() != strings_view(b@).len());
        return false;
    }
    let mut i: usize = 0;
    while i < a.len()
        invariant
            a@.len() == b@.len(),
            i <= a@.len(),
            forall|k: int| 0 <= k < i ==> a@[k]@ == b@[k]@,
        decreases a@.len() - i,
    {
        if !same_chars(&chars_of(a[i].as_str()), &chars_of(b[i].as_str())) {
            assert(strings_view(a@)[i as int] != strings_view(b@)[i as int]);
            return false;
        }
        i = i + 1;
    }
    assert(strings_view(a@) =~= strings_view(b@));
    true
}

/// Tasks by the path of headings they stand under, the paths in the order
/// in which they first came.
pub struct BucketTree {
    pub map: IndexMap<Vec<String>, Vec<Heading>>,
}

/// A path with the tasks that stand under it.
pub type Bucket = (Seq<Seq<char>>, Seq<HeadingView>);

/// The buckets that a map holds, in its order: each path with the tasks
/// under it.
pub uninterp spec fn bucket_entries(m: IndexMap<Vec<String>, Vec<Heading>>) -> Seq<
    (Seq<Seq<char>>, Seq<HeadingView>),
>;

/// The views of buckets that were taken out of a map.
pub open spec fn buckets_view(v: Seq<(Vec<String>, Vec<Heading>)>) -> Seq<Bucket> {
    Seq::new(v.len(), |i: int| (strings_view(v[i].0@), headings_view(v[i].1@)))
}

impl View for BucketTree {
    type V = Seq<Bucket>;

    open spec fn view(&self) -> Seq<Bucket> {
        bucket_entries(self.map)
    }
}

/// The place of the first bucket with the given path, or the number of
/// buckets if there is none.
pub open spec fn bucket_index(buckets: Seq<Bucket>, path: Seq<Seq<char>>) -> int
    decreases buckets.len(),
{
    if buckets.len() == 0 {
        0
    } else if buckets[0].0 == path {
        0
    } else {
        1 + bucket_index(buckets.drop_first(), path)
    }
}

/// The buckets after a task was put under a path: it comes last in the
/// bucket of that path, and a path that was not there comes last.
pub open spec fn bucket_put(buckets: Seq<Bucket>, path: Seq<Seq<char>>, task: HeadingView) -> Seq<
    Bucket,
> {
    let i = bucket_index(buckets, path);
    if 0 <= i < buckets.len() {
        buckets.update(i, (buckets[i].0, buckets[i].1.push(task)))
    } else {
        buckets.push((path, seq![task]))
    }
}

/// Calls `IndexMap::new`, which makes a map without buckets.
#[verifier::external_body]
fn buckets_new() -> (m: IndexMap<Vec<String>, Vec<Heading>>)
    ensures
        bucket_entries(m) == Seq::<Bucket>::empty(),
{
    IndexMap::new()
}

/// Calls `IndexMap::entry` and `Entry::or_default`, which hand out the
/// tasks under the path, after adding the path last with no tasks where the
/// map did not have it, and adds the task to them.
#[verifier::external_body]
fn buckets_put(m: &mut IndexMap<Vec<String>, Vec<Heading>>, path: Vec<String>, h: Heading)
    ensures
        bucket_entries(*final(m)) == bucket_put(bucket_entries(*old(m)), strings_view(path@), h@),
{
    m.entry(path).or_default().push(h);
}

/// Calls `IndexMap::into_iter`, which hands out the buckets in the map's
/// order.
#[verifier::external_body]
fn buckets_taken(m: IndexMap<Vec<String>, Vec<Heading>>) -> (r: Vec<(Vec<String>, Vec<Heading>)>)
    ensures
        buckets_view(r@) == bucket_entries(m),
{
    m.into_iter().collect()
}

impl BucketTree {
    /// No buckets.
    pub fn new() -> (r: BucketTree)
        ensures
            r@ == Seq::<Bucket>::empty(),
    {
        BucketTree { map: buckets_new() }
    }

    /// Puts a task under a path.
    pub fn push(&mut self, path: Vec<String>, h: Heading)
        ensures
            final(self)@ == bucket_put(old(self)@, strings_view(path@), h@),
    {
        buckets_put(&mut self.map, path, h);
    }

    /// The buckets, in the order in which their paths first came.
    pub fn into_flat_vec(self) -> (r: Vec<(Vec<String>, Vec<Heading>)>)
        ensures
            buckets_view(r@) == self@,
    {
        buckets_taken(self.map)
    }
}

/// The tasks that were gathered already, each as the path it stands under
/// and its title, both as titles are compared.
pub type Seen = Seq<(Seq<Seq<char>>, Seq<char>)>;

/// The view of the tasks that were gathered already.
pub open spec fn seen_view(v: Seq<(Vec<String>, String)>) -> Seen {
    Seq::new(v.len(), |i: int| (strings_view(v[i].0@), v[i].1@))
}

/// What was gathered: the tasks by path, and which tasks they are.
pub struct Gathering {
    pub buckets: Seq<Bucket>,
    pub seen: Seen,
}

/// Each segment of a path as titles are compared.
pub open spec fn normalized_all(path: Seq<Seq<char>>) -> Seq<Seq<char>> {
    Seq::new(path.len(), |i: int| normalized(path[i]))
}

/// The path under which the headings below `h` stand: the path of `h`
/// with the title of `h`, unless `h` is a root whose title starts with a
/// date. Such a heading is an entry of the journal and no group of tasks.
pub open spec fn path_below(h: HeadingView, path: Seq<Seq<char>>) -> Seq<Seq<char>> {
    if !date_like(plain_text_of(h.title)) || path.len() > 0 {
        path.push(plain_text_of(h.title))
    } else {
        path
    }
}

/// What is gathered after the heading `h` itself was looked at. A task that
/// is still to do is taken, unless a task of the same title under the same
/// path was taken before; it is taken without the headings under it, with
/// its dates moved, and without memory of where it was read from. Nothing
/// comes back where a date cannot be moved.
pub open spec fn taken(
    settings: FileSettingsView,
    h: HeadingView,
    here: Seq<Seq<char>>,
    g: Gathering,
    target: Date,
    policy: ReschedulePolicy,
) -> Option<Gathering> {
    let key = (normalized_all(here), normalized(plain_text_of(h.title)));
    if incomplete(h, settings) && !g.seen.contains(key) {
        match rescheduled_planning(h.planning, target, policy) {
            Some(planning) => Some(
                Gathering {
                    buckets: bucket_put(
                        g.buckets,
                        key.0,
                        scrubbed(HeadingView { children: Seq::empty(), planning, ..h }),
                    ),
                    seen: g.seen.push(key),
                },
            ),
            None => None,
        }
    } else {
        Some(g)
    }
}

/// What is gathered after `h` and everything under it was looked at, `h`
/// first.
pub open spec fn collected(
    settings: FileSettingsView,
    h: HeadingView,
    path: Seq<Seq<char>>,
    g: Gathering,
    target: Date,
    policy: ReschedulePolicy,
) -> Option<Gathering>
    decreases h,
{
    match taken(settings, h, path_below(h, path), g, target, policy) {
        Some(g1) => collected_all(settings, h.children, path_below(h, path), g1, target, policy),
        None => None,
    }
}

/// What is gathered after the headings of `v` were looked at, one after
/// the other.
pub open spec fn collected_all(
    settings: FileSettingsView,
    v: Seq<HeadingView>,
    path: Seq<Seq<char>>,
    g: Gathering,
    target: Date,
    policy: ReschedulePolicy,
) -> Option<Gathering>
    decreases v,
{
    if v.len() == 0 {
        Some(g)
    } else {
        match collected_all(settings, v.drop_last(), path, g, target, policy) {
            Some(g1) => collected(settings, v.last(), path, g1, target, policy),
            None => None,
        }
    }
}

/// Whether a task of the given path and title was gathered already.
fn was_seen(seen: &Vec<(Vec<String>, String)>, path: &Vec<String>, title: &String) -> (b: bool)
    ensures
        b == seen_view(seen@).contains((strings_view(path@), title@)),
{
    let ghost all = seen_view(seen@);
    let ghost key = (strings_view(path@), title@);
    let mut i: usize = 0;
    while i < seen.len()
        invariant
            i <= seen@.len(),
            all == seen_view(seen@),
            key == (strings_view(path@), title@),
            forall|k: int| 0 <= k < i ==> all[k] != key,
        decreases seen@.len() - i,
    {
        if same_path(&seen[i].0, path) && seen[i].1 == *title {
            assert(all[i as int] == key);
            return true;
        }
        i = i + 1;
    }
    false
}

/// Looks at the heading `h` itself and takes it if it is a task that is
/// still to do and was not taken before. The answer is `false` where a
/// date cannot be moved; nothing is changed then.
fn take_task(
    file: &OrgFile,
    h: &Heading,
    here: &Vec<String>,
    buckets: &mut BucketTree,
    seen: &mut Vec<(Vec<String>, String)>,
    target_date: Date,
    policy: &ReschedulePolicy,
) -> (ok: bool)
    ensures
        match taken(
            file@.settings,
            h@,
            strings_view(here@),
            Gathering { buckets: old(buckets)@, seen: seen_view(old(seen)@) },
            target_date,
            *policy,
        ) {
            Some(g) => ok && final(buckets)@ == g.buckets && seen_view(final(seen)@) == g.seen,
            None => !ok && final(buckets)@ == old(buckets)@ && seen_view(final(seen)@)
                == seen_view(old(seen)@),
        },
{
    if !is_incomplete_todo(h, &file.settings) {
        return true;
    }
    let key_path = normalized_path(here);
    assert(strings_view(key_path@) =~= normalized_all(strings_view(here@)));
    let title = h.title.plain_text();
    let title_key = normalize(title.as_str());
    if was_seen(seen, &key_path, &title_key) {
        return true;
    }
    let mut copy = clone_heading_alone(h);
    if !reschedule_planning_in_place(&mut copy.planning, target_date, policy) {
        return false;
    }
    let copy = scrubbed_heading(copy);
    let ghost had = seen_view(seen@);
    let seen_path = crate::model::clone_strings(&key_path);
    seen.push((seen_path, title_key));
    assert(seen_view(seen@) =~= had.push((strings_view(key_path@), title_key@)));
    buckets.push(key_path, copy);
    true
}

/// Gathers the tasks that are still to do from `h` and from everything
/// under it. `path` holds the titles of the headings above, and holds them
/// again afterwards. The answer is `false` where a date cannot be moved.
pub fn collect_incomplete_todos(
    file: &OrgFile,
    h: &Heading,
    path: &mut Vec<String>,
    buckets: &mut BucketTree,
    seen: &mut Vec<(Vec<String>, String)>,
    target_date: Date,
    policy: &ReschedulePolicy,
) -> (ok: bool)
    ensures
        strings_view(final(path)@) == strings_view(old(path)@),
        match collected(
            file@.settings,
            h@,
            strings_view(old(path)@),
            Gathering { buckets: old(buckets)@, seen: seen_view(old(seen)@) },
            target_date,
            *policy,
        ) {
            Some(g) => ok && final(buckets)@ == g.buckets && seen_view(final(seen)@) == g.seen,
            None => !ok,
        },
    decreases h,
{
    let ghost above = strings_view(path@);
    let ghost settings = file@.settings;
    let this_title = h.title.plain_text();
    let use_as_group = !looks_like_date_heading(this_title.as_str()) || path.len() > 0;
    if use_as_group {
        path.push(this_title);
        assert(strings_view(path@) =~= above.push(plain_text_of(h@.title)));
    }
    let ghost here = strings_view(path@);
    assert(here == path_below(h@, above));
    let mut ok = take_task(file, h, path, buckets, seen, target_date, policy);
    if !ok {
        if use_as_group {
            let ghost full = path@;
            path.pop();
            proof {
                assert(path@ =~= full.drop_last());
                assert(strings_view(full.drop_last()) =~= strings_view(full).drop_last());
                assert(above.push(plain_text_of(h@.title)).drop_last() =~= above);
                assert(strings_view(path@) =~= above);
            }
        }
        return false;
    }
    let ghost g1 = Gathering { buckets: buckets@, seen: seen_view(seen@) };
    let mut i: usize = 0;
    let ghost kids = h@.children;
    assert(kids == headings_view(h.children@));
    assert(kids.subrange(0, 0) =~= Seq::<HeadingView>::empty());
    while ok && i < h.children.len()
        invariant
            i <= h.children@.len(),
            kids == headings_view(h.children@),
            settings == file@.settings,
            strings_view(path@) == here,
            ok ==> collected_all(
                settings,
                kids.subrange(0, i as int),
                here,
                g1,
                target_date,
                *policy,
            ) == Some(Gathering { buckets: buckets@, seen: seen_view(seen@) }),
            !ok ==> collected_all(settings, kids, here, g1, target_date, *policy) is None,
        decreases h.children@.len() - i,
    {
        proof {
            let upto = kids.subrange(0, i + 1);
            assert(upto.drop_last() =~= kids.subrange(0, i as int));
            assert(upto.last() == h.children@[i as int]@);
        }
        ok = collect_incomplete_todos(
            file,
            &h.children[i],
            path,
            buckets,
            seen,
            target_date,
            policy,
        );
        proof {
            if !ok {
                lemma_collect_fails_on(settings, kids, i + 1, here, g1, target_date, *policy);
            }
        }
        i = i + 1;
    }
    assert(ok ==> kids.subrange(0, i as int) =~= kids);
    if use_as_group {
        let ghost full = path@;
        path.pop();
        proof {
            assert(path@ =~= full.drop_last());
            assert(strings_view(full.drop_last()) =~= strings_view(full).drop_last());
            assert(above.push(plain_text_of(h@.title)).drop_last() =~= above);
            assert(strings_view(path@) =~= above);
        }
    }
    ok
}

/// Where gathering fails on the first `n` headings it fails on all of
/// them.
proof fn lemma_collect_fails_on(
    settings: FileSettingsView,
    v: Seq<HeadingView>,
    n: int,
    path: Seq<Seq<char>>,
    g: Gathering,
    target: Date,
    policy: ReschedulePolicy,
)
    requires
        0 <= n <= v.len(),
        collected_all(settings, v.subrange(0, n), path, g, target, policy) is None,
    ensures
        collected_all(settings, v, path, g, target, policy) is None,
    decreases v.len() - n,
{
    if n < v.len() {
        let upto = v.subrange(0, n + 1);
        assert(upto.drop_last() =~= v.subrange(0, n));
        lemma_collect_fails_on(settings, v, n + 1, path, g, target, policy);
    } else {
        assert(v.subrange(0, n) =~= v);
    }
}

/* ----------------------------- Merging the tasks ----------------------------- */

/// The place of the first heading whose title, as titles are compared, is
/// `key`; the number of headings if there is none.
pub open spec fn matching_child(nodes: Seq<HeadingView>, key: Seq<char>) -> int
    decreases nodes.len(),
{
    if nodes.len() == 0 {
        0
    } else if normalized(plain_text_of(nodes[0].title)) == key {
        0
    } else {
        1 + matching_child(nodes.drop_first(), key)
    }
}

proof fn lemma_matching_child(nodes: Seq<HeadingView>, key: Seq<char>, i: int)
    requires
        0 <= i <= nodes.len(),
        forall|k: int|
            0 <= k < i ==> normalized(plain_text_of((#[trigger] nodes[k]).title)) != key,
        i < nodes.len() ==> normalized(plain_text_of(nodes[i].title)) == key,
    ensures
        matching_child(nodes, key) == i,
    decreases i,
{
    if i > 0 {
        let rest = nodes.drop_first();
        assert(normalized(plain_text_of(nodes[0].title)) != key);
        assert forall|k: int| 0 <= k < i - 1 implies normalized(
            plain_text_of((#[trigger] rest[k]).title),
        ) != key by {
            assert(rest[k] == nodes[k + 1]);
        }
        if i < nodes.len() {
            assert(rest[i - 1] == nodes[i]);
        }
        lemma_matching_child(rest, key, i - 1);
    }
}

/// Finds the first heading whose title, as titles are compared, is `key`.
fn find_child(nodes: &Vec<Heading>, key: &String) -> (i: usize)
    ensures
        i == matching_child(headings_view(nodes@), key@),
        i <= nodes@.len(),
{
    let ghost views = headings_view(nodes@);
    let mut i: usize = 0;
    while i < nodes.len()
        invariant
            i <= nodes@.len(),
            views == headings_view(nodes@),
            forall|k: int|
                0 <= k < i ==> normalized(plain_text_of((#[trigger] views[k]).title)) != key@,
        decreases nodes@.len() - i,
    {
        assert(views[i as int] == nodes@[i as int]@);
        let title = nodes[i].title.plain_text();
        if normalize(title.as_str()) == *key {
            proof {
                lemma_matching_child(views, key@, i as int);
            }
            return i;
        }
        i = i + 1;
    }
    proof {
        lemma_matching_child(views, key@, i as int);
    }
    i
}

/// The properties after those of `more` whose key is not there yet were
/// added, in their order.
pub open spec fn props_added(
    existing: Seq<(Seq<char>, Seq<char>)>,
    more: Seq<(Seq<char>, Seq<char>)>,
) -> Seq<(Seq<char>, Seq<char>)>
    decreases more.len(),
{
    if more.len() == 0 {
        existing
    } else {
        let had = props_added(existing, more.drop_last());
        if 0 <= key_index(had, more.last().0) < had.len() {
            had
        } else {
            had.push(more.last())
        }
    }
}

proof fn lemma_key_index(entries: Seq<(Seq<char>, Seq<char>)>, key: Seq<char>, i: int)
    requires
        0 <= i <= entries.len(),
        forall|k: int| 0 <= k < i ==> (#[trigger] entries[k]).0 != key,
        i < entries.len() ==> entries[i].0 == key,
    ensures
        key_index(entries, key) == i,
    decreases i,
{
    if i > 0 {
        let rest = entries.drop_first();
        assert(entries[0].0 != key);
        assert forall|k: int| 0 <= k < i - 1 implies (#[trigger] rest[k]).0 != key by {
            assert(rest[k] == entries[k + 1]);
        }
        if i < entries.len() {
            assert(rest[i - 1] == entries[i]);
        }
        lemma_key_index(rest, key, i - 1);
    }
}

/// Whether a map has the key.
fn has_key(m: &IndexMap<String, String>, key: &String) -> (b: bool)
    ensures
        b == (0 <= key_index(map_entries(*m), key@) < map_entries(*m).len()),
{
    let ghost all = map_entries(*m);
    let n = entries_len(m);
    let mut i: usize = 0;
    while i < n
        invariant
            i <= n,
            n == all.len(),
            all == map_entries(*m),
            forall|k: int| 0 <= k < i ==> (#[trigger] all[k]).0 != key@,
        decreases n - i,
    {
        match entries_get(m, i) {
            Some((k, _)) => {
                if *k == *key {
                    proof {
                        lemma_key_index(all, key@, i as int);
                    }
                    return true;
                }
            },
            None => {},
        }
        i = i + 1;
    }
    proof {
        lemma_key_index(all, key@, i as int);
    }
    false
}

/// Adds to `existing` the properties of `more` whose key is not there
/// yet. The answer tells whether one was added.
fn add_missing_props(existing: &mut IndexMap<String, String>, more: &IndexMap<String, String>) -> (added:
    bool)
    ensures
        map_entries(*final(existing)) == props_added(map_entries(*old(existing)), map_entries(*more)),
        added == (map_entries(*final(existing)).len() != map_entries(*old(existing)).len()),
{
    let ghost all = map_entries(*more);
    let ghost start = map_entries(*existing);
    let n = entries_len(more);
    let mut added = false;
    let mut i: usize = 0;
    assert(all.subrange(0, 0) =~= Seq::<(Seq<char>, Seq<char>)>::empty());
    while i < n
        invariant
            i <= n,
            n == all.len(),
            all == map_entries(*more),
            map_entries(*existing) == props_added(start, all.subrange(0, i as int)),
            map_entries(*existing).len() >= start.len(),
            added == (map_entries(*existing).len() != start.len()),
        decreases n - i,
    {
        proof {
            let upto = all.subrange(0, i + 1);
            assert(upto.drop_last() =~= all.subrange(0, i as int));
            assert(upto.last() == all[i as int]);
        }
        match entries_get(more, i) {
            Some((k, v)) => {
                if !has_key(existing, k) {
                    entries_insert(existing, k.clone(), v.clone());
                    added = true;
                }
            },
            None => {},
        }
        i = i + 1;
    }
    assert(all.subrange(0, all.len() as int) =~= all);
    added
}

/// The planning of a heading after a task of the same title was merged
/// into it: each date that the heading lacks is taken from the task.
pub open spec fn planning_filled(existing: Planning, more: Planning) -> Planning {
    Planning {
        scheduled: if existing.scheduled is None {
            more.scheduled
        } else {
            existing.scheduled
        },
        deadline: if existing.deadline is None {
            more.deadline
        } else {
            existing.deadline
        },
        closed: if existing.closed is None {
            more.closed
        } else {
            existing.closed
        },
    }
}

/// A heading after a task of the same title was merged into it. The
/// heading takes what it lacks: keyword, priority, dates, and properties
/// whose key it has not. It takes all of the task's tags, blocks, clock
/// lines and other lines of the logbook. Each part that has changed
/// forgets where it was read from.
pub open spec fn merged_task(existing: HeadingView, t: HeadingView) -> HeadingView {
    let takes_todo = existing.todo is None && t.todo is Some;
    let takes_priority = existing.priority is None && t.priority is Some;
    let planning = planning_filled(existing.planning, t.planning);
    let properties = props_added(existing.properties, t.properties);
    HeadingView {
        todo: if takes_todo {
            t.todo
        } else {
            existing.todo
        },
        priority: if takes_priority {
            t.priority
        } else {
            existing.priority
        },
        tags: sorted_insert_all(existing.tags, t.tags),
        headline_range: if takes_todo || takes_priority || t.tags.len() > 0 {
            None
        } else {
            existing.headline_range
        },
        planning,
        planning_range: if planning != existing.planning {
            None
        } else {
            existing.planning_range
        },
        properties,
        properties_range: if properties.len() != existing.properties.len() {
            None
        } else {
            existing.properties_range
        },
        logbook: LogbookView {
            clock: existing.logbook.clock + t.logbook.clock,
            raw: existing.logbook.raw + t.logbook.raw,
            state_changes: existing.logbook.state_changes,
        },
        logbook_range: if t.logbook.clock.len() > 0 || t.logbook.raw.len() > 0 {
            None
        } else {
            existing.logbook_range
        },
        blocks: existing.blocks + t.blocks,
        ..existing
    }
}

/// Fills the dates that a planning lacks from another.
fn fill_planning(existing: Planning, more: Planning) -> (r: Planning)
    ensures
        r == planning_filled(existing, more),
{
    Planning {
        scheduled: if existing.scheduled.is_none() {
            more.scheduled
        } else {
            existing.scheduled
        },
        deadline: if existing.deadline.is_none() {
            more.deadline
        } else {
            existing.deadline
        },
        closed: if existing.closed.is_none() {
            more.closed
        } else {
            existing.closed
        },
    }
}

/// Whether two plannings are the same.
fn same_planning(a: &Planning, b: &Planning) -> (r: bool)
    ensures
        r == (*a == *b),
{
    *a == *b
}

/// Merges a task into a heading of the same title.
fn merge_task(existing: Heading, todo: Heading) -> (r: Heading)
    ensures
        r@ == merged_task(existing@, todo@),
        r.id == existing.id,
{
    let ghost e0 = existing@;
    let ghost t = todo@;
    let Heading {
        id,
        level,
        title,
        todo: had_todo,
        priority: had_priority,
        tags: had_tags,
        planning: had_planning,
        properties: had_properties,
        logbook: had_logbook,
        section: had_section,
        children,
        canonical_id,
        headline_range,
        planning_range,
        properties_range,
        logbook_range,
    } = existing;
    let Heading {
        id: _,
        level: _,
        title: _,
        todo: more_todo,
        priority: more_priority,
        tags: more_tags,
        planning: more_planning,
        properties: more_properties,
        logbook: more_logbook,
        section: more_section,
        children: _,
        canonical_id: _,
        headline_range: _,
        planning_range: _,
        properties_range: _,
        logbook_range: _,
    } = todo;
    let takes_todo = had_todo.is_none() && more_todo.is_some();
    let takes_priority = had_priority.is_none() && more_priority.is_some();
    let takes_tags = !more_tags.is_empty();
    let mut tags = had_tags;
    tags.insert_all(&more_tags.items);
    let planning = fill_planning(had_planning, more_planning);
    let planning_same = same_planning(&planning, &had_planning);
    let mut properties = had_properties;
    let props_grew = add_missing_props(&mut properties.props, &more_properties.props);
    let log_grew = more_logbook.clock.len() > 0 || more_logbook.raw.len() > 0;
    let crate::model::Section { blocks: had_blocks } = had_section;
    let crate::model::Section { blocks: more_blocks } = more_section;
    let mut blocks = had_blocks;
    let mut more_blocks = more_blocks;
    proof {
        crate::parser::body::lemma_blocks_view_concat(blocks@, more_blocks@);
    }
    blocks.append(&mut more_blocks);
    let crate::model::Logbook { clock: had_clock, state_changes, raw: had_raw } = had_logbook;
    let crate::model::Logbook { clock: more_clock, state_changes: _, raw: more_raw } =
        more_logbook;
    let mut clock = had_clock;
    let mut more_clock = more_clock;
    let mut raw = had_raw;
    let mut more_raw = more_raw;
    proof {
        assert(clock_view(clock@ + more_clock@) =~= clock_view(clock@) + clock_view(more_clock@));
        assert(strings_view(raw@ + more_raw@) =~= strings_view(raw@) + strings_view(more_raw@));
    }
    clock.append(&mut more_clock);
    raw.append(&mut more_raw);
    Heading {
        id,
        level,
        title,
        todo: if takes_todo {
            more_todo
        } else {
            had_todo
        },
        priority: if takes_priority {
            more_priority
        } else {
            had_priority
        },
        tags,
        planning,
        properties,
        logbook: crate::model::Logbook { clock, state_changes, raw },
        section: crate::model::Section { blocks },
        children,
        canonical_id,
        headline_range: if takes_todo || takes_priority || takes_tags {
            None
        } else {
            headline_range
        },
        planning_range: if planning_same {
            planning_range
        } else {
            None
        },
        properties_range: if props_grew {
            None
        } else {
            properties_range
        },
        logbook_range: if log_grew {
            None
        } else {
            logbook_range
        },
    }
}

/// The level of a heading under a heading of the given level: one more,
/// and at most eight.
pub open spec fn child_level(level: u8) -> u8 {
    if level >= 7 {
        8
    } else {
        (level + 1) as u8
    }
}

/// A heading after one task was merged under it. The task forgets where
/// it was read from. Where a child of the heading has the task's title, as
/// titles are compared, the task is merged into the first such child;
/// otherwise it becomes the last child, one level below the heading.
pub open spec fn merged_one(parent: HeadingView, todo: HeadingView) -> HeadingView {
    let t = scrubbed(todo);
    let i = matching_child(parent.children, normalized(plain_text_of(t.title)));
    if 0 <= i < parent.children.len() {
        HeadingView {
            children: parent.children.update(i, merged_task(parent.children[i], t)),
            ..parent
        }
    } else {
        HeadingView {
            children: parent.children.push(HeadingView { level: child_level(parent.level), ..t }),
            ..parent
        }
    }
}

/// A heading after tasks were merged under it, one after the other.
pub open spec fn merged_all(parent: HeadingView, todos: Seq<HeadingView>) -> HeadingView
    decreases todos.len(),
{
    if todos.len() == 0 {
        parent
    } else {
        merged_one(merged_all(parent, todos.drop_last()), todos.last())
    }
}

/// Merges one task under a heading.
fn merge_todo(parent: &mut Heading, todo: Heading)
    ensures
        final(parent)@ == merged_one(old(parent)@, todo@),
        final(parent).id == old(parent).id,
{
    let ghost p0 = parent@;
    let ghost kids = headings_view(parent.children@);
    assert(kids == p0.children);
    let mut todo = scrubbed_heading(todo);
    let title = todo.title.plain_text();
    let key = normalize(title.as_str());
    let i = find_child(&parent.children, &key);
    if i < parent.children.len() {
        let ghost before = parent.children@;
        let existing = parent.children.remove(i);
        assert(existing@ == kids[i as int]);
        let existing = merge_task(existing, todo);
        parent.children.insert(i, existing);
        proof {
            assert(headings_view(parent.children@) =~= kids.update(i as int, existing@));
        }
    } else {
        todo.level = if parent.level >= 7 {
            8
        } else {
            parent.level + 1
        };
        proof {
            lemma_headings_view_push(parent.children@, todo);
        }
        parent.children.push(todo);
    }
}

/// Merges tasks under a heading, one after the other.
pub fn merge_todos(parent: &mut Heading, todos: Vec<Heading>)
    ensures
        final(parent)@ == merged_all(old(parent)@, headings_view(todos@)),
        final(parent).id == old(parent).id,
{
    let ghost all = todos@;
    let ghost views = headings_view(all);
    let mut rest = crate::journal::turned(todos);
    let ghost mut done: int = 0;
    assert(views.subrange(0, 0) =~= Seq::<HeadingView>::empty());
    while rest.len() > 0
        invariant
            rest@.len() + done == all.len(),
            0 <= done,
            views == headings_view(all),
            forall|k: int| 0 <= k < rest@.len() ==> #[trigger] rest@[k] == all[all.len() - 1 - k],
            parent@ == merged_all(old(parent)@, views.subrange(0, done)),
            parent.id == old(parent).id,
        decreases rest@.len(),
    {
        match rest.pop() {
            Some(todo) => {
                proof {
                    assert(todo == all[done]);
                    let upto = views.subrange(0, done + 1);
                    assert(upto.drop_last() =~= views.subrange(0, done));
                    assert(upto.last() == todo@);
                }
                merge_todo(parent, todo);
                proof {
                    done = done + 1;
                }
            },
            None => {},
        }
    }
    assert(views.subrange(0, views.len() as int) =~= views);
}

/* ------------------------- Placing tasks under a path ------------------------- */

/// The path that tasks without a path are put under.
pub open spec fn path_or_tasks(path: Seq<Seq<char>>) -> Seq<Seq<char>> {
    if path.len() == 0 {
        seq!["tasks"@]
    } else {
        path
    }
}

/// The level of a heading that stands `depth` headings below a root: one
/// more than that, and at most eight.
pub open spec fn depth_level(depth: int) -> u8 {
    if depth >= 7 {
        8
    } else {
        (depth + 1) as u8
    }
}

/// The headings after `todos` were merged under the heading that `path`
/// leads to from `depth` on. At each step the path goes to the first
/// heading whose title, as titles are compared, is the path's segment; a
/// heading that is missing is made, with the segment as its title. Every
/// heading on the path gets the level of its depth.
pub open spec fn placed(
    nodes: Seq<HeadingView>,
    path: Seq<Seq<char>>,
    depth: int,
    todos: Seq<HeadingView>,
) -> Seq<HeadingView>
    decreases path.len() - depth,
{
    if depth < 0 || depth >= path.len() {
        nodes
    } else {
        let level = depth_level(depth);
        let i = matching_child(nodes, normalized(path[depth]));
        let base = if 0 <= i < nodes.len() {
            nodes
        } else {
            nodes.push(bare_heading(level, seq![InlineView::Text(path[depth])]))
        };
        let node = HeadingView { level, ..base[i] };
        base.update(
            i,
            if depth + 1 == path.len() {
                merged_all(node, todos)
            } else {
                HeadingView { children: placed(node.children, path, depth + 1, todos), ..node }
            },
        )
    }
}

/// Merges `todos` under the heading that `path` leads to from `depth` on,
/// making the headings that are missing.
fn place(nodes: &mut Vec<Heading>, path: &Vec<String>, depth: usize, todos: Vec<Heading>)
    requires
        depth < path@.len(),
    ensures
        headings_view(final(nodes)@) == placed(
            headings_view(old(nodes)@),
            strings_view(path@),
            depth as int,
            headings_view(todos@),
        ),
    decreases path@.len() - depth,
{
    let ghost views = headings_view(nodes@);
    let level: u8 = if depth >= 7 {
        8
    } else {
        (depth + 1) as u8
    };
    let key = normalize(path[depth].as_str());
    let i = find_child(nodes, &key);
    if i == nodes.len() {
        let mut inlines: Vec<Inline> = Vec::new();
        inlines.push(Inline::Text(path[depth].clone()));
        assert(crate::model::inlines_view(inlines@) =~= seq![InlineView::Text(path@[depth as int]@)]);
        let made = Heading::new(level, RichText { inlines });
        proof {
            lemma_headings_view_push(nodes@, made);
        }
        nodes.push(made);
    }
    let ghost base = headings_view(nodes@);
    let mut node = nodes.remove(i);
    assert(node@ == base[i as int]);
    node.level = level;
    if path.len() - depth == 1 {
        merge_todos(&mut node, todos);
    } else {
        let ghost kids = headings_view(node.children@);
        place(&mut node.children, path, depth + 1, todos);
    }
    nodes.insert(i, node);
    assert(headings_view(nodes@) =~= base.update(i as int, node@));
}

/// Merges `todos` under the heading that `path` leads to from the roots,
/// making the headings that are missing. Tasks without a path go under
/// `tasks`.
pub fn merge_under_path(roots: &mut Vec<Heading>, path: &Vec<String>, todos: Vec<Heading>)
    ensures
        headings_view(final(roots)@) == placed(
            headings_view(old(roots)@),
            path_or_tasks(strings_view(path@)),
            0,
            headings_view(todos@),
        ),
{
    if path.len() == 0 {
        let mut tasks: Vec<String> = Vec::new();
        tasks.push("tasks".to_owned());
        assert(strings_view(tasks@) =~= seq!["tasks"@]);
        assert(strings_view(path@) =~= Seq::<Seq<char>>::empty());
        place(roots, &tasks, 0, todos);
    } else {
        place(roots, path, 0, todos);
    }
}

/* ------------------------------ Identities again ------------------------------ */

/// Whether two runs of headings have the same shape: as many headings, and
/// under each heading of the one the shape that is under its counterpart.
pub open spec fn same_shape(a: Seq<HeadingView>, b: Seq<HeadingView>) -> bool
    decreases a,
{
    a.len() == b.len() && forall|i: int|
        0 <= i < a.len() ==> same_shape((#[trigger] a[i]).children, b[i].children)
}

/// The headings of `dst`, each with the id for cross-references of its
/// counterpart in `src`.
pub open spec fn with_ids(src: Seq<HeadingView>, dst: Seq<HeadingView>) -> Seq<HeadingView>
    decreases src,
{
    Seq::new(
        dst.len(),
        |i: int|
            if 0 <= i < src.len() && 0 <= i < dst.len() {
                HeadingView {
                    canonical_id: src[i].canonical_id,
                    children: with_ids(src[i].children, dst[i].children),
                    ..dst[i]
                }
            } else {
                arbitrary()
            },
    )
}

/// Gives each heading of `dst` the identity and the id for
/// cross-references of its counterpart in `src`. Nothing comes back where
/// the two do not have the same shape.
#[verifier::loop_isolation(false)]
pub fn transplant_ids(src: &Vec<Heading>, dst: Vec<Heading>) -> (r: Option<Vec<Heading>>)
    ensures
        r is Some <==> same_shape(headings_view(src@), headings_view(dst@)),
        r matches Some(v) ==> ids_follow(src@, v@) && headings_view(v@) == with_ids(
            headings_view(src@),
            headings_view(dst@),
        ),
    decreases src,
{
    let ghost all = dst@;
    let ghost sv = headings_view(src@);
    let ghost dv = headings_view(all);
    if src.len() != dst.len() {
        return None;
    }
    let mut rest = crate::journal::turned(dst);
    let mut out: Vec<Heading> = Vec::new();
    while rest.len() > 0
        invariant
            rest@.len() + out@.len() == all.len(),
            forall|k: int| 0 <= k < rest@.len() ==> #[trigger] rest@[k] == all[all.len() - 1 - k],
            forall|k: int|
                0 <= k < out@.len() ==> same_shape((#[trigger] sv[k]).children, dv[k].children),
            forall|k: int|
                0 <= k < out@.len() ==> (#[trigger] out@[k]).id == src@[k].id && ids_follow(
                    src@[k].children@,
                    out@[k].children@,
                ),
            forall|k: int|
                0 <= k < out@.len() ==> crate::tree::heading_view(#[trigger] out@[k]) == (
                HeadingView {
                    canonical_id: sv[k].canonical_id,
                    children: with_ids(sv[k].children, dv[k].children),
                    ..dv[k]
                }),
        decreases rest@.len(),
    {
        let ghost at = out@.len() as int;
        match rest.pop() {
            Some(d) => {
                assert(d == all[at]);
                assert(dv[at] == d@);
                assert(sv[at] == src@[at]@);
                let s = &src[out.len()];
                let mut d = d;
                let mut kids: Vec<Heading> = Vec::new();
                core::mem::swap(&mut d.children, &mut kids);
                match transplant_ids(&s.children, kids) {
                    Some(done) => {
                        d.children = done;
                        d.id = s.id;
                        d.canonical_id = crate::model::clone_opt_string(&s.canonical_id);
                        out.push(d);
                    },
                    None => {
                        assert(!same_shape(sv[at].children, dv[at].children));
                        return None;
                    },
                }
            },
            None => {},
        }
    }
    proof {
        assert forall|j: int| 0 <= j < out@.len() implies headings_view(out@)[j] == with_ids(
            sv,
            dv,
        )[j] by {
            assert(crate::tree::heading_view(out@[j]) == (HeadingView {
                canonical_id: sv[j].canonical_id,
                children: with_ids(sv[j].children, dv[j].children),
                ..dv[j]
            }));
        }
        assert(headings_view(out@) =~= with_ids(sv, dv));
    }
    Some(out)
}

/* ------------------------------ The new entry ------------------------------ */

/// The views of files.
pub open spec fn files_view(v: Seq<&OrgFile>) -> Seq<OrgFileView> {
    Seq::new(v.len(), |i: int| v[i]@)
}

/// What is gathered from the files, one file after the other.
pub open spec fn gathered_from(
    files: Seq<OrgFileView>,
    g: Gathering,
    target: Date,
    policy: ReschedulePolicy,
) -> Option<Gathering>
    decreases files.len(),
{
    if files.len() == 0 {
        Some(g)
    } else {
        match gathered_from(files.drop_last(), g, target, policy) {
            Some(g1) => collected_all(
                files.last().settings,
                files.last().headings,
                Seq::empty(),
                g1,
                target,
                policy,
            ),
            None => None,
        }
    }
}

/// The roots after the tasks of every bucket were merged under the
/// bucket's path, one bucket after the other.
pub open spec fn placed_all(roots: Seq<HeadingView>, buckets: Seq<Bucket>) -> Seq<HeadingView>
    decreases buckets.len(),
{
    if buckets.len() == 0 {
        roots
    } else {
        placed(
            placed_all(roots, buckets.drop_last()),
            path_or_tasks(buckets.last().0),
            0,
            buckets.last().1,
        )
    }
}

/// The new entry before it is written out and read again: the template,
/// with the day as its title if it has none, and with the tasks that are
/// still to do in the files merged under its headings.
pub open spec fn drafted(
    template: OrgFileView,
    files: Seq<OrgFileView>,
    date: Date,
    policy: ReschedulePolicy,
) -> Option<OrgFileView> {
    match gathered_from(files, Gathering { buckets: Seq::empty(), seen: Seq::empty() }, date, policy) {
        Some(g) => Some(
            OrgFileView {
                title: match template.title {
                    Some(t) => Some(t),
                    None => Some(date.text()),
                },
                headings: placed_all(template.headings, g.buckets),
                ..template
            },
        ),
        None => None,
    }
}

/// Why a new entry could not be built.
#[derive(Debug, Clone, PartialEq, Eq)]
pub enum BuildError {
    /// The day of the new entry is no day of the calendar.
    InvalidDate,
    /// A date of a task could not be moved.
    DateOutOfRange,
    /// The draft holds a range or a timestamp that cannot be written.
    NotWellFormed,
    /// The draft, written out, could not be parsed.
    Reparse(ParseError),
    /// The draft, written out and parsed, has other headings than before.
    Shape,
    /// The draft, written out and parsed, does not lie in its text in the
    /// order in which it is written, so it would not be written the same
    /// way again.
    Order,
}

/// A copy of the template that is a file of its own: it has a fresh
/// identity and no path.
pub fn clone_as_new_file(template: &OrgFile) -> (r: OrgFile)
    ensures
        r@ == template@,
        r.path is None,
{
    let mut f = template.clone();
    f.id = OrgFileId::new();
    f.path = None;
    f
}

/// Gathers the tasks that are still to do from every file.
#[verifier::loop_isolation(false)]
fn gather(files: &Vec<&OrgFile>, date: Date, policy: &ReschedulePolicy) -> (r: Option<BucketTree>)
    ensures
        match gathered_from(
            files_view(files@),
            Gathering { buckets: Seq::empty(), seen: Seq::empty() },
            date,
            *policy,
        ) {
            Some(g) => r matches Some(b) && b@ == g.buckets,
            None => r is None,
        },
{
    let ghost all = files_view(files@);
    let ghost start = Gathering { buckets: Seq::<Bucket>::empty(), seen: Seq::empty() };
    let mut buckets = BucketTree::new();
    let mut seen: Vec<(Vec<String>, String)> = Vec::new();
    assert(seen_view(seen@) =~= Seq::empty());
    let mut k: usize = 0;
    assert(all.subrange(0, 0) =~= Seq::<OrgFileView>::empty());
    while k < files.len()
        invariant
            k <= files@.len(),
            all == files_view(files@),
            gathered_from(all.subrange(0, k as int), start, date, *policy) == Some(
                Gathering { buckets: buckets@, seen: seen_view(seen@) },
            ),
        decreases files@.len() - k,
    {
        let file = files[k];
        let ghost g0 = Gathering { buckets: buckets@, seen: seen_view(seen@) };
        let ghost upto = all.subrange(0, k + 1);
        proof {
            assert(upto.drop_last() =~= all.subrange(0, k as int));
            assert(upto.last() == file@);
        }
        let ghost heads = file@.headings;
        let mut path: Vec<String> = Vec::new();
        assert(strings_view(path@) =~= Seq::<Seq<char>>::empty());
        let mut i: usize = 0;
        assert(heads.subrange(0, 0) =~= Seq::<HeadingView>::empty());
        while i < file.headings.len()
            invariant
                i <= file.headings@.len(),
                heads == headings_view(file.headings@),
                heads == file@.headings,
                strings_view(path@) == Seq::<Seq<char>>::empty(),
                collected_all(
                    file@.settings,
                    heads.subrange(0, i as int),
                    Seq::empty(),
                    g0,
                    date,
                    *policy,
                ) == Some(Gathering { buckets: buckets@, seen: seen_view(seen@) }),
            decreases file.headings@.len() - i,
        {
            proof {
                let some = heads.subrange(0, i + 1);
                assert(some.drop_last() =~= heads.subrange(0, i as int));
                assert(some.last() == file.headings@[i as int]@);
            }
            let ok = collect_incomplete_todos(
                file,
                &file.headings[i],
                &mut path,
                &mut buckets,
                &mut seen,
                date,
                policy,
            );
            if !ok {
                proof {
                    lemma_collect_fails_on(
                        file@.settings,
                        heads,
                        i + 1,
                        Seq::empty(),
                        g0,
                        date,
                        *policy,
                    );
                    lemma_gather_fails_on(all, k + 1, start, date, *policy);
                }
                return None;
            }
            i = i + 1;
        }
        assert(heads.subrange(0, heads.len() as int) =~= heads);
        k = k + 1;
    }
    assert(all.subrange(0, all.len() as int) =~= all);
    Some(buckets)
}

/// Where gathering fails on the first `n` files it fails on all of them.
proof fn lemma_gather_fails_on(
    files: Seq<OrgFileView>,
    n: int,
    g: Gathering,
    target: Date,
    policy: ReschedulePolicy,
)
    requires
        0 <= n <= files.len(),
        gathered_from(files.subrange(0, n), g, target, policy) is None,
    ensures
        gathered_from(files, g, target, policy) is None,
    decreases files.len() - n,
{
    if n < files.len() {
        let upto = files.subrange(0, n + 1);
        assert(upto.drop_last() =~= files.subrange(0, n));
        lemma_gather_fails_on(files, n + 1, g, target, policy);
    } else {
        assert(files.subrange(0, n) =~= files);
    }
}

/// Merges the tasks of every bucket under the bucket's path.
fn place_buckets(roots: &mut Vec<Heading>, buckets: BucketTree)
    ensures
        headings_view(final(roots)@) == placed_all(headings_view(old(roots)@), buckets@),
{
    let ghost all = buckets@;
    let flat = buckets.into_flat_vec();
    let ghost raw = flat@;
    assert forall|k: int| 0 <= k < raw.len() implies (#[trigger] all[k]) == (
        strings_view(raw[k].0@),
        headings_view(raw[k].1@),
    ) by {
        assert(buckets_view(raw)[k] == all[k]);
    }
    let mut rest = crate::journal::turned(flat);
    let ghost mut done: int = 0;
    assert(all.subrange(0, 0) =~= Seq::<Bucket>::empty());
    while rest.len() > 0
        invariant
            rest@.len() + done == raw.len(),
            0 <= done,
            all.len() == raw.len(),
            forall|k: int|
                0 <= k < raw.len() ==> (#[trigger] all[k]) == (
                    strings_view(raw[k].0@),
                    headings_view(raw[k].1@),
                ),
            forall|k: int| 0 <= k < rest@.len() ==> #[trigger] rest@[k] == raw[raw.len() - 1 - k],
            headings_view(roots@) == placed_all(headings_view(old(roots)@), all.subrange(0, done)),
        decreases rest@.len(),
    {
        match rest.pop() {
            Some((path, todos)) => {
                proof {
                    assert((path, todos) == raw[done]);
                    let upto = all.subrange(0, done + 1);
                    assert(upto.drop_last() =~= all.subrange(0, done));
                    assert(upto.last() == all[done]);
                }
                merge_under_path(roots, &path, todos);
                proof {
                    done = done + 1;
                }
            },
            None => {},
        }
    }
    assert(all.subrange(0, all.len() as int) =~= all);
}

/// Builds the draft of the new entry.
fn draft(template: &OrgFile, journal_files: &Vec<&OrgFile>, date: Date, policy: &ReschedulePolicy) -> (r:
    Option<OrgFile>)
    requires
        date.valid(),
    ensures
        match drafted(template@, files_view(journal_files@), date, *policy) {
            Some(m) => r matches Some(f) && f@ == m && f.path is None,
            None => r is None,
        },
{
    let buckets = match gather(journal_files, date, policy) {
        Some(b) => b,
        None => { return None; },
    };
    let mut new_file = clone_as_new_file(template);
    if new_file.title.is_none() {
        new_file.title = Some(date.render());
    }
    let mut roots: Vec<Heading> = Vec::new();
    core::mem::swap(&mut new_file.headings, &mut roots);
    place_buckets(&mut roots, buckets);
    new_file.headings = roots;
    Some(new_file)
}

/// What the new entry is, given its draft and what the draft reads as when
/// it is written out and parsed: what was parsed, with the title, the tags
/// and the settings of the draft, and with the ids for cross-references of
/// the draft's headings.
pub open spec fn finished(m: OrgFileView, p: OrgFileView) -> OrgFileView {
    OrgFileView {
        title: m.title,
        file_tags: m.file_tags,
        settings: m.settings,
        headings: with_ids(m.headings, p.headings),
        ..p
    }
}

/// Whether a file is well formed and is written as its own source text:
/// formatting it gives that text, as often as one likes.
pub open spec fn is_stable(f: OrgFileView) -> bool {
    file_wf(f) && f.source_text == Some(format_text(f))
}

/// Headings that are well formed still are after they were given the ids
/// for cross-references of headings of the same shape.
pub proof fn lemma_with_ids_wf(
    src: Seq<HeadingView>,
    dst: Seq<HeadingView>,
    source: Option<Seq<char>>,
)
    requires
        same_shape(src, dst),
        headings_wf(dst, source),
    ensures
        headings_wf(with_ids(src, dst), source),
    decreases src,
{
    let r = with_ids(src, dst);
    assert forall|i: int| 0 <= i < r.len() implies heading_wf(#[trigger] r[i], source) by {
        assert(heading_wf(dst[i], source));
        assert(same_shape(src[i].children, dst[i].children));
        assert(headings_wf(dst[i].children, source));
        lemma_with_ids_wf(src[i].children, dst[i].children, source);
    }
}

/// Builds a new journal entry from a template and earlier entries.
///
/// The tasks that are still to do are gathered from the earlier entries,
/// their dates moved by the policy, and merged under the headings of the
/// template. The result is written out and parsed again, so that the new
/// entry has a source text and ranges of its own; its headings keep the
/// identities they had in the draft. The entry that comes back is well
/// formed, and formatting it gives its source text.
pub fn build_from_files_with_policy(
    template: &OrgFile,
    journal_files: &Vec<&OrgFile>,
    date: Date,
    policy: ReschedulePolicy,
) -> (r: Result<OrgFile, BuildError>)
    ensures
        !date.valid() ==> r == Err::<OrgFile, BuildError>(BuildError::InvalidDate),
        date.valid() ==> built(drafted(template@, files_view(journal_files@), date, policy), r),
        r matches Ok(f) ==> is_stable(f@),
{
    if !date.is_valid() {
        return Err(BuildError::InvalidDate);
    }
    let new_file = match draft(template, journal_files, date, &policy) {
        Some(f) => f,
        None => { return Err(BuildError::DateOutOfRange); },
    };
    if !new_file.is_well_formed() {
        return Err(BuildError::NotWellFormed);
    }
    let formatted = format_org_file(&new_file);
    let mut repro = match parse_org_from_str(None, formatted.as_str()) {
        Ok(f) => f,
        Err(e) => { return Err(BuildError::Reparse(e)); },
    };
    let mut parsed: Vec<Heading> = Vec::new();
    core::mem::swap(&mut repro.headings, &mut parsed);
    let headings = match transplant_ids(&new_file.headings, parsed) {
        Some(v) => v,
        None => { return Err(BuildError::Shape); },
    };
    repro.headings = headings;
    repro.id = new_file.id;
    repro.title = new_file.title;
    repro.file_tags = new_file.file_tags;
    repro.settings = new_file.settings;
    if !repro.is_in_source_order() {
        return Err(BuildError::Order);
    }
    proof {
        let m = new_file@;
        let p = parse_document(format_text(m))->Ok_0;
        lemma_with_ids_wf(m.headings, p.headings, p.source_text);
        lemma_source_order_gives_source(repro@);
    }
    Ok(repro)
}

/// Whether `r` is what building a new entry from the draft `m` gives:
/// the finished entry where the draft is well formed, reads back when it
/// is written out, reads back with the headings it had, and lies in the
/// text that was written in the order of writing; and the failure that
/// tells which of these does not hold otherwise.
pub open spec fn built(drafted: Option<OrgFileView>, r: Result<OrgFile, BuildError>) -> bool {
    match drafted {
        None => r == Err::<OrgFile, BuildError>(BuildError::DateOutOfRange),
        Some(m) => if !file_wf(m) {
            r == Err::<OrgFile, BuildError>(BuildError::NotWellFormed)
        } else {
            match parse_document(format_text(m)) {
                Err(e) => r matches Err(BuildError::Reparse(x)) && x@ == e,
                Ok(p) => if !same_shape(m.headings, p.headings) {
                    r == Err::<OrgFile, BuildError>(BuildError::Shape)
                } else if !in_source_order(finished(m, p)) {
                    r == Err::<OrgFile, BuildError>(BuildError::Order)
                } else {
                    r matches Ok(f) && f@ == finished(m, p) && f.path is None
                },
            }
        },
    }
}

/// Builds a new journal entry with the usual policy: the scheduled date of
/// a task becomes the new day, its deadline does if it is overdue.
pub fn build_from_files(template: &OrgFile, journal_files: &Vec<&OrgFile>, date: Date) -> (r: Result<
    OrgFile,
    BuildError,
>)
    ensures
        !date.valid() ==> r == Err::<OrgFile, BuildError>(BuildError::InvalidDate),
        date.valid() ==> built(
            drafted(template@, files_view(journal_files@), date, crate::journal::usual_policy()),
            r,
        ),
        r matches Ok(f) ==> is_stable(f@),
{
    build_from_files_with_policy(template, journal_files, date, ReschedulePolicy::default())
}

/* --------------------------- From a workspace --------------------------- */

/// The files among `entries` whose content is in memory, in order.
pub open spec fn loaded_files(entries: Seq<OrgFileEntry>) -> Seq<OrgFileView>
    decreases entries.len(),
{
    if entries.len() == 0 {
        Seq::empty()
    } else {
        match entries.last().content {
            FileContent::Loaded(file) => loaded_files(entries.drop_last()).push(file@),
            FileContent::Stub => loaded_files(entries.drop_last()),
        }
    }
}

/// The journal files of a workspace: the files in memory under the first
/// folder with the given path, or none where there is no such folder.
pub open spec fn journal_files_of(ws: OrgWorkspace, journal_dir: Seq<char>) -> Seq<OrgFileView> {
    match first_with_path(folders_in(ws.root), journal_dir) {
        Some(dir) => loaded_files(files_in(dir)),
        None => Seq::empty(),
    }
}

/// The journal files of a workspace.
fn journal_files<'a>(ws: &'a OrgWorkspace, journal_dir: &RelPath) -> (r: Vec<&'a OrgFile>)
    ensures
        files_view(r@) == journal_files_of(*ws, journal_dir@),
{
    let mut parsed: Vec<&OrgFile> = Vec::new();
    assert(files_view(parsed@) =~= Seq::<OrgFileView>::empty());
    match ws.root.find_dir(journal_dir) {
        Some(dir) => {
            let mut entries: Vec<&OrgFileEntry> = Vec::new();
            assert(pointed_at(entries@) =~= Seq::<OrgFileEntry>::empty());
            dir.collect_files(&mut entries);
            let ghost all = files_in(*dir);
            assert(pointed_at(entries@) =~= all);
            let mut i: usize = 0;
            assert(all.subrange(0, 0) =~= Seq::<OrgFileEntry>::empty());
            while i < entries.len()
                invariant
                    i <= entries@.len(),
                    all == pointed_at(entries@),
                    files_view(parsed@) == loaded_files(all.subrange(0, i as int)),
                decreases entries@.len() - i,
            {
                proof {
                    let upto = all.subrange(0, i + 1);
                    assert(upto.drop_last() =~= all.subrange(0, i as int));
                    assert(upto.last() == *entries@[i as int]);
                }
                match entries[i].loaded() {
                    Some(f) => {
                        let ghost had = files_view(parsed@);
                        parsed.push(f);
                        assert(files_view(parsed@) =~= had.push(f@));
                    },
                    None => {},
                }
                i = i + 1;
            }
            assert(all.subrange(0, all.len() as int) =~= all);
        },
        None => {},
    }
    parsed
}

/// Builds a new journal entry from a template and the journal files of a
/// workspace.
pub fn build_from_workspace_with_policy(
    template: &OrgFile,
    ws: &OrgWorkspace,
    journal_dir: &RelPath,
    date: Date,
    policy: ReschedulePolicy,
) -> (r: Result<OrgFile, BuildError>)
    ensures
        !date.valid() ==> r == Err::<OrgFile, BuildError>(BuildError::InvalidDate),
        date.valid() ==> built(
            drafted(template@, journal_files_of(*ws, journal_dir@), date, policy),
            r,
        ),
        r matches Ok(f) ==> is_stable(f@),
{
    let parsed = journal_files(ws, journal_dir);
    build_from_files_with_policy(template, &parsed, date, policy)
}

/// Builds a new journal entry from a template and the journal files of a
/// workspace, with the usual policy.
pub fn build_from_workspace(template: &OrgFile, ws: &OrgWorkspace, journal_dir: &RelPath, date: Date) -> (r:
    Result<OrgFile, BuildError>)
    ensures
        !date.valid() ==> r == Err::<OrgFile, BuildError>(BuildError::InvalidDate),
        date.valid() ==> built(
            drafted(
                template@,
                journal_files_of(*ws, journal_dir@),
                date,
                crate::journal::usual_policy(),
            ),
            r,
        ),
        r matches Ok(f) ==> is_stable(f@),
{
    build_from_workspace_with_policy(template, ws, journal_dir, date, ReschedulePolicy::default())
}

} // verus!
