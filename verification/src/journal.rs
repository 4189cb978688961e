//! Journals: entries by date, and what a new entry is built from.

use crate::calendar::{date_plus_days, days_between, Date, Time};
use crate::model::{
    sourced_blocks_view, strings_view, BlockWithSource, BlockWithSourceView, HeadingId, OrgFileId,
    Planning, Timestamp, TimestampEnd,
};
use crate::tags::{tags_view, Tag};
use crate::text::{
    ascii_lower, chars_of, is_white, is_whitespace, skip, skip_class, string_of,
    to_ascii_lower, trim, trimmed, CharClass,
};
use crate::tree::{
    heading_view, headings_view, FileSettings, FileSettingsView, Heading, HeadingView,
};
use vstd::prelude::*;

verus! {

/* ------------------------------ Entries by date ------------------------------ */

/// A heading in a file.
#[derive(Debug, Clone, Copy, PartialEq, Eq, Structural)]
pub struct NodeRef {
    pub file_id: OrgFileId,
    pub heading_id: HeadingId,
}

/// The day that journal entries are filed under.
#[derive(Debug, Clone, Copy, PartialEq, Eq, Structural, PartialOrd, Ord)]
pub struct JournalKey {
    pub date: Date,
}

/// A journal entry, with what a list of entries shows of it.
#[derive(Debug, Clone, PartialEq, Eq)]
pub struct JournalEntryRef {
    pub key: JournalKey,
    pub node: NodeRef,
    pub title: String,
    pub tags: Vec<Tag>,
}

pub struct JournalEntryView {
    pub key: JournalKey,
    pub node: NodeRef,
    pub title: Seq<char>,
    pub tags: Seq<Seq<char>>,
}

impl View for JournalEntryRef {
    type V = JournalEntryView;

    open spec fn view(&self) -> JournalEntryView {
        JournalEntryView {
            key: self.key,
            node: self.node,
            title: self.title@,
            tags: tags_view(self.tags@),
        }
    }
}

/// The views of a sequence of entries.
pub open spec fn entries_view(v: Seq<JournalEntryRef>) -> Seq<JournalEntryView> {
    Seq::new(v.len(), |i: int| v[i]@)
}

/// The days of an index with their entries.
pub open spec fn days_view(v: Seq<(JournalKey, Vec<JournalEntryRef>)>) -> Seq<
    (JournalKey, Seq<JournalEntryView>),
> {
    Seq::new(v.len(), |i: int| (v[i].0, entries_view(v[i].1@)))
}

/// Journal entries by day: the days in ascending order, no day twice, and
/// under each day its entries in the order in which they came.
#[derive(Debug, Clone, PartialEq, Eq)]
pub struct JournalIndex {
    pub entries: Vec<(JournalKey, Vec<JournalEntryRef>)>,
}

impl View for JournalIndex {
    type V = Seq<(JournalKey, Seq<JournalEntryView>)>;

    open spec fn view(&self) -> Seq<(JournalKey, Seq<JournalEntryView>)> {
        days_view(self.entries@)
    }
}

/// Whether each day comes before the next.
pub open spec fn days_ascend(days: Seq<(JournalKey, Seq<JournalEntryView>)>) -> bool {
    forall|i: int|
        0 <= i && i + 1 < days.len() ==> (#[trigger] days[i]).0.date.before(&days[i + 1].0.date)
}

/// The days after `entry` was filed under `key`: it comes last among the
/// entries of its day, and a day that was not there comes in at its place.
pub open spec fn filed(
    days: Seq<(JournalKey, Seq<JournalEntryView>)>,
    key: JournalKey,
    entry: JournalEntryView,
) -> Seq<(JournalKey, Seq<JournalEntryView>)>
    decreases days.len(),
{
    if days.len() == 0 {
        seq![(key, seq![entry])]
    } else if days[0].0.date.before(&key.date) {
        seq![days[0]] + filed(days.drop_first(), key, entry)
    } else if days[0].0 == key {
        seq![(key, days[0].1.push(entry))] + days.drop_first()
    } else {
        seq![(key, seq![entry])] + days
    }
}

/// Where the days before `i` come before `key` and the one at `i` does
/// not, the entry is filed at `i`.
proof fn lemma_filed_at(
    days: Seq<(JournalKey, Seq<JournalEntryView>)>,
    key: JournalKey,
    entry: JournalEntryView,
    i: int,
)
    requires
        0 <= i <= days.len(),
        forall|k: int| 0 <= k < i ==> (#[trigger] days[k]).0.date.before(&key.date),
        i < days.len() ==> !days[i].0.date.before(&key.date),
    ensures
        filed(days, key, entry) == if i < days.len() && days[i].0 == key {
            days.update(i, (key, days[i].1.push(entry)))
        } else {
            days.insert(i, (key, seq![entry]))
        },
    decreases i,
{
    if i == 0 {
        if days.len() == 0 {
            assert(days.insert(0, (key, seq![entry])) =~= seq![(key, seq![entry])]);
        } else if days[0].0 == key {
            assert(days.update(0, (key, days[0].1.push(entry))) =~= seq![
                (key, days[0].1.push(entry)),
            ] + days.drop_first());
        } else {
            assert(days.insert(0, (key, seq![entry])) =~= seq![(key, seq![entry])] + days);
        }
    } else {
        let rest = days.drop_first();
        assert(days[0].0.date.before(&key.date));
        assert forall|k: int| 0 <= k < i - 1 implies (#[trigger] rest[k]).0.date.before(
            &key.date,
        ) by {
            assert(rest[k] == days[k + 1]);
        }
        lemma_filed_at(rest, key, entry, i - 1);
        if i < days.len() && days[i].0 == key {
            assert(seq![days[0]] + rest.update(i - 1, (key, rest[i - 1].1.push(entry)))
                =~= days.update(i, (key, days[i].1.push(entry))));
        } else {
            assert(seq![days[0]] + rest.insert(i - 1, (key, seq![entry])) =~= days.insert(
                i,
                (key, seq![entry]),
            ));
        }
    }
}

impl JournalIndex {
    /// Whether the days stand in ascending order.
    pub open spec fn wf(&self) -> bool {
        days_ascend(self@)
    }

    /// The index without entries.
    pub fn new() -> (r: JournalIndex)
        ensures
            r@ == Seq::<(JournalKey, Seq<JournalEntryView>)>::empty(),
            r.wf(),
    {
        let r = JournalIndex { entries: Vec::new() };
        assert(r@ =~= Seq::<(JournalKey, Seq<JournalEntryView>)>::empty());
        r
    }

    /// Files `entry` under the day `key`.
    pub fn add(&mut self, key: JournalKey, entry: JournalEntryRef)
        ensures
            final(self)@ == filed(old(self)@, key, entry@),
            old(self).wf() ==> final(self).wf(),
    {
        let n = self.entries.len();
        let mut i: usize = 0;
        while i < n && self.entries[i].0.date.is_before(&key.date)
            invariant
                n == self.entries@.len(),
                *self == *old(self),
                i <= n,
                forall|k: int| 0 <= k < i ==> (#[trigger] self@[k]).0.date.before(&key.date),
            decreases n - i,
        {
            i = i + 1;
        }
        proof {
            lemma_filed_at(self@, key, entry@, i as int);
        }
        let ghost before = self@;
        if i < n && self.entries[i].0 == key {
            let (day, had) = self.entries.remove(i);
            let mut had = had;
            let ghost had_view = entries_view(had@);
            had.push(entry);
            assert(entries_view(had@) =~= had_view.push(entry@));
            self.entries.insert(i, (day, had));
            assert(self@ =~= before.update(i as int, (key, before[i as int].1.push(entry@))));
        } else {
            let mut first: Vec<JournalEntryRef> = Vec::new();
            first.push(entry);
            assert(entries_view(first@) =~= seq![entry@]);
            self.entries.insert(i, (key, first));
            assert(self@ =~= before.insert(i as int, (key, seq![entry@])));
        }
    }
}

/* ---------------------------- Comparing titles ---------------------------- */

/// `s` in small letters, with every run of white space made one blank.
pub open spec fn squeezed(s: Seq<char>) -> Seq<char>
    decreases s.len(),
{
    if s.len() == 0 {
        Seq::empty()
    } else {
        let head = s.drop_last();
        let c = ascii_lower(s.last());
        if !is_white(c) {
            squeezed(head).push(c)
        } else if head.len() > 0 && is_white(ascii_lower(head.last())) {
            squeezed(head)
        } else {
            squeezed(head).push(' ')
        }
    }
}

/// What titles are compared by: small letters, every run of white space
/// made one blank, and no white space at either end.
pub open spec fn normalized(s: Seq<char>) -> Seq<char> {
    let q = squeezed(s);
    let (a, b) = trimmed(q, 0, q.len() as int);
    q.subrange(a, b)
}

/// What a title is compared by.
pub fn normalize(s: &str) -> (r: String)
    ensures
        r@ == normalized(s@),
{
    let text = chars_of(s);
    let mut out: Vec<char> = Vec::new();
    let mut prev_space = false;
    let mut i: usize = 0;
    assert(text@.subrange(0, 0) =~= Seq::<char>::empty());
    while i < text.len()
        invariant
            i <= text@.len(),
            out@ == squeezed(text@.subrange(0, i as int)),
            prev_space == (i > 0 && is_white(ascii_lower(text@[i - 1]))),
        decreases text@.len() - i,
    {
        proof {
            let upto = text@.subrange(0, i + 1);
            assert(upto.drop_last() =~= text@.subrange(0, i as int));
            assert(upto.last() == text@[i as int]);
            if i > 0 {
                assert(upto.drop_last().last() == text@[i - 1]);
            }
        }
        let lc = to_ascii_lower(text[i]);
        if is_whitespace(lc) {
            if !prev_space {
                out.push(' ');
                prev_space = true;
            }
        } else {
            out.push(lc);
            prev_space = false;
        }
        i = i + 1;
    }
    assert(text@.subrange(0, text@.len() as int) =~= text@);
    let (a, b) = trim(&out, 0, out.len());
    string_of(&out, a, b)
}

/// What each segment of a path is compared by.
pub fn normalized_path(path: &Vec<String>) -> (r: Vec<String>)
    ensures
        r@.len() == path@.len(),
        forall|i: int| 0 <= i < path@.len() ==> (#[trigger] r@[i])@ == normalized(path@[i]@),
{
    let mut r: Vec<String> = Vec::new();
    let mut i: usize = 0;
    while i < path.len()
        invariant
            i <= path@.len(),
            r@.len() == i,
            forall|k: int| 0 <= k < i ==> (#[trigger] r@[k])@ == normalized(path@[k]@),
        decreases path@.len() - i,
    {
        r.push(normalize(path[i].as_str()));
        i = i + 1;
    }
    r
}

/// Whether `s`, without the white space around it, starts with a date:
/// four digits, `-`, two digits, `-`, two digits.
pub open spec fn date_like(s: Seq<char>) -> bool {
    let (a, b) = trimmed(s, 0, s.len() as int);
    &&& b - a >= 10
    &&& skip_class(s, a, a + 4, CharClass::Digit) == a + 4
    &&& s[a + 4] == '-'
    &&& skip_class(s, a + 5, a + 7, CharClass::Digit) == a + 7
    &&& s[a + 7] == '-'
    &&& skip_class(s, a + 8, a + 10, CharClass::Digit) == a + 10
}

/// Whether a title starts with a date, as the headings of a journal do.
pub fn looks_like_date_heading(title: &str) -> (b: bool)
    ensures
        b == date_like(title@),
{
    let text = chars_of(title);
    let (a, b) = trim(&text, 0, text.len());
    if b - a < 10 {
        return false;
    }
    skip(&text, a, a + 4, CharClass::Digit) == a + 4 && text[a + 4] == '-' && skip(
        &text,
        a + 5,
        a + 7,
        CharClass::Digit,
    ) == a + 7 && text[a + 7] == '-' && skip(&text, a + 8, a + 10, CharClass::Digit) == a + 10
}

/* --------------------------- Tasks that are not done --------------------------- */

/// The words of `items` that stand behind a `|`, in their order. The bars
/// themselves are no words.
pub open spec fn behind_bar(items: Seq<Seq<char>>) -> Seq<Seq<char>>
    decreases items.len(),
{
    if items.len() == 0 {
        Seq::empty()
    } else if items.last() != "|"@ && items.drop_last().contains("|"@) {
        behind_bar(items.drop_last()).push(items.last())
    } else {
        behind_bar(items.drop_last())
    }
}

/// The words behind a `|` of every sequence, one sequence after the other.
pub open spec fn named_done_words(sequences: Seq<Seq<Seq<char>>>) -> Seq<Seq<char>>
    decreases sequences.len(),
{
    if sequences.len() == 0 {
        Seq::empty()
    } else {
        named_done_words(sequences.drop_last()) + behind_bar(sequences.last())
    }
}

/// The words for "done" of files that name none.
pub open spec fn usual_done_words() -> Seq<Seq<char>> {
    seq!["DONE"@, "CANCELLED"@, "CANCELED"@, "ABORTED"@, "VOID"@]
}

/// The words that mark a task as done in a file with the given settings:
/// those that stand behind a `|` in the file's sequences of keywords, or,
/// where there are none, the usual words.
pub open spec fn done_words(settings: FileSettingsView) -> Seq<Seq<char>> {
    let named = named_done_words(settings.todo_sequences);
    if named.len() == 0 {
        usual_done_words()
    } else {
        named
    }
}

/// Whether a heading is a task that is still to do: it has a keyword that
/// is not flagged as done and is none of the file's words for "done".
pub open spec fn incomplete(h: HeadingView, settings: FileSettingsView) -> bool {
    match h.todo {
        Some(t) => !t.is_done && !done_words(settings).contains(t.text),
        None => false,
    }
}

/// Whether `word` is one of `words`.
fn has_word(words: &Vec<String>, word: &str) -> (b: bool)
    ensures
        b == strings_view(words@).contains(word@),
{
    let ghost all = strings_view(words@);
    let mut i: usize = 0;
    while i < words.len()
        invariant
            i <= words@.len(),
            all == strings_view(words@),
            forall|k: int| 0 <= k < i ==> all[k] != word@,
        decreases words@.len() - i,
    {
        if crate::text::chars_are(&chars_of(words[i].as_str()), word) {
            assert(all[i as int] == word@);
            return true;
        }
        i = i + 1;
    }
    false
}

/// The words that mark a task as done in a file with the given settings.
pub fn compute_done_keywords(settings: &FileSettings) -> (r: Vec<String>)
    ensures
        strings_view(r@) == done_words(settings@),
{
    let ghost sequences = settings@.todo_sequences;
    let mut out: Vec<String> = Vec::new();
    let mut k: usize = 0;
    assert(strings_view(out@) =~= named_done_words(sequences.subrange(0, 0)));
    while k < settings.todo_sequences.len()
        invariant
            k <= settings.todo_sequences@.len(),
            sequences == settings@.todo_sequences,
            strings_view(out@) == named_done_words(sequences.subrange(0, k as int)),
        decreases settings.todo_sequences@.len() - k,
    {
        let items = &settings.todo_sequences[k].items;
        let ghost words = strings_view(items@);
        let ghost had = strings_view(out@);
        proof {
            let upto = sequences.subrange(0, k + 1);
            assert(upto.drop_last() =~= sequences.subrange(0, k as int));
            assert(upto.last() == words);
        }
        let mut done = false;
        let mut j: usize = 0;
        assert(words.subrange(0, 0) =~= Seq::<Seq<char>>::empty());
        assert(strings_view(out@) =~= had + behind_bar(words.subrange(0, 0)));
        while j < items.len()
            invariant
                j <= items@.len(),
                words == strings_view(items@),
                done == words.subrange(0, j as int).contains("|"@),
                strings_view(out@) == had + behind_bar(words.subrange(0, j as int)),
            decreases items@.len() - j,
        {
            let ghost upto = words.subrange(0, j + 1);
            let ghost before = words.subrange(0, j as int);
            proof {
                assert(upto.drop_last() =~= before);
                assert(upto.last() == items@[j as int]@);
            }
            let is_bar = crate::text::chars_are(&chars_of(items[j].as_str()), "|");
            if is_bar {
                proof {
                    assert(upto[j as int] == "|"@);
                }
                done = true;
            } else {
                if done {
                    let ghost cur = strings_view(out@);
                    out.push(items[j].clone());
                    assert(strings_view(out@) =~= cur.push(items@[j as int]@));
                    assert(strings_view(out@) =~= had + behind_bar(upto));
                }
                proof {
                    if before.contains("|"@) {
                        let w = choose|w: int| 0 <= w < before.len() && before[w] == "|"@;
                        assert(upto[w] == "|"@);
                    }
                    if upto.contains("|"@) {
                        let w = choose|w: int| 0 <= w < upto.len() && upto[w] == "|"@;
                        assert(w < j);
                        assert(before[w] == "|"@);
                    }
                }
            }
            j = j + 1;
        }
        assert(words.subrange(0, words.len() as int) =~= words);
        k = k + 1;
    }
    assert(sequences.subrange(0, sequences.len() as int) =~= sequences);
    if out.len() == 0 {
        out.push("DONE".to_owned());
        out.push("CANCELLED".to_owned());
        out.push("CANCELED".to_owned());
        out.push("ABORTED".to_owned());
        out.push("VOID".to_owned());
        assert(strings_view(out@) =~= usual_done_words());
    }
    out
}

/// Whether a heading is a task that is still to do.
pub fn is_incomplete_todo(h: &Heading, settings: &FileSettings) -> (b: bool)
    ensures
        b == incomplete(h@, settings@),
{
    match &h.todo {
        Some(todo) => {
            if todo.is_done {
                false
            } else {
                let done = compute_done_keywords(settings);
                !has_word(&done, todo.text.as_str())
            }
        },
        None => false,
    }
}

/* ------------------------------ Moving dates ------------------------------ */

/// How a date of a task is changed when the task is carried to a new day.
#[derive(Debug, Clone, Copy, PartialEq, Eq, Structural)]
pub enum RescheduleRule {
    /// The date stays.
    NoChange,
    /// The date becomes the new day.
    SetToTarget,
    /// The date becomes the new day if it lies before it.
    ToTargetIfOverdue,
    /// The date moves by as many days as lie between `shift_from` and the
    /// new day; it stays where `shift_from` is not set.
    ShiftByDeltaDays,
}

/// How the dates of a task are changed when the task is carried to a new
/// day.
#[derive(Debug, Clone, Copy, PartialEq, Eq, Structural)]
pub struct ReschedulePolicy {
    pub scheduled_rule: RescheduleRule,
    pub deadline_rule: RescheduleRule,
    /// Whether a timestamp keeps its time of day.
    pub keep_time_of_day: bool,
    /// The time of day of a timestamp that has none or does not keep its
    /// own.
    pub default_time: Option<Time>,
    /// Whether an inactive timestamp stays inactive.
    pub preserve_active: bool,
    pub shift_from: Option<Date>,
}

/// The policy that applies unless another is given: the scheduled date
/// becomes the new day, the deadline does if it is overdue, times of day
/// and brackets stay.
pub open spec fn usual_policy() -> ReschedulePolicy {
    ReschedulePolicy {
        scheduled_rule: RescheduleRule::SetToTarget,
        deadline_rule: RescheduleRule::ToTargetIfOverdue,
        keep_time_of_day: true,
        default_time: None,
        preserve_active: true,
        shift_from: None,
    }
}

impl Default for ReschedulePolicy {
    fn default() -> (r: ReschedulePolicy)
        ensures
            r == usual_policy(),
    {
        ReschedulePolicy {
            scheduled_rule: RescheduleRule::SetToTarget,
            deadline_rule: RescheduleRule::ToTargetIfOverdue,
            keep_time_of_day: true,
            default_time: None,
            preserve_active: true,
            shift_from: None,
        }
    }
}

/// The end of a range after its start has moved from `from` to `to`: an
/// end that names a day keeps its distance in days from the start. Nothing
/// where one of the days does not exist or the new end cannot be held.
pub open spec fn end_moved(end: Option<TimestampEnd>, from: Date, to: Date) -> Option<
    Option<TimestampEnd>,
> {
    match end {
        Some(e) => match e.date {
            Some(day) => if from.valid() && to.valid() && day.valid() {
                match date_plus_days(to, days_between(from, day)) {
                    Some(moved) => Some(Some(TimestampEnd { date: Some(moved), time: e.time })),
                    None => None,
                }
            } else {
                None
            },
            None => Some(Some(e)),
        },
        None => Some(None),
    }
}

/// A timestamp moved to the day `target`. It keeps its time of day if the
/// policy says so and it has one, and takes the policy's otherwise; it
/// becomes active unless the policy preserves what it is.
pub open spec fn rewritten(ts: Timestamp, target: Date, policy: ReschedulePolicy) -> Option<Timestamp> {
    match end_moved(ts.end, ts.date, target) {
        Some(end) => Some(
            Timestamp {
                date: target,
                time: if policy.keep_time_of_day && ts.time is Some {
                    ts.time
                } else {
                    policy.default_time
                },
                active: ts.active || !policy.preserve_active,
                end,
                ..ts
            },
        ),
        None => None,
    }
}

/// The end of a range moved by `delta` days, if it names a day. Nothing
/// where that day does not exist or the new end cannot be held.
pub open spec fn end_shifted(end: Option<TimestampEnd>, delta: int) -> Option<Option<TimestampEnd>> {
    match end {
        Some(e) => match e.date {
            Some(day) => if day.valid() {
                match date_plus_days(day, delta) {
                    Some(moved) => Some(Some(TimestampEnd { date: Some(moved), time: e.time })),
                    None => None,
                }
            } else {
                None
            },
            None => Some(Some(e)),
        },
        None => Some(None),
    }
}

/// A timestamp moved by `delta` days, its end with it.
pub open spec fn shifted(ts: Timestamp, delta: int, policy: ReschedulePolicy) -> Option<Timestamp> {
    if !ts.date.valid() {
        None
    } else {
        match date_plus_days(ts.date, delta) {
            Some(date) => match end_shifted(ts.end, delta) {
                Some(end) => Some(
                    Timestamp {
                        date,
                        time: if policy.keep_time_of_day && ts.time is Some {
                            ts.time
                        } else {
                            policy.default_time
                        },
                        active: ts.active || !policy.preserve_active,
                        end,
                        ..ts
                    },
                ),
                None => None,
            },
            None => None,
        }
    }
}

/// A timestamp after the rule was applied to it.
pub open spec fn rescheduled(
    ts: Timestamp,
    target: Date,
    policy: ReschedulePolicy,
    rule: RescheduleRule,
) -> Option<Timestamp> {
    match rule {
        RescheduleRule::NoChange => Some(ts),
        RescheduleRule::SetToTarget => rewritten(ts, target, policy),
        RescheduleRule::ToTargetIfOverdue => if ts.date.before(&target) {
            rewritten(ts, target, policy)
        } else {
            Some(ts)
        },
        RescheduleRule::ShiftByDeltaDays => match policy.shift_from {
            Some(from) => if from.valid() && target.valid() {
                if days_between(from, target) == 0 {
                    Some(ts)
                } else {
                    shifted(ts, days_between(from, target), policy)
                }
            } else {
                None
            },
            None => Some(ts),
        },
    }
}

/// The planning of a task that is carried to the day `target`: the
/// scheduled date and the deadline each by their rule; the closing date
/// stays.
pub open spec fn rescheduled_planning(p: Planning, target: Date, policy: ReschedulePolicy) -> Option<
    Planning,
> {
    let scheduled = match p.scheduled {
        Some(ts) => match rescheduled(ts, target, policy, policy.scheduled_rule) {
            Some(t) => Some(Some(t)),
            None => None,
        },
        None => Some(None),
    };
    let deadline = match p.deadline {
        Some(ts) => match rescheduled(ts, target, policy, policy.deadline_rule) {
            Some(t) => Some(Some(t)),
            None => None,
        },
        None => Some(None),
    };
    match (scheduled, deadline) {
        (Some(s), Some(d)) => Some(Planning { scheduled: s, deadline: d, closed: p.closed }),
        _ => None,
    }
}

/// Moves the end of a range with its start.
fn move_end(end: Option<TimestampEnd>, from: Date, to: Date) -> (r: Option<Option<TimestampEnd>>)
    ensures
        r == end_moved(end, from, to),
{
    match end {
        Some(e) => match e.date {
            Some(day) => {
                if from.is_valid() && to.is_valid() && day.is_valid() {
                    let span = from.days_until(&day);
                    match to.plus_days(span) {
                        Some(moved) => Some(Some(TimestampEnd { date: Some(moved), time: e.time })),
                        None => None,
                    }
                } else {
                    None
                }
            },
            None => Some(Some(e)),
        },
        None => Some(None),
    }
}

/// Moves a timestamp to the day `target`. Nothing comes back where the
/// end of a range cannot follow.
pub fn rewrite_to_target(ts: &Timestamp, target: Date, policy: &ReschedulePolicy) -> (r: Option<
    Timestamp,
>)
    ensures
        r == rewritten(*ts, target, *policy),
{
    match move_end(ts.end, ts.date, target) {
        Some(end) => {
            let time = if policy.keep_time_of_day && ts.time.is_some() {
                ts.time
            } else {
                policy.default_time
            };
            Some(
                Timestamp {
                    active: ts.active || !policy.preserve_active,
                    date: target,
                    time,
                    tz: ts.tz,
                    end,
                    repeater: ts.repeater,
                    delay: ts.delay,
                },
            )
        },
        None => None,
    }
}

/// Moves a timestamp by `delta_days` days. Nothing comes back where there
/// is no such day.
pub fn shift_by_days(ts: &Timestamp, delta_days: i64, policy: &ReschedulePolicy) -> (r: Option<
    Timestamp,
>)
    ensures
        r == shifted(*ts, delta_days as int, *policy),
{
    if !ts.date.is_valid() {
        return None;
    }
    let date = match ts.date.plus_days(delta_days) {
        Some(date) => date,
        None => { return None; },
    };
    let moved_end = match ts.end {
        Some(e) => match e.date {
            Some(day) => {
                if day.is_valid() {
                    match day.plus_days(delta_days) {
                        Some(moved) => Some(Some(TimestampEnd { date: Some(moved), time: e.time })),
                        None => None,
                    }
                } else {
                    None
                }
            },
            None => Some(Some(e)),
        },
        None => Some(None),
    };
    match moved_end {
        Some(end) => {
            let time = if policy.keep_time_of_day && ts.time.is_some() {
                ts.time
            } else {
                policy.default_time
            };
            Some(
                Timestamp {
                    active: ts.active || !policy.preserve_active,
                    date,
                    time,
                    tz: ts.tz,
                    end,
                    repeater: ts.repeater,
                    delay: ts.delay,
                },
            )
        },
        None => None,
    }
}

/// Applies a rule to a timestamp.
pub fn reschedule_ts(ts: &Timestamp, target: Date, policy: &ReschedulePolicy, rule: RescheduleRule) -> (r:
    Option<Timestamp>)
    ensures
        r == rescheduled(*ts, target, *policy, rule),
{
    match rule {
        RescheduleRule::NoChange => Some(*ts),
        RescheduleRule::SetToTarget => rewrite_to_target(ts, target, policy),
        RescheduleRule::ToTargetIfOverdue => {
            if ts.date.is_before(&target) {
                rewrite_to_target(ts, target, policy)
            } else {
                Some(*ts)
            }
        },
        RescheduleRule::ShiftByDeltaDays => {
            match policy.shift_from {
                Some(from) => {
                    if from.is_valid() && target.is_valid() {
                        let delta = from.days_until(&target);
                        if delta == 0 {
                            Some(*ts)
                        } else {
                            shift_by_days(ts, delta, policy)
                        }
                    } else {
                        None
                    }
                },
                None => Some(*ts),
            }
        },
    }
}

/// Changes the planning of a task that is carried to the day `target`.
/// Where a date cannot be moved the planning stays as it is, and the
/// answer is `false`.
pub fn reschedule_planning_in_place(p: &mut Planning, target: Date, policy: &ReschedulePolicy) -> (ok:
    bool)
    ensures
        match rescheduled_planning(*old(p), target, *policy) {
            Some(q) => ok && *final(p) == q,
            None => !ok && *final(p) == *old(p),
        },
{
    let scheduled = match p.scheduled {
        Some(ts) => match reschedule_ts(&ts, target, policy, policy.scheduled_rule) {
            Some(t) => Some(t),
            None => { return false; },
        },
        None => None,
    };
    let deadline = match p.deadline {
        Some(ts) => match reschedule_ts(&ts, target, policy, policy.deadline_rule) {
            Some(t) => Some(t),
            None => { return false; },
        },
        None => None,
    };
    p.scheduled = scheduled;
    p.deadline = deadline;
    true
}

/* --------------------------- Headings without source --------------------------- */

/// Blocks that have forgotten where they were read from.
pub open spec fn scrubbed_blocks(v: Seq<BlockWithSourceView>) -> Seq<BlockWithSourceView> {
    Seq::new(v.len(), |i: int| BlockWithSourceView { block: v[i].block, source: None })
}

/// A heading that has forgotten where it was read from, and so has
/// everything under it: it will be written in canonical form.
pub open spec fn scrubbed(h: HeadingView) -> HeadingView
    decreases h,
{
    HeadingView {
        headline_range: None,
        planning_range: None,
        properties_range: None,
        logbook_range: None,
        blocks: scrubbed_blocks(h.blocks),
        children: scrubbed_all(h.children),
        ..h
    }
}

/// Headings that have forgotten where they were read from.
pub open spec fn scrubbed_all(v: Seq<HeadingView>) -> Seq<HeadingView>
    decreases v,
{
    Seq::new(
        v.len(),
        |i: int|
            if 0 <= i < v.len() {
                scrubbed(v[i])
            } else {
                arbitrary()
            },
    )
}

/// The elements of a vector in the opposite order.
pub fn turned<T>(v: Vec<T>) -> (r: Vec<T>)
    ensures
        r@.len() == v@.len(),
        forall|k: int| 0 <= k < r@.len() ==> #[trigger] r@[k] == v@[v@.len() - 1 - k],
{
    let ghost all = v@;
    let mut v = v;
    let mut r: Vec<T> = Vec::new();
    while v.len() > 0
        invariant
            v@.len() + r@.len() == all.len(),
            v@ == all.subrange(0, v@.len() as int),
            forall|k: int| 0 <= k < r@.len() ==> #[trigger] r@[k] == all[all.len() - 1 - k],
        decreases v@.len(),
    {
        match v.pop() {
            Some(x) => {
                r.push(x);
                assert(v@ =~= all.subrange(0, v@.len() as int));
            },
            None => {},
        }
    }
    r
}

/// Makes blocks forget where they were read from.
fn scrub_blocks(blocks: Vec<BlockWithSource>) -> (r: Vec<BlockWithSource>)
    ensures
        sourced_blocks_view(r@) == scrubbed_blocks(sourced_blocks_view(blocks@)),
{
    let ghost all = blocks@;
    let mut rest = turned(blocks);
    let mut out: Vec<BlockWithSource> = Vec::new();
    while rest.len() > 0
        invariant
            rest@.len() + out@.len() == all.len(),
            forall|k: int| 0 <= k < rest@.len() ==> #[trigger] rest@[k] == all[all.len() - 1 - k],
            forall|k: int|
                0 <= k < out@.len() ==> (#[trigger] out@[k]).block == all[k].block && out@[k].source
                    is None,
        decreases rest@.len(),
    {
        match rest.pop() {
            Some(b) => {
                let mut b = b;
                b.mark_dirty();
                out.push(b);
            },
            None => {},
        }
    }
    assert(sourced_blocks_view(out@) =~= scrubbed_blocks(sourced_blocks_view(all)));
    out
}

/// Makes a heading and everything under it forget where it was read from.
pub fn scrubbed_heading(h: Heading) -> (r: Heading)
    ensures
        r@ == scrubbed(h@),
        r.id == h.id,
    decreases h,
{
    let ghost before = h@;
    let Heading {
        id,
        level,
        title,
        todo,
        priority,
        tags,
        planning,
        properties,
        logbook,
        section,
        children,
        canonical_id,
        headline_range,
        planning_range,
        properties_range,
        logbook_range,
    } = h;
    let crate::model::Section { blocks } = section;
    let r = Heading {
        id,
        level,
        title,
        todo,
        priority,
        tags,
        planning,
        properties,
        logbook,
        section: crate::model::Section { blocks: scrub_blocks(blocks) },
        children: scrubbed_headings(children),
        canonical_id,
        headline_range: None,
        planning_range: None,
        properties_range: None,
        logbook_range: None,
    };
    r
}

/// Makes headings and everything under them forget where they were read
/// from.
#[verifier::loop_isolation(false)]
pub fn scrubbed_headings(v: Vec<Heading>) -> (r: Vec<Heading>)
    ensures
        headings_view(r@) == scrubbed_all(headings_view(v@)),
        r@.len() == v@.len(),
        forall|k: int| 0 <= k < v@.len() ==> (#[trigger] r@[k]).id == v@[k].id,
    decreases v,
{
    let ghost all = v@;
    let mut rest = turned(v);
    let mut out: Vec<Heading> = Vec::new();
    while rest.len() > 0
        invariant
            rest@.len() + out@.len() == all.len(),
            forall|k: int| 0 <= k < rest@.len() ==> #[trigger] rest@[k] == all[all.len() - 1 - k],
            forall|k: int|
                0 <= k < out@.len() ==> heading_view(#[trigger] out@[k]) == scrubbed(
                    heading_view(all[k]),
                ) && out@[k].id == all[k].id,
        decreases rest@.len(),
    {
        let ghost at = out@.len() as int;
        match rest.pop() {
            Some(h) => {
                assert(h == v@[at]);
                let done = scrubbed_heading(h);
                out.push(done);
            },
            None => {},
        }
    }
    proof {
        let views = headings_view(all);
        assert forall|j: int| 0 <= j < out@.len() implies headings_view(out@)[j] == scrubbed_all(
            views,
        )[j] by {
            assert(heading_view(out@[j]) == scrubbed(heading_view(all[j])));
            assert(views[j] == heading_view(all[j]));
        }
        assert(headings_view(out@) =~= scrubbed_all(views));
    }
    out
}

/// Makes a heading and everything under it forget where it was read from:
/// all of it will be written in canonical form.
pub fn scrub_heading_sources(h: &mut Heading)
    ensures
        final(h)@ == scrubbed(old(h)@),
        final(h).id == old(h).id,
{
    h.mark_headline_dirty();
    h.mark_planning_dirty();
    h.mark_properties_dirty();
    h.mark_logbook_dirty();
    let mut blocks: Vec<BlockWithSource> = Vec::new();
    core::mem::swap(&mut h.section.blocks, &mut blocks);
    let mut blocks = scrub_blocks(blocks);
    core::mem::swap(&mut h.section.blocks, &mut blocks);
    let mut children: Vec<Heading> = Vec::new();
    core::mem::swap(&mut h.children, &mut children);
    let mut children = scrubbed_headings(children);
    core::mem::swap(&mut h.children, &mut children);
}

} // verus!
