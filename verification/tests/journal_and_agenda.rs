use org::agenda::{
    project_file, project_file_with_options, project_files, AgendaRange, AgendaWhenKind,
    ProjectOptions,
};
use org::calendar::{Date, DateTime, Time, MIN_YEAR};
use org::format::format_org_file;
use org::journal::{
    compute_done_keywords, is_incomplete_todo, looks_like_date_heading, normalize, reschedule_ts,
    JournalEntryRef, JournalIndex, JournalKey, NodeRef, ReschedulePolicy, RescheduleRule,
};
use org::model::{HeadingId, Inline, OrgFileId, RichText, Timestamp, TimestampEnd};
use org::new_entry::{
    build_from_files, build_from_files_with_policy, merge_under_path, transplant_ids, BuildError,
};
use org::parser::parse_org_from_str;
use org::tree::Heading;

fn day(year: i32, month: u32, day: u32) -> Date {
    Date { year, month, day }
}

fn stamp(active: bool, date: Date) -> Timestamp {
    Timestamp {
        active,
        date,
        time: None,
        tz: None,
        end: None,
        repeater: None,
        delay: None,
    }
}

fn titled(level: u8, title: &str) -> Heading {
    Heading::new(
        level,
        RichText {
            inlines: vec![Inline::Text(title.to_string())],
        },
    )
}

#[test]
fn newly_built_entry_formats_stably() {
    let template = parse_org_from_str(None, "* TODO Template\n").expect("template parse");
    let journal = parse_org_from_str(None, "* TODO Carry\nSCHEDULED: <2025-02-01>\n")
        .expect("journal parse");

    let entry = build_from_files(&template, &vec![&journal], day(2025, 2, 2)).expect("build");

    let formatted1 = format_org_file(&entry);
    let formatted2 = format_org_file(&entry);
    assert_eq!(formatted1, formatted2);
    if let Some(src) = &entry.source_text {
        assert_eq!(src, &formatted2);
    } else {
        panic!("expected source_text to be populated");
    }
    assert_eq!(
        formatted1,
        "* TODO Template\n* carry\n** TODO Carry\nSCHEDULED: <2025-02-02>\n"
    );
}

#[test]
fn carried_tasks_keep_their_identity_and_group() {
    let template = parse_org_from_str(None, "* Work\n** Old task\n").expect("template");
    let journal = parse_org_from_str(
        None,
        "* 2025-01-31 Friday\n** Work\n*** TODO Write  Report\nDEADLINE: <2025-03-01>\n*** DONE Finished\n*** TODO write report\n",
    )
    .expect("journal");
    let task_id = journal.headings[0].children[0].children[0].id;
    let entry = build_from_files(&template, &vec![&journal], day(2025, 2, 2)).expect("build");
    // The date heading is no group; `Work` is found again by its title; a
    // task stands under a group of its own title; it is taken once, and its
    // deadline is not overdue.
    assert_eq!(
        format_org_file(&entry),
        "* Work\n** Old task\n** write report\n*** TODO Write  Report\nDEADLINE: <2025-03-01>\n"
    );
    assert_eq!(entry.headings[0].children[1].children[0].id, task_id);
    assert_eq!(entry.title.as_deref(), Some("2025-02-02"));
}

#[test]
fn build_reports_a_day_that_does_not_exist() {
    let template = parse_org_from_str(None, "* T\n").expect("template");
    let r = build_from_files(&template, &vec![], day(2025, 2, 30));
    assert_eq!(r, Err(BuildError::InvalidDate));
}

#[test]
fn build_reports_a_date_that_cannot_be_moved() {
    let template = parse_org_from_str(None, "* T\n").expect("template");
    let journal =
        parse_org_from_str(None, "* TODO Far\nSCHEDULED: <2025-02-01>\n").expect("journal");
    let policy = ReschedulePolicy {
        scheduled_rule: RescheduleRule::ShiftByDeltaDays,
        deadline_rule: RescheduleRule::NoChange,
        keep_time_of_day: true,
        default_time: None,
        preserve_active: true,
        shift_from: Some(day(MIN_YEAR, 1, 1)),
    };
    let r = build_from_files_with_policy(&template, &vec![&journal], day(262142, 12, 31), policy);
    assert_eq!(r, Err(BuildError::DateOutOfRange));
}

#[test]
fn titles_are_compared_without_case_and_spacing() {
    assert_eq!(normalize("  Write \t the   REPORT\n"), "write the report");
    assert_eq!(normalize(""), "");
    assert_eq!(normalize("ÄB c"), "Äb c");
}

#[test]
fn date_headings_are_recognised() {
    assert!(looks_like_date_heading("2025-01-31 Friday"));
    assert!(looks_like_date_heading("  2025-01-31"));
    assert!(!looks_like_date_heading("2025-01-3"));
    assert!(!looks_like_date_heading("2025/01/31"));
    assert!(!looks_like_date_heading("Notes 2025-01-31"));
}

#[test]
fn done_words_come_from_the_file_or_are_the_usual_ones() {
    let file = parse_org_from_str(None, "#+TODO: TODO NEXT | DONE DROPPED\n* DROPPED a\n* TODO b\n* DONE c\n* VOID d\n")
        .expect("parse");
    assert_eq!(compute_done_keywords(&file.settings), vec!["DONE", "DROPPED"]);
    assert!(!is_incomplete_todo(&file.headings[0], &file.settings));
    assert!(is_incomplete_todo(&file.headings[1], &file.settings));
    assert!(!is_incomplete_todo(&file.headings[2], &file.settings));
    assert!(is_incomplete_todo(&file.headings[3], &file.settings));

    let plain = parse_org_from_str(None, "* VOID d\n* WAIT e\n* Plain\n").expect("parse");
    assert_eq!(
        compute_done_keywords(&plain.settings),
        vec!["DONE", "CANCELLED", "CANCELED", "ABORTED", "VOID"]
    );
    assert!(!is_incomplete_todo(&plain.headings[0], &plain.settings));
    assert!(is_incomplete_todo(&plain.headings[1], &plain.settings));
    assert!(!is_incomplete_todo(&plain.headings[2], &plain.settings));
}

#[test]
fn rescheduling_rules() {
    let policy = ReschedulePolicy::default();
    let target = day(2025, 3, 10);
    let mut ts = stamp(false, day(2025, 3, 1));
    ts.time = Some(Time {
        hour: 9,
        minute: 30,
        second: 0,
    });
    ts.end = Some(TimestampEnd {
        date: Some(day(2025, 3, 3)),
        time: None,
    });
    assert_eq!(reschedule_ts(&ts, target, &policy, RescheduleRule::NoChange), Some(ts));
    let moved = reschedule_ts(&ts, target, &policy, RescheduleRule::SetToTarget).expect("moved");
    assert_eq!(moved.date, target);
    assert_eq!(moved.time, ts.time);
    assert!(!moved.active);
    assert_eq!(moved.end.and_then(|e| e.date), Some(day(2025, 3, 12)));

    let later = stamp(true, day(2025, 4, 1));
    assert_eq!(
        reschedule_ts(&later, target, &policy, RescheduleRule::ToTargetIfOverdue),
        Some(later)
    );
    assert_eq!(
        reschedule_ts(&ts, target, &policy, RescheduleRule::ToTargetIfOverdue).map(|t| t.date),
        Some(target)
    );

    let shifting = ReschedulePolicy {
        keep_time_of_day: false,
        default_time: Some(Time {
            hour: 8,
            minute: 0,
            second: 0,
        }),
        preserve_active: false,
        shift_from: Some(day(2025, 2, 27)),
        ..policy
    };
    let shifted =
        reschedule_ts(&ts, day(2025, 3, 1), &shifting, RescheduleRule::ShiftByDeltaDays)
            .expect("shifted");
    assert_eq!(shifted.date, day(2025, 3, 3));
    assert_eq!(shifted.time, shifting.default_time);
    assert!(shifted.active);
    assert_eq!(shifted.end.and_then(|e| e.date), Some(day(2025, 3, 5)));
}

#[test]
fn tasks_are_merged_under_their_path() {
    let mut roots = vec![titled(3, "Work")];
    let mut task = titled(5, "Call Bob");
    task.planning.scheduled = Some(stamp(true, day(2025, 1, 2)));
    merge_under_path(
        &mut roots,
        &vec!["work".to_string(), "calls".to_string()],
        vec![task],
    );
    assert_eq!(roots.len(), 1);
    assert_eq!(roots[0].level, 1);
    assert_eq!(roots[0].children.len(), 1);
    let calls = &roots[0].children[0];
    assert_eq!(calls.title.plain_text(), "calls");
    assert_eq!(calls.level, 2);
    assert_eq!(calls.children[0].title.plain_text(), "Call Bob");
    assert_eq!(calls.children[0].level, 3);

    // A task of the same title fills what the first one lacks.
    let mut again = titled(1, "call  BOB");
    again.planning.scheduled = Some(stamp(true, day(2025, 5, 5)));
    again.planning.deadline = Some(stamp(true, day(2025, 6, 6)));
    again.priority = Some(org::model::Priority('A'));
    merge_under_path(
        &mut roots,
        &vec!["work".to_string(), "calls".to_string()],
        vec![again],
    );
    let calls = &roots[0].children[0];
    assert_eq!(calls.children.len(), 1);
    let merged = &calls.children[0];
    assert_eq!(merged.planning.scheduled.map(|t| t.date), Some(day(2025, 1, 2)));
    assert_eq!(merged.planning.deadline.map(|t| t.date), Some(day(2025, 6, 6)));
    assert_eq!(merged.priority, Some(org::model::Priority('A')));

    // Tasks without a path go under `tasks`.
    merge_under_path(&mut roots, &vec![], vec![titled(1, "Loose")]);
    assert_eq!(roots.len(), 2);
    assert_eq!(roots[1].title.plain_text(), "tasks");
    assert_eq!(roots[1].children[0].title.plain_text(), "Loose");
}

#[test]
fn identities_are_transplanted_only_onto_the_same_shape() {
    let mut a = titled(1, "a");
    a.children.push(titled(2, "b"));
    a.canonical_id = Some("custom".to_string());
    let mut x = titled(1, "x");
    x.children.push(titled(2, "y"));
    let src = vec![a];
    let done = transplant_ids(&src, vec![x]).expect("same shape");
    assert_eq!(done[0].id, src[0].id);
    assert_eq!(done[0].children[0].id, src[0].children[0].id);
    assert_eq!(done[0].canonical_id.as_deref(), Some("custom"));
    assert_eq!(done[0].title.plain_text(), "x");
    assert!(transplant_ids(&src, vec![titled(1, "flat")]).is_none());
    assert!(transplant_ids(&src, vec![]).is_none());
}

#[test]
fn agenda_items_follow_the_headings() {
    let file = parse_org_from_str(
        None,
        "* Project :p:\n** TODO [#A] Task *one* :t:\nSCHEDULED: <2025-03-01 09:15> DEADLINE: <2025-03-05>\n** TODO Loose\n** DONE Over\nCLOSED: [2025-02-01]\n",
    )
    .expect("parse");
    let items = project_file(&file);
    assert_eq!(items.len(), 3);
    assert_eq!(items[0].when_kind, AgendaWhenKind::Scheduled);
    assert_eq!(items[0].title, "Task one");
    assert_eq!(items[0].context_path, vec!["Project", "Task one"]);
    assert_eq!(items[0].source_file, file.id);
    assert_eq!(items[0].source_heading, file.headings[0].children[0].id);
    assert_eq!(items[0].span.start.date, day(2025, 3, 1));
    assert_eq!(items[0].span.start.time, Time { hour: 9, minute: 15, second: 0 });
    assert_eq!(items[0].span.end, None);
    assert!(items[0].active);
    assert_eq!(items[0].priority, Some(org::model::Priority('A')));
    assert_eq!(items[0].tags.len(), 1);
    assert_eq!(items[1].when_kind, AgendaWhenKind::Deadline);
    assert_eq!(items[1].span.start.time, Time { hour: 0, minute: 0, second: 0 });
    assert_eq!(items[2].when_kind, AgendaWhenKind::Closed);
    assert!(!items[2].active);

    let with_todos = project_file_with_options(&file, ProjectOptions { include_todos: true });
    assert_eq!(with_todos.len(), 4);
    assert_eq!(with_todos[2].when_kind, AgendaWhenKind::Todo);
    assert_eq!(with_todos[2].title, "Loose");
    assert_eq!(with_todos[2].span.start.date, day(MIN_YEAR, 1, 1));

    assert_eq!(project_files(&vec![&file, &file]).len(), 6);
}

#[test]
fn agenda_range_takes_both_ends() {
    let range = AgendaRange {
        from: day(2025, 1, 31),
        to: day(2025, 2, 2),
    };
    let at = |d: Date| DateTime {
        date: d,
        time: Time {
            hour: 23,
            minute: 59,
            second: 59,
        },
    };
    assert!(range.contains(at(day(2025, 1, 31))));
    assert!(range.contains(at(day(2025, 2, 2))));
    assert!(!range.contains(at(day(2025, 1, 30))));
    assert!(!range.contains(at(day(2025, 2, 3))));
}

#[test]
fn journal_index_keeps_days_in_order() {
    let entry = |d: Date, title: &str| JournalEntryRef {
        key: JournalKey { date: d },
        node: NodeRef {
            file_id: OrgFileId(1),
            heading_id: HeadingId(2),
        },
        title: title.to_string(),
        tags: vec![],
    };
    let mut index = JournalIndex::new();
    index.add(JournalKey { date: day(2025, 2, 1) }, entry(day(2025, 2, 1), "b1"));
    index.add(JournalKey { date: day(2025, 1, 1) }, entry(day(2025, 1, 1), "a1"));
    index.add(JournalKey { date: day(2025, 2, 1) }, entry(day(2025, 2, 1), "b2"));
    index.add(JournalKey { date: day(2025, 3, 1) }, entry(day(2025, 3, 1), "c1"));
    let days: Vec<(u32, Vec<&str>)> = index
        .entries
        .iter()
        .map(|(k, v)| (k.date.month, v.iter().map(|e| e.title.as_str()).collect()))
        .collect();
    assert_eq!(
        days,
        vec![(1, vec!["a1"]), (2, vec!["b1", "b2"]), (3, vec!["c1"])]
    );
}

#[test]
fn an_agenda_is_listed_by_day() {
    let file = parse_org_from_str(
        None,
        "* Project :p:\n** TODO [#A] Task *one* :t:u:\nSCHEDULED: <2025-03-01 09:15> DEADLINE: <2025-03-05>\n** TODO Loose\n** DONE Over\nCLOSED: [2025-02-01]\n** NEXT Same day\nSCHEDULED: <2025-03-01>\n",
    )
    .expect("parse");
    let items = project_file_with_options(&file, ProjectOptions { include_todos: true });
    let kinds = |v: &Vec<&org::agenda::AgendaItem>| -> Vec<(AgendaWhenKind, String)> {
        v.iter().map(|i| (i.when_kind, i.title.clone())).collect()
    };

    let all = org::listing::within(&items, None, None);
    assert_eq!(all.len(), 5);
    let listed = org::listing::in_order(&all);
    assert_eq!(
        kinds(&listed),
        vec![
            (AgendaWhenKind::Todo, "Loose".to_string()),
            (AgendaWhenKind::Closed, "Over".to_string()),
            (AgendaWhenKind::Scheduled, "Same day".to_string()),
            (AgendaWhenKind::Scheduled, "Task one".to_string()),
            (AgendaWhenKind::Deadline, "Task one".to_string()),
        ]
    );

    let from_march = org::listing::within(&items, Some(day(2025, 3, 1)), None);
    assert_eq!(from_march.len(), 4);
    let first_days = org::listing::within(&items, Some(day(2025, 3, 1)), Some(day(2025, 3, 1)));
    assert_eq!(
        kinds(&first_days),
        vec![
            (AgendaWhenKind::Scheduled, "Task one".to_string()),
            (AgendaWhenKind::Todo, "Loose".to_string()),
            (AgendaWhenKind::Scheduled, "Same day".to_string()),
        ]
    );
    let until_february = org::listing::within(&items, None, Some(day(2025, 2, 28)));
    assert_eq!(
        kinds(&until_february),
        vec![
            (AgendaWhenKind::Todo, "Loose".to_string()),
            (AgendaWhenKind::Closed, "Over".to_string()),
        ]
    );

    let lines: Vec<String> = listed.iter().map(|i| org::listing::render_line(i)).collect();
    assert_eq!(
        lines,
        vec![
            "\u{2014} TODO       TODO     Loose",
            "2025-02-01 CLOSED     DONE     Over",
            "2025-03-01 SCHEDULED  NEXT     Same day",
            "2025-03-01 SCHEDULED  TODO     Task one :t:u:",
            "2025-03-05 DEADLINE   TODO     Task one :t:u:",
        ]
    );
}

#[test]
fn items_of_one_moment_keep_their_order() {
    let file = parse_org_from_str(
        None,
        "* B\nSCHEDULED: <2025-03-01>\n* A\nSCHEDULED: <2025-03-01>\n* C\nSCHEDULED: <2025-02-01 10:00>\n* D\nSCHEDULED: <2025-02-01 09:59>\n",
    )
    .expect("parse");
    let items = project_file(&file);
    let all = org::listing::within(&items, None, None);
    let listed = org::listing::in_order(&all);
    let titles: Vec<&str> = listed.iter().map(|i| i.title.as_str()).collect();
    assert_eq!(titles, vec!["D", "C", "B", "A"]);
    assert!(org::listing::is_moment_before(&listed[0].span.start, &listed[1].span.start));
    assert!(!org::listing::is_moment_before(&listed[2].span.start, &listed[3].span.start));
}

#[test]
fn an_entry_that_would_not_be_written_the_same_way_again_is_not_built() {
    let mut template = parse_org_from_str(None, "* Notes\ntext\n").expect("template");
    template.headings[0].section.blocks.push(org::model::BlockWithSource::new(
        org::model::Block::Drawer(org::model::Drawer {
            name: "PROPERTIES".to_string(),
            content: Vec::new(),
        }),
    ));
    assert_eq!(
        format_org_file(&template),
        "* Notes\ntext\n:PROPERTIES:\n:END:\n"
    );
    assert_eq!(
        build_from_files(&template, &vec![], day(2025, 2, 2)),
        Err(BuildError::Order)
    );

    let fine = parse_org_from_str(None, "* Notes\ntext\n").expect("template");
    let entry = build_from_files(&fine, &vec![], day(2025, 2, 2)).expect("build");
    assert!(entry.is_well_formed());
    assert!(entry.is_in_source_order());
    assert_eq!(entry.source_text, Some(format_org_file(&entry)));
    assert_eq!(entry.title.as_deref(), Some("2025-02-02"));
}

#[test]
fn buckets_keep_the_order_in_which_their_paths_came() {
    let path = |s: &str| -> Vec<String> { s.split('/').map(|p| p.to_string()).collect() };
    let mut buckets = org::new_entry::BucketTree::new();
    assert!(org::new_entry::BucketTree::new().into_flat_vec().is_empty());
    buckets.push(path("work/b"), titled(2, "one"));
    buckets.push(path("home"), titled(2, "two"));
    buckets.push(path("work/b"), titled(2, "three"));
    buckets.push(path("work"), titled(2, "four"));
    let flat: Vec<(String, Vec<String>)> = buckets
        .into_flat_vec()
        .into_iter()
        .map(|(p, tasks)| {
            (
                p.join("/"),
                tasks
                    .iter()
                    .map(|h| h.title.plain_text())
                    .collect(),
            )
        })
        .collect();
    assert_eq!(
        flat,
        vec![
            ("work/b".to_string(), vec!["one".to_string(), "three".to_string()]),
            ("home".to_string(), vec!["two".to_string()]),
            ("work".to_string(), vec!["four".to_string()]),
        ]
    );
}
