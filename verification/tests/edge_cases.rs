use org::calendar::{Date, Time, MAX_YEAR, MIN_YEAR};
use org::format::format_org_file;
use org::journal::scrub_heading_sources;
use org::model::{Block, HeadingId, Inline, OrgFileId, RichText};
use org::new_entry::{build_from_workspace, clone_as_new_file};
use org::parser::inline::rt_text;
use org::parser::lines::{count_stars, is_heading_line, parse_colon_tags_inline};
use org::parser::{parse_org_from_str, NomOrgParser};
use org::tags::TagSet;
use org::workspace::{
    make_file_entry, FileStats, Folder, FolderId, OrgWorkspace, RelPath, WorkspaceId,
};
use std::path::PathBuf;

fn plain(s: &str) -> RichText {
    RichText {
        inlines: vec![Inline::Text(s.to_string())],
    }
}

fn titles(file: &org::tree::OrgFile) -> Vec<String> {
    file.headings.iter().map(|h| h.title.plain_text()).collect()
}

#[test]
fn heading_lines() {
    assert!(is_heading_line("* A"));
    assert!(is_heading_line("*** A"));
    assert!(!is_heading_line("*A"));
    assert!(!is_heading_line("*\tA"));
    assert!(!is_heading_line(" * A"));
    assert!(!is_heading_line("*"));
    assert!(!is_heading_line(""));
    assert_eq!(count_stars("*** A"), 3);
    assert_eq!(count_stars("A"), 0);
    assert_eq!(count_stars("**"), 2);
}

#[test]
fn levels_beyond_eight_are_taken_as_they_are() {
    let file = parse_org_from_str(None, "********* Nine\n").expect("parse");
    assert_eq!(file.headings[0].level, 9);
    // A level is held in eight bits.
    let many = format!("{} Wrapped\n", "*".repeat(257));
    let file = parse_org_from_str(None, &many).expect("parse");
    assert_eq!(file.headings[0].level, 1);
    assert_eq!(format_org_file(&file), many);
}

#[test]
fn tags_take_only_tag_characters() {
    let tags: Vec<String> = parse_colon_tags_inline(":b:a c::x-y:@home:é1:")
        .into_iter()
        .map(|t| t.0)
        .collect();
    assert_eq!(tags, vec!["b", "x-y", "@home", "é1"]);

    let file = parse_org_from_str(None, "* Title :a b:x-y:é1:\n").expect("parse");
    let h = &file.headings[0];
    let names: Vec<&str> = h.tags.items.iter().map(|t| t.0.as_str()).collect();
    assert_eq!(names, vec!["x-y", "é1"]);
    assert_eq!(h.title, plain("Title"));

    // Without a colon at the end nothing is a tag.
    let file = parse_org_from_str(None, "* Title :a:b\n").expect("parse");
    assert!(file.headings[0].tags.is_empty());
    assert_eq!(file.headings[0].title, plain("Title :a:b"));
}

#[test]
fn keyword_needs_a_blank_after_it() {
    let file = parse_org_from_str(None, "* TODO\n* Title\n* A b\n* [#A]x\n* [#\n").expect("parse");
    assert!(file.headings[0].todo.is_none());
    assert_eq!(file.headings[0].title, plain("TODO"));
    assert!(file.headings[1].todo.is_none());
    assert_eq!(file.headings[2].todo.as_ref().map(|t| t.text.as_str()), Some("A"));
    assert_eq!(file.headings[2].title, plain("b"));
    assert_eq!(file.headings[3].priority.map(|p| p.0), Some('A'));
    assert_eq!(file.headings[3].title, plain("x"));
    assert!(file.headings[4].priority.is_none());
    assert_eq!(titles(&file)[4], "[#");
}

#[test]
fn timestamps_in_planning_lines() {
    let file = parse_org_from_str(
        None,
        "* H\nSCHEDULED: <2025-01-02 9:05 Thu>   DEADLINE:[2025-01-03]\n  CLOSED: <2025-01-04]  \nSCHEDULED: <2025-02-02>\n",
    )
    .expect("parse");
    let p = &file.headings[0].planning;
    // A later line replaces the field of an earlier one.
    assert_eq!(p.scheduled.map(|t| t.date), Some(Date { year: 2025, month: 2, day: 2 }));
    assert_eq!(p.scheduled.and_then(|t| t.time), None);
    assert_eq!(p.deadline.map(|t| t.active), Some(false));
    assert_eq!(p.closed.map(|t| t.active), Some(true));
    assert!(file.headings[0].section.blocks.is_empty());

    let file = parse_org_from_str(None, "* H\nSCHEDULED: <2025-01-02 9:05 Thu>\n").expect("parse");
    assert_eq!(
        file.headings[0].planning.scheduled.and_then(|t| t.time),
        Some(Time { hour: 9, minute: 5, second: 0 })
    );

    // What is no planning line is text.
    for line in [
        "SCHEDULED: <2025-01-02> and more",
        "SCHEDULED: 2025-01-02",
        "SCHEDULED: <20250-01-02>",
        "SCHEDULED: <2025-1-02>",
        "SCHEDULED: <2025-01-02 Thu 09:05>",
        "SCHEDULED:",
        "scheduled: <2025-01-02>",
    ] {
        let text = format!("* H\n{line}\n");
        let file = parse_org_from_str(None, &text).expect("parse");
        assert!(file.headings[0].planning.scheduled.is_none(), "{line}");
        assert_eq!(file.headings[0].section.blocks.len(), 1, "{line}");
        assert_eq!(format_org_file(&file), text);
    }
}

#[test]
fn a_drawer_without_an_end_is_text() {
    for text in [
        "* H\n:PROPERTIES:\n:ID: x\n",
        "* H\n:LOGBOOK:\nCLOCK: [2025-01-01]--\n",
        "* H\n:NOTES:\nline\n",
        "* H\n:PROPERTIES:\nnot a property\n:END:\n",
    ] {
        let file = parse_org_from_str(None, text).expect("parse");
        let h = &file.headings[0];
        assert!(h.properties.props.is_empty(), "{text}");
        assert!(h.logbook.clock.is_empty(), "{text}");
        assert!(
            h.section.blocks.iter().all(|b| matches!(b.block, Block::Paragraph(_))),
            "{text}"
        );
        assert_eq!(format_org_file(&file), text);
    }
}

#[test]
fn clock_lines_with_broken_dates_stop_the_parse() {
    let e = parse_org_from_str(None, "* H\n:LOGBOOK:\nCLOCK: [2025-13-01]--\n:END:\n").unwrap_err();
    assert_eq!(e.fragment, "2025-13-01]--");
    let ok = parse_org_from_str(
        None,
        "* H\n:LOGBOOK:\nCLOCK: [2025-12-01]-- => 99999999999999999999:00\n:END:\n",
    )
    .expect("parse");
    // A duration that does not fit is no duration; what is left of the line
    // is kept as it stands.
    assert_eq!(ok.headings[0].logbook.clock[0].minutes, None);
    assert_eq!(ok.headings[0].logbook.raw, vec!["=> 99999999999999999999:00"]);
}

#[test]
fn formatting_twice_changes_nothing_more() {
    for text in [
        "* A\npara\nSCHEDULED: <2025-01-01>\n",
        "* A\n:PROPERTIES:\n:A: 1\n:END:\ntext\n:PROPERTIES:\n:B: 2\n:END:\n",
        "intro\n\n#+title: T\n* A\n** B\ntext\n*** C\n* D",
        "",
        "\n\n",
    ] {
        let once = format_org_file(&parse_org_from_str(None, text).expect("parse"));
        let twice = format_org_file(&parse_org_from_str(None, &once).expect("parse again"));
        assert_eq!(twice, once, "{text:?}");
    }
}

#[test]
fn text_round_trips_where_it_stands_in_writing_order() {
    for text in [
        "",
        "just text",
        "intro\n\nmore\n",
        "* A",
        "* A\n\n\n** B\n- x\n- y\n1. z\n-----\n:NOTE:\nn\n:END:\n* C\ntext\n",
        "* A\nSCHEDULED: <2025-01-01>\nDEADLINE: <2025-01-02>\n:PROPERTIES:\n:A: 1\n:END:\n:LOGBOOK:\nCLOCK: [2025-01-01 10:00]--[2025-01-01 11:00] =>  1:00\n:END:\ntext\n** B\n",
        "* A\n** B\npara\n*** C\n** D\n",
    ] {
        let file = parse_org_from_str(None, text).expect("parse");
        assert_eq!(format_org_file(&file), text, "{text:?}");
    }
}

#[test]
fn identities_are_fresh() {
    assert_ne!(HeadingId::new(), HeadingId::new());
    assert_ne!(OrgFileId::new(), OrgFileId::new());
    let a = parse_org_from_str(None, "* A\n* B\n").expect("parse");
    assert_ne!(a.headings[0].id, a.headings[1].id);
}

#[test]
fn copies_keep_what_they_copy() {
    let path = PathBuf::from("/notes/a.org");
    let file = NomOrgParser
        .parse_text(path.clone(), "#+title: T\n* A :x:\n:PROPERTIES:\n:K: v\n:END:\n** B\n")
        .expect("parse");
    assert_eq!(file.path, Some(path));
    let copy = file.clone();
    assert_eq!(copy, file);
    let fresh = clone_as_new_file(&file);
    assert_ne!(fresh.id, file.id);
    assert_eq!(fresh.path, None);
    assert_eq!(fresh.headings, file.headings);
    assert_eq!(fresh.source_text, file.source_text);
}

#[test]
fn scrubbed_headings_are_written_anew() {
    let mut file = parse_org_from_str(None, "*   Alpha   \ntext\n**   Beta  :t:\n").expect("parse");
    let id = file.headings[0].id;
    scrub_heading_sources(&mut file.headings[0]);
    assert_eq!(file.headings[0].id, id);
    assert!(file.headings[0].headline_range.is_none());
    assert!(file.headings[0].section.blocks[0].source.is_none());
    assert!(file.headings[0].children[0].headline_range.is_none());
    assert_eq!(format_org_file(&file), "* Alpha\ntext\n** Beta :t:\n");
}

#[test]
fn rich_text_of_a_string() {
    assert_eq!(rt_text("a ~b~"), RichText {
        inlines: vec![
            Inline::Text("a ".to_string()),
            Inline::Code("b".to_string())
        ]
    });
    assert_eq!(rt_text(""), RichText { inlines: vec![] });
}

#[test]
fn a_new_entry_from_a_workspace() {
    let mut ws = OrgWorkspace::new(PathBuf::from("/ws"));
    let stats = FileStats {
        size_bytes: None,
        modified_utc: None,
        is_symlink: false,
    };
    let journal = parse_org_from_str(None, "* TODO Carry\n").expect("parse");
    let other = parse_org_from_str(None, "* TODO Elsewhere\n").expect("parse");
    let mut dir = Folder::new_child(&RelPath::root(), "journal".to_string());
    dir.files.push(make_file_entry(
        &ws,
        RelPath("journal/a.org".to_string()),
        stats,
        None,
        TagSet::new(),
        Some(journal),
    ));
    dir.files.push(make_file_entry(
        &ws,
        RelPath("journal/b.org".to_string()),
        stats,
        None,
        TagSet::new(),
        None,
    ));
    ws.root.files.push(make_file_entry(
        &ws,
        RelPath("c.org".to_string()),
        stats,
        None,
        TagSet::new(),
        Some(other),
    ));
    ws.root.subdirs.push(dir);
    let template = parse_org_from_str(None, "#+title: Today\n").expect("parse");
    let date = Date { year: 2025, month: 2, day: 2 };
    let entry = build_from_workspace(&template, &ws, &RelPath("journal".to_string()), date)
        .expect("build");
    assert_eq!(format_org_file(&entry), "#+title: Today\n* carry\n** TODO Carry\n");
    assert_eq!(entry.title.as_deref(), Some("Today"));
    let none = build_from_workspace(&template, &ws, &RelPath("nowhere".to_string()), date)
        .expect("build");
    assert_eq!(format_org_file(&none), "#+title: Today\n");
}

#[test]
fn the_calendar_knows_its_days() {
    assert_eq!(Date::from_ymd(2024, 2, 29), Some(Date { year: 2024, month: 2, day: 29 }));
    assert_eq!(Date::from_ymd(2025, 2, 29), None);
    assert_eq!(Date::from_ymd(1900, 2, 29), None);
    assert_eq!(Date::from_ymd(2000, 2, 29), Some(Date { year: 2000, month: 2, day: 29 }));
    assert_eq!(Date::from_ymd(2025, 4, 31), None);
    assert_eq!(Date::from_ymd(2025, 0, 1), None);
    assert_eq!(Date::from_ymd(2025, 13, 1), None);
    assert_eq!(Date::from_ymd(2025, 1, 0), None);
    assert!(Date::from_ymd(MAX_YEAR, 12, 31).is_some());
    assert!(Date::from_ymd(MAX_YEAR + 1, 1, 1).is_none());
    assert!(Date::from_ymd(MIN_YEAR, 1, 1).is_some());
    assert!(Date::from_ymd(MIN_YEAR - 1, 12, 31).is_none());
    assert!(Date { year: 2025, month: 12, day: 31 }.is_valid());
    assert!(!Date { year: 2025, month: 11, day: 31 }.is_valid());

    assert_eq!(Date { year: 2025, month: 3, day: 7 }.render(), "2025-03-07");
    assert_eq!(Date { year: 987, month: 12, day: 25 }.render(), "0987-12-25");
    assert_eq!(Date { year: 0, month: 1, day: 1 }.render(), "0000-01-01");
    assert_eq!(Date { year: 12345, month: 1, day: 1 }.render(), "+12345-01-01");
    assert_eq!(Date { year: -44, month: 3, day: 15 }.render(), "-0044-03-15");

    assert_eq!(Time::from_hms(23, 59, 59), Some(Time { hour: 23, minute: 59, second: 59 }));
    assert_eq!(Time::from_hms(24, 0, 0), None);
    assert_eq!(Time::from_hms(0, 60, 0), None);
    assert_eq!(Time::from_hms(0, 0, 60), None);
    assert!(!Time { hour: 25, minute: 0, second: 0 }.is_valid());
    assert_eq!(Time { hour: 7, minute: 5, second: 40 }.render(), "07:05");

    let a = Date { year: 2024, month: 2, day: 28 };
    let b = Date { year: 2024, month: 3, day: 1 };
    assert_eq!(a.days_until(&b), 2);
    assert_eq!(b.days_until(&a), -2);
    assert_eq!(a.days_until(&a), 0);
    assert_eq!(a.plus_days(2), Some(b));
    assert_eq!(b.plus_days(-2), Some(a));
    assert_eq!(a.plus_days(366), Some(Date { year: 2025, month: 2, day: 28 }));
    assert_eq!(Date { year: MAX_YEAR, month: 12, day: 31 }.plus_days(1), None);
    assert_eq!(a.plus_days(i64::MAX), None);
    assert!(a.is_before(&b));
    assert!(!b.is_before(&a));
    assert!(!a.is_before(&a));

    let first = Date { year: 1, month: 1, day: 1 };
    let epoch = Date { year: 1970, month: 1, day: 1 };
    assert_eq!(first.days_until(&epoch), 719162);
    assert_eq!(epoch.days_until(&Date { year: 2000, month: 1, day: 1 }), 10957);
    assert_eq!(Date { year: 0, month: 12, day: 31 }.days_until(&first), 1);
    assert_eq!(Date { year: -1, month: 12, day: 31 }.days_until(&first), 367);
    assert_eq!(Date { year: 1900, month: 2, day: 28 }.plus_days(1), Some(Date { year: 1900, month: 3, day: 1 }));
    assert_eq!(first.plus_days(-1), Some(Date { year: 0, month: 12, day: 31 }));
    assert_eq!(first.plus_days(719162), Some(epoch));
    assert_eq!(Date { year: MIN_YEAR, month: 1, day: 1 }.plus_days(-1), None);
}

#[test]
fn identities_are_of_the_random_kind() {
    let version = |id: u128| (id >> 76) & 0xf;
    let variant = |id: u128| (id >> 62) & 0x3;
    for _ in 0..64 {
        for id in [
            HeadingId::new().0,
            OrgFileId::new().0,
            WorkspaceId::new().0,
            FolderId::new().0,
        ] {
            assert_eq!(version(id), 4);
            assert_eq!(variant(id), 2);
        }
    }
    assert_ne!(WorkspaceId::new(), WorkspaceId::new());
    assert_ne!(FolderId::new(), FolderId::new());
}
