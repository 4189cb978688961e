use org::calendar::{Date, Time};
use org::format::{format_org_file, render_timestamp};
use org::model::{Block, BlockWithSource, Checkbox, Inline, ListKind, Priority, RichText, Timestamp};
use org::parser::headline::parse_headline;
use org::parser::{parse_org_from_str, ParseStage};
use org::source::SourceRange;

fn plain(s: &str) -> RichText {
    RichText {
        inlines: vec![Inline::Text(s.to_string())],
    }
}

#[test]
fn headline_with_markup_and_tags() {
    let text = "* TODO Title with *bold* and [[id:abc][ref]] :tag:\n";
    let (_, h) = parse_headline(text).unwrap();
    assert_eq!(h.level, 1);
    assert!(h.tags.items.iter().any(|t| t.0 == "tag"));
    assert!(h
        .title
        .inlines
        .iter()
        .any(|i| matches!(i, Inline::Emphasis { .. })));
    assert!(h.title.inlines.iter().any(|i| matches!(i, Inline::Link(_))));
}

#[test]
fn formatter_round_trips_original_text() {
    let input = r#"#+title: Demo
#+filetags: :foo:

* TODO Task :tag:
SCHEDULED: <2025-11-15>
Paragraph line one
Paragraph line two

** DONE Child
Child text
"#;

    let file = parse_org_from_str(None, input).expect("parse");
    let formatted = format_org_file(&file);
    assert_eq!(formatted, input);
}

#[test]
fn formatter_preserves_context_when_inserting_block() {
    let input = r#"* TODO Task
Paragraph line one
Paragraph line two
"#;
    let mut file = parse_org_from_str(None, input).expect("parse");
    let heading = file.headings.get_mut(0).expect("heading");
    heading.section.blocks.insert(
        0,
        BlockWithSource::new(Block::Paragraph(RichText {
            inlines: vec![Inline::Text("Inserted note".into())],
        })),
    );
    let expected = r#"* TODO Task
Inserted note
Paragraph line one
Paragraph line two
"#;
    let formatted = format_org_file(&file);
    assert_eq!(formatted, expected);
}

#[test]
fn level_jump_nests_under_the_open_heading() {
    let file = parse_org_from_str(None, "* A\n*** B\n** C\n").expect("parse");
    assert_eq!(file.headings.len(), 1);
    let a = &file.headings[0];
    assert_eq!(a.title.plain_text(), "A");
    assert_eq!(a.level, 1);
    let titles: Vec<String> = a.children.iter().map(|h| h.title.plain_text()).collect();
    assert_eq!(titles, vec!["B".to_string(), "C".to_string()]);
    assert_eq!(a.children[0].level, 3);
    assert_eq!(a.children[1].level, 2);
    assert!(a.children[0].children.is_empty());
}

#[test]
fn planning_line_parses_and_renders_again() {
    let input = "* Task\nSCHEDULED: <2025-11-15>\n";
    let mut file = parse_org_from_str(None, input).expect("parse");
    let ts = file.headings[0].planning.scheduled.expect("scheduled");
    assert!(ts.active);
    assert_eq!(
        ts.date,
        Date {
            year: 2025,
            month: 11,
            day: 15
        }
    );
    assert_eq!(ts.time, None);
    assert!(file.headings[0].planning.deadline.is_none());
    file.headings[0].mark_planning_dirty();
    assert_eq!(format_org_file(&file), input);
}

#[test]
fn headline_parts() {
    let file = parse_org_from_str(None, "** NEXT [#B] Write report :work:urgent:\n").expect("parse");
    let h = &file.headings[0];
    assert_eq!(h.level, 2);
    assert_eq!(h.todo.as_ref().map(|t| t.text.as_str()), Some("NEXT"));
    assert_eq!(h.todo.as_ref().map(|t| t.is_done), Some(false));
    assert_eq!(h.priority, Some(Priority('B')));
    assert_eq!(h.title, plain("Write report"));
    let tags: Vec<&str> = h.tags.items.iter().map(|t| t.0.as_str()).collect();
    assert_eq!(tags, vec!["urgent", "work"]);
    assert_eq!(h.headline_range, Some(SourceRange { start: 0, end: 40 }));
}

#[test]
fn dirty_headline_is_written_in_canonical_form() {
    let mut file =
        parse_org_from_str(None, "**   NEXT   [#B]   Write report    :work:urgent:\nbody\n")
            .expect("parse");
    file.headings[0].mark_headline_dirty();
    assert_eq!(
        format_org_file(&file),
        "** NEXT [#B] Write report :urgent:work:\nbody\n"
    );
}

#[test]
fn preamble_directives() {
    let input = "#+TITLE:  My notes \n#+filetags: :b:a:\n#+TODO: TODO NEXT | DONE\n#+Author: me\nintro one\nintro two\n\n* H\n";
    let file = parse_org_from_str(None, input).expect("parse");
    assert_eq!(file.title.as_deref(), Some("My notes"));
    let tags: Vec<&str> = file.file_tags.items.iter().map(|t| t.0.as_str()).collect();
    assert_eq!(tags, vec!["a", "b"]);
    assert_eq!(file.settings.todo_sequences.len(), 1);
    assert_eq!(
        file.settings.todo_sequences[0].items,
        vec!["TODO", "NEXT", "|", "DONE"]
    );
    assert_eq!(file.settings.meta.get("author").map(|s| s.as_str()), Some("me"));
    assert_eq!(file.preamble.len(), 6);
    assert_eq!(
        file.preamble[0].block,
        Block::Directive {
            key: "TITLE".to_string(),
            value: "My notes".to_string()
        }
    );
    assert_eq!(file.preamble[4].block, Block::Paragraph(plain("intro one\nintro two")));
    assert_eq!(file.preamble[5].block, Block::Paragraph(RichText { inlines: vec![] }));
    assert_eq!(file.source_text.as_deref(), Some(input));
    assert_eq!(format_org_file(&file), input);
}

#[test]
fn drawers_lists_and_rules() {
    let input = "* H\n:PROPERTIES:\n:ID: abc\n:CUSTOM_ID: x y\n:ID: def\n:END:\n:LOGBOOK:\nCLOCK: [2025-11-15 10:00]--[2025-11-15 11:30] =>  1:30\n- note\n:END:\n:NOTES:\nline one\nline two\n\nline three\n:END:\n-----\n- [ ] one\n- [X] two\n1. first\n";
    let file = parse_org_from_str(None, input).expect("parse");
    let h = &file.headings[0];
    let props: Vec<(&str, &str)> = h
        .properties
        .props
        .iter()
        .map(|(k, v)| (k.as_str(), v.as_str()))
        .collect();
    assert_eq!(props, vec![("ID", "def"), ("CUSTOM_ID", "x y")]);
    assert_eq!(h.logbook.clock.len(), 1);
    let clock = &h.logbook.clock[0];
    assert!(!clock.start.active);
    assert_eq!(
        clock.start.time,
        Some(Time {
            hour: 10,
            minute: 0,
            second: 0
        })
    );
    assert_eq!(clock.end.map(|t| t.time), Some(Some(Time { hour: 11, minute: 30, second: 0 })));
    assert_eq!(clock.minutes, Some(90));
    assert_eq!(h.logbook.raw, vec!["- note"]);
    assert_eq!(h.section.blocks.len(), 4);
    match &h.section.blocks[0].block {
        Block::Drawer(d) => {
            assert_eq!(d.name, "NOTES");
            assert_eq!(
                d.content,
                vec![
                    Block::Paragraph(plain("line one\nline two")),
                    Block::Paragraph(plain("line three")),
                ]
            );
        }
        other => panic!("expected a drawer, got {:?}", other),
    }
    assert_eq!(h.section.blocks[1].block, Block::HorizontalRule);
    match &h.section.blocks[2].block {
        Block::List(l) => {
            assert_eq!(l.kind, ListKind::Unordered);
            assert_eq!(l.items.len(), 2);
            assert_eq!(l.items[0].checkbox, Some(Checkbox::Empty));
            assert_eq!(l.items[1].checkbox, Some(Checkbox::Checked));
            assert_eq!(l.items[1].content, vec![Block::Paragraph(plain("two"))]);
        }
        other => panic!("expected a list, got {:?}", other),
    }
    match &h.section.blocks[3].block {
        Block::List(l) => assert_eq!(l.kind, ListKind::Ordered),
        other => panic!("expected a list, got {:?}", other),
    }
    assert_eq!(format_org_file(&file), input);
}

#[test]
fn dirty_drawers_are_written_in_canonical_form() {
    let input = "* H\n:PROPERTIES:\n  :ID:    abc\n:END:\n:LOGBOOK:\n  CLOCK: [2025-11-15 10:00]--[2025-11-15 11:30] =>  1:05\nfree text\n:END:\n";
    let mut file = parse_org_from_str(None, input).expect("parse");
    file.headings[0].mark_properties_dirty();
    file.headings[0].mark_logbook_dirty();
    assert_eq!(
        format_org_file(&file),
        "* H\n:PROPERTIES:\n:ID: abc\n:END:\n:LOGBOOK:\nCLOCK: [2025-11-15 10:00]--[2025-11-15 11:30] => 1:05\nfree text\n:END:\n"
    );
}

#[test]
fn a_bare_carriage_return_stops_the_parse() {
    let e = parse_org_from_str(None, "intro\nbad\rline\n* H\n").unwrap_err();
    assert_eq!(e.stage, ParseStage::Preamble);
    assert_eq!(e.fragment, "bad\rline");
    assert_eq!(e.message(), "parse error in preamble:\n  at: bad\rline\n");

    let e = parse_org_from_str(None, "* H\ntext\rmore\n").unwrap_err();
    assert_eq!(e.stage, ParseStage::Headings);
    assert_eq!(e.fragment, "text\rmore");
}

#[test]
fn a_date_that_does_not_exist_stops_the_parse() {
    let e = parse_org_from_str(None, "* H\nSCHEDULED: <2025-02-30>\n").unwrap_err();
    assert_eq!(e.stage, ParseStage::Headings);
    assert_eq!(e.fragment, "2025-02-30>");

    let e = parse_org_from_str(None, "* H\nDEADLINE: <2025-02-28 25:00>\n").unwrap_err();
    assert_eq!(e.stage, ParseStage::Headings);
    assert_eq!(e.fragment, "25:00>");

    // Before the first heading nothing is read as a planning line.
    assert!(parse_org_from_str(None, "SCHEDULED: <2025-02-30>\n").is_ok());
    // A leap day exists in a leap year.
    assert!(parse_org_from_str(None, "* H\nSCHEDULED: <2024-02-29>\n").is_ok());
}

#[test]
fn windows_line_endings_round_trip() {
    let input = "#+title: T\r\n\r\n* H\r\nSCHEDULED: <2025-01-02 Thu>\r\ntext\r\n** K\r\n";
    let file = parse_org_from_str(None, input).expect("parse");
    assert_eq!(file.title.as_deref(), Some("T"));
    assert_eq!(file.headings[0].title, plain("H"));
    assert!(file.headings[0].planning.scheduled.is_some());
    assert_eq!(format_org_file(&file), input);
}

#[test]
fn non_ascii_text_round_trips_with_byte_ranges() {
    let input = "* Überschrift :tag:\nzwölf Bögen ☕\n** Kind\n";
    let file = parse_org_from_str(None, input).expect("parse");
    let h = &file.headings[0];
    assert_eq!(h.headline_range, Some(SourceRange { start: 0, end: 21 }));
    assert_eq!(h.section.blocks[0].source, Some(SourceRange { start: 21, end: 39 }));
    assert_eq!(format_org_file(&file), input);
}

#[test]
fn paragraph_before_a_planning_line_is_moved_behind_it() {
    let input = "* A\npara\nSCHEDULED: <2025-01-01>\n";
    let file = parse_org_from_str(None, input).expect("parse");
    assert_eq!(format_org_file(&file), "* A\nSCHEDULED: <2025-01-01>\npara\n");
}

#[test]
fn a_file_built_by_hand_is_written_in_canonical_form() {
    let mut file = org::tree::OrgFile::new(None);
    let mut h = org::tree::Heading::new(2, plain("Hand made"));
    h.priority = Some(Priority('A'));
    h.planning.deadline = Some(Timestamp {
        active: false,
        date: Date {
            year: 2024,
            month: 2,
            day: 29,
        },
        time: Some(Time {
            hour: 7,
            minute: 5,
            second: 0,
        }),
        tz: None,
        end: None,
        repeater: None,
        delay: None,
    });
    h.section
        .blocks
        .push(BlockWithSource::new(Block::Paragraph(plain("body"))));
    let child = org::tree::Heading::new(3, plain("Child"));
    h.children.push(child);
    file.headings.push(h);
    assert_eq!(
        format_org_file(&file),
        "** [#A] Hand made\nDEADLINE: [2024-02-29 07:05]\nbody\n*** Child\n"
    );
}

#[test]
fn timestamp_with_cookies() {
    let ts = Timestamp {
        active: true,
        date: Date {
            year: 2025,
            month: 1,
            day: 9,
        },
        time: None,
        tz: None,
        end: None,
        repeater: Some(org::model::Repeater {
            kind: org::model::RepeaterKind::FromBase,
            interval: org::model::DateOffset::weeks(2),
        }),
        delay: Some(org::model::Delay {
            before: true,
            offset: org::model::DateOffset::days(-3),
        }),
    };
    assert_eq!(render_timestamp(&ts), "<2025-01-09 ++2w -3d>");
}

#[test]
fn source_order_is_told_apart() {
    let kept = "#+title: T\n\nintro\n* A :x:\nSCHEDULED: <2025-01-01>\n:PROPERTIES:\n:K: v\n:END:\ntext\n** B\nmore\n";
    let file = parse_org_from_str(None, kept).expect("parse");
    assert!(file.is_in_source_order());
    assert_eq!(format_org_file(&file), kept);

    let moved = "* A\npara\nSCHEDULED: <2025-01-01>\n";
    let file = parse_org_from_str(None, moved).expect("parse");
    assert!(!file.is_in_source_order());

    let accented = "* Caf\u{e9}\n\u{fc}ber\n** \u{4e16}\u{754c}\n";
    let file = parse_org_from_str(None, accented).expect("parse");
    assert!(file.is_in_source_order());

    let mut file = parse_org_from_str(None, "* A\ntext\n").expect("parse");
    assert!(file.is_in_source_order());
    file.headings[0].section.blocks[0].source = Some(SourceRange { start: 4, end: 8 });
    assert!(!file.is_in_source_order());
    file.headings[0].section.blocks[0].source = None;
    assert!(!file.is_in_source_order());

    assert!(!org::tree::OrgFile::new(None).is_in_source_order());
    assert!(parse_org_from_str(None, "").expect("parse").is_in_source_order());
}

#[test]
fn a_paragraph_between_planning_lines_is_written_again() {
    let input = "* A\nSCHEDULED: <2025-01-01>\npara\nDEADLINE: <2025-01-02>\n";
    let file = parse_org_from_str(None, input).expect("parse");
    assert!(!file.is_in_source_order());
    let once = format_org_file(&file);
    assert_eq!(once, "* A\nSCHEDULED: <2025-01-01>\npara\nDEADLINE: <2025-01-02>\npara\n");
    let again = format_org_file(&parse_org_from_str(None, &once).expect("parse"));
    assert_eq!(
        again,
        "* A\nSCHEDULED: <2025-01-01>\npara\nDEADLINE: <2025-01-02>\npara\npara\n"
    );
}

#[test]
fn a_heading_behind_the_end_of_a_drawer_gets_a_line_of_its_own() {
    let input = "* A\n:PROPERTIES:\n:K: v\n:END:** B\n";
    let file = parse_org_from_str(None, input).expect("parse");
    assert_eq!(file.headings.len(), 1);
    assert_eq!(file.headings[0].children.len(), 1);
    assert_eq!(file.headings[0].children[0].level, 2);
    assert!(!file.is_in_source_order());
    assert_eq!(format_org_file(&file), "* A\n:PROPERTIES:\n:K: v\n:END:\n** B\n");

    let roots = "* A\n:PROPERTIES:\n:K: v\n:END:* B\n";
    let file = parse_org_from_str(None, roots).expect("parse");
    assert_eq!(file.headings.len(), 2);
    assert!(file.is_in_source_order());
    assert_eq!(format_org_file(&file), roots);
}

#[test]
fn texts_out_of_writing_order_do_not_come_back() {
    for input in [
        "* A\ntext\n:PROPERTIES:\n:K: v\n:END:\n",
        "* A\n:LOGBOOK:\n:END:\n:PROPERTIES:\n:K: v\n:END:\n",
        "* A\n:PROPERTIES:\n:K: v\n:END:\n:PROPERTIES:\n:K: w\n:END:\n",
        "* A\n:PROPERTIES:\n:K: v\n:END:\nSCHEDULED: <2025-01-01>\n",
        "* A\n\nSCHEDULED: <2025-01-01>\n",
    ] {
        let file = parse_org_from_str(None, input).expect("parse");
        assert!(!file.is_in_source_order(), "{input:?}");
        assert_ne!(format_org_file(&file), input, "{input:?}");
    }
    for input in [
        "* A\nSCHEDULED: <2025-01-01>\nDEADLINE: <2025-01-02>\n:PROPERTIES:\n:K: v\n:END:\n:LOGBOOK:\nCLOCK: [2025-01-01 10:00]--[2025-01-01 11:30] =>  1:30\n:END:\ntext\n\n- a\n- b\n-----\n:NOTE:\nx\n:END:\n*** C\n** B\n* D\ntail",
        "intro\n\n#+title: T\nmore\n* A\r\ntext\r\n",
        "",
        "no heading at all",
    ] {
        let file = parse_org_from_str(None, input).expect("parse");
        assert!(file.is_in_source_order(), "{input:?}");
        assert_eq!(format_org_file(&file), input, "{input:?}");
    }
}

#[test]
fn a_drawer_between_planning_lines_comes_back_if_a_later_one_replaces_it() {
    let input = "* A\nSCHEDULED: <2025-01-01>\n:PROPERTIES:\n:K: v\n:END:\nDEADLINE: <2025-01-02>\n:PROPERTIES:\n:K: w\n:END:\n";
    let file = parse_org_from_str(None, input).expect("parse");
    let props: Vec<(&str, &str)> = file.headings[0]
        .properties
        .props
        .iter()
        .map(|(k, v)| (k.as_str(), v.as_str()))
        .collect();
    assert_eq!(props, vec![("K", "w")]);
    assert!(file.is_in_source_order());
    assert_eq!(format_org_file(&file), input);
}

#[test]
fn a_block_put_at_the_end_of_a_text_without_a_last_line_break_follows_the_text() {
    let input = "intro\n* A\n** B\nlast line";
    let note = || BlockWithSource::new(Block::Paragraph(plain("Inserted note")));

    let mut file = parse_org_from_str(None, input).expect("parse");
    file.headings[0].children[0].section.blocks.push(note());
    assert_eq!(format_org_file(&file), "intro\n* A\n** B\nlast lineInserted note\n");

    let mut file = parse_org_from_str(None, input).expect("parse");
    file.headings[0].children[0].section.blocks.insert(0, note());
    assert_eq!(format_org_file(&file), "intro\n* A\n** B\nInserted note\nlast line");

    let mut file = parse_org_from_str(None, "only a preamble").expect("parse");
    file.preamble.push(note());
    assert_eq!(format_org_file(&file), "only a preambleInserted note\n");
}
