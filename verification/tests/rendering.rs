use indexmap::IndexMap;
use org::calendar::{Date, Time};
use org::format::{
    format_org_file, render_block, render_headline, render_link_target, render_logbook,
    render_offset, render_planning, render_properties, render_rich_text, render_timestamp,
    try_format_org_file,
};
use org::model::{
    Block, BlockWithSource, Checkbox, ClockEntry, DateOffset, DomainError, Drawer, Emphasis,
    Inline, Link, LinkKind, List, ListItem, ListKind, Logbook, Planning, Priority,
    PropertyDrawer, RichText, SrcBlock, Table, Timestamp, TodoKeyword,
};
use org::parser::parse_org_from_str;
use org::source::SourceRange;
use org::tags::{Tag, TagSet};
use org::tree::{Heading, OrgFile};

fn text(s: &str) -> Inline {
    Inline::Text(s.to_string())
}

fn plain(s: &str) -> RichText {
    RichText {
        inlines: vec![text(s)],
    }
}

fn stamp(active: bool, year: i32, month: u32, day: u32) -> Timestamp {
    Timestamp {
        active,
        date: Date { year, month, day },
        time: None,
        tz: None,
        end: None,
        repeater: None,
        delay: None,
    }
}

#[test]
fn rich_text_in_canonical_form() {
    let inlines = vec![
        text("a "),
        Inline::Emphasis {
            kind: Emphasis::Bold,
            children: vec![
                text("b "),
                Inline::Emphasis {
                    kind: Emphasis::Italic,
                    children: vec![text("c")],
                },
            ],
        },
        Inline::Emphasis {
            kind: Emphasis::Mark,
            children: vec![text("m")],
        },
        Inline::Code("x".to_string()),
        Inline::Verbatim("y".to_string()),
        Inline::Link(Link {
            kind: LinkKind::Id {
                id: "abc".to_string(),
            },
            desc: Some(vec![text("ref")]),
        }),
        Inline::Link(Link {
            kind: LinkKind::File {
                path: "n.org".to_string(),
                search: Some("*H".to_string()),
            },
            desc: None,
        }),
        Inline::Target("t".to_string()),
        Inline::FootnoteRef("1".to_string()),
        Inline::Entity("\\alpha".to_string()),
        Inline::Unknown {
            kind: "k".to_string(),
            raw: "RAW".to_string(),
        },
    ];
    assert_eq!(
        render_rich_text(&inlines),
        "a *b /c/*=m=~x~=y=[[id:abc][ref]][[file:n.org::*H]]<<t>>[fn:1]\\alphaRAW"
    );
    let rt = RichText { inlines };
    assert_eq!(rt.plain_text(), "a b cmxyrefn.orgt1\\alphaRAW");
}

#[test]
fn link_targets_in_canonical_form() {
    assert_eq!(
        render_link_target(&LinkKind::Http {
            url: "https://a.b".to_string()
        }),
        "https://a.b"
    );
    assert_eq!(
        render_link_target(&LinkKind::File {
            path: "p".to_string(),
            search: None
        }),
        "file:p"
    );
    assert_eq!(
        render_link_target(&LinkKind::Custom {
            protocol: "mailto".to_string(),
            target: "a@b".to_string()
        }),
        "mailto:a@b"
    );
    let custom = RichText {
        inlines: vec![Inline::Link(Link {
            kind: LinkKind::Custom {
                protocol: "mailto".to_string(),
                target: "a@b".to_string(),
            },
            desc: None,
        })],
    };
    assert_eq!(custom.plain_text(), "mailto:a@b");
}

#[test]
fn offsets_show_their_first_unit() {
    let o = |years, months, weeks, days, hours, minutes| DateOffset {
        years,
        months,
        weeks,
        days,
        hours,
        minutes,
    };
    assert_eq!(render_offset(&DateOffset::weeks(2)), "2w");
    assert_eq!(render_offset(&DateOffset::days(-3)), "3d");
    assert_eq!(render_offset(&o(1, 2, 3, 4, 5, 6)), "3w");
    assert_eq!(render_offset(&o(1, 2, 0, 0, 5, 6)), "2m");
    assert_eq!(render_offset(&o(1, 0, 0, 0, 5, 6)), "1y");
    assert_eq!(render_offset(&o(0, 0, 0, 0, 5, 6)), "5h");
    assert_eq!(render_offset(&o(0, 0, 0, 0, 0, 90)), "90m");
    assert_eq!(render_offset(&o(0, 0, 0, 0, 0, 0)), "0m");
    assert_eq!(render_offset(&DateOffset::days(i32::MIN)), "2147483648d");
}

#[test]
fn timestamps_in_canonical_form() {
    let mut ts = stamp(false, 2025, 1, 9);
    ts.time = Some(Time {
        hour: 7,
        minute: 5,
        second: 59,
    });
    assert_eq!(render_timestamp(&ts), "[2025-01-09 07:05]");
    assert_eq!(render_timestamp(&stamp(true, 987, 12, 31)), "<0987-12-31>");
    assert_eq!(render_timestamp(&stamp(true, 12345, 1, 1)), "<+12345-01-01>");
    assert_eq!(render_timestamp(&stamp(true, -1, 1, 1)), "<-0001-01-01>");
}

#[test]
fn planning_in_canonical_form() {
    let p = Planning {
        scheduled: None,
        deadline: Some(stamp(true, 2025, 3, 5)),
        closed: Some(stamp(false, 2025, 3, 1)),
    };
    assert_eq!(
        render_planning(&p),
        "DEADLINE: <2025-03-05> CLOSED: [2025-03-01]\n"
    );
    let all = Planning {
        scheduled: Some(stamp(true, 2025, 3, 4)),
        ..p
    };
    assert_eq!(
        render_planning(&all),
        "SCHEDULED: <2025-03-04> DEADLINE: <2025-03-05> CLOSED: [2025-03-01]\n"
    );
}

#[test]
fn logbook_in_canonical_form() {
    let clock = |end: Option<Timestamp>, minutes: Option<i64>| ClockEntry {
        start: stamp(false, 2025, 1, 1),
        end,
        minutes,
        raw: None,
    };
    let log = Logbook {
        clock: vec![
            clock(Some(stamp(false, 2025, 1, 2)), Some(65)),
            clock(None, None),
            clock(None, Some(600)),
            clock(None, Some(0)),
            clock(None, Some(-5)),
            clock(None, Some(-65)),
            clock(None, Some(-120)),
        ],
        state_changes: vec![],
        raw: vec!["- note".to_string()],
    };
    assert_eq!(
        render_logbook(&log),
        ":LOGBOOK:\nCLOCK: [2025-01-01]--[2025-01-02] => 1:05\nCLOCK: [2025-01-01]\nCLOCK: [2025-01-01] => 10:00\nCLOCK: [2025-01-01] => 0:00\nCLOCK: [2025-01-01] => 0:-5\nCLOCK: [2025-01-01] => -1:-5\nCLOCK: [2025-01-01] => -2:00\n- note\n:END:\n"
    );
}

#[test]
fn properties_in_canonical_form() {
    let mut props = IndexMap::new();
    props.insert("B".to_string(), "2".to_string());
    props.insert("A".to_string(), "1".to_string());
    assert_eq!(
        render_properties(&PropertyDrawer { props }),
        ":PROPERTIES:\n:B: 2\n:A: 1\n:END:\n"
    );
}

#[test]
fn headline_in_canonical_form() {
    let mut h = Heading::new(3, plain("Title"));
    assert_eq!(render_headline(&h), "*** Title\n");
    h.todo = Some(TodoKeyword {
        text: "WAIT".to_string(),
        is_done: false,
    });
    h.priority = Some(Priority('C'));
    let mut tags = TagSet::new();
    tags.insert(Tag::new("zeta"));
    tags.insert(Tag::new("alpha"));
    tags.insert(Tag::new("zeta"));
    h.tags = tags;
    assert_eq!(render_headline(&h), "*** WAIT [#C] Title :alpha:zeta:\n");
    h.level = 0;
    assert_eq!(render_headline(&h), " WAIT [#C] Title :alpha:zeta:\n");
}

#[test]
fn blocks_in_canonical_form() {
    assert_eq!(render_block(&Block::Paragraph(plain("p"))), "p\n");
    assert_eq!(render_block(&Block::HorizontalRule), "-----\n");
    assert_eq!(render_block(&Block::Comment("# c".to_string())), "# c\n");
    assert_eq!(
        render_block(&Block::Directive {
            key: "title".to_string(),
            value: "T".to_string()
        }),
        "#+title: T\n"
    );
    assert_eq!(
        render_block(&Block::Unknown {
            kind: "LATEX".to_string(),
            raw: "\\x".to_string()
        }),
        "\\x\n"
    );
    assert_eq!(
        render_block(&Block::Unknown {
            kind: "LATEX".to_string(),
            raw: "\\x\n".to_string()
        }),
        "\\x\n"
    );
    assert_eq!(
        render_block(&Block::Example {
            raw: "e1\ne2".to_string()
        }),
        "#+BEGIN_EXAMPLE\ne1\ne2\n#+END_EXAMPLE\n"
    );
    let mut parameters = IndexMap::new();
    parameters.insert(":results".to_string(), "output".to_string());
    assert_eq!(
        render_block(&Block::SrcBlock(SrcBlock {
            language: Some("rust".to_string()),
            parameters,
            code: "fn main() {}\n".to_string(),
        })),
        "#+BEGIN_SRC rust :results=output\nfn main() {}\n#+END_SRC\n"
    );
    assert_eq!(
        render_block(&Block::SrcBlock(SrcBlock {
            language: None,
            parameters: IndexMap::new(),
            code: String::new(),
        })),
        "#+BEGIN_SRC\n\n#+END_SRC\n"
    );
    assert_eq!(
        render_block(&Block::Drawer(Drawer {
            name: "NOTES".to_string(),
            content: vec![Block::Paragraph(plain("a")), Block::HorizontalRule],
        })),
        ":NOTES:\na\n-----\n:END:\n"
    );
    assert_eq!(
        render_block(&Block::Table(Table {
            raw: vec!["| a |".to_string(), "| b |\n".to_string()]
        })),
        "| a |\n| b |\n"
    );
    assert_eq!(
        render_block(&Block::Quote(vec![
            Block::Paragraph(plain("q1\r\nq2")),
            Block::Example {
                raw: "e".to_string()
            },
        ])),
        "> q1\n> q2\n> #+BEGIN_EXAMPLE\n> e\n> #+END_EXAMPLE\n"
    );
}

#[test]
fn lists_in_canonical_form() {
    let item = |label: Option<&str>, content: Vec<Block>, checkbox| ListItem {
        label: label.map(plain),
        content,
        checkbox,
        counter: None,
        tags: TagSet::new(),
    };
    let list = |kind, items| Block::List(List { kind, items });
    assert_eq!(
        render_block(&list(
            ListKind::Unordered,
            vec![
                item(None, vec![Block::Paragraph(plain("one"))], Some(Checkbox::Empty)),
                item(None, vec![], Some(Checkbox::Partial)),
                item(
                    None,
                    vec![
                        Block::Example {
                            raw: "x".to_string()
                        },
                        Block::Paragraph(plain("more")),
                    ],
                    Some(Checkbox::Checked)
                ),
            ]
        )),
        "- [ ] one\n- [-] \n- [X] #+BEGIN_EXAMPLE\nx\n#+END_EXAMPLE\n  more\n"
    );
    assert_eq!(
        render_block(&list(
            ListKind::Ordered,
            vec![item(None, vec![Block::Paragraph(plain("first"))], None)]
        )),
        "1. first\n"
    );
    assert_eq!(
        render_block(&list(
            ListKind::Description,
            vec![item(Some("term"), vec![Block::Paragraph(plain("meaning"))], None)]
        )),
        ":: term :: meaning\n"
    );
    assert_eq!(render_block(&list(ListKind::Unordered, vec![])), "");
}

#[test]
fn a_child_starts_on_a_new_line() {
    // The headline was read without a line break after it.
    let mut file = parse_org_from_str(None, "* A").expect("parse");
    file.headings[0].children.push(Heading::new(2, plain("B")));
    file.headings.push(Heading::new(1, plain("C")));
    assert_eq!(format_org_file(&file), "* A\n** B\n* C\n");
    // A root is written where the text stands.
    let mut bare = parse_org_from_str(None, "* A").expect("parse");
    bare.headings.push(Heading::new(1, plain("C")));
    assert_eq!(format_org_file(&bare), "* A* C\n");
}

#[test]
fn a_range_without_source_text_is_not_used() {
    let mut file = parse_org_from_str(None, "* A\nSCHEDULED: <2025-01-01>\n:PROPERTIES:\n:K: v\n:END:\ntext\n")
        .expect("parse");
    file.source_text = None;
    assert_eq!(
        format_org_file(&file),
        "* A\nSCHEDULED: <2025-01-01>\n:PROPERTIES:\n:K: v\n:END:\ntext\n"
    );
}

#[test]
fn a_file_that_is_not_well_formed_is_not_formatted() {
    let good = parse_org_from_str(None, "* Überschrift\ntext\n").expect("parse");
    assert!(good.is_well_formed());
    assert!(try_format_org_file(&good).is_some());

    let mut outside = parse_org_from_str(None, "* A\n").expect("parse");
    outside.headings[0].headline_range = Some(SourceRange { start: 0, end: 99 });
    assert!(!outside.is_well_formed());
    assert_eq!(try_format_org_file(&outside), None);

    let mut split = parse_org_from_str(None, "* Ü\n").expect("parse");
    split.headings[0].headline_range = Some(SourceRange { start: 0, end: 3 });
    assert!(!split.is_well_formed());

    let mut backwards = parse_org_from_str(None, "* A\n").expect("parse");
    backwards.headings[0].headline_range = Some(SourceRange { start: 3, end: 1 });
    assert!(!backwards.is_well_formed());

    let mut bad_date = OrgFile::new(None);
    let mut h = Heading::new(1, plain("x"));
    h.planning.scheduled = Some(stamp(true, 2025, 2, 30));
    bad_date.headings.push(h);
    assert!(!bad_date.is_well_formed());

    let mut unsorted = OrgFile::new(None);
    let mut h = Heading::new(1, plain("x"));
    h.tags.items.push(Tag::new("b"));
    h.tags.items.push(Tag::new("a"));
    unsorted.headings.push(h);
    assert!(!unsorted.is_well_formed());

    let mut nested = OrgFile::new(None);
    let mut parent = Heading::new(1, plain("p"));
    let mut child = Heading::new(2, plain("c"));
    child
        .section
        .blocks
        .push(BlockWithSource::from_source(Block::HorizontalRule, SourceRange { start: 0, end: 1 }));
    parent.children.push(child);
    nested.headings.push(parent);
    // Without a source text no range is used.
    assert!(nested.is_well_formed());
    nested.source_text = Some(String::new());
    assert!(!nested.is_well_formed());
}

#[test]
fn source_ranges_cut_on_character_boundaries() {
    let source = "aé☕z";
    let r = SourceRange { start: 1, end: 6 };
    assert!(r.fits_in(source));
    assert_eq!(r.slice(source), "é☕");
    assert!(SourceRange { start: 0, end: 7 }.fits_in(source));
    assert_eq!(SourceRange { start: 7, end: 7 }.slice(source), "");
    assert!(!SourceRange { start: 2, end: 3 }.fits_in(source));
    assert!(!SourceRange { start: 0, end: 8 }.fits_in(source));
    assert!(!SourceRange { start: 3, end: 1 }.fits_in(source));
}

#[test]
fn errors_as_text() {
    assert_eq!(
        DomainError::InvalidLevel(12).message(),
        "heading level 12 is out of bounds (1..=8)"
    );
    assert_eq!(DomainError::DuplicateHeadingId.message(), "duplicate heading id");
    assert_eq!(DomainError::InvalidTimestamp.message(), "invalid timestamp");
}
