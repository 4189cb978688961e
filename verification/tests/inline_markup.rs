use org::model::{Emphasis, Inline, Link, LinkKind};
use org::parser::inline::{coalesce_text, link_kind_from_target, parse_inlines_str};

fn text(s: &str) -> Inline {
    Inline::Text(s.to_string())
}

#[test]
fn emphasis_nested() {
    let v = parse_inlines_str("This is *bold and /italic/* text* end.");
    assert!(v.iter().any(|i| matches!(i, Inline::Emphasis { .. })));
    assert!(v
        .iter()
        .any(|i| matches!(i, Inline::Text(t) if t.contains("This is "))));
}

#[test]
fn code_and_verbatim() {
    let v = parse_inlines_str("Use ~println!()~ with =NO_EXPAND=.");
    assert!(matches!(v[1], Inline::Code(_)));
    assert!(matches!(v[3], Inline::Verbatim(_)));
}

#[test]
fn links_and_autolinks() {
    let v1 = parse_inlines_str("See [[https://example.com][site]]!");
    match &v1[1] {
        Inline::Link(Link {
            kind: LinkKind::Http { url },
            desc: Some(desc),
        }) => {
            assert!(url.starts_with("https://"));
            assert!(!desc.is_empty());
        }
        other => panic!("expected bracketed link, got {:?}", other),
    }

    let v2 = parse_inlines_str("Visit https://example.com now.");
    match &v2[1] {
        Inline::Link(Link {
            kind: LinkKind::Http { url },
            desc: None,
        }) => {
            assert!(url.starts_with("https://"));
        }
        other => panic!("expected autolink, got {:?}", other),
    }
}

#[test]
fn targets_and_footnotes() {
    let v = parse_inlines_str("Jump to <<here>> and see [fn:1].");
    assert!(v.iter().any(|i| matches!(i, Inline::Target(_))));
    assert!(v.iter().any(|i| matches!(i, Inline::FootnoteRef(_))));
}

#[test]
fn adjacent_texts_are_joined_around_emphasis() {
    let v = parse_inlines_str("A *bold* word");
    assert_eq!(
        v,
        vec![
            text("A "),
            Inline::Emphasis {
                kind: Emphasis::Bold,
                children: vec![text("bold")],
            },
            text(" word"),
        ]
    );
}

#[test]
fn bracket_link_with_description() {
    let v = parse_inlines_str("[[https://example.com][site]]");
    assert_eq!(
        v,
        vec![Inline::Link(Link {
            kind: LinkKind::Http {
                url: "https://example.com".to_string()
            },
            desc: Some(vec![text("site")]),
        })]
    );
}

#[test]
fn every_character_ends_up_in_a_node() {
    // `h`, `i`, `f` and `m` may open a bare link, so the chunker stops at each
    // of them; the pieces are joined again.
    let v = parse_inlines_str("this is him, unclosed *star and [bracket");
    assert_eq!(v, vec![text("this is him, unclosed *star and [bracket")]);
}

#[test]
fn the_text_inside_a_span_is_joined() {
    let v = parse_inlines_str("/this/");
    assert_eq!(
        v,
        vec![Inline::Emphasis {
            kind: Emphasis::Italic,
            children: vec![text("this")],
        }]
    );
    let v = parse_inlines_str("/italic/");
    assert_eq!(
        v,
        vec![Inline::Emphasis {
            kind: Emphasis::Italic,
            children: vec![text("italic")],
        }]
    );
    let v = parse_inlines_str("*a ~c~ him /fi/ x*");
    assert_eq!(
        v,
        vec![Inline::Emphasis {
            kind: Emphasis::Bold,
            children: vec![
                text("a "),
                Inline::Code("c".to_string()),
                text(" him "),
                Inline::Emphasis {
                    kind: Emphasis::Italic,
                    children: vec![text("fi")],
                },
                text(" x"),
            ],
        }]
    );
}

#[test]
fn emphasis_does_not_open_before_a_space() {
    let v = parse_inlines_str("2 * 3 * 4");
    assert_eq!(v, vec![text("2 * 3 * 4")]);
}

#[test]
fn entity_and_strike_and_underline() {
    let v = parse_inlines_str("\\alpha +gone+ _under_");
    assert_eq!(
        v,
        vec![
            Inline::Entity("\\alpha".to_string()),
            text(" "),
            Inline::Emphasis {
                kind: Emphasis::Strike,
                children: vec![text("gone")],
            },
            text(" "),
            Inline::Emphasis {
                kind: Emphasis::Underline,
                children: vec![text("under")],
            },
        ]
    );
}

#[test]
fn link_kinds() {
    assert_eq!(
        link_kind_from_target("  http://a.b/c "),
        LinkKind::Http {
            url: "http://a.b/c".to_string()
        }
    );
    assert_eq!(
        link_kind_from_target("id:abc"),
        LinkKind::Id {
            id: "abc".to_string()
        }
    );
    assert_eq!(
        link_kind_from_target("file:notes.org::*Heading"),
        LinkKind::File {
            path: "notes.org".to_string(),
            search: Some("*Heading".to_string())
        }
    );
    assert_eq!(
        link_kind_from_target("file:notes.org"),
        LinkKind::File {
            path: "notes.org".to_string(),
            search: None
        }
    );
    assert_eq!(
        link_kind_from_target("mailto:me@example.com"),
        LinkKind::Custom {
            protocol: "mailto".to_string(),
            target: "me@example.com".to_string()
        }
    );
    assert_eq!(
        link_kind_from_target("notes/today.org"),
        LinkKind::File {
            path: "notes/today.org".to_string(),
            search: None
        }
    );
}

#[test]
fn coalesce_joins_runs_of_text_only() {
    let mut v = vec![
        text("a"),
        text("b"),
        Inline::Code("c".to_string()),
        text("d"),
        text("e"),
        text("f"),
    ];
    coalesce_text(&mut v);
    assert_eq!(
        v,
        vec![text("ab"), Inline::Code("c".to_string()), text("def")]
    );
}

#[test]
fn non_ascii_text_is_kept() {
    let v = parse_inlines_str("naïve *café* ☕");
    assert_eq!(
        v,
        vec![
            text("naïve "),
            Inline::Emphasis {
                kind: Emphasis::Bold,
                children: vec![text("café")],
            },
            text(" ☕"),
        ]
    );
}

#[test]
fn a_span_does_not_open_before_white_space() {
    for input in ["* b*", "*\tb*", "*\nb*", "*\u{a0}b*", "*\u{2003}b*", "/\rx/"] {
        assert_eq!(parse_inlines_str(input), vec![text(input)], "{input:?}");
    }
    assert_eq!(
        parse_inlines_str("*b *"),
        vec![Inline::Emphasis {
            kind: Emphasis::Bold,
            children: vec![text("b ")],
        }]
    );
}
