//! Drawers: the property drawer, the logbook, and drawers of any other
//! name.
//!
//! A drawer starts with its name between colons on a line of its own and
//! ends with `:END:`. Without that end there is no drawer.

use crate::entries::{entries_insert, entries_new, entries_put, map_entries};
use crate::model::{
    blocks_view, clock_view, lemma_blocks_view_push, strings_view, Block, BlockView, ClockEntry,
    ClockEntryView, Drawer, DrawerView, PropertyDrawer,
};
use crate::parser::inline::{parse_rich_text, rich_text};
use crate::parser::lines::{eol_at, eol_len, line_end, line_ok, next_line, till_eol};
use crate::parser::timestamp::{clock_at, parse_clock_line, Parsed, Scan};
use crate::tree::clock_valid;
use crate::text::{
    chars_in, has_at, is_blank, lines_view, push_range, skip, skip_class, starts_with_at,
    string_of, window_is, CharClass,
};
use vstd::prelude::*;
use vstd::string::*;

verus! {

/* ---------------------------- Property drawers ---------------------------- */

/// A property line at `pos`: blanks, `:KEY:`, blanks, and the value up to
/// the end of the line. The result is key, value and the start of the next
/// line.
pub open spec fn property_line_at(s: Seq<char>, pos: int) -> Option<(Seq<char>, Seq<char>, int)> {
    let n = s.len() as int;
    let a = skip_class(s, pos, n, CharClass::Blank);
    let k = skip_class(s, a + 1, n, CharClass::PropertyChar);
    let v = skip_class(s, k + 1, n, CharClass::Blank);
    if a < n && s[a] == ':' && a + 1 < k && k < n && s[k] == ':' && line_ok(s, v) {
        Some((s.subrange(a + 1, k), s.subrange(v, line_end(s, v)), next_line(s, v)))
    } else {
        None
    }
}

/// The lines of a property drawer from `pos` on, up to and including
/// `:END:`. A key that comes again keeps its place and takes the later
/// value.
pub open spec fn properties_body(s: Seq<char>, pos: int, acc: Seq<(Seq<char>, Seq<char>)>) -> Option<
    (Seq<(Seq<char>, Seq<char>)>, int),
>
    decreases s.len() - pos,
{
    let n = s.len() as int;
    if has_at(s, pos, n, ":END:"@) {
        let a = pos + ":END:"@.len();
        Some((acc, a + eol_len(s, a)))
    } else {
        match property_line_at(s, pos) {
            Some((key, value, next)) => if pos < next <= n {
                properties_body(s, next, entries_put(acc, key, value))
            } else {
                None
            },
            None => None,
        }
    }
}

/// A property drawer at `pos`.
pub open spec fn properties_at(s: Seq<char>, pos: int) -> Option<
    (Seq<(Seq<char>, Seq<char>)>, int),
> {
    let n = s.len() as int;
    let a = pos + ":PROPERTIES:"@.len();
    if has_at(s, pos, n, ":PROPERTIES:"@) && eol_len(s, a) > 0 {
        properties_body(s, a + eol_len(s, a), Seq::empty())
    } else {
        None
    }
}

/// Reads a property line at `pos`.
pub fn parse_property_line(text: &Vec<char>, pos: usize) -> (r: Option<(String, String, usize)>)
    requires
        pos <= text@.len(),
    ensures
        match r {
            Some((key, value, next)) => property_line_at(text@, pos as int) == Some(
                (key@, value@, next as int),
            ) && pos < next <= text@.len(),
            None => property_line_at(text@, pos as int) is None,
        },
{
    let n = text.len();
    let a = skip(text, pos, n, CharClass::Blank);
    if !(a < n && text[a] == ':') {
        return None;
    }
    let k = skip(text, a + 1, n, CharClass::PropertyChar);
    if !(a + 1 < k && k < n && text[k] == ':') {
        return None;
    }
    let v = skip(text, k + 1, n, CharClass::Blank);
    match till_eol(text, v) {
        Some(line) => Some((string_of(text, a + 1, k), string_of(text, v, line.end), line.next)),
        None => None,
    }
}

/// Reads a property drawer at `pos`.
pub fn parse_properties_drawer(text: &Vec<char>, pos: usize) -> (r: Option<(PropertyDrawer, usize)>)
    requires
        pos <= text@.len(),
    ensures
        match r {
            Some((drawer, next)) => properties_at(text@, pos as int) == Some(
                (drawer@, next as int),
            ) && pos < next <= text@.len(),
            None => properties_at(text@, pos as int) is None,
        },
{
    let n = text.len();
    if !starts_with_at(text, pos, n, ":PROPERTIES:") {
        return None;
    }
    let a = pos + ":PROPERTIES:".unicode_len();
    let eol = eol_at(text, a);
    if eol == 0 {
        return None;
    }
    let start = a + eol;
    let mut props = entries_new();
    let mut i: usize = start;
    loop
        invariant
            pos < start <= i <= n,
            n == text@.len(),
            properties_at(text@, pos as int) == properties_body(
                text@,
                i as int,
                map_entries(props),
            ),
        decreases n - i,
    {
        if starts_with_at(text, i, n, ":END:") {
            let e = i + ":END:".unicode_len();
            let next = e + eol_at(text, e);
            return Some((PropertyDrawer { props }, next));
        }
        match parse_property_line(text, i) {
            Some((key, value, next)) => {
                entries_insert(&mut props, key, value);
                i = next;
            },
            None => { return None; },
        }
    }
}

/* --------------------------------- Logbook --------------------------------- */

/// The lines of a logbook from `pos` on, up to and including `:END:`. A
/// clock line becomes an entry; every other line is kept as it stands.
pub open spec fn logbook_body(
    s: Seq<char>,
    pos: int,
    clock: Seq<ClockEntryView>,
    raw: Seq<Seq<char>>,
) -> Scan<(Seq<ClockEntryView>, Seq<Seq<char>>)>
    decreases s.len() - pos,
{
    let n = s.len() as int;
    if has_at(s, pos, n, ":END:"@) {
        let a = pos + ":END:"@.len();
        Scan::Found((clock, raw), a + eol_len(s, a))
    } else {
        match clock_at(s, pos) {
            Scan::Found(entry, next) => if pos < next <= n {
                logbook_body(s, next, clock.push(entry), raw)
            } else {
                Scan::Absent
            },
            Scan::Broken(at) => Scan::Broken(at),
            Scan::Absent => if line_ok(s, pos) && pos < next_line(s, pos) <= n {
                logbook_body(
                    s,
                    next_line(s, pos),
                    clock,
                    raw.push(s.subrange(pos, line_end(s, pos))),
                )
            } else {
                Scan::Absent
            },
        }
    }
}

/// A logbook at `pos`: its clock entries and its other lines.
pub open spec fn logbook_at(s: Seq<char>, pos: int) -> Scan<
    (Seq<ClockEntryView>, Seq<Seq<char>>),
> {
    let n = s.len() as int;
    let a = pos + ":LOGBOOK:"@.len();
    if has_at(s, pos, n, ":LOGBOOK:"@) && eol_len(s, a) > 0 {
        logbook_body(s, a + eol_len(s, a), Seq::empty(), Seq::empty())
    } else {
        Scan::Absent
    }
}

/// Reads a logbook at `pos`.
pub fn parse_logbook_drawer(text: &Vec<char>, pos: usize) -> (r: Parsed<
    (Vec<ClockEntry>, Vec<String>),
>)
    requires
        pos <= text@.len(),
    ensures
        match r {
            Parsed::Found((clock, raw), next) => logbook_at(text@, pos as int) == Scan::Found(
                (clock_view(clock@), strings_view(raw@)),
                next as int,
            ) && pos < next <= text@.len() && clock_valid(clock_view(clock@)),
            Parsed::Absent => logbook_at(text@, pos as int) == Scan::<
                (Seq<ClockEntryView>, Seq<Seq<char>>),
            >::Absent,
            Parsed::Broken(at) => logbook_at(text@, pos as int) == Scan::<
                (Seq<ClockEntryView>, Seq<Seq<char>>),
            >::Broken(at as int) && pos <= at <= text@.len(),
        },
{
    let n = text.len();
    if !starts_with_at(text, pos, n, ":LOGBOOK:") {
        return Parsed::Absent;
    }
    let a = pos + ":LOGBOOK:".unicode_len();
    let eol = eol_at(text, a);
    if eol == 0 {
        return Parsed::Absent;
    }
    let start = a + eol;
    let mut clock: Vec<ClockEntry> = Vec::new();
    let mut raw: Vec<String> = Vec::new();
    let mut i: usize = start;
    assert(clock_view(clock@) =~= Seq::<ClockEntryView>::empty());
    assert(strings_view(raw@) =~= Seq::<Seq<char>>::empty());
    loop
        invariant
            pos < start <= i <= n,
            n == text@.len(),
            clock_valid(clock_view(clock@)),
            logbook_at(text@, pos as int) == logbook_body(
                text@,
                i as int,
                clock_view(clock@),
                strings_view(raw@),
            ),
        decreases n - i,
    {
        if starts_with_at(text, i, n, ":END:") {
            let e = i + ":END:".unicode_len();
            let next = e + eol_at(text, e);
            return Parsed::Found((clock, raw), next);
        }
        match parse_clock_line(text, i) {
            Parsed::Found(entry, next) => {
                let ghost before = clock_view(clock@);
                clock.push(entry);
                assert(clock_view(clock@) =~= before.push(entry@));
                i = next;
            },
            Parsed::Broken(at) => { return Parsed::Broken(at); },
            Parsed::Absent => {
                match till_eol(text, i) {
                    Some(line) => {
                        if line.next <= i {
                            return Parsed::Absent;
                        }
                        let ghost before = strings_view(raw@);
                        raw.push(string_of(text, i, line.end));
                        assert(strings_view(raw@) =~= before.push(
                            text@.subrange(i as int, line.end as int),
                        ));
                        i = line.next;
                    },
                    None => { return Parsed::Absent; },
                }
            },
        }
    }
}

/* ------------------------------ Other drawers ------------------------------ */

/// A line added to a paragraph that is being gathered: lines are joined by
/// `\n`.
pub open spec fn join_line(para: Option<Seq<char>>, line: Seq<char>) -> Option<Seq<char>> {
    match para {
        Some(t) => Some(t + seq!['\n'] + line),
        None => Some(line),
    }
}

/// The blocks with the gathered paragraph, if there is one, added as their
/// last.
pub open spec fn flush_plain(blocks: Seq<BlockView>, para: Option<Seq<char>>) -> Seq<BlockView> {
    match para {
        Some(t) => blocks.push(BlockView::Paragraph(rich_text(t))),
        None => blocks,
    }
}

/// The blocks that a drawer's lines stand for: paragraphs, parted by blank
/// lines.
pub open spec fn blocks_from_lines(
    lines: Seq<Seq<char>>,
    blocks: Seq<BlockView>,
    para: Option<Seq<char>>,
) -> Seq<BlockView>
    decreases lines.len(),
{
    if lines.len() == 0 {
        flush_plain(blocks, para)
    } else {
        let line = lines[0];
        if is_blank(line, 0, line.len() as int) {
            blocks_from_lines(lines.drop_first(), flush_plain(blocks, para), None)
        } else {
            blocks_from_lines(lines.drop_first(), blocks, join_line(para, line))
        }
    }
}

/// The lines of a drawer from `pos` on, up to `:END:`, and the place after
/// it.
pub open spec fn drawer_lines(s: Seq<char>, pos: int, lines: Seq<Seq<char>>) -> Option<
    (Seq<Seq<char>>, int),
>
    decreases s.len() - pos,
{
    let n = s.len() as int;
    if has_at(s, pos, n, ":END:"@) {
        let a = pos + ":END:"@.len();
        Some((lines, a + eol_len(s, a)))
    } else if line_ok(s, pos) && pos < next_line(s, pos) <= n {
        drawer_lines(s, next_line(s, pos), lines.push(s.subrange(pos, line_end(s, pos))))
    } else {
        None
    }
}

/// A drawer at `pos` whose name is neither `PROPERTIES` nor `LOGBOOK`: a
/// name of capital letters between colons, a line ending, and lines up to
/// `:END:`.
pub open spec fn drawer_at(s: Seq<char>, pos: int) -> Option<(DrawerView, int)> {
    let n = s.len() as int;
    let k = skip_class(s, pos + 1, n, CharClass::Upper);
    let name = s.subrange(pos + 1, k);
    if pos < n && s[pos] == ':' && pos + 1 < k && k < n && s[k] == ':' && eol_len(s, k + 1) > 0
        && name != "PROPERTIES"@ && name != "LOGBOOK"@ {
        match drawer_lines(s, k + 1 + eol_len(s, k + 1), Seq::empty()) {
            Some((lines, next)) => Some(
                (
                    DrawerView { name, content: blocks_from_lines(lines, Seq::empty(), None) },
                    next,
                ),
            ),
            None => None,
        }
    } else {
        None
    }
}

/// The view of a paragraph that is being gathered.
pub open spec fn para_view(para: Option<Vec<char>>) -> Option<Seq<char>> {
    match para {
        Some(t) => Some(t@),
        None => None,
    }
}

/// Adds a line to a paragraph that is being gathered.
pub fn push_line(para: Option<Vec<char>>, text: &Vec<char>, from: usize, to: usize) -> (r: Option<
    Vec<char>,
>)
    requires
        from <= to <= text@.len(),
    ensures
        para_view(r) == join_line(para_view(para), text@.subrange(from as int, to as int)),
{
    match para {
        Some(t) => {
            let mut t = t;
            t.push('\n');
            push_range(&mut t, text, from, to);
            Some(t)
        },
        None => Some(chars_in(text, from, to)),
    }
}

/// Turns the lines of a drawer into blocks.
pub fn parse_blocks_from_lines(lines: &Vec<Vec<char>>) -> (r: Vec<Block>)
    ensures
        blocks_view(r@) == blocks_from_lines(lines_view(lines@), Seq::empty(), None),
{
    let mut blocks: Vec<Block> = Vec::new();
    let mut para: Option<Vec<char>> = None;
    let mut i: usize = 0;
    let ghost all = lines_view(lines@);
    assert(blocks_view(blocks@) =~= Seq::<BlockView>::empty());
    assert(all.subrange(0, all.len() as int) =~= all);
    while i < lines.len()
        invariant
            i <= lines@.len(),
            all == lines_view(lines@),
            blocks_from_lines(all, Seq::empty(), None) == blocks_from_lines(
                all.subrange(i as int, all.len() as int),
                blocks_view(blocks@),
                para_view(para),
            ),
        decreases lines@.len() - i,
    {
        let line = &lines[i];
        proof {
            let rest = all.subrange(i as int, all.len() as int);
            assert(rest[0] == line@);
            assert(rest.drop_first() =~= all.subrange(i + 1, all.len() as int));
        }
        if skip(line, 0, line.len(), CharClass::White) == line.len() {
            match para {
                Some(t) => {
                    let block = Block::Paragraph(parse_rich_text(&t));
                    proof {
                        lemma_blocks_view_push(blocks@, block);
                    }
                    blocks.push(block);
                },
                None => {},
            }
            para = None;
        } else {
            para = push_line(para, line, 0, line.len());
            assert(line@.subrange(0, line@.len() as int) =~= line@);
        }
        i = i + 1;
    }
    match para {
        Some(t) => {
            let block = Block::Paragraph(parse_rich_text(&t));
            proof {
                lemma_blocks_view_push(blocks@, block);
            }
            blocks.push(block);
        },
        None => {},
    }
    blocks
}

/// Reads a drawer at `pos` whose name is neither `PROPERTIES` nor
/// `LOGBOOK`.
#[verifier::loop_isolation(false)]
pub fn parse_generic_drawer(text: &Vec<char>, pos: usize) -> (r: Option<(Drawer, usize)>)
    requires
        pos <= text@.len(),
    ensures
        match r {
            Some((drawer, next)) => drawer_at(text@, pos as int) == Some((drawer@, next as int))
                && pos < next <= text@.len(),
            None => drawer_at(text@, pos as int) is None,
        },
{
    let n = text.len();
    if !(pos < n && text[pos] == ':') {
        return None;
    }
    let k = skip(text, pos + 1, n, CharClass::Upper);
    if !(pos + 1 < k && k < n && text[k] == ':') {
        return None;
    }
    let eol = eol_at(text, k + 1);
    if eol == 0 {
        return None;
    }
    if window_is(text, pos + 1, k, "PROPERTIES") || window_is(text, pos + 1, k, "LOGBOOK") {
        return None;
    }
    let start = k + 1 + eol;
    let mut lines: Vec<Vec<char>> = Vec::new();
    let mut i: usize = start;
    assert(lines_view(lines@) =~= Seq::<Seq<char>>::empty());
    loop
        invariant
            pos < start <= i <= n,
            n == text@.len(),
            drawer_lines(text@, start as int, Seq::empty()) == drawer_lines(
                text@,
                i as int,
                lines_view(lines@),
            ),
        decreases n - i,
    {
        if starts_with_at(text, i, n, ":END:") {
            let e = i + ":END:".unicode_len();
            let next = e + eol_at(text, e);
            let content = parse_blocks_from_lines(&lines);
            return Some((Drawer { name: string_of(text, pos + 1, k), content }, next));
        }
        match till_eol(text, i) {
            Some(line) => {
                if line.next <= i {
                    return None;
                }
                let ghost before = lines_view(lines@);
                lines.push(chars_in(text, i, line.end));
                assert(lines_view(lines@) =~= before.push(
                    text@.subrange(i as int, line.end as int),
                ));
                i = line.next;
            },
            None => { return None; },
        }
    }
}

} // verus!
