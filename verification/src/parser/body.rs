//! What stands under a headline, and how headings nest.
//!
//! Under a headline each line is read as the first of these that it can
//! be: a deeper heading, a planning line, a property drawer, a logbook,
//! another drawer, a horizontal rule, a list, and at last a line of a
//! paragraph. Whatever is read ends the paragraph that was being gathered.

use crate::model::{
    clock_view, lemma_sourced_blocks_view_push, sourced_blocks_view, strings_view, Block,
    BlockView, BlockWithSource, BlockWithSourceView, ClockEntry, ClockEntryView, LogbookView,
    Planning, PropertyDrawer, RichText,
};
use crate::parser::blocks::{list_at, parse_hr, parse_list, rule_at};
use crate::parser::drawers::{
    drawer_at, logbook_at, parse_generic_drawer, parse_logbook_drawer, parse_properties_drawer,
    properties_at,
};
use crate::parser::headline::{headline_at, headline_in};
use crate::parser::inline::{parse_rich_text, parse_rich_text_in, rich_text, rich_text_in};
use crate::parser::lines::{
    heading_level_at, heading_line_at, is_heading_at, level_at, line_end, line_ok, next_line,
    till_eol,
};
use crate::parser::timestamp::{parse_planning_line, planning_at, Parsed, Scan};
use crate::source::{
    byte_pos, is_offset_table, lemma_byte_pos_monotonic, range_from, span, SourceRange,
};
use crate::text::{chars_in, is_blank, push_range, skip, CharClass};
use crate::tree::{
    all_nest, clock_valid, heading_wf, headings_view, headings_wf, lemma_headings_view_push,
    levels_nest, range_fits, Heading, HeadingView,
};
use vstd::prelude::*;

verus! {

/* ------------------------------ What is read ------------------------------ */

/// What one step under a headline reads.
pub enum Item {
    Planning(Planning),
    Properties(Seq<(Seq<char>, Seq<char>)>),
    Logbook(Seq<ClockEntryView>, Seq<Seq<char>>),
    Block(BlockView),
    /// A line of white space.
    Blank,
    /// A line of a paragraph, with the place where its content ends.
    Text(int),
}

/// What stands at `pos` under a headline, where no heading starts there,
/// and the place after it. A line that a `\r` without `\n` ends is broken.
pub open spec fn item_at(s: Seq<char>, pos: int) -> Scan<Item> {
    match planning_at(s, pos) {
        Scan::Found(p, next) => Scan::Found(Item::Planning(p), next),
        Scan::Broken(at) => Scan::Broken(at),
        Scan::Absent => match properties_at(s, pos) {
            Some((props, next)) => Scan::Found(Item::Properties(props), next),
            None => match logbook_at(s, pos) {
                Scan::Found((clock, raw), next) => Scan::Found(Item::Logbook(clock, raw), next),
                Scan::Broken(at) => Scan::Broken(at),
                Scan::Absent => match drawer_at(s, pos) {
                    Some((drawer, next)) => Scan::Found(
                        Item::Block(BlockView::Drawer(drawer)),
                        next,
                    ),
                    None => match rule_at(s, pos) {
                        Some(next) => Scan::Found(Item::Block(BlockView::HorizontalRule), next),
                        None => match list_at(s, pos) {
                            Some((list, next)) => Scan::Found(
                                Item::Block(BlockView::List(list)),
                                next,
                            ),
                            None => if !line_ok(s, pos) {
                                Scan::Broken(pos)
                            } else if is_blank(s, pos, line_end(s, pos)) {
                                Scan::Found(Item::Blank, next_line(s, pos))
                            } else {
                                Scan::Found(Item::Text(line_end(s, pos)), next_line(s, pos))
                            },
                        },
                    },
                },
            },
        },
    }
}

/// A paragraph that is being gathered: where it starts, and its lines so
/// far, joined by `\n`.
pub type Gathered = Option<(int, Seq<char>)>;

/// The heading with one more block, read from the given range.
pub open spec fn with_block(node: HeadingView, block: BlockView, range: SourceRange) -> HeadingView {
    HeadingView {
        blocks: node.blocks.push(BlockWithSourceView { block, source: Some(range) }),
        ..node
    }
}

/// The heading after the gathered paragraph, if there is one, has become
/// its last block. The paragraph's range ends at `at`.
pub open spec fn flushed(node: HeadingView, para: Gathered, s: Seq<char>, at: int) -> HeadingView {
    match para {
        Some((start, text)) => with_block(
            node,
            BlockView::Paragraph(rich_text(text)),
            span(s, start, at),
        ),
        None => node,
    }
}

/// The planning after a planning line was read: each timestamp of the line
/// replaces the one that was there.
pub open spec fn merged_planning(old: Planning, new: Planning) -> Planning {
    Planning {
        scheduled: if new.scheduled is Some {
            new.scheduled
        } else {
            old.scheduled
        },
        deadline: if new.deadline is Some {
            new.deadline
        } else {
            old.deadline
        },
        closed: if new.closed is Some {
            new.closed
        } else {
            old.closed
        },
    }
}

/// The range of the planning lines after one more was read: from the start
/// of the first to the end of the last.
pub open spec fn merged_range(old: Option<SourceRange>, new: SourceRange) -> SourceRange {
    match old {
        Some(r) => SourceRange { start: r.start, end: new.end },
        None => new,
    }
}

/// The gathered paragraph with one more line.
pub open spec fn gathered_with(para: Gathered, pos: int, line: Seq<char>) -> Gathered {
    match para {
        Some((start, text)) => Some((start, text + seq!['\n'] + line)),
        None => Some((pos, line)),
    }
}

/// The heading and the gathered paragraph after `item` was read from
/// `s[pos..next]`.
pub open spec fn apply_item(
    s: Seq<char>,
    pos: int,
    next: int,
    node: HeadingView,
    para: Gathered,
    item: Item,
) -> (HeadingView, Gathered) {
    let done = flushed(node, para, s, pos);
    let range = span(s, pos, next);
    match item {
        Item::Planning(p) => (
            HeadingView {
                planning: merged_planning(done.planning, p),
                planning_range: Some(merged_range(done.planning_range, range)),
                ..done
            },
            None,
        ),
        Item::Properties(props) => (
            HeadingView { properties: props, properties_range: Some(range), ..done },
            None,
        ),
        Item::Logbook(clock, raw) => (
            HeadingView {
                logbook: LogbookView { clock, raw, state_changes: done.logbook.state_changes },
                logbook_range: Some(range),
                ..done
            },
            None,
        ),
        Item::Block(block) => (with_block(done, block, range), None),
        Item::Blank => (with_block(done, BlockView::Paragraph(Seq::empty()), range), None),
        Item::Text(e) => (node, gathered_with(para, pos, s.subrange(pos, e))),
    }
}

/// The heading `node` after everything under its headline was read from
/// `pos` on, and the place where that ends: at a heading that is not deeper
/// than `node`, or at the end of the text. A failure gives the place where
/// parsing stopped.
pub open spec fn body(s: Seq<char>, pos: int, node: HeadingView, para: Gathered) -> Result<
    (HeadingView, int),
    int,
>
    decreases s.len() - pos, 1int,
{
    let n = s.len() as int;
    if pos >= n {
        Ok((flushed(node, para, s, pos), pos))
    } else if heading_line_at(s, pos) {
        let done = flushed(node, para, s, pos);
        if level_at(s, pos) > node.level {
            match level_run(s, pos, level_at(s, pos), Seq::empty()) {
                Ok((kids, next)) => if pos < next <= n {
                    body(s, next, HeadingView { children: done.children + kids, ..done }, None)
                } else {
                    Err(pos)
                },
                Err(at) => Err(at),
            }
        } else {
            Ok((done, pos))
        }
    } else {
        match item_at(s, pos) {
            Scan::Found(item, next) => if pos < next <= n {
                let (node2, para2) = apply_item(s, pos, next, node, para, item);
                body(s, next, node2, para2)
            } else {
                Err(pos)
            },
            Scan::Broken(at) => Err(at),
            Scan::Absent => Err(pos),
        }
    }
}

/// The run of headings of exactly the given level that starts at `pos`,
/// each with everything under it, after `acc`; and the place where the run
/// ends.
pub open spec fn level_run(s: Seq<char>, pos: int, level: u8, acc: Seq<HeadingView>) -> Result<
    (Seq<HeadingView>, int),
    int,
>
    decreases s.len() - pos, 0int,
{
    let n = s.len() as int;
    if pos < n && heading_line_at(s, pos) && level_at(s, pos) == level {
        let (h, p) = headline_at(s, pos);
        if pos < p <= n {
            match body(s, p, h, None) {
                Ok((node, q)) => if p <= q <= n {
                    level_run(s, q, level, acc.push(node))
                } else {
                    Err(pos)
                },
                Err(at) => Err(at),
            }
        } else {
            Err(pos)
        }
    } else {
        Ok((acc, pos))
    }
}

/// A finished heading put where it belongs: under the heading on top of
/// the stack, or among the roots if the stack is empty.
pub open spec fn attached(stack: Seq<HeadingView>, roots: Seq<HeadingView>, done: HeadingView) -> (
    Seq<HeadingView>,
    Seq<HeadingView>,
) {
    if stack.len() > 0 {
        let parent = stack.last();
        (
            stack.drop_last().push(
                HeadingView { children: parent.children.push(done), ..parent },
            ),
            roots,
        )
    } else {
        (stack, roots.push(done))
    }
}

/// The stack and the roots after every open heading whose level is at
/// least `level` was taken off the stack and put where it belongs.
pub open spec fn unwound(stack: Seq<HeadingView>, roots: Seq<HeadingView>, level: u8) -> (
    Seq<HeadingView>,
    Seq<HeadingView>,
)
    decreases stack.len(),
{
    if stack.len() > 0 && stack.last().level >= level {
        let (rest, grown) = attached(stack.drop_last(), roots, stack.last());
        unwound(rest, grown, level)
    } else {
        (stack, roots)
    }
}

/// The roots after every open heading was taken off the stack and put
/// where it belongs.
pub open spec fn drained(stack: Seq<HeadingView>, roots: Seq<HeadingView>) -> Seq<HeadingView>
    decreases stack.len(),
{
    if stack.len() > 0 {
        let (rest, grown) = attached(stack.drop_last(), roots, stack.last());
        drained(rest, grown)
    } else {
        roots
    }
}

/// The top-level headings from `pos` on, given the headings that are still
/// open and the roots that are finished.
///
/// A heading of level `L` closes every open heading of level `L` or more;
/// each closed heading goes under the heading that is open below it, or
/// among the roots. A line that is no heading goes to the heading on top of
/// the stack as a paragraph, unless the line is blank or no heading is
/// open.
pub open spec fn tree(s: Seq<char>, pos: int, stack: Seq<HeadingView>, roots: Seq<HeadingView>) -> Result<
    Seq<HeadingView>,
    int,
>
    decreases s.len() - pos,
{
    let n = s.len() as int;
    if pos >= n {
        Ok(drained(stack, roots))
    } else if !heading_line_at(s, pos) {
        let e = line_end(s, pos);
        let next = next_line(s, pos);
        if line_ok(s, pos) && pos < next <= n {
            let kept = if stack.len() > 0 && !is_blank(s, pos, e) {
                stack.drop_last().push(
                    with_block(
                        stack.last(),
                        BlockView::Paragraph(rich_text_in(s, pos, e)),
                        span(s, pos, next),
                    ),
                )
            } else {
                stack
            };
            tree(s, next, kept, roots)
        } else {
            Err(pos)
        }
    } else {
        let (h, p) = headline_at(s, pos);
        if pos < p <= n {
            match body(s, p, h, None) {
                Ok((node, q)) => if p <= q <= n {
                    let (open, grown) = unwound(stack, roots, node.level);
                    tree(s, q, open.push(node), grown)
                } else {
                    Err(pos)
                },
                Err(at) => Err(at),
            }
        } else {
            Err(pos)
        }
    }
}

/* ------------------------------- The parser ------------------------------- */

/// What one step under a headline has read.
pub enum BodyItem {
    Planning(Planning),
    Properties(PropertyDrawer),
    Logbook(Vec<ClockEntry>, Vec<String>),
    Block(Block),
    Blank,
    Text(usize),
}

impl View for BodyItem {
    type V = Item;

    open spec fn view(&self) -> Item {
        match self {
            BodyItem::Planning(p) => Item::Planning(*p),
            BodyItem::Properties(d) => Item::Properties(d@),
            BodyItem::Logbook(clock, raw) => Item::Logbook(clock_view(clock@), strings_view(raw@)),
            BodyItem::Block(b) => Item::Block(b@),
            BodyItem::Blank => Item::Blank,
            BodyItem::Text(e) => Item::Text(*e as int),
        }
    }
}

/// Whether the timestamps of an item exist, and a line of text ends within
/// what was read.
pub open spec fn item_ok(item: Item, pos: int, next: int) -> bool {
    match item {
        Item::Planning(p) => p.valid(),
        Item::Logbook(clock, _) => clock_valid(clock),
        Item::Text(e) => pos <= e <= next,
        _ => true,
    }
}

/// Reads what stands at `pos` under a headline.
pub fn parse_item(text: &Vec<char>, pos: usize) -> (r: Parsed<BodyItem>)
    requires
        pos < text@.len(),
    ensures
        match r {
            Parsed::Found(item, next) => item_at(text@, pos as int) == Scan::Found(
                item@,
                next as int,
            ) && pos < next <= text@.len() && item_ok(item@, pos as int, next as int),
            Parsed::Broken(at) => item_at(text@, pos as int) == Scan::<Item>::Broken(at as int)
                && at <= text@.len(),
            Parsed::Absent => false,
        },
{
    match parse_planning_line(text, pos) {
        Parsed::Found(p, next) => { return Parsed::Found(BodyItem::Planning(p), next); },
        Parsed::Broken(at) => { return Parsed::Broken(at); },
        Parsed::Absent => {},
    }
    if let Some((props, next)) = parse_properties_drawer(text, pos) {
        return Parsed::Found(BodyItem::Properties(props), next);
    }
    match parse_logbook_drawer(text, pos) {
        Parsed::Found((clock, raw), next) => {
            return Parsed::Found(BodyItem::Logbook(clock, raw), next);
        },
        Parsed::Broken(at) => { return Parsed::Broken(at); },
        Parsed::Absent => {},
    }
    if let Some((drawer, next)) = parse_generic_drawer(text, pos) {
        return Parsed::Found(BodyItem::Block(Block::Drawer(drawer)), next);
    }
    if let Some(next) = parse_hr(text, pos) {
        return Parsed::Found(BodyItem::Block(Block::HorizontalRule), next);
    }
    if let Some((list, next)) = parse_list(text, pos) {
        return Parsed::Found(BodyItem::Block(Block::List(list)), next);
    }
    match till_eol(text, pos) {
        Some(line) => {
            if skip(text, pos, line.end, CharClass::White) == line.end {
                Parsed::Found(BodyItem::Blank, line.next)
            } else {
                Parsed::Found(BodyItem::Text(line.end), line.next)
            }
        },
        None => Parsed::Broken(pos),
    }
}

/// The view of a paragraph that is being gathered.
pub open spec fn gathered_view(para: Option<(usize, Vec<char>)>) -> Gathered {
    match para {
        Some((start, text)) => Some((start as int, text@)),
        None => None,
    }
}

/// Whether a heading is in a state in which reading under its headline can
/// go on at `pos`: it is well formed, and neither its planning lines nor
/// the paragraph that is being gathered start after `pos`.
pub open spec fn ready(node: HeadingView, para: Gathered, s: Seq<char>, pos: int) -> bool {
    &&& heading_wf(node, Some(s))
    &&& levels_nest(node)
    &&& node.planning_range matches Some(r) ==> r.start <= byte_pos(s, pos)
    &&& para matches Some((start, _)) ==> 0 <= start <= pos
}

proof fn lemma_ready_later(node: HeadingView, para: Gathered, s: Seq<char>, pos: int, later: int)
    requires
        ready(node, para, s, pos),
        0 <= pos <= later <= s.len(),
    ensures
        ready(node, para, s, later),
{
    lemma_byte_pos_monotonic(s, pos, later);
}

proof fn lemma_wf_with_block(node: HeadingView, block: BlockView, range: SourceRange, s: Seq<char>)
    requires
        heading_wf(node, Some(s)),
        range.fits(s),
    ensures
        heading_wf(with_block(node, block, range), Some(s)),
{
    let after = with_block(node, block, range);
    assert forall|i: int| 0 <= i < after.blocks.len() implies range_fits(
        (#[trigger] after.blocks[i]).source,
        Some(s),
    ) by {
        if i < node.blocks.len() {
            assert(after.blocks[i] == node.blocks[i]);
        }
    }
    assert forall|i: int| 0 <= i < after.children.len() implies heading_wf(
        #[trigger] after.children[i],
        Some(s),
    ) by {
        assert(after.children[i] == node.children[i]);
    }
}

/// The views of two vectors of blocks joined are the views joined.
pub proof fn lemma_blocks_view_concat(a: Seq<BlockWithSource>, b: Seq<BlockWithSource>)
    ensures
        sourced_blocks_view(a + b) == sourced_blocks_view(a) + sourced_blocks_view(b),
{
    assert(sourced_blocks_view(a + b) =~= sourced_blocks_view(a) + sourced_blocks_view(b));
}

/// The views of two vectors joined are the views joined.
pub proof fn lemma_headings_view_concat(a: Seq<Heading>, b: Seq<Heading>)
    ensures
        headings_view(a + b) == headings_view(a) + headings_view(b),
{
    assert(headings_view(a + b) =~= headings_view(a) + headings_view(b));
}

proof fn lemma_nest_with_children(node: HeadingView, kids: Seq<HeadingView>)
    requires
        levels_nest(node),
        all_nest(kids),
        forall|i: int| 0 <= i < kids.len() ==> (#[trigger] kids[i]).level > node.level,
    ensures
        levels_nest(HeadingView { children: node.children + kids, ..node }),
{
    let after = HeadingView { children: node.children + kids, ..node };
    assert forall|i: int| 0 <= i < after.children.len() implies (#[trigger] after.children[i]).level
        > after.level && levels_nest(after.children[i]) by {
        if i < node.children.len() {
            assert(after.children[i] == node.children[i]);
        } else {
            assert(after.children[i] == kids[i - node.children.len()]);
        }
    }
}

proof fn lemma_nest_with_child(node: HeadingView, kid: HeadingView)
    requires
        levels_nest(node),
        levels_nest(kid),
        kid.level > node.level,
    ensures
        levels_nest(HeadingView { children: node.children.push(kid), ..node }),
{
    let after = HeadingView { children: node.children.push(kid), ..node };
    assert forall|i: int| 0 <= i < after.children.len() implies (#[trigger] after.children[i]).level
        > after.level && levels_nest(after.children[i]) by {
        if i < node.children.len() {
            assert(after.children[i] == node.children[i]);
        }
    }
}

proof fn lemma_nest_with_block(node: HeadingView, block: BlockView, range: SourceRange)
    requires
        levels_nest(node),
    ensures
        levels_nest(with_block(node, block, range)),
{
    let after = with_block(node, block, range);
    assert forall|i: int| 0 <= i < after.children.len() implies (#[trigger] after.children[i]).level
        > after.level && levels_nest(after.children[i]) by {
        assert(after.children[i] == node.children[i]);
    }
}

proof fn lemma_wf_with_children(node: HeadingView, kids: Seq<HeadingView>, s: Seq<char>)
    requires
        heading_wf(node, Some(s)),
        headings_wf(kids, Some(s)),
    ensures
        heading_wf(HeadingView { children: node.children + kids, ..node }, Some(s)),
{
    let after = HeadingView { children: node.children + kids, ..node };
    assert forall|i: int| 0 <= i < after.children.len() implies heading_wf(
        #[trigger] after.children[i],
        Some(s),
    ) by {
        if i < node.children.len() {
            assert(after.children[i] == node.children[i]);
        } else {
            assert(after.children[i] == kids[i - node.children.len()]);
        }
    }
}

proof fn lemma_wf_with_child(node: HeadingView, kid: HeadingView, s: Seq<char>)
    requires
        heading_wf(node, Some(s)),
        heading_wf(kid, Some(s)),
    ensures
        heading_wf(HeadingView { children: node.children.push(kid), ..node }, Some(s)),
{
    let after = HeadingView { children: node.children.push(kid), ..node };
    assert forall|i: int| 0 <= i < after.children.len() implies heading_wf(
        #[trigger] after.children[i],
        Some(s),
    ) by {
        if i < node.children.len() {
            assert(after.children[i] == node.children[i]);
        }
    }
}

/// Adds a block that was read from `text[from..to]` to a heading.
fn push_block(
    node: Heading,
    block: Block,
    table: &Vec<usize>,
    Ghost(s): Ghost<Seq<char>>,
    from: usize,
    to: usize,
) -> (r: Heading)
    requires
        is_offset_table(table@, s),
        from <= to <= s.len(),
        heading_wf(node@, Some(s)),
    ensures
        r@ == with_block(node@, block@, span(s, from as int, to as int)),
        heading_wf(r@, Some(s)),
        levels_nest(node@) ==> levels_nest(r@),
        r.id == node.id,
{
    let range = range_from(table, Ghost(s), from, to);
    let mut node = node;
    let ghost before = node@;
    let item = BlockWithSource::from_source(block, range);
    proof {
        lemma_sourced_blocks_view_push(node.section.blocks@, item);
        lemma_wf_with_block(before, block@, range, s);
        if levels_nest(before) {
            lemma_nest_with_block(before, block@, range);
        }
    }
    node.section.blocks.push(item);
    node
}

/// Ends the paragraph that is being gathered, if there is one: it becomes
/// the last block of the heading, with a range that ends at `at`.
pub fn flush_section_paragraph(
    node: Heading,
    para: Option<(usize, Vec<char>)>,
    table: &Vec<usize>,
    Ghost(s): Ghost<Seq<char>>,
    at: usize,
) -> (r: Heading)
    requires
        is_offset_table(table@, s),
        at <= s.len(),
        ready(node@, gathered_view(para), s, at as int),
    ensures
        r@ == flushed(node@, gathered_view(para), s, at as int),
        ready(r@, None, s, at as int),
        r.id == node.id,
{
    match para {
        Some((start, text)) => {
            let block = Block::Paragraph(parse_rich_text(&text));
            push_block(node, block, table, Ghost(s), start, at)
        },
        None => node,
    }
}

/// Takes what one step under a headline has read into the heading.
fn apply_body_item(
    node: Heading,
    para: Option<(usize, Vec<char>)>,
    item: BodyItem,
    text: &Vec<char>,
    table: &Vec<usize>,
    pos: usize,
    next: usize,
) -> (r: (Heading, Option<(usize, Vec<char>)>))
    requires
        is_offset_table(table@, text@),
        pos < next <= text@.len(),
        ready(node@, gathered_view(para), text@, pos as int),
        item_ok(item@, pos as int, next as int),
    ensures
        (r.0@, gathered_view(r.1)) == apply_item(
            text@,
            pos as int,
            next as int,
            node@,
            gathered_view(para),
            item@,
        ),
        ready(r.0@, gathered_view(r.1), text@, next as int),
        r.0.id == node.id,
{
    let ghost s = text@;
    proof {
        lemma_byte_pos_monotonic(s, pos as int, next as int);
    }
    match item {
        BodyItem::Text(e) => {
            let joined = match para {
                Some((start, t)) => {
                    let mut t = t;
                    t.push('\n');
                    push_range(&mut t, text, pos, e);
                    (start, t)
                },
                None => (pos, chars_in(text, pos, e)),
            };
            proof {
                lemma_ready_later(node@, Some((joined.0 as int, joined.1@)), s, pos as int, next as int);
            }
            (node, Some(joined))
        },
        BodyItem::Planning(p) => {
            let mut done = flush_section_paragraph(node, para, table, Ghost(s), pos);
            let range = range_from(table, Ghost(s), pos, next);
            if p.scheduled.is_some() {
                done.planning.scheduled = p.scheduled;
            }
            if p.deadline.is_some() {
                done.planning.deadline = p.deadline;
            }
            if p.closed.is_some() {
                done.planning.closed = p.closed;
            }
            done.planning_range = Some(
                match done.planning_range {
                    Some(r) => SourceRange { start: r.start, end: range.end },
                    None => range,
                },
            );
            (done, None)
        },
        BodyItem::Properties(props) => {
            let mut done = flush_section_paragraph(node, para, table, Ghost(s), pos);
            let range = range_from(table, Ghost(s), pos, next);
            done.properties = props;
            done.properties_range = Some(range);
            (done, None)
        },
        BodyItem::Logbook(clock, raw) => {
            let mut done = flush_section_paragraph(node, para, table, Ghost(s), pos);
            let range = range_from(table, Ghost(s), pos, next);
            done.logbook.clock = clock;
            done.logbook.raw = raw;
            done.logbook_range = Some(range);
            (done, None)
        },
        BodyItem::Block(block) => {
            let done = flush_section_paragraph(node, para, table, Ghost(s), pos);
            let done = push_block(done, block, table, Ghost(s), pos, next);
            (done, None)
        },
        BodyItem::Blank => {
            let done = flush_section_paragraph(node, para, table, Ghost(s), pos);
            let done = push_block(
                done,
                Block::Paragraph(RichText::default()),
                table,
                Ghost(s),
                pos,
                next,
            );
            (done, None)
        },
    }
}

/// Reads everything under the headline of `node`, from `pos` on: up to a
/// heading that is not deeper than `node`, or to the end of the text.
#[verifier::loop_isolation(false)]
pub fn parse_body(text: &Vec<char>, table: &Vec<usize>, pos: usize, node: Heading) -> (r: Result<
    (Heading, usize),
    usize,
>)
    requires
        is_offset_table(table@, text@),
        pos <= text@.len(),
        ready(node@, None, text@, pos as int),
    ensures
        match r {
            Ok((h, next)) => body(text@, pos as int, node@, None) == Ok::<
                (HeadingView, int),
                int,
            >((h@, next as int)) && pos <= next <= text@.len() && heading_wf(h@, Some(text@))
                && levels_nest(h@) && h@.level == node@.level && h.id == node.id,
            Err(at) => body(text@, pos as int, node@, None) == Err::<(HeadingView, int), int>(
                at as int,
            ) && at <= text@.len(),
        },
    decreases text@.len() - pos, 1int,
{
    let ghost s = text@;
    let ghost start = node@;
    let ghost id = node.id;
    let n = text.len();
    let mut node = node;
    let mut para: Option<(usize, Vec<char>)> = None;
    let mut i: usize = pos;
    loop
        invariant
            pos <= i <= n,
            n == s.len(),
            s == text@,
            is_offset_table(table@, s),
            ready(node@, gathered_view(para), s, i as int),
            node.id == id,
            node@.level == start.level,
            body(s, pos as int, start, None) == body(s, i as int, node@, gathered_view(para)),
        decreases n - i,
    {
        if i >= n {
            let done = flush_section_paragraph(node, para, table, Ghost(s), i);
            return Ok((done, i));
        }
        if is_heading_at(text, i) {
            let mut done = flush_section_paragraph(node, para, table, Ghost(s), i);
            let level = heading_level_at(text, i);
            if level > done.level {
                match parse_headings_at_level(text, table, i, level) {
                    Ok((kids, next)) => {
                        let mut kids = kids;
                        proof {
                            lemma_headings_view_concat(done.children@, kids@);
                            lemma_wf_with_children(done@, headings_view(kids@), s);
                            lemma_nest_with_children(done@, headings_view(kids@));
                            lemma_byte_pos_monotonic(s, i as int, next as int);
                        }
                        done.children.append(&mut kids);
                        node = done;
                        para = None;
                        i = next;
                        continue ;
                    },
                    Err(at) => { return Err(at); },
                }
            } else {
                return Ok((done, i));
            }
        }
        match parse_item(text, i) {
            Parsed::Found(item, next) => {
                let (node2, para2) = apply_body_item(node, para, item, text, table, i, next);
                node = node2;
                para = para2;
                i = next;
            },
            Parsed::Broken(at) => { return Err(at); },
            Parsed::Absent => { return Err(i); },
        }
    }
}

/// Reads the run of headings of exactly the given level that starts at
/// `pos`, each with everything under it.
#[verifier::loop_isolation(false)]
pub fn parse_headings_at_level(text: &Vec<char>, table: &Vec<usize>, pos: usize, level: u8) -> (r:
    Result<(Vec<Heading>, usize), usize>)
    requires
        is_offset_table(table@, text@),
        pos <= text@.len(),
    ensures
        match r {
            Ok((run, next)) => level_run(text@, pos as int, level, Seq::empty()) == Ok::<
                (Seq<HeadingView>, int),
                int,
            >((headings_view(run@), next as int)) && pos <= next <= text@.len() && headings_wf(
                headings_view(run@),
                Some(text@),
            ) && all_nest(headings_view(run@)) && (forall|k: int|
                0 <= k < run@.len() ==> (#[trigger] headings_view(run@)[k]).level == level) && (pos
                < text@.len() && heading_line_at(text@, pos as int) && level_at(
                text@,
                pos as int,
            ) == level ==> pos < next),
            Err(at) => level_run(text@, pos as int, level, Seq::empty()) == Err::<
                (Seq<HeadingView>, int),
                int,
            >(at as int) && at <= text@.len(),
        },
    decreases text@.len() - pos, 0int,
{
    let ghost s = text@;
    let n = text.len();
    let mut out: Vec<Heading> = Vec::new();
    let mut i: usize = pos;
    assert(headings_view(out@) =~= Seq::<HeadingView>::empty());
    loop
        invariant
            pos <= i <= n,
            n == s.len(),
            s == text@,
            is_offset_table(table@, s),
            headings_wf(headings_view(out@), Some(s)),
            all_nest(headings_view(out@)),
            forall|k: int| 0 <= k < out@.len() ==> (#[trigger] headings_view(out@)[k]).level == level,
            out@.len() > 0 ==> pos < i,
            (pos < n && heading_line_at(s, pos as int) && level_at(s, pos as int) == level && i
                == pos) ==> out@.len() == 0,
            level_run(s, pos as int, level, Seq::empty()) == level_run(
                s,
                i as int,
                level,
                headings_view(out@),
            ),
        decreases n - i,
    {
        if !(i < n && is_heading_at(text, i) && heading_level_at(text, i) == level) {
            return Ok((out, i));
        }
        let (h, p) = headline_in(text, table, i);
        match parse_body(text, table, p, h) {
            Ok((node, q)) => {
                proof {
                    lemma_headings_view_push(out@, node);
                    let before = headings_view(out@);
                    let after = before.push(node@);
                    assert forall|k: int| 0 <= k < after.len() implies heading_wf(
                        #[trigger] after[k],
                        Some(s),
                    ) by {
                        if k < before.len() {
                            assert(after[k] == before[k]);
                        }
                    }
                    assert forall|k: int| 0 <= k < after.len() implies levels_nest(
                        #[trigger] after[k],
                    ) && after[k].level == level by {
                        if k < before.len() {
                            assert(after[k] == before[k]);
                        }
                    }
                }
                out.push(node);
                i = q;
            },
            Err(at) => { return Err(at); },
        }
    }
}

/* --------------------------- The top-level headings --------------------------- */

proof fn lemma_headings_view_drop_last(v: Seq<Heading>)
    requires
        v.len() > 0,
    ensures
        headings_view(v.drop_last()) == headings_view(v).drop_last(),
        headings_view(v).last() == v.last()@,
{
    assert(headings_view(v.drop_last()) =~= headings_view(v).drop_last());
}

proof fn lemma_headings_wf_push(v: Seq<HeadingView>, x: HeadingView, s: Seq<char>)
    requires
        headings_wf(v, Some(s)),
        heading_wf(x, Some(s)),
    ensures
        headings_wf(v.push(x), Some(s)),
{
    let after = v.push(x);
    assert forall|k: int| 0 <= k < after.len() implies heading_wf(#[trigger] after[k], Some(s)) by {
        if k < v.len() {
            assert(after[k] == v[k]);
        }
    }
}

proof fn lemma_headings_wf_drop_last(v: Seq<HeadingView>, s: Seq<char>)
    requires
        headings_wf(v, Some(s)),
        v.len() > 0,
    ensures
        headings_wf(v.drop_last(), Some(s)),
        heading_wf(v.last(), Some(s)),
{
    let before = v.drop_last();
    assert forall|k: int| 0 <= k < before.len() implies heading_wf(#[trigger] before[k], Some(s)) by {
        assert(before[k] == v[k]);
    }
}

/// Whether the open headings lie deeper and deeper from the bottom of the
/// stack to its top, and the levels nest in each of them.
pub open spec fn climbing(stack: Seq<HeadingView>) -> bool {
    &&& all_nest(stack)
    &&& forall|k: int|
        0 <= k && k + 1 < stack.len() ==> (#[trigger] stack[k]).level < stack[k + 1].level
}

proof fn lemma_climbing_drop_last(stack: Seq<HeadingView>)
    requires
        climbing(stack),
        stack.len() > 0,
    ensures
        climbing(stack.drop_last()),
        levels_nest(stack.last()),
        stack.len() > 1 ==> stack.drop_last().last().level < stack.last().level,
{
    let rest = stack.drop_last();
    assert forall|k: int| 0 <= k < rest.len() implies levels_nest(#[trigger] rest[k]) by {
        assert(rest[k] == stack[k]);
    }
    assert forall|k: int| 0 <= k && k + 1 < rest.len() implies (#[trigger] rest[k]).level < rest[k
        + 1].level by {
        assert(rest[k] == stack[k] && rest[k + 1] == stack[k + 1]);
    }
    if stack.len() > 1 {
        assert(rest.last() == stack[stack.len() - 2]);
    }
}

proof fn lemma_climbing_push(stack: Seq<HeadingView>, top: HeadingView)
    requires
        climbing(stack),
        levels_nest(top),
        stack.len() > 0 ==> stack.last().level < top.level,
    ensures
        climbing(stack.push(top)),
{
    let grown = stack.push(top);
    assert forall|k: int| 0 <= k < grown.len() implies levels_nest(#[trigger] grown[k]) by {
        if k < stack.len() {
            assert(grown[k] == stack[k]);
        }
    }
    assert forall|k: int| 0 <= k && k + 1 < grown.len() implies (#[trigger] grown[k]).level
        < grown[k + 1].level by {
        assert(grown[k] == stack[k]);
        if k + 1 < stack.len() {
            assert(grown[k + 1] == stack[k + 1]);
        }
    }
}

/// Puts a finished heading where it belongs: under the heading on top of
/// the stack, or among the roots if the stack is empty.
fn attach(stack: &mut Vec<Heading>, roots: &mut Vec<Heading>, done: Heading, Ghost(s): Ghost<
    Seq<char>,
>)
    requires
        headings_wf(headings_view(old(stack)@), Some(s)),
        headings_wf(headings_view(old(roots)@), Some(s)),
        heading_wf(done@, Some(s)),
        climbing(headings_view(old(stack)@)),
        all_nest(headings_view(old(roots)@)),
        levels_nest(done@),
        old(stack)@.len() > 0 ==> headings_view(old(stack)@).last().level < done@.level,
    ensures
        (headings_view(final(stack)@), headings_view(final(roots)@)) == attached(
            headings_view(old(stack)@),
            headings_view(old(roots)@),
            done@,
        ),
        headings_wf(headings_view(final(stack)@), Some(s)),
        headings_wf(headings_view(final(roots)@), Some(s)),
        climbing(headings_view(final(stack)@)),
        all_nest(headings_view(final(roots)@)),
        final(stack)@.len() == old(stack)@.len(),
        final(stack)@.len() > 0 ==> headings_view(final(stack)@).last().level == headings_view(
            old(stack)@,
        ).last().level,
{
    let ghost before = stack@;
    match stack.pop() {
        Some(parent) => {
            let mut parent = parent;
            let ghost open = parent@;
            proof {
                lemma_headings_view_drop_last(before);
                lemma_headings_wf_drop_last(headings_view(before), s);
                lemma_climbing_drop_last(headings_view(before));
                lemma_headings_view_push(parent.children@, done);
                lemma_wf_with_child(open, done@, s);
                lemma_nest_with_child(open, done@);
            }
            parent.children.push(done);
            proof {
                lemma_headings_view_push(stack@, parent);
                lemma_headings_wf_push(headings_view(stack@), parent@, s);
                lemma_climbing_push(headings_view(stack@), parent@);
            }
            stack.push(parent);
        },
        None => {
            proof {
                lemma_headings_view_push(roots@, done);
                lemma_headings_wf_push(headings_view(roots@), done@, s);
                let grown = headings_view(roots@).push(done@);
                assert forall|k: int| 0 <= k < grown.len() implies levels_nest(
                    #[trigger] grown[k],
                ) by {
                    if k < roots@.len() {
                        assert(grown[k] == headings_view(roots@)[k]);
                    }
                }
            }
            roots.push(done);
        },
    }
}

/// Closes every open heading whose level is at least `level`.
fn unwind(stack: &mut Vec<Heading>, roots: &mut Vec<Heading>, level: u8, Ghost(s): Ghost<Seq<char>>)
    requires
        headings_wf(headings_view(old(stack)@), Some(s)),
        headings_wf(headings_view(old(roots)@), Some(s)),
        climbing(headings_view(old(stack)@)),
        all_nest(headings_view(old(roots)@)),
    ensures
        (headings_view(final(stack)@), headings_view(final(roots)@)) == unwound(
            headings_view(old(stack)@),
            headings_view(old(roots)@),
            level,
        ),
        headings_wf(headings_view(final(stack)@), Some(s)),
        headings_wf(headings_view(final(roots)@), Some(s)),
        climbing(headings_view(final(stack)@)),
        all_nest(headings_view(final(roots)@)),
        final(stack)@.len() > 0 ==> headings_view(final(stack)@).last().level < level,
{
    loop
        invariant
            headings_wf(headings_view(stack@), Some(s)),
            headings_wf(headings_view(roots@), Some(s)),
            climbing(headings_view(stack@)),
            all_nest(headings_view(roots@)),
            unwound(headings_view(old(stack)@), headings_view(old(roots)@), level) == unwound(
                headings_view(stack@),
                headings_view(roots@),
                level,
            ),
        decreases stack@.len(),
    {
        let k = stack.len();
        if k == 0 || stack[k - 1].level < level {
            proof {
                if k > 0 {
                    assert(headings_view(stack@).last() == stack@[k - 1]@);
                }
            }
            return ;
        }
        let ghost before = stack@;
        proof {
            lemma_headings_view_drop_last(before);
            lemma_headings_wf_drop_last(headings_view(before), s);
            lemma_climbing_drop_last(headings_view(before));
        }
        match stack.pop() {
            Some(done) => {
                attach(stack, roots, done, Ghost(s));
            },
            None => {},
        }
    }
}

/// Closes every open heading and hands out the roots.
#[verifier::loop_isolation(false)]
fn drain(stack: Vec<Heading>, roots: Vec<Heading>, Ghost(s): Ghost<Seq<char>>) -> (r: Vec<Heading>)
    requires
        headings_wf(headings_view(stack@), Some(s)),
        headings_wf(headings_view(roots@), Some(s)),
        climbing(headings_view(stack@)),
        all_nest(headings_view(roots@)),
    ensures
        headings_view(r@) == drained(headings_view(stack@), headings_view(roots@)),
        headings_wf(headings_view(r@), Some(s)),
        all_nest(headings_view(r@)),
{
    let ghost stack0 = stack@;
    let ghost roots0 = roots@;
    let mut stack = stack;
    let mut roots = roots;
    loop
        invariant
            headings_wf(headings_view(stack@), Some(s)),
            headings_wf(headings_view(roots@), Some(s)),
            climbing(headings_view(stack@)),
            all_nest(headings_view(roots@)),
            drained(headings_view(stack0), headings_view(roots0)) == drained(
                headings_view(stack@),
                headings_view(roots@),
            ),
        decreases stack@.len(),
    {
        let ghost before = stack@;
        match stack.pop() {
            Some(done) => {
                proof {
                    lemma_headings_view_drop_last(before);
                    lemma_headings_wf_drop_last(headings_view(before), s);
                    lemma_climbing_drop_last(headings_view(before));
                }
                attach(&mut stack, &mut roots, done, Ghost(s));
            },
            None => {
                return roots;
            },
        }
    }
}

/// Reads the top-level headings from `pos` on, with everything under them.
#[verifier::loop_isolation(false)]
pub fn parse_headings_tree(text: &Vec<char>, table: &Vec<usize>, pos: usize) -> (r: Result<
    Vec<Heading>,
    usize,
>)
    requires
        is_offset_table(table@, text@),
        pos <= text@.len(),
    ensures
        match r {
            Ok(roots) => tree(text@, pos as int, Seq::empty(), Seq::empty()) == Ok::<
                Seq<HeadingView>,
                int,
            >(headings_view(roots@)) && headings_wf(headings_view(roots@), Some(text@))
                && all_nest(headings_view(roots@)),
            Err(at) => tree(text@, pos as int, Seq::empty(), Seq::empty()) == Err::<
                Seq<HeadingView>,
                int,
            >(at as int) && at <= text@.len(),
        },
{
    let ghost s = text@;
    let n = text.len();
    let mut stack: Vec<Heading> = Vec::new();
    let mut roots: Vec<Heading> = Vec::new();
    let mut i: usize = pos;
    assert(headings_view(stack@) =~= Seq::<HeadingView>::empty());
    assert(headings_view(roots@) =~= Seq::<HeadingView>::empty());
    while i < n
        invariant
            pos <= i <= n,
            headings_wf(headings_view(stack@), Some(s)),
            headings_wf(headings_view(roots@), Some(s)),
            climbing(headings_view(stack@)),
            all_nest(headings_view(roots@)),
            tree(s, pos as int, Seq::empty(), Seq::empty()) == tree(
                s,
                i as int,
                headings_view(stack@),
                headings_view(roots@),
            ),
        decreases n - i,
    {
        if !is_heading_at(text, i) {
            let line = match till_eol(text, i) {
                Some(line) => line,
                None => { return Err(i); },
            };
            if stack.len() > 0 && skip(text, i, line.end, CharClass::White) != line.end {
                let ghost before = stack@;
                match stack.pop() {
                    Some(top) => {
                        proof {
                            lemma_headings_view_drop_last(before);
                            lemma_headings_wf_drop_last(headings_view(before), s);
                            lemma_climbing_drop_last(headings_view(before));
                        }
                        let block = Block::Paragraph(parse_rich_text_in(text, i, line.end));
                        let top = push_block(top, block, table, Ghost(s), i, line.next);
                        proof {
                            lemma_headings_view_push(stack@, top);
                            lemma_headings_wf_push(headings_view(stack@), top@, s);
                            lemma_climbing_push(headings_view(stack@), top@);
                        }
                        stack.push(top);
                    },
                    None => {},
                }
            }
            i = line.next;
        } else {
            let (h, p) = headline_in(text, table, i);
            match parse_body(text, table, p, h) {
                Ok((node, q)) => {
                    unwind(&mut stack, &mut roots, node.level, Ghost(s));
                    proof {
                        lemma_headings_view_push(stack@, node);
                        lemma_headings_wf_push(headings_view(stack@), node@, s);
                        lemma_climbing_push(headings_view(stack@), node@);
                    }
                    stack.push(node);
                    i = q;
                },
                Err(at) => { return Err(at); },
            }
        }
    }
    Ok(drain(stack, roots, Ghost(s)))
}

} // verus!
