//! Texts in writing order: the texts whose documents lie in them as the
//! formatter writes them.
//!
//! Under a headline the formatter writes the planning lines first, then the
//! property drawer, then the logbook, then everything else, and the deeper
//! headings last; and it starts each deeper heading on a line of its own. A
//! text is in writing order if every heading of it has its parts in that
//! order: planning lines only directly under the headline, at most one
//! property drawer and only before logbook and text, at most one logbook and
//! only before the text, and no deeper heading on a line that something else
//! begins. The document of such a text is in source order.

use crate::model::{BlockView, BlockWithSourceView};
use crate::order::{
    behind_newline, blocks_end, char_at_byte, heading_end, headings_end, in_source_order,
    lemma_char_at_byte, own_end, part_end,
};
use crate::parser::body::{
    apply_item, body, drained, flushed, gathered_with, item_at, level_run, tree, unwound,
    Gathered, Item,
};
use crate::parser::headline::headline_at;
use crate::parser::inline::rich_text;
use crate::parser::lines::{heading_line_at, level_at, line_end, next_line};
use crate::parser::parse_document;
use crate::parser::preamble::{
    directive_at, directive_taken, empty_front, front_flushed, front_with_block, preamble_from,
    with_directive, Front,
};
use crate::parser::timestamp::Scan;
use crate::source::{
    byte_pos, lemma_byte_pos_monotonic, lemma_byte_pos_step, lemma_span, span, SourceRange,
};
use crate::text::{is_blank, trimmed};
use crate::tree::HeadingView;
use vstd::prelude::*;
use vstd::utf8::*;

verus! {

/* ------------------------------ Writing order ------------------------------ */

/// How far what stands under a headline has got, after `item`: 1 for
/// planning lines, 2 for the property drawer, 3 for the logbook, 4 for
/// everything else.
pub open spec fn stage_after(item: Item) -> int {
    match item {
        Item::Planning(_) => 1,
        Item::Properties(_) => 2,
        Item::Logbook(_, _) => 3,
        _ => 4,
    }
}

/// Whether `item` may stand where what stands under the headline has got
/// as far as `stage`: 0 for the headline alone, 5 for deeper headings.
pub open spec fn comes_in_order(stage: int, item: Item) -> bool {
    match item {
        Item::Planning(_) => stage <= 1,
        Item::Properties(_) => stage <= 1,
        Item::Logbook(_, _) => stage <= 2,
        _ => stage <= 4,
    }
}

/// Whether what stands under a headline of the given level, from `pos` on,
/// is in writing order, where it has got as far as `stage`.
pub open spec fn body_in_order(s: Seq<char>, pos: int, level: u8, stage: int) -> bool
    decreases s.len() - pos, 1int,
{
    let n = s.len() as int;
    if pos >= n {
        true
    } else if heading_line_at(s, pos) {
        if level_at(s, pos) > level {
            run_in_order(s, pos, level_at(s, pos)) && match level_run(
                s,
                pos,
                level_at(s, pos),
                Seq::empty(),
            ) {
                Ok((_, next)) => pos < next <= n ==> body_in_order(s, next, level, 5),
                Err(_) => true,
            }
        } else {
            true
        }
    } else {
        match item_at(s, pos) {
            Scan::Found(item, next) => pos < next <= n ==> comes_in_order(stage, item)
                && body_in_order(s, next, level, stage_after(item)),
            _ => true,
        }
    }
}

/// Whether the run of headings of the given level that starts at `pos` is
/// in writing order: each starts a line, and what stands under each is in
/// writing order.
pub open spec fn run_in_order(s: Seq<char>, pos: int, level: u8) -> bool
    decreases s.len() - pos, 0int,
{
    let n = s.len() as int;
    if pos < n && heading_line_at(s, pos) && level_at(s, pos) == level {
        let (h, p) = headline_at(s, pos);
        behind_newline(s, pos) && (pos < p <= n ==> body_in_order(s, p, h.level, 0) && match body(
            s,
            p,
            h,
            None,
        ) {
            Ok((_, q)) => p <= q <= n ==> run_in_order(s, q, level),
            Err(_) => true,
        })
    } else {
        true
    }
}

/// Whether the top-level headings from `pos` on are in writing order.
pub open spec fn roots_in_order(s: Seq<char>, pos: int) -> bool
    decreases s.len() - pos,
{
    let n = s.len() as int;
    if pos < n && heading_line_at(s, pos) {
        let (h, p) = headline_at(s, pos);
        pos < p <= n ==> body_in_order(s, p, h.level, 0) && match body(s, p, h, None) {
            Ok((_, q)) => p <= q <= n ==> roots_in_order(s, q),
            Err(_) => true,
        }
    } else {
        true
    }
}

/// Whether a text is in writing order: whether every heading of it has
/// what stands under its headline in the order in which the formatter
/// writes it.
pub open spec fn in_writing_order(s: Seq<char>) -> bool {
    match preamble_from(s, 0, empty_front()) {
        Ok((_, pos)) => roots_in_order(s, pos),
        Err(_) => true,
    }
}

/* ------------------------------- Single parts ------------------------------- */

/// The character position of the byte position of a character position is
/// that character position.
proof fn lemma_found(s: Seq<char>, k: int, j: int)
    requires
        0 <= k <= j <= s.len(),
    ensures
        char_at_byte(s, k, byte_pos(s, j)) == Some(j),
    decreases j - k,
{
    if k < j {
        lemma_byte_pos_step(s, k);
        lemma_byte_pos_monotonic(s, k + 1, j);
        lemma_found(s, k + 1, j);
    }
}

/// A part that was read from `s[k..j]` ends at `j`.
proof fn lemma_part_read(s: Seq<char>, k: int, j: int, nothing_to_write: bool)
    requires
        0 <= k <= j <= s.len(),
        encode_utf8(s).len() <= usize::MAX,
    ensures
        part_end(Some(span(s, k, j)), nothing_to_write, s, k) == Some(j),
{
    lemma_span(s, k, j);
    lemma_found(s, k, j);
}

/// Blocks that end at `p`, with one more that was read from `s[p..j]`, end
/// at `j`.
proof fn lemma_block_read(
    blocks: Seq<BlockWithSourceView>,
    block: BlockView,
    s: Seq<char>,
    k: int,
    p: int,
    j: int,
)
    requires
        0 <= p <= j <= s.len(),
        encode_utf8(s).len() <= usize::MAX,
        blocks_end(blocks, s, k) == Some(p),
    ensures
        blocks_end(
            blocks.push(BlockWithSourceView { block, source: Some(span(s, p, j)) }),
            s,
            k,
        ) == Some(j),
{
    let more = blocks.push(BlockWithSourceView { block, source: Some(span(s, p, j)) });
    assert(more.drop_last() =~= blocks);
    lemma_part_read(s, p, j, false);
}

/// Headings that end at `p`, followed by headings that lie from `p` to
/// `q`, end at `q`.
proof fn lemma_headings_joined(
    a: Seq<HeadingView>,
    b: Seq<HeadingView>,
    s: Seq<char>,
    k: int,
    p: int,
    q: int,
    is_root: bool,
)
    requires
        headings_end(a, s, k, is_root) == Some(p),
        headings_end(b, s, p, is_root) == Some(q),
    ensures
        headings_end(a + b, s, k, is_root) == Some(q),
    decreases b.len(),
{
    if b.len() == 0 {
        assert(a + b =~= a);
    } else {
        let all = a + b;
        assert(all.drop_last() =~= a + b.drop_last());
        assert(all.last() == b.last());
        match headings_end(b.drop_last(), s, p, is_root) {
            Some(m) => {
                lemma_headings_joined(a, b.drop_last(), s, k, p, m, is_root);
            },
            None => {},
        }
    }
}

/* -------------------------------- The preamble ------------------------------- */

/// Where the blocks of the preamble have got to: the start of the
/// paragraph that is being gathered, or `pos`.
pub open spec fn front_at(f: Front, pos: int) -> int {
    match f.para {
        Some((start, _)) => start,
        None => pos,
    }
}

/// The blocks of a preamble lie in the text one behind the other, from its
/// start to the first heading.
proof fn lemma_preamble(s: Seq<char>, pos: int, f: Front)
    requires
        encode_utf8(s).len() <= usize::MAX,
        0 <= front_at(f, pos) <= pos <= s.len(),
        blocks_end(f.blocks, s, 0) == Some(front_at(f, pos)),
        preamble_from(s, pos, f) is Ok,
    ensures
        ({
            let (g, q) = preamble_from(s, pos, f)->Ok_0;
            &&& blocks_end(g.blocks, s, 0) == Some(q)
            &&& pos <= q <= s.len()
            &&& (q < s.len() ==> heading_line_at(s, q))
        }),
    decreases s.len() - pos,
{
    let n = s.len() as int;
    let at = front_at(f, pos);
    let done = front_flushed(f, s, pos);
    match f.para {
        Some((start, text)) => {
            lemma_block_read(
                f.blocks,
                BlockView::Paragraph(rich_text(text)),
                s,
                0,
                start,
                pos,
            );
        },
        None => {},
    }
    assert(blocks_end(done.blocks, s, 0) == Some(pos));
    assert(done.para is None);
    if pos >= n || heading_line_at(s, pos) {
    } else {
        match directive_at(s, pos) {
            Some(d) => {
                let taken = directive_taken(done, s, pos, d);
                assert(taken.blocks == done.blocks && taken.para == done.para);
                let next = with_directive(f, s, pos, d);
                let (a, b) = trimmed(s, d.value_start, d.value_end);
                lemma_block_read(
                    taken.blocks,
                    BlockView::Directive {
                        key: s.subrange(pos + 2, d.key_end),
                        value: s.subrange(a, b),
                    },
                    s,
                    0,
                    pos,
                    d.next,
                );
                lemma_preamble(s, d.next, next);
            },
            None => {
                let e = line_end(s, pos);
                let next = next_line(s, pos);
                if is_blank(s, pos, e) {
                    lemma_block_read(done.blocks, BlockView::Paragraph(Seq::empty()), s, 0, pos, next);
                    lemma_preamble(
                        s,
                        next,
                        front_with_block(
                            done,
                            BlockView::Paragraph(Seq::empty()),
                            span(s, pos, next),
                        ),
                    );
                } else {
                    lemma_preamble(
                        s,
                        next,
                        Front {
                            para: gathered_with(
                                f.para,
                                pos,
                                s.subrange(pos, e),
                            ),
                            ..f
                        },
                    );
                }
            },
        }
    }
}

/* ------------------------------ Under a headline ----------------------------- */

/// Where the parts of a heading have got to: the start of the paragraph
/// that is being gathered, or `pos`.
pub open spec fn gathered_at(para: Gathered, pos: int) -> int {
    match para {
        Some((start, _)) => start,
        None => pos,
    }
}

/// Whether the heading `node`, which starts at `start` and has been read
/// up to `pos` and as far as `stage`, lies in the text in the order in
/// which it is written.
pub open spec fn lies_so_far(
    node: HeadingView,
    para: Gathered,
    s: Seq<char>,
    start: int,
    pos: int,
    stage: int,
) -> bool {
    let at = gathered_at(para, pos);
    &&& 0 <= stage <= 5
    &&& 0 <= start <= at <= pos <= s.len()
    &&& (para is Some ==> stage == 4)
    &&& match own_end(node, s, start) {
        Some(c) => if stage < 5 {
            c == at && node.children.len() == 0
        } else {
            headings_end(node.children, s, c, false) == Some(pos)
        },
        None => false,
    }
    &&& (stage <= 3 ==> node.blocks.len() == 0)
    &&& (stage <= 2 ==> node.logbook_range is None && node.logbook.clock.len() == 0
        && node.logbook.raw.len() == 0)
    &&& (stage <= 1 ==> node.properties_range is None && node.properties.len() == 0)
    &&& (stage == 0 ==> node.planning_range is None && node.planning.is_empty())
}

/// The heading that a headline opens lies in the text so far.
proof fn lemma_headline(s: Seq<char>, pos: int)
    requires
        encode_utf8(s).len() <= usize::MAX,
        0 <= pos < headline_at(s, pos).1 <= s.len(),
    ensures
        lies_so_far(headline_at(s, pos).0, None, s, pos, headline_at(s, pos).1, 0),
        headline_at(s, pos).0.level == level_at(s, pos),
{
    let (h, p) = headline_at(s, pos);
    lemma_part_read(s, pos, p, false);
    assert(h.blocks =~= Seq::<BlockWithSourceView>::empty());
    assert(blocks_end(h.blocks, s, p) == Some(p));
}

/// A heading that lies in the text so far still does after the paragraph
/// that was being gathered has become its last block.
proof fn lemma_flushed(node: HeadingView, para: Gathered, s: Seq<char>, start: int, pos: int, stage: int)
    requires
        encode_utf8(s).len() <= usize::MAX,
        lies_so_far(node, para, s, start, pos, stage),
    ensures
        lies_so_far(flushed(node, para, s, pos), None, s, start, pos, stage),
        flushed(node, para, s, pos).level == node.level,
        flushed(node, para, s, pos).children == node.children,
{
    match para {
        Some((from, text)) => {
            lemma_own_parts(node, s, start);
            let d = blocks_start(node, s, start);
            lemma_block_read(
                node.blocks,
                BlockView::Paragraph(rich_text(text)),
                s,
                d,
                from,
                pos,
            );
        },
        None => {},
    }
}

/// Where the blocks of a heading start if its parts before them lie one
/// behind the other from `start` on.
pub open spec fn blocks_start(h: HeadingView, s: Seq<char>, start: int) -> int {
    let a = part_end(h.headline_range, false, s, start)->0;
    let b = part_end(h.planning_range, h.planning.is_empty(), s, a)->0;
    let c = part_end(h.properties_range, h.properties.len() == 0, s, b)->0;
    part_end(h.logbook_range, h.logbook.clock.len() == 0 && h.logbook.raw.len() == 0, s, c)->0
}

/// The own parts of a heading end where its blocks end.
proof fn lemma_own_parts(h: HeadingView, s: Seq<char>, start: int)
    requires
        own_end(h, s, start) is Some,
    ensures
        own_end(h, s, start) == blocks_end(h.blocks, s, blocks_start(h, s, start)),
{
}

/// A heading that lies in the text so far still does after one more item
/// was read that comes in order.
proof fn lemma_item(
    s: Seq<char>,
    start: int,
    pos: int,
    next: int,
    node: HeadingView,
    para: Gathered,
    item: Item,
    stage: int,
)
    requires
        encode_utf8(s).len() <= usize::MAX,
        lies_so_far(node, para, s, start, pos, stage),
        comes_in_order(stage, item),
        pos < next <= s.len(),
    ensures
        ({
            let (node2, para2) = apply_item(s, pos, next, node, para, item);
            &&& lies_so_far(node2, para2, s, start, next, stage_after(item))
            &&& node2.level == node.level
        }),
{
    let done = flushed(node, para, s, pos);
    lemma_flushed(node, para, s, start, pos, stage);
    let a = part_end(done.headline_range, false, s, start)->0;
    match done.headline_range {
        Some(r) => {
            lemma_char_at_byte(s, start, r.end as int);
        },
        None => {},
    }
    match item {
        Item::Planning(p) => {
            assert(blocks_end(done.blocks, s, pos) == Some(pos));
            match done.planning_range {
                Some(r) => {
                    lemma_char_at_byte(s, a, r.end as int);
                },
                None => {},
            }
            lemma_span(s, pos, next);
            lemma_found(s, a, next);
            lemma_part_read(s, pos, next, false);
        },
        Item::Properties(props) => {
            assert(blocks_end(done.blocks, s, pos) == Some(pos));
            lemma_part_read(s, pos, next, props.len() == 0);
        },
        Item::Logbook(clock, raw) => {
            assert(blocks_end(done.blocks, s, pos) == Some(pos));
            lemma_part_read(s, pos, next, clock.len() == 0 && raw.len() == 0);
        },
        Item::Block(block) => {
            lemma_own_parts(done, s, start);
            lemma_block_read(done.blocks, block, s, blocks_start(done, s, start), pos, next);
        },
        Item::Blank => {
            lemma_own_parts(done, s, start);
            lemma_block_read(
                done.blocks,
                BlockView::Paragraph(Seq::empty()),
                s,
                blocks_start(done, s, start),
                pos,
                next,
            );
        },
        Item::Text(e) => {},
    }
}

/// A heading that lies in the text so far, and has in writing order what
/// is still to come, lies in the text as a whole once that was read.
proof fn lemma_body(
    s: Seq<char>,
    start: int,
    pos: int,
    node: HeadingView,
    para: Gathered,
    stage: int,
    is_root: bool,
)
    requires
        encode_utf8(s).len() <= usize::MAX,
        lies_so_far(node, para, s, start, pos, stage),
        is_root || behind_newline(s, start),
        body(s, pos, node, para) is Ok,
        body_in_order(s, pos, node.level, stage),
    ensures
        ({
            let (r, q) = body(s, pos, node, para)->Ok_0;
            &&& heading_end(r, s, start, is_root) == Some(q)
            &&& pos <= q <= s.len()
            &&& r.level == node.level
            &&& (q < s.len() ==> heading_line_at(s, q) && level_at(s, q) <= node.level)
        }),
    decreases s.len() - pos, 1int,
{
    let n = s.len() as int;
    let done = flushed(node, para, s, pos);
    if pos >= n || heading_line_at(s, pos) {
        lemma_flushed(node, para, s, start, pos, stage);
        if pos < n && level_at(s, pos) > node.level {
            let level = level_at(s, pos);
            assert(headings_end(Seq::<HeadingView>::empty(), s, pos, false) == Some(pos));
            lemma_run(s, pos, pos, level, Seq::empty());
            let (kids, next) = level_run(s, pos, level, Seq::empty())->Ok_0;
            let c = own_end(done, s, start)->0;
            if stage < 5 {
                assert(done.children + kids =~= kids);
            } else {
                lemma_headings_joined(done.children, kids, s, c, pos, next, false);
            }
            let grown = HeadingView { children: done.children + kids, ..done };
            assert(own_end(grown, s, start) == own_end(done, s, start));
            lemma_body(s, start, next, grown, None, 5, is_root);
        } else {
            let c = own_end(done, s, start)->0;
            if stage < 5 {
                assert(headings_end(done.children, s, c, false) == Some(pos));
            }
        }
    } else {
        match item_at(s, pos) {
            Scan::Found(item, next) => {
                lemma_item(s, start, pos, next, node, para, item, stage);
                let (node2, para2) = apply_item(s, pos, next, node, para, item);
                lemma_body(s, start, next, node2, para2, stage_after(item), is_root);
            },
            _ => {},
        }
    }
}

/// A run of headings that is in writing order lies in the text, one heading
/// behind the other.
proof fn lemma_run(s: Seq<char>, from: int, pos: int, level: u8, acc: Seq<HeadingView>)
    requires
        encode_utf8(s).len() <= usize::MAX,
        0 <= from <= pos <= s.len(),
        headings_end(acc, s, from, false) == Some(pos),
        level_run(s, pos, level, acc) is Ok,
        run_in_order(s, pos, level),
    ensures
        ({
            let (kids, next) = level_run(s, pos, level, acc)->Ok_0;
            &&& headings_end(kids, s, from, false) == Some(next)
            &&& pos <= next <= s.len()
        }),
    decreases s.len() - pos, 0int,
{
    let n = s.len() as int;
    if pos < n && heading_line_at(s, pos) && level_at(s, pos) == level {
        let (h, p) = headline_at(s, pos);
        lemma_headline(s, pos);
        lemma_body(s, pos, p, h, None, 0, false);
        let (node, q) = body(s, p, h, None)->Ok_0;
        let more = acc.push(node);
        assert(more.drop_last() =~= acc);
        assert(headings_end(more, s, from, false) == Some(q));
        lemma_run(s, from, q, level, more);
    }
}

/* -------------------------------- The document ------------------------------- */

/// The top-level headings of a text in writing order lie in the text, one
/// behind the other, up to its end.
proof fn lemma_tree(
    s: Seq<char>,
    from: int,
    pos: int,
    stack: Seq<HeadingView>,
    roots: Seq<HeadingView>,
)
    requires
        encode_utf8(s).len() <= usize::MAX,
        0 <= from <= pos <= s.len(),
        tree(s, pos, stack, roots) is Ok,
        roots_in_order(s, pos),
        pos < s.len() ==> heading_line_at(s, pos),
        stack.len() <= 1,
        stack.len() == 0 ==> headings_end(roots, s, from, true) == Some(pos),
        stack.len() == 1 ==> headings_end(roots.push(stack[0]), s, from, true) == Some(pos) && (pos
            < s.len() ==> level_at(s, pos) <= stack[0].level),
    ensures
        headings_end(tree(s, pos, stack, roots)->Ok_0, s, from, true) == Some(s.len() as int),
    decreases s.len() - pos,
{
    let n = s.len() as int;
    if pos >= n {
        if stack.len() == 1 {
            assert(stack.drop_last() =~= Seq::<HeadingView>::empty());
            assert(stack.last() == stack[0]);
            assert(drained(stack, roots) == drained(
                Seq::<HeadingView>::empty(),
                roots.push(stack[0]),
            ));
        }
    } else {
        let (h, p) = headline_at(s, pos);
        lemma_headline(s, pos);
        lemma_body(s, pos, p, h, None, 0, true);
        let (node, q) = body(s, p, h, None)->Ok_0;
        let (open, grown) = unwound(stack, roots, node.level);
        if stack.len() == 1 {
            assert(stack.drop_last() =~= Seq::<HeadingView>::empty());
            assert(stack.last() == stack[0]);
            assert(unwound(stack, roots, node.level) == unwound(
                Seq::<HeadingView>::empty(),
                roots.push(stack[0]),
                node.level,
            ));
        }
        assert(open.len() == 0);
        assert(headings_end(grown, s, from, true) == Some(pos));
        let next_stack = open.push(node);
        assert(next_stack[0] == node);
        let all = grown.push(node);
        assert(all.drop_last() =~= grown);
        lemma_tree(s, from, q, next_stack, grown);
    }
}

/// The document of a text in writing order is in source order.
pub proof fn lemma_writing_order(s: Seq<char>)
    requires
        encode_utf8(s).len() <= usize::MAX,
        parse_document(s) is Ok,
        in_writing_order(s),
    ensures
        in_source_order(parse_document(s)->Ok_0),
{
    let start = empty_front();
    assert(blocks_end(start.blocks, s, 0) == Some(0int));
    lemma_preamble(s, 0, start);
    let (front, pos) = preamble_from(s, 0, start)->Ok_0;
    assert(headings_end(Seq::<HeadingView>::empty(), s, pos, true) == Some(pos));
    lemma_tree(s, pos, pos, Seq::empty(), Seq::empty());
}

} // verus!
