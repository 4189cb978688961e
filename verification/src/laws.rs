//! What holds of parsing and formatting together.
//!
//! The formatter writes headline, planning, properties, logbook, blocks and
//! children in that order, whatever order the source text had them in. So
//! it gives the source text back when the document is in source order: when
//! its ranges, read in that order, lie one behind the other and cover the
//! text. The document of a text in writing order is in source order, so
//! such a text comes back from parsing and formatting. The first laws here
//! say so; the last says what inserting a block changes.

use crate::format::{
    format_text, heading_onto, heading_own_text, headings_onto, logbook_canonical, on_new_line,
    part_text, planning_canonical, properties_canonical, sourced_block_text, sourced_blocks_text,
};
use crate::model::BlockWithSourceView;
use crate::order::{
    blocks_end, char_at_byte, heading_end, headings_end, in_source_order, lemma_char_at_byte,
    own_end, part_end,
};
use crate::parser::parse_document;
use crate::source::{lemma_text_between, SourceRange};
use crate::tree::{HeadingView, OrgFileView};
use crate::writing_order::{in_writing_order, lemma_writing_order};
use vstd::prelude::*;
use vstd::utf8::*;

verus! {

/* -------------------------------- Round trip -------------------------------- */

/// A part that ends somewhere is written as the text from where it starts
/// to where it ends.
proof fn lemma_part(
    out: Seq<char>,
    range: Option<SourceRange>,
    canonical: Seq<char>,
    s: Seq<char>,
    k: int,
)
    requires
        0 <= k <= s.len(),
        out == s.subrange(0, k),
        part_end(range, canonical.len() == 0, s, k) is Some,
    ensures
        ({
            let j = part_end(range, canonical.len() == 0, s, k)->0;
            &&& k <= j <= s.len()
            &&& out + part_text(range, Some(s), canonical) == s.subrange(0, j)
        }),
{
    match range {
        Some(r) => {
            lemma_char_at_byte(s, k, r.end as int);
            let j = char_at_byte(s, k, r.end as int)->0;
            lemma_text_between(s, k, j);
            assert(s.subrange(0, k) + s.subrange(k, j) =~= s.subrange(0, j));
        },
        None => {
            assert(out + canonical =~= out);
        },
    }
}

/// Blocks that lie one behind the other are written as the text that they
/// cover.
proof fn lemma_blocks(out: Seq<char>, blocks: Seq<BlockWithSourceView>, s: Seq<char>, k: int)
    requires
        0 <= k <= s.len(),
        out == s.subrange(0, k),
        blocks_end(blocks, s, k) is Some,
    ensures
        ({
            let j = blocks_end(blocks, s, k)->0;
            &&& k <= j <= s.len()
            &&& out + sourced_blocks_text(blocks, Some(s)) == s.subrange(0, j)
        }),
    decreases blocks.len(),
{
    if blocks.len() == 0 {
        assert(out + sourced_blocks_text(blocks, Some(s)) =~= out);
    } else {
        let head = blocks.drop_last();
        lemma_blocks(out, head, s, k);
        let p = blocks_end(head, s, k)->0;
        let mid = out + sourced_blocks_text(head, Some(s));
        let r = blocks.last().source->0;
        lemma_part(mid, Some(r), crate::format::block_text(blocks.last().block), s, p);
        assert(out + sourced_blocks_text(blocks, Some(s)) =~= mid + sourced_block_text(
            blocks.last(),
            Some(s),
        ));
    }
}

/// The own parts of a heading that lie one behind the other are written as
/// the text that they cover.
proof fn lemma_own(out: Seq<char>, h: HeadingView, s: Seq<char>, k: int)
    requires
        0 <= k <= s.len(),
        out == s.subrange(0, k),
        own_end(h, s, k) is Some,
    ensures
        ({
            let j = own_end(h, s, k)->0;
            &&& k <= j <= s.len()
            &&& out + heading_own_text(h, Some(s)) == s.subrange(0, j)
        }),
{
    let src = Some(s);
    let t1 = part_text(h.headline_range, src, crate::format::headline_text(h));
    let t2 = part_text(h.planning_range, src, planning_canonical(h.planning));
    let t3 = part_text(h.properties_range, src, properties_canonical(h.properties));
    let t4 = part_text(h.logbook_range, src, logbook_canonical(h.logbook));
    let t5 = sourced_blocks_text(h.blocks, src);
    let a = part_end(h.headline_range, false, s, k)->0;
    match h.headline_range {
        Some(r) => {
            lemma_part(out, h.headline_range, Seq::empty(), s, k);
        },
        None => {},
    }
    lemma_part(out + t1, h.planning_range, planning_canonical(h.planning), s, a);
    let b = part_end(h.planning_range, h.planning.is_empty(), s, a)->0;
    lemma_part(out + t1 + t2, h.properties_range, properties_canonical(h.properties), s, b);
    let c = part_end(h.properties_range, h.properties.len() == 0, s, b)->0;
    lemma_part(out + t1 + t2 + t3, h.logbook_range, logbook_canonical(h.logbook), s, c);
    let d = part_end(
        h.logbook_range,
        h.logbook.clock.len() == 0 && h.logbook.raw.len() == 0,
        s,
        c,
    )->0;
    lemma_blocks(out + t1 + t2 + t3 + t4, h.blocks, s, d);
    assert(out + heading_own_text(h, src) =~= out + t1 + t2 + t3 + t4 + t5);
}

/// A heading that lies in the text in the order of writing is written as
/// the text that it covers.
proof fn lemma_heading(out: Seq<char>, h: HeadingView, s: Seq<char>, k: int, is_root: bool)
    requires
        0 <= k <= s.len(),
        out == s.subrange(0, k),
        heading_end(h, s, k, is_root) is Some,
    ensures
        ({
            let j = heading_end(h, s, k, is_root)->0;
            &&& k <= j <= s.len()
            &&& heading_onto(out, h, Some(s), is_root) == s.subrange(0, j)
        }),
    decreases h, 1int,
{
    if !is_root {
        assert(out.last() == s[k - 1]);
    }
    assert(on_new_line(out, is_root) == out);
    lemma_own(out, h, s, k);
    let p = own_end(h, s, k)->0;
    lemma_headings(out + heading_own_text(h, Some(s)), h.children, s, p, false);
}

/// Headings that lie in the text one behind the other are written as the
/// text that they cover.
proof fn lemma_headings(out: Seq<char>, v: Seq<HeadingView>, s: Seq<char>, k: int, is_root: bool)
    requires
        0 <= k <= s.len(),
        out == s.subrange(0, k),
        headings_end(v, s, k, is_root) is Some,
    ensures
        ({
            let j = headings_end(v, s, k, is_root)->0;
            &&& k <= j <= s.len()
            &&& headings_onto(out, v, Some(s), is_root) == s.subrange(0, j)
        }),
    decreases v, 0int,
{
    if v.len() > 0 {
        lemma_headings(out, v.drop_last(), s, k, is_root);
        let p = headings_end(v.drop_last(), s, k, is_root)->0;
        lemma_heading(headings_onto(out, v.drop_last(), Some(s), is_root), v.last(), s, p, is_root);
    }
}

/// A document that lies in its source text in the order in which it is
/// written is formatted to that text.
pub proof fn lemma_source_order_gives_source(f: OrgFileView)
    requires
        in_source_order(f),
    ensures
        f.source_text == Some(format_text(f)),
{
    let s = f.source_text->0;
    let start = Seq::<char>::empty();
    assert(start =~= s.subrange(0, 0));
    lemma_blocks(start, f.preamble, s, 0);
    let p = blocks_end(f.preamble, s, 0)->0;
    assert(start + sourced_blocks_text(f.preamble, Some(s)) =~= sourced_blocks_text(
        f.preamble,
        Some(s),
    ));
    lemma_headings(sourced_blocks_text(f.preamble, Some(s)), f.headings, s, p, true);
    assert(s.subrange(0, s.len() as int) =~= s);
}

/// Round trip: a text whose document lies in it in source order is given
/// back by parsing and formatting.
///
/// The condition leaves out the texts that cannot come back, because the
/// formatter writes what stands under a headline in one order only. Every
/// text in writing order meets it, and so do a few others: a property
/// drawer between two planning lines is covered by their range, and comes
/// back with them if a later drawer takes its place.
pub proof fn lemma_round_trip(s: Seq<char>)
    requires
        parse_document(s) is Ok,
        in_source_order(parse_document(s)->Ok_0),
    ensures
        format_text(parse_document(s)->Ok_0) == s,
{
    let f = parse_document(s)->Ok_0;
    assert(f.source_text == Some(s));
    lemma_source_order_gives_source(f);
}

/// Idempotence: parsing and formatting what parsing and formatting gave
/// gives the same text again, for a text whose document lies in it in
/// source order.
pub proof fn lemma_format_parse_idempotent(s: Seq<char>)
    requires
        parse_document(s) is Ok,
        in_source_order(parse_document(s)->Ok_0),
    ensures
        parse_document(format_text(parse_document(s)->Ok_0)) is Ok,
        format_text(parse_document(format_text(parse_document(s)->Ok_0))->Ok_0) == format_text(
            parse_document(s)->Ok_0,
        ),
{
    lemma_round_trip(s);
}

/// Round trip, for texts in writing order: a text in which every heading
/// has its planning lines first, then at most one property drawer, then at
/// most one logbook, then everything else, and each deeper heading on a
/// line of its own, is given back by parsing and formatting, and so is what
/// parsing and formatting made of it. The bound on the length is the one
/// that every string keeps.
pub proof fn lemma_writing_order_round_trips(s: Seq<char>)
    requires
        encode_utf8(s).len() <= usize::MAX,
        parse_document(s) is Ok,
        in_writing_order(s),
    ensures
        format_text(parse_document(s)->Ok_0) == s,
        format_text(parse_document(format_text(parse_document(s)->Ok_0))->Ok_0) == format_text(
            parse_document(s)->Ok_0,
        ),
{
    lemma_writing_order(s);
    lemma_round_trip(s);
}

/// Whether a text ends in a line break.
pub open spec fn ends_in_newline(t: Seq<char>) -> bool {
    t.len() > 0 && t.last() == '\n'
}

/* ---------------------------- Inserting a block ---------------------------- */

/// What a text has after its first `n` characters. Written out so that
/// the laws below read as they are meant.
pub open spec fn after(whole: Seq<char>, n: nat) -> Seq<char> {
    whole.skip(n as int)
}

/// The text of blocks that stand one behind the other is the text of the
/// first run and then the text of the second.
proof fn lemma_blocks_text_concat(
    a: Seq<BlockWithSourceView>,
    b: Seq<BlockWithSourceView>,
    source: Option<Seq<char>>,
)
    ensures
        sourced_blocks_text(a + b, source) == sourced_blocks_text(a, source) + sourced_blocks_text(
            b,
            source,
        ),
    decreases b.len(),
{
    if b.len() == 0 {
        assert(a + b =~= a);
        assert(sourced_blocks_text(a, source) + sourced_blocks_text(b, source)
            =~= sourced_blocks_text(a, source));
    } else {
        lemma_blocks_text_concat(a, b.drop_last(), source);
        assert((a + b).drop_last() =~= a + b.drop_last());
        assert((a + b).last() == b.last());
        assert(sourced_blocks_text(a + b, source) =~= sourced_blocks_text(a, source)
            + sourced_blocks_text(b, source));
    }
}

/// Writing headings that stand one behind the other is writing the first
/// run and then the second.
proof fn lemma_headings_onto_concat(
    out: Seq<char>,
    a: Seq<HeadingView>,
    b: Seq<HeadingView>,
    source: Option<Seq<char>>,
    is_root: bool,
)
    ensures
        headings_onto(out, a + b, source, is_root) == headings_onto(
            headings_onto(out, a, source, is_root),
            b,
            source,
            is_root,
        ),
    decreases b.len(),
{
    if b.len() == 0 {
        assert(a + b =~= a);
    } else {
        lemma_headings_onto_concat(out, a, b.drop_last(), source, is_root);
        assert((a + b).drop_last() =~= a + b.drop_last());
        assert((a + b).last() == b.last());
    }
}

/// Writing one heading as a run of headings is writing that heading.
proof fn lemma_headings_onto_one(
    out: Seq<char>,
    h: HeadingView,
    source: Option<Seq<char>>,
    is_root: bool,
)
    ensures
        headings_onto(out, seq![h], source, is_root) == heading_onto(out, h, source, is_root),
{
    let v = seq![h];
    assert(v.drop_last() =~= Seq::<HeadingView>::empty());
    assert(v.last() == h);
    assert(headings_onto(out, v.drop_last(), source, is_root) == out);
}

/// A heading is written behind the text that is there, and what is written
/// depends on that text only in whether it ends in a line break.
proof fn lemma_heading_appends(
    out1: Seq<char>,
    out2: Seq<char>,
    h: HeadingView,
    source: Option<Seq<char>>,
    is_root: bool,
)
    requires
        ends_in_newline(out1) == ends_in_newline(out2),
    ensures
        heading_onto(out1, h, source, is_root) == out1 + after(
            heading_onto(out1, h, source, is_root),
            out1.len(),
        ),
        after(heading_onto(out1, h, source, is_root), out1.len()) == after(
            heading_onto(out2, h, source, is_root),
            out2.len(),
        ),
    decreases h, 1int,
{
    let own = heading_own_text(h, source);
    let fix = if !is_root && !ends_in_newline(out1) {
        seq!['\n']
    } else {
        Seq::<char>::empty()
    };
    let y1 = on_new_line(out1, is_root) + own;
    let y2 = on_new_line(out2, is_root) + own;
    assert(y1 =~= out1 + (fix + own));
    assert(y2 =~= out2 + (fix + own));
    assert(ends_in_newline(y1) == ends_in_newline(y2));
    lemma_headings_append(y1, y2, h.children, source, false);
    let t1 = after(headings_onto(y1, h.children, source, false), y1.len());
    let t2 = after(headings_onto(y2, h.children, source, false), y2.len());
    let w1 = heading_onto(out1, h, source, is_root);
    let w2 = heading_onto(out2, h, source, is_root);
    assert(w1 == y1 + t1);
    lemma_headings_append(y2, y1, h.children, source, false);
    assert(w2 == y2 + t2);
    assert(w1 =~= out1 + (fix + own + t1));
    assert(w2 =~= out2 + (fix + own + t1));
    assert(after(w1, out1.len()) =~= fix + own + t1);
    assert(after(w2, out2.len()) =~= fix + own + t1);
}

/// Headings are written behind the text that is there, and what is written
/// depends on that text only in whether it ends in a line break.
proof fn lemma_headings_append(
    out1: Seq<char>,
    out2: Seq<char>,
    v: Seq<HeadingView>,
    source: Option<Seq<char>>,
    is_root: bool,
)
    requires
        ends_in_newline(out1) == ends_in_newline(out2),
    ensures
        headings_onto(out1, v, source, is_root) == out1 + after(
            headings_onto(out1, v, source, is_root),
            out1.len(),
        ),
        after(headings_onto(out1, v, source, is_root), out1.len()) == after(
            headings_onto(out2, v, source, is_root),
            out2.len(),
        ),
    decreases v, 0int,
{
    if v.len() == 0 {
        assert(after(out1, out1.len()) =~= Seq::<char>::empty());
        assert(after(out2, out2.len()) =~= Seq::<char>::empty());
        assert(out1 + Seq::<char>::empty() =~= out1);
    } else {
        let head = v.drop_last();
        lemma_headings_append(out1, out2, head, source, is_root);
        lemma_headings_append(out2, out1, head, source, is_root);
        let m1 = headings_onto(out1, head, source, is_root);
        let m2 = headings_onto(out2, head, source, is_root);
        let t = after(m1, out1.len());
        assert(m1 == out1 + t);
        assert(m2 == out2 + t);
        assert(ends_in_newline(m1) == ends_in_newline(m2));
        lemma_heading_appends(m1, m2, v.last(), source, is_root);
        lemma_heading_appends(m2, m1, v.last(), source, is_root);
        let u = after(heading_onto(m1, v.last(), source, is_root), m1.len());
        let w1 = headings_onto(out1, v, source, is_root);
        let w2 = headings_onto(out2, v, source, is_root);
        assert(w1 == m1 + u);
        assert(w2 == m2 + u);
        assert(w1 =~= out1 + (t + u));
        assert(w2 =~= out2 + (t + u));
        assert(after(w1, out1.len()) =~= t + u);
        assert(after(w2, out2.len()) =~= t + u);
    }
}

/// What a heading writes before its blocks: headline, planning,
/// properties and logbook.
pub open spec fn heading_head_text(h: HeadingView, source: Option<Seq<char>>) -> Seq<char> {
    part_text(h.headline_range, source, crate::format::headline_text(h)) + part_text(
        h.planning_range,
        source,
        planning_canonical(h.planning),
    ) + part_text(h.properties_range, source, properties_canonical(h.properties)) + part_text(
        h.logbook_range,
        source,
        logbook_canonical(h.logbook),
    )
}

/// Whether `path` leads from `h` down to a heading, each step being the
/// index of a child, and `k` is a place among that heading's blocks.
pub open spec fn place_exists(h: HeadingView, path: Seq<int>, k: int) -> bool
    decreases path.len(),
{
    if path.len() == 0 {
        0 <= k <= h.blocks.len()
    } else {
        0 <= path[0] < h.children.len() && place_exists(
            h.children[path[0]],
            path.drop_first(),
            k,
        )
    }
}

/// `h` with the block `b` put in at place `k` among the blocks of the
/// heading that `path` leads to.
pub open spec fn with_block_at(h: HeadingView, path: Seq<int>, k: int, b: BlockWithSourceView) -> HeadingView
    decreases path.len(),
{
    if path.len() == 0 {
        HeadingView { blocks: h.blocks.insert(k, b), ..h }
    } else {
        HeadingView {
            children: h.children.update(
                path[0],
                with_block_at(h.children[path[0]], path.drop_first(), k, b),
            ),
            ..h
        }
    }
}

/// The text that stands when the formatter, writing `h` behind `out`,
/// comes to place `k` among the blocks of the heading that `path` leads
/// to.
pub open spec fn written_before(
    out: Seq<char>,
    h: HeadingView,
    path: Seq<int>,
    k: int,
    source: Option<Seq<char>>,
    is_root: bool,
) -> Seq<char>
    decreases path.len(),
{
    if path.len() == 0 {
        on_new_line(out, is_root) + heading_head_text(h, source) + sourced_blocks_text(
            h.blocks.take(k),
            source,
        )
    } else {
        written_before(
            headings_onto(
                on_new_line(out, is_root) + heading_own_text(h, source),
                h.children.take(path[0]),
                source,
                false,
            ),
            h.children[path[0]],
            path.drop_first(),
            k,
            source,
            false,
        )
    }
}

/// The text of one block as a run of blocks is the text of that block.
proof fn lemma_blocks_text_one(b: BlockWithSourceView, source: Option<Seq<char>>)
    ensures
        sourced_blocks_text(seq![b], source) == sourced_block_text(b, source),
{
    let v = seq![b];
    let none = Seq::<BlockWithSourceView>::empty();
    assert(v.drop_last() =~= none);
    assert(sourced_blocks_text(none, source) == Seq::<char>::empty());
    assert(v.last() == b);
    assert(Seq::<char>::empty() + sourced_block_text(b, source) =~= sourced_block_text(b, source));
}

/// The text of blocks with one more block put in at place `k`.
proof fn lemma_blocks_text_insert(
    blocks: Seq<BlockWithSourceView>,
    k: int,
    b: BlockWithSourceView,
    source: Option<Seq<char>>,
)
    requires
        0 <= k <= blocks.len(),
    ensures
        sourced_blocks_text(blocks, source) == sourced_blocks_text(blocks.take(k), source)
            + sourced_blocks_text(blocks.skip(k), source),
        sourced_blocks_text(blocks.insert(k, b), source) == sourced_blocks_text(
            blocks.take(k),
            source,
        ) + sourced_block_text(b, source) + sourced_blocks_text(blocks.skip(k), source),
{
    let first = blocks.take(k);
    let rest = blocks.skip(k);
    assert(blocks =~= first + rest);
    assert(blocks.insert(k, b) =~= first + seq![b] + rest);
    lemma_blocks_text_concat(first, rest, source);
    lemma_blocks_text_concat(first + seq![b], rest, source);
    lemma_blocks_text_concat(first, seq![b], source);
    lemma_blocks_text_one(b, source);
}

/// Headings written behind a text into which a new piece was put: the
/// piece shows where it was put, and everything else stays.
proof fn lemma_piece_before_headings(
    before: Seq<char>,
    new_text: Seq<char>,
    c: Seq<char>,
    children: Seq<HeadingView>,
    source: Option<Seq<char>>,
)
    requires
        ends_in_newline(before + new_text) == ends_in_newline(before),
    ensures
        ({
            let old_text = headings_onto(before + c, children, source, false);
            let behind = after(old_text, before.len());
            &&& old_text == before + behind
            &&& headings_onto(before + new_text + c, children, source, false) == before + new_text
                + behind
        }),
{
    let y_old = before + c;
    let y_new = before + new_text + c;
    assert(ends_in_newline(y_old) == ends_in_newline(y_new));
    lemma_headings_append(y_old, y_new, children, source, false);
    lemma_headings_append(y_new, y_old, children, source, false);
    let t = after(headings_onto(y_old, children, source, false), y_old.len());
    let old_text = headings_onto(y_old, children, source, false);
    assert(old_text == y_old + t);
    assert(old_text =~= before + (c + t));
    assert(after(old_text, before.len()) =~= c + t);
    assert(headings_onto(y_new, children, source, false) == y_new + t);
    assert(y_new + t =~= before + new_text + (c + t));
}

/// What putting a block in among the blocks of `h` itself does to the text
/// of `h`, written behind `out`.
proof fn lemma_insert_here(
    out: Seq<char>,
    h: HeadingView,
    k: int,
    b: BlockWithSourceView,
    source: Option<Seq<char>>,
    is_root: bool,
)
    requires
        0 <= k <= h.blocks.len(),
        ends_in_newline(
            written_before(out, h, Seq::empty(), k, source, is_root) + sourced_block_text(
                b,
                source,
            ),
        ) == ends_in_newline(written_before(out, h, Seq::empty(), k, source, is_root)),
    ensures
        ({
            let before = written_before(out, h, Seq::empty(), k, source, is_root);
            let old_text = heading_onto(out, h, source, is_root);
            let behind = after(old_text, before.len());
            &&& old_text == before + behind
            &&& heading_onto(
                out,
                HeadingView { blocks: h.blocks.insert(k, b), ..h },
                source,
                is_root,
            ) == before + sourced_block_text(b, source) + behind
        }),
{
    let before = written_before(out, h, Seq::empty(), k, source, is_root);
    let new_text = sourced_block_text(b, source);
    let changed = HeadingView { blocks: h.blocks.insert(k, b), ..h };
    let start = on_new_line(out, is_root);
    let head = heading_head_text(h, source);
    let a = sourced_blocks_text(h.blocks.take(k), source);
    let c = sourced_blocks_text(h.blocks.skip(k), source);
    lemma_blocks_text_insert(h.blocks, k, b, source);
    assert(before == start + head + a);
    assert(heading_own_text(h, source) == head + sourced_blocks_text(h.blocks, source));
    assert(heading_own_text(changed, source) == head + sourced_blocks_text(
        changed.blocks,
        source,
    ));
    assert(start + (head + (a + c)) =~= before + c);
    assert(start + (head + (a + new_text + c)) =~= before + new_text + c);
    lemma_piece_before_headings(before, new_text, c, h.children, source);
}

/// What a change under the `j`-th heading of a run does to the text of the
/// run, written behind `out`, where the change puts `new_text` in behind
/// `before` in the text of that heading.
proof fn lemma_replace_in_run(
    out: Seq<char>,
    v: Seq<HeadingView>,
    j: int,
    new_child: HeadingView,
    before: Seq<char>,
    new_text: Seq<char>,
    source: Option<Seq<char>>,
    is_root: bool,
)
    requires
        0 <= j < v.len(),
        ends_in_newline(before + new_text) == ends_in_newline(before),
        ({
            let x = headings_onto(out, v.take(j), source, is_root);
            let child_old = heading_onto(x, v[j], source, is_root);
            &&& child_old == before + after(child_old, before.len())
            &&& heading_onto(x, new_child, source, is_root) == before + new_text + after(
                child_old,
                before.len(),
            )
        }),
    ensures
        ({
            let old_text = headings_onto(out, v, source, is_root);
            let behind = after(old_text, before.len());
            &&& old_text == before + behind
            &&& headings_onto(out, v.update(j, new_child), source, is_root) == before + new_text
                + behind
        }),
{
    let child = v[j];
    let first = v.take(j);
    let rest = v.skip(j + 1);
    assert(v =~= first + seq![child] + rest);
    assert(v.update(j, new_child) =~= first + seq![new_child] + rest);
    let x = headings_onto(out, first, source, is_root);
    lemma_headings_onto_concat(out, first + seq![child], rest, source, is_root);
    lemma_headings_onto_concat(out, first, seq![child], source, is_root);
    lemma_headings_onto_one(x, child, source, is_root);
    lemma_headings_onto_concat(out, first + seq![new_child], rest, source, is_root);
    lemma_headings_onto_concat(out, first, seq![new_child], source, is_root);
    lemma_headings_onto_one(x, new_child, source, is_root);
    let child_old = heading_onto(x, child, source, is_root);
    let child_new = heading_onto(x, new_child, source, is_root);
    let behind_child = after(child_old, before.len());
    assert(ends_in_newline(child_old) == ends_in_newline(child_new));
    lemma_headings_append(child_old, child_new, rest, source, is_root);
    lemma_headings_append(child_new, child_old, rest, source, is_root);
    let t = after(headings_onto(child_old, rest, source, is_root), child_old.len());
    let old_text = headings_onto(out, v, source, is_root);
    assert(old_text == child_old + t);
    assert(old_text =~= before + (behind_child + t));
    assert(after(old_text, before.len()) =~= behind_child + t);
    assert(headings_onto(out, v.update(j, new_child), source, is_root) == child_new + t);
    assert(child_new + t =~= before + new_text + (behind_child + t));
}

/// What putting a block in does to the text of one heading, written behind
/// `out`: the new block's text appears at its place, and nothing else
/// changes.
proof fn lemma_insert_under(
    out: Seq<char>,
    h: HeadingView,
    path: Seq<int>,
    k: int,
    b: BlockWithSourceView,
    source: Option<Seq<char>>,
    is_root: bool,
)
    requires
        place_exists(h, path, k),
        ends_in_newline(
            written_before(out, h, path, k, source, is_root) + sourced_block_text(b, source),
        ) == ends_in_newline(written_before(out, h, path, k, source, is_root)),
    ensures
        ({
            let before = written_before(out, h, path, k, source, is_root);
            let old_text = heading_onto(out, h, source, is_root);
            let behind = after(old_text, before.len());
            &&& old_text == before + behind
            &&& heading_onto(out, with_block_at(h, path, k, b), source, is_root) == before
                + sourced_block_text(b, source) + behind
        }),
    decreases path.len(),
{
    if path.len() == 0 {
        assert(path =~= Seq::<int>::empty());
        lemma_insert_here(out, h, k, b, source, is_root);
    } else {
        let j = path[0];
        let new_child = with_block_at(h.children[j], path.drop_first(), k, b);
        let changed = with_block_at(h, path, k, b);
        let y = on_new_line(out, is_root) + heading_own_text(h, source);
        let x = headings_onto(y, h.children.take(j), source, false);
        lemma_insert_under(x, h.children[j], path.drop_first(), k, b, source, false);
        lemma_replace_in_run(
            y,
            h.children,
            j,
            new_child,
            written_before(out, h, path, k, source, is_root),
            sourced_block_text(b, source),
            source,
            false,
        );
        assert(heading_own_text(changed, source) == heading_own_text(h, source));
    }
}

/// Whether no heading is written behind the blocks of the heading that
/// `path` leads to from `h`: that heading has none under it, and it and each
/// heading on the way to it is the last under its parent.
pub open spec fn is_last_heading(h: HeadingView, path: Seq<int>) -> bool
    decreases path.len(),
{
    if path.len() == 0 {
        h.children.len() == 0
    } else {
        0 <= path[0] && path[0] == h.children.len() - 1 && is_last_heading(
            h.children[path[0]],
            path.drop_first(),
        )
    }
}

/// What putting a block in does to the text of one heading, written behind
/// `out`, where no heading is written behind the place: the new block's
/// text appears at its place, and nothing else changes.
proof fn lemma_insert_under_last(
    out: Seq<char>,
    h: HeadingView,
    path: Seq<int>,
    k: int,
    b: BlockWithSourceView,
    source: Option<Seq<char>>,
    is_root: bool,
)
    requires
        place_exists(h, path, k),
        is_last_heading(h, path),
    ensures
        ({
            let before = written_before(out, h, path, k, source, is_root);
            let old_text = heading_onto(out, h, source, is_root);
            let behind = after(old_text, before.len());
            &&& old_text == before + behind
            &&& heading_onto(out, with_block_at(h, path, k, b), source, is_root) == before
                + sourced_block_text(b, source) + behind
        }),
    decreases path.len(),
{
    let before = written_before(out, h, path, k, source, is_root);
    let new_text = sourced_block_text(b, source);
    let changed = with_block_at(h, path, k, b);
    let start = on_new_line(out, is_root);
    if path.len() == 0 {
        let head = heading_head_text(h, source);
        let a = sourced_blocks_text(h.blocks.take(k), source);
        let c = sourced_blocks_text(h.blocks.skip(k), source);
        lemma_blocks_text_insert(h.blocks, k, b, source);
        assert(heading_own_text(h, source) == head + sourced_blocks_text(h.blocks, source));
        assert(heading_own_text(changed, source) == head + sourced_blocks_text(
            changed.blocks,
            source,
        ));
        assert(h.children =~= Seq::<HeadingView>::empty());
        assert(changed.children =~= Seq::<HeadingView>::empty());
        let old_text = heading_onto(out, h, source, is_root);
        assert(old_text == start + (head + (a + c)));
        assert(old_text =~= before + c);
        assert(after(old_text, before.len()) =~= c);
        assert(heading_onto(out, changed, source, is_root) == start + (head + (a + new_text + c)));
        assert(start + (head + (a + new_text + c)) =~= before + new_text + c);
    } else {
        let j = path[0];
        let child = h.children[j];
        let new_child = with_block_at(child, path.drop_first(), k, b);
        let y = start + heading_own_text(h, source);
        let first = h.children.take(j);
        let x = headings_onto(y, first, source, false);
        lemma_insert_under_last(x, child, path.drop_first(), k, b, source, false);
        assert(h.children =~= first + seq![child]);
        assert(changed.children =~= first + seq![new_child]);
        lemma_headings_onto_concat(y, first, seq![child], source, false);
        lemma_headings_onto_one(x, child, source, false);
        lemma_headings_onto_concat(y, first, seq![new_child], source, false);
        lemma_headings_onto_one(x, new_child, source, false);
        assert(heading_own_text(changed, source) == heading_own_text(h, source));
    }
}

/// The text that stands when the formatter comes to place `k` among the
/// blocks of the heading that `path` leads to from the `i`-th top-level
/// heading of `f`.
pub open spec fn file_written_before(f: OrgFileView, i: int, path: Seq<int>, k: int) -> Seq<char> {
    written_before(
        headings_onto(
            sourced_blocks_text(f.preamble, f.source_text),
            f.headings.take(i),
            f.source_text,
            true,
        ),
        f.headings[i],
        path,
        k,
        f.source_text,
        true,
    )
}

/// `f` with the block `b` put in at place `k` among the blocks of the
/// heading that `path` leads to from the `i`-th top-level heading.
pub open spec fn file_with_block_at(
    f: OrgFileView,
    i: int,
    path: Seq<int>,
    k: int,
    b: BlockWithSourceView,
) -> OrgFileView {
    OrgFileView { headings: f.headings.update(i, with_block_at(f.headings[i], path, k, b)), ..f }
}

/// Insertion is local: a block put in under a heading shows in the
/// formatted text at its place and nowhere else. The text before that
/// place and the text behind it stay as they were.
///
/// This holds wherever no heading is written behind the place: wherever
/// the block goes under the last heading of the text. Where a heading is
/// written behind the place, the one condition is that the new block leaves
/// it as it was whether the text up to there ends in a line break. A
/// heading that is no root starts on a new line, so where that changed, a
/// line break before the next heading could come or go.
pub proof fn lemma_insertion_is_local(
    f: OrgFileView,
    i: int,
    path: Seq<int>,
    k: int,
    b: BlockWithSourceView,
)
    requires
        0 <= i < f.headings.len(),
        place_exists(f.headings[i], path, k),
        (i == f.headings.len() - 1 && is_last_heading(f.headings[i], path)) || ends_in_newline(
            file_written_before(f, i, path, k) + sourced_block_text(b, f.source_text),
        ) == ends_in_newline(file_written_before(f, i, path, k)),
    ensures
        ({
            let before = file_written_before(f, i, path, k);
            let behind = after(format_text(f), before.len());
            &&& format_text(f) == before + behind
            &&& format_text(file_with_block_at(f, i, path, k, b)) == before + sourced_block_text(
                b,
                f.source_text,
            ) + behind
        }),
{
    let source = f.source_text;
    let pre = sourced_blocks_text(f.preamble, source);
    let x = headings_onto(pre, f.headings.take(i), source, true);
    let new_root = with_block_at(f.headings[i], path, k, b);
    if i == f.headings.len() - 1 && is_last_heading(f.headings[i], path) {
        let first = f.headings.take(i);
        lemma_insert_under_last(x, f.headings[i], path, k, b, source, true);
        assert(f.headings =~= first + seq![f.headings[i]]);
        assert(f.headings.update(i, new_root) =~= first + seq![new_root]);
        lemma_headings_onto_concat(pre, first, seq![f.headings[i]], source, true);
        lemma_headings_onto_one(x, f.headings[i], source, true);
        lemma_headings_onto_concat(pre, first, seq![new_root], source, true);
        lemma_headings_onto_one(x, new_root, source, true);
    } else {
        lemma_insert_under(x, f.headings[i], path, k, b, source, true);
        lemma_replace_in_run(
            pre,
            f.headings,
            i,
            new_root,
            file_written_before(f, i, path, k),
            sourced_block_text(b, source),
            source,
            true,
        );
    }
}

/// Insertion into the preamble is local in the same way: always where the
/// text has no heading, and else where the new block leaves it as it was
/// whether the text up to there ends in a line break.
pub proof fn lemma_preamble_insertion_is_local(f: OrgFileView, k: int, b: BlockWithSourceView)
    requires
        0 <= k <= f.preamble.len(),
        f.headings.len() == 0 || ends_in_newline(
            sourced_blocks_text(f.preamble.take(k), f.source_text) + sourced_block_text(
                b,
                f.source_text,
            ),
        ) == ends_in_newline(sourced_blocks_text(f.preamble.take(k), f.source_text)),
    ensures
        ({
            let before = sourced_blocks_text(f.preamble.take(k), f.source_text);
            let behind = after(format_text(f), before.len());
            &&& format_text(f) == before + behind
            &&& format_text(OrgFileView { preamble: f.preamble.insert(k, b), ..f }) == before
                + sourced_block_text(b, f.source_text) + behind
        }),
{
    let source = f.source_text;
    let before = sourced_blocks_text(f.preamble.take(k), source);
    let new_text = sourced_block_text(b, source);
    let c = sourced_blocks_text(f.preamble.skip(k), source);
    lemma_blocks_text_insert(f.preamble, k, b, source);
    let y_old = before + c;
    let y_new = before + new_text + c;
    if f.headings.len() == 0 {
        assert(format_text(f) == y_old);
        assert(after(y_old, before.len()) =~= c);
        assert(format_text(OrgFileView { preamble: f.preamble.insert(k, b), ..f }) == y_new);
    } else {
        assert(ends_in_newline(y_old) == ends_in_newline(y_new));
        lemma_headings_append(y_old, y_new, f.headings, source, true);
        lemma_headings_append(y_new, y_old, f.headings, source, true);
        let t = after(headings_onto(y_old, f.headings, source, true), y_old.len());
        assert(format_text(f) == y_old + t);
        assert(format_text(f) =~= before + (c + t));
        assert(after(format_text(f), before.len()) =~= c + t);
        assert(format_text(OrgFileView { preamble: f.preamble.insert(k, b), ..f }) == y_new + t);
        assert(y_new + t =~= before + new_text + (c + t));
    }
}

} // verus!
