//! Whether a document lies in its source text in the order in which it is
//! written.
//!
//! The formatter writes headline, planning, properties, logbook, blocks and
//! children in that order, whatever order the source text had them in. A
//! document is in source order if every part of it has the range it was
//! read from, and those ranges, read in the order of writing, lie one
//! behind the other from the first byte of the text to its last. Such a
//! document is formatted to its source text.

use crate::entries::entries_len;
use crate::model::{sourced_blocks_view, BlockWithSource, BlockWithSourceView};
use crate::source::{byte_pos, is_offset_table, offset_table, SourceRange};
use crate::text::chars_of;
use crate::tree::{headings_view, Heading, HeadingView, OrgFile, OrgFileView};
use vstd::prelude::*;

verus! {

/// The character position at or after `k` whose byte position is `byte`;
/// nothing where `byte` lies before `k`, behind the text or inside a
/// character.
pub open spec fn char_at_byte(s: Seq<char>, k: int, byte: int) -> Option<int>
    decreases s.len() - k,
{
    if k < 0 || k > s.len() {
        None
    } else if byte_pos(s, k) == byte {
        Some(k)
    } else if byte_pos(s, k) > byte || k == s.len() {
        None
    } else {
        char_at_byte(s, k + 1, byte)
    }
}

/// Where a part ends that is read from the character position `k` on: at
/// the end of its range, if it has one that starts at `k`; at `k` itself,
/// if it has no range and nothing to write; and nowhere otherwise.
pub open spec fn part_end(range: Option<SourceRange>, nothing_to_write: bool, s: Seq<char>, k: int) -> Option<
    int,
> {
    match range {
        Some(r) => if r.start == byte_pos(s, k) {
            char_at_byte(s, k, r.end as int)
        } else {
            None
        },
        None => if nothing_to_write {
            Some(k)
        } else {
            None
        },
    }
}

/// Where the blocks end if their ranges lie one behind the other from the
/// character position `k` on.
pub open spec fn blocks_end(blocks: Seq<BlockWithSourceView>, s: Seq<char>, k: int) -> Option<int>
    decreases blocks.len(),
{
    if blocks.len() == 0 {
        Some(k)
    } else {
        match blocks_end(blocks.drop_last(), s, k) {
            Some(p) => match blocks.last().source {
                Some(r) => part_end(Some(r), false, s, p),
                None => None,
            },
            None => None,
        }
    }
}

/// Where a heading's own parts end if their ranges lie one behind the
/// other from the character position `k` on, in the order in which they
/// are written.
pub open spec fn own_end(h: HeadingView, s: Seq<char>, k: int) -> Option<int> {
    match part_end(h.headline_range, false, s, k) {
        Some(a) => match part_end(h.planning_range, h.planning.is_empty(), s, a) {
            Some(b) => match part_end(h.properties_range, h.properties.len() == 0, s, b) {
                Some(c) => match part_end(
                    h.logbook_range,
                    h.logbook.clock.len() == 0 && h.logbook.raw.len() == 0,
                    s,
                    c,
                ) {
                    Some(d) => blocks_end(h.blocks, s, d),
                    None => None,
                },
                None => None,
            },
            None => None,
        },
        None => None,
    }
}

/// Whether a line starts at the character position `k`, behind a line
/// break.
pub open spec fn behind_newline(s: Seq<char>, k: int) -> bool {
    0 < k <= s.len() && s[k - 1] == '\n'
}

/// Where a heading ends if it and everything under it lies in the text
/// from the character position `k` on, in the order in which it is
/// written. A heading that is no root has to stand behind a line break.
pub open spec fn heading_end(h: HeadingView, s: Seq<char>, k: int, is_root: bool) -> Option<int>
    decreases h,
{
    if is_root || behind_newline(s, k) {
        match own_end(h, s, k) {
            Some(p) => headings_end(h.children, s, p, false),
            None => None,
        }
    } else {
        None
    }
}

/// Where the headings end if they lie in the text one behind the other
/// from the character position `k` on.
pub open spec fn headings_end(v: Seq<HeadingView>, s: Seq<char>, k: int, is_root: bool) -> Option<
    int,
>
    decreases v,
{
    if v.len() == 0 {
        Some(k)
    } else {
        match headings_end(v.drop_last(), s, k, is_root) {
            Some(p) => heading_end(v.last(), s, p, is_root),
            None => None,
        }
    }
}

/// Whether the document lies in its source text in the order in which it
/// is written.
pub open spec fn in_source_order(f: OrgFileView) -> bool {
    match f.source_text {
        Some(s) => match blocks_end(f.preamble, s, 0) {
            Some(p) => headings_end(f.headings, s, p, true) == Some(s.len() as int),
            None => false,
        },
        None => false,
    }
}

/// What holds of a character position that was found for a byte position.
pub proof fn lemma_char_at_byte(s: Seq<char>, k: int, byte: int)
    requires
        char_at_byte(s, k, byte) is Some,
    ensures
        0 <= k <= char_at_byte(s, k, byte)->0 <= s.len(),
        byte_pos(s, char_at_byte(s, k, byte)->0) == byte,
    decreases s.len() - k,
{
    if byte_pos(s, k) != byte {
        lemma_char_at_byte(s, k + 1, byte);
    }
}

/// Finds the character position at or after `k` whose byte position is
/// `byte`.
fn find_char(table: &Vec<usize>, Ghost(s): Ghost<Seq<char>>, k: usize, byte: usize) -> (r: Option<
    usize,
>)
    requires
        is_offset_table(table@, s),
        k <= s.len(),
    ensures
        match r {
            Some(j) => char_at_byte(s, k as int, byte as int) == Some(j as int) && k <= j
                <= s.len(),
            None => char_at_byte(s, k as int, byte as int) is None,
        },
{
    let n = table.len() - 1;
    let mut j: usize = k;
    loop
        invariant
            is_offset_table(table@, s),
            n == s.len(),
            k <= j <= n,
            char_at_byte(s, k as int, byte as int) == char_at_byte(s, j as int, byte as int),
        decreases n - j,
    {
        if table[j] == byte {
            return Some(j);
        }
        if table[j] > byte || j == n {
            return None;
        }
        j = j + 1;
    }
}

/// Finds where a part ends that is read from the character position `k`
/// on.
fn find_part_end(
    range: Option<SourceRange>,
    nothing_to_write: bool,
    table: &Vec<usize>,
    Ghost(s): Ghost<Seq<char>>,
    k: usize,
) -> (r: Option<usize>)
    requires
        is_offset_table(table@, s),
        k <= s.len(),
    ensures
        match r {
            Some(j) => part_end(range, nothing_to_write, s, k as int) == Some(j as int) && k <= j
                <= s.len(),
            None => part_end(range, nothing_to_write, s, k as int) is None,
        },
{
    match range {
        Some(r) => {
            if r.start == table[k] {
                find_char(table, Ghost(s), k, r.end)
            } else {
                None
            }
        },
        None => {
            if nothing_to_write {
                Some(k)
            } else {
                None
            }
        },
    }
}

/// Finds where the blocks end if their ranges lie one behind the other.
fn find_blocks_end(
    blocks: &Vec<BlockWithSource>,
    table: &Vec<usize>,
    Ghost(s): Ghost<Seq<char>>,
    k: usize,
) -> (r: Option<usize>)
    requires
        is_offset_table(table@, s),
        k <= s.len(),
    ensures
        match r {
            Some(j) => blocks_end(sourced_blocks_view(blocks@), s, k as int) == Some(j as int)
                && k <= j <= s.len(),
            None => blocks_end(sourced_blocks_view(blocks@), s, k as int) is None,
        },
{
    let ghost all = sourced_blocks_view(blocks@);
    let mut at: usize = k;
    let mut i: usize = 0;
    assert(all.subrange(0, 0) =~= Seq::<BlockWithSourceView>::empty());
    while i < blocks.len()
        invariant
            is_offset_table(table@, s),
            i <= blocks@.len(),
            all == sourced_blocks_view(blocks@),
            k <= at <= s.len(),
            blocks_end(all.subrange(0, i as int), s, k as int) == Some(at as int),
        decreases blocks@.len() - i,
    {
        proof {
            let upto = all.subrange(0, i + 1);
            assert(upto.drop_last() =~= all.subrange(0, i as int));
            assert(upto.last() == blocks@[i as int]@);
        }
        let next = match blocks[i].source {
            Some(r) => find_part_end(Some(r), false, table, Ghost(s), at),
            None => None,
        };
        match next {
            Some(j) => {
                at = j;
            },
            None => {
                proof {
                    lemma_blocks_end_fails(all, i + 1, s, k as int);
                }
                return None;
            },
        }
        i = i + 1;
    }
    assert(all.subrange(0, all.len() as int) =~= all);
    Some(at)
}

/// Blocks that do not lie one behind the other up to the `n`-th do not do
/// so as a whole.
proof fn lemma_blocks_end_fails(blocks: Seq<BlockWithSourceView>, n: int, s: Seq<char>, k: int)
    requires
        0 <= n <= blocks.len(),
        blocks_end(blocks.subrange(0, n), s, k) is None,
    ensures
        blocks_end(blocks, s, k) is None,
    decreases blocks.len() - n,
{
    if n < blocks.len() {
        let upto = blocks.subrange(0, n + 1);
        assert(upto.drop_last() =~= blocks.subrange(0, n));
        lemma_blocks_end_fails(blocks, n + 1, s, k);
    } else {
        assert(blocks.subrange(0, n) =~= blocks);
    }
}

/// Finds where a heading's own parts end.
fn find_own_end(h: &Heading, table: &Vec<usize>, Ghost(s): Ghost<Seq<char>>, k: usize) -> (r: Option<
    usize,
>)
    requires
        is_offset_table(table@, s),
        k <= s.len(),
    ensures
        match r {
            Some(j) => own_end(h@, s, k as int) == Some(j as int) && k <= j <= s.len(),
            None => own_end(h@, s, k as int) is None,
        },
{
    let a = match find_part_end(h.headline_range, false, table, Ghost(s), k) {
        Some(a) => a,
        None => { return None; },
    };
    let no_planning = h.planning.scheduled.is_none() && h.planning.deadline.is_none()
        && h.planning.closed.is_none();
    let b = match find_part_end(h.planning_range, no_planning, table, Ghost(s), a) {
        Some(b) => b,
        None => { return None; },
    };
    let no_properties = entries_len(&h.properties.props) == 0;
    let c = match find_part_end(h.properties_range, no_properties, table, Ghost(s), b) {
        Some(c) => c,
        None => { return None; },
    };
    let no_logbook = h.logbook.clock.len() == 0 && h.logbook.raw.len() == 0;
    let d = match find_part_end(h.logbook_range, no_logbook, table, Ghost(s), c) {
        Some(d) => d,
        None => { return None; },
    };
    find_blocks_end(&h.section.blocks, table, Ghost(s), d)
}

/// Finds where a heading ends if it and everything under it lies in the
/// text in the order in which it is written.
fn find_heading_end(
    h: &Heading,
    text: &Vec<char>,
    table: &Vec<usize>,
    k: usize,
    is_root: bool,
) -> (r: Option<usize>)
    requires
        is_offset_table(table@, text@),
        k <= text@.len(),
    ensures
        match r {
            Some(j) => heading_end(h@, text@, k as int, is_root) == Some(j as int) && k <= j
                <= text@.len(),
            None => heading_end(h@, text@, k as int, is_root) is None,
        },
    decreases h,
{
    if !(is_root || (k > 0 && text[k - 1] == '\n')) {
        return None;
    }
    match find_own_end(h, table, Ghost(text@), k) {
        Some(p) => {
            assert(headings_view(h.children@) == h@.children);
            find_headings_end(&h.children, text, table, p, false)
        },
        None => None,
    }
}

/// Finds where the headings end if they lie in the text one behind the
/// other.
fn find_headings_end(
    v: &Vec<Heading>,
    text: &Vec<char>,
    table: &Vec<usize>,
    k: usize,
    is_root: bool,
) -> (r: Option<usize>)
    requires
        is_offset_table(table@, text@),
        k <= text@.len(),
    ensures
        match r {
            Some(j) => headings_end(headings_view(v@), text@, k as int, is_root) == Some(j as int)
                && k <= j <= text@.len(),
            None => headings_end(headings_view(v@), text@, k as int, is_root) is None,
        },
    decreases v,
{
    let ghost all = headings_view(v@);
    let mut at: usize = k;
    let mut i: usize = 0;
    assert(all.subrange(0, 0) =~= Seq::<HeadingView>::empty());
    while i < v.len()
        invariant
            is_offset_table(table@, text@),
            i <= v@.len(),
            all == headings_view(v@),
            k <= at <= text@.len(),
            headings_end(all.subrange(0, i as int), text@, k as int, is_root) == Some(at as int),
        decreases v@.len() - i,
    {
        proof {
            let upto = all.subrange(0, i + 1);
            assert(upto.drop_last() =~= all.subrange(0, i as int));
            assert(upto.last() == v@[i as int]@);
        }
        match find_heading_end(&v[i], text, table, at, is_root) {
            Some(j) => {
                at = j;
            },
            None => {
                proof {
                    lemma_headings_end_fails(all, i + 1, text@, k as int, is_root);
                }
                return None;
            },
        }
        i = i + 1;
    }
    assert(all.subrange(0, all.len() as int) =~= all);
    Some(at)
}

/// Headings that do not lie one behind the other up to the `n`-th do not
/// do so as a whole.
proof fn lemma_headings_end_fails(v: Seq<HeadingView>, n: int, s: Seq<char>, k: int, is_root: bool)
    requires
        0 <= n <= v.len(),
        headings_end(v.subrange(0, n), s, k, is_root) is None,
    ensures
        headings_end(v, s, k, is_root) is None,
    decreases v.len() - n,
{
    if n < v.len() {
        let upto = v.subrange(0, n + 1);
        assert(upto.drop_last() =~= v.subrange(0, n));
        lemma_headings_end_fails(v, n + 1, s, k, is_root);
    } else {
        assert(v.subrange(0, n) =~= v);
    }
}

impl OrgFile {
    /// Whether the file lies in its source text in the order in which it
    /// is written. Such a file is formatted to its source text.
    pub fn is_in_source_order(&self) -> (b: bool)
        ensures
            b == in_source_order(self@),
    {
        match &self.source_text {
            Some(source) => {
                let text = chars_of(source.as_str());
                let table = offset_table(source.as_str(), &text);
                match find_blocks_end(&self.preamble, &table, Ghost(text@), 0) {
                    Some(p) => {
                        match find_headings_end(&self.headings, &text, &table, p, true) {
                            Some(end) => end == text.len(),
                            None => false,
                        }
                    },
                    None => false,
                }
            },
            None => false,
        }
    }
}

} // verus!
