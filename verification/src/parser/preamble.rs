//! The preamble: what stands before the first heading.
//!
//! A line `#+KEY: VALUE` is a directive. Every other line belongs to a
//! paragraph, which a blank line or a directive ends.

use crate::entries::{entries_insert, entries_put};
use crate::model::{
    lemma_sourced_blocks_view_push, opt_string_view, sourced_blocks_view, Block, BlockView,
    BlockWithSource, BlockWithSourceView, RichText, TodoSequence,
};
use crate::parser::body::{gathered_view, gathered_with, Gathered};
use crate::parser::inline::{parse_rich_text, rich_text};
use crate::parser::lines::{
    heading_line_at, is_heading_at, line_end, line_ok, next_line, parse_tags_in, split_words,
    tags_in, till_eol, words_in,
};
use crate::source::{is_offset_table, range_from, span, SourceRange};
use crate::tags::{sorted_insert_all, TagSet};
use crate::text::{
    chars_are, chars_in, is_blank, is_pair_at, lower_chars, lowered, pair_at, push_range, skip,
    skip_class, string_from, string_of, trim, trimmed, CharClass,
};
use crate::tree::{
    blocks_fit, default_settings, range_fits, todo_sequences_view, FileSettings, FileSettingsView,
};
use vstd::prelude::*;

verus! {

/* ------------------------------ What is read ------------------------------ */

/// What the preamble has given so far.
pub struct Front {
    pub settings: FileSettingsView,
    pub title: Option<Seq<char>>,
    pub file_tags: Seq<Seq<char>>,
    pub blocks: Seq<BlockWithSourceView>,
    pub para: Gathered,
}

/// The places of a directive line: where its key ends, where its value
/// starts and ends, and where the next line starts.
pub struct Directive {
    pub key_end: int,
    pub value_start: int,
    pub value_end: int,
    pub next: int,
}

/// A directive at `pos`: `#+`, a key of letters, digits and `_`, a colon,
/// blanks, and the value up to the end of the line.
pub open spec fn directive_at(s: Seq<char>, pos: int) -> Option<Directive> {
    let n = s.len() as int;
    let k = skip_class(s, pos + 2, n, CharClass::KeyChar);
    let v = skip_class(s, k + 1, n, CharClass::Blank);
    if pair_at(s, pos, n, '#', '+') && pos + 2 < k && k < n && s[k] == ':' && line_ok(s, v) {
        Some(
            Directive {
                key_end: k,
                value_start: v,
                value_end: line_end(s, v),
                next: next_line(s, v),
            },
        )
    } else {
        None
    }
}

/// The preamble before anything was read.
pub open spec fn empty_front() -> Front {
    Front {
        settings: default_settings(),
        title: None,
        file_tags: Seq::empty(),
        blocks: Seq::empty(),
        para: None,
    }
}

/// The preamble with one more block, read from the given range.
pub open spec fn front_with_block(f: Front, block: BlockView, range: SourceRange) -> Front {
    Front { blocks: f.blocks.push(BlockWithSourceView { block, source: Some(range) }), ..f }
}

/// The preamble after the gathered paragraph, if there is one, has become
/// its last block. The paragraph's range ends at `at`.
pub open spec fn front_flushed(f: Front, s: Seq<char>, at: int) -> Front {
    match f.para {
        Some((start, text)) => Front {
            para: None,
            ..front_with_block(f, BlockView::Paragraph(rich_text(text)), span(s, start, at))
        },
        None => f,
    }
}

/// What a directive says of the file. `title`, `filetags`, `todo` and
/// `todo_keywords` are known keys, in any mix of capitals and small
/// letters; every other key goes to the file's other settings, in small
/// letters, with its value as it stands.
pub open spec fn directive_taken(f: Front, s: Seq<char>, pos: int, d: Directive) -> Front {
    let key = lowered(s.subrange(pos + 2, d.key_end));
    let (a, b) = trimmed(s, d.value_start, d.value_end);
    if key == "title"@ {
        Front { title: Some(s.subrange(a, b)), ..f }
    } else if key == "filetags"@ {
        Front {
            file_tags: sorted_insert_all(f.file_tags, tags_in(s, d.value_start, d.value_end)),
            ..f
        }
    } else if key == "todo"@ || key == "todo_keywords"@ {
        if is_blank(s, d.value_start, d.value_end) {
            f
        } else {
            Front {
                settings: FileSettingsView {
                    todo_sequences: f.settings.todo_sequences.push(
                        words_in(s, d.value_start, d.value_end),
                    ),
                    ..f.settings
                },
                ..f
            }
        }
    } else {
        Front {
            settings: FileSettingsView {
                meta: entries_put(f.settings.meta, key, s.subrange(d.value_start, d.value_end)),
                ..f.settings
            },
            ..f
        }
    }
}

/// The preamble after the directive at `pos` was read: what it says is
/// taken, and the line becomes a block with the key as it was written and
/// the value without the white space around it.
pub open spec fn with_directive(f: Front, s: Seq<char>, pos: int, d: Directive) -> Front {
    let (a, b) = trimmed(s, d.value_start, d.value_end);
    front_with_block(
        directive_taken(front_flushed(f, s, pos), s, pos, d),
        BlockView::Directive { key: s.subrange(pos + 2, d.key_end), value: s.subrange(a, b) },
        span(s, pos, d.next),
    )
}

/// The preamble from `pos` on, up to the first heading or the end of the
/// text, and the place where it ends. A failure gives the place where
/// parsing stopped.
pub open spec fn preamble_from(s: Seq<char>, pos: int, f: Front) -> Result<(Front, int), int>
    decreases s.len() - pos,
{
    let n = s.len() as int;
    if pos >= n || heading_line_at(s, pos) {
        Ok((front_flushed(f, s, pos), pos))
    } else {
        match directive_at(s, pos) {
            Some(d) => if pos < d.next <= n {
                preamble_from(s, d.next, with_directive(f, s, pos, d))
            } else {
                Err(pos)
            },
            None => {
                let e = line_end(s, pos);
                let next = next_line(s, pos);
                if line_ok(s, pos) && pos < next <= n {
                    if is_blank(s, pos, e) {
                        preamble_from(
                            s,
                            next,
                            front_with_block(
                                front_flushed(f, s, pos),
                                BlockView::Paragraph(Seq::empty()),
                                span(s, pos, next),
                            ),
                        )
                    } else {
                        preamble_from(
                            s,
                            next,
                            Front { para: gathered_with(f.para, pos, s.subrange(pos, e)), ..f },
                        )
                    }
                } else {
                    Err(pos)
                }
            },
        }
    }
}

/* ------------------------------- The parser ------------------------------- */

/// What the preamble has given so far.
pub struct FrontMatter {
    pub settings: FileSettings,
    pub title: Option<String>,
    pub file_tags: TagSet,
    pub blocks: Vec<BlockWithSource>,
    pub para: Option<(usize, Vec<char>)>,
}

impl View for FrontMatter {
    type V = Front;

    open spec fn view(&self) -> Front {
        Front {
            settings: self.settings@,
            title: opt_string_view(self.title),
            file_tags: self.file_tags@,
            blocks: sourced_blocks_view(self.blocks@),
            para: gathered_view(self.para),
        }
    }
}

/// The places of a directive line.
pub struct DirectiveLine {
    pub key_end: usize,
    pub value_start: usize,
    pub value_end: usize,
    pub next: usize,
}

impl View for DirectiveLine {
    type V = Directive;

    open spec fn view(&self) -> Directive {
        Directive {
            key_end: self.key_end as int,
            value_start: self.value_start as int,
            value_end: self.value_end as int,
            next: self.next as int,
        }
    }
}

/// Reads a directive at `pos`.
pub fn parse_hash_key_value(text: &Vec<char>, pos: usize) -> (r: Option<DirectiveLine>)
    requires
        pos <= text@.len(),
    ensures
        match r {
            Some(d) => directive_at(text@, pos as int) == Some(d@) && pos + 2 < d.key_end
                < d.value_start <= d.value_end <= d.next <= text@.len(),
            None => directive_at(text@, pos as int) is None,
        },
{
    let n = text.len();
    if !is_pair_at(text, pos, n, '#', '+') {
        return None;
    }
    let k = skip(text, pos + 2, n, CharClass::KeyChar);
    if !(pos + 2 < k && k < n && text[k] == ':') {
        return None;
    }
    let v = skip(text, k + 1, n, CharClass::Blank);
    match till_eol(text, v) {
        Some(line) => Some(
            DirectiveLine { key_end: k, value_start: v, value_end: line.end, next: line.next },
        ),
        None => None,
    }
}

/// Whether the preamble is in a state in which reading can go on at `pos`.
pub open spec fn front_ready(f: Front, s: Seq<char>, pos: int) -> bool {
    &&& blocks_fit(f.blocks, Some(s))
    &&& crate::tags::ascending(f.file_tags)
    &&& f.para matches Some((start, _)) ==> 0 <= start <= pos
}

proof fn lemma_front_with_block(f: Front, block: BlockView, range: SourceRange, s: Seq<char>)
    requires
        blocks_fit(f.blocks, Some(s)),
        range.fits(s),
    ensures
        blocks_fit(front_with_block(f, block, range).blocks, Some(s)),
{
    let after = front_with_block(f, block, range).blocks;
    assert forall|i: int| 0 <= i < after.len() implies range_fits(
        (#[trigger] after[i]).source,
        Some(s),
    ) by {
        if i < f.blocks.len() {
            assert(after[i] == f.blocks[i]);
        }
    }
}

/// Adds a block that was read from `text[from..to]` to the preamble.
fn push_front_block(
    front: FrontMatter,
    block: Block,
    table: &Vec<usize>,
    Ghost(s): Ghost<Seq<char>>,
    from: usize,
    to: usize,
) -> (r: FrontMatter)
    requires
        is_offset_table(table@, s),
        from <= to <= s.len(),
        blocks_fit(front@.blocks, Some(s)),
    ensures
        r@ == front_with_block(front@, block@, span(s, from as int, to as int)),
        blocks_fit(r@.blocks, Some(s)),
        r@.file_tags == front@.file_tags,
{
    let range = range_from(table, Ghost(s), from, to);
    let mut front = front;
    let item = BlockWithSource::from_source(block, range);
    proof {
        lemma_sourced_blocks_view_push(front.blocks@, item);
        lemma_front_with_block(front@, block@, range, s);
    }
    front.blocks.push(item);
    front
}

/// Ends the paragraph that is being gathered, if there is one.
fn flush_paragraph(front: FrontMatter, table: &Vec<usize>, Ghost(s): Ghost<Seq<char>>, at: usize) -> (r:
    FrontMatter)
    requires
        is_offset_table(table@, s),
        at <= s.len(),
        front_ready(front@, s, at as int),
    ensures
        r@ == front_flushed(front@, s, at as int),
        front_ready(r@, s, at as int),
        r@.para is None,
{
    let mut front = front;
    let mut para: Option<(usize, Vec<char>)> = None;
    core::mem::swap(&mut front.para, &mut para);
    match para {
        Some((start, text)) => {
            let block = Block::Paragraph(parse_rich_text(&text));
            push_front_block(front, block, table, Ghost(s), start, at)
        },
        None => front,
    }
}

/// Takes what the directive at `pos` says of the file.
fn take_directive(front: FrontMatter, text: &Vec<char>, pos: usize, d: &DirectiveLine) -> (r:
    FrontMatter)
    requires
        pos + 2 < d.key_end < d.value_start <= d.value_end <= text@.len(),
    ensures
        r@ == directive_taken(front@, text@, pos as int, d@),
        r@.blocks == front@.blocks,
        crate::tags::ascending(front@.file_tags) ==> crate::tags::ascending(r@.file_tags),
{
    let mut front = front;
    let key = lower_chars(text, pos + 2, d.key_end);
    let (a, b) = trim(text, d.value_start, d.value_end);
    if chars_are(&key, "title") {
        front.title = Some(string_of(text, a, b));
    } else if chars_are(&key, "filetags") {
        let found = parse_tags_in(text, d.value_start, d.value_end);
        front.file_tags.insert_all(&found);
    } else if chars_are(&key, "todo") || chars_are(&key, "todo_keywords") {
        if skip(text, d.value_start, d.value_end, CharClass::White) != d.value_end {
            let sequence = TodoSequence { items: split_words(text, d.value_start, d.value_end) };
            let ghost before = todo_sequences_view(front.settings.todo_sequences@);
            front.settings.todo_sequences.push(sequence);
            assert(todo_sequences_view(front.settings.todo_sequences@) =~= before.push(
                sequence@,
            ));
        }
    } else {
        entries_insert(
            &mut front.settings.meta,
            string_from(&key),
            string_of(text, d.value_start, d.value_end),
        );
    }
    front
}

/// Reads the preamble: everything from `pos` up to the first heading or
/// the end of the text.
#[verifier::loop_isolation(false)]
pub fn parse_preamble(text: &Vec<char>, table: &Vec<usize>, pos: usize, front: FrontMatter) -> (r:
    Result<(FrontMatter, usize), usize>)
    requires
        is_offset_table(table@, text@),
        pos <= text@.len(),
        front_ready(front@, text@, pos as int),
    ensures
        match r {
            Ok((f, next)) => preamble_from(text@, pos as int, front@) == Ok::<(Front, int), int>(
                (f@, next as int),
            ) && pos <= next <= text@.len() && blocks_fit(f@.blocks, Some(text@))
                && crate::tags::ascending(f@.file_tags) && (next == text@.len()
                || heading_line_at(text@, next as int)),
            Err(at) => preamble_from(text@, pos as int, front@) == Err::<(Front, int), int>(
                at as int,
            ) && at <= text@.len(),
        },
{
    let ghost s = text@;
    let ghost start = front@;
    let n = text.len();
    let mut front = front;
    let mut i: usize = pos;
    loop
        invariant
            pos <= i <= n,
            front_ready(front@, s, i as int),
            preamble_from(s, pos as int, start) == preamble_from(s, i as int, front@),
        decreases n - i,
    {
        if i >= n || is_heading_at(text, i) {
            let done = flush_paragraph(front, table, Ghost(s), i);
            return Ok((done, i));
        }
        match parse_hash_key_value(text, i) {
            Some(d) => {
                let done = flush_paragraph(front, table, Ghost(s), i);
                let done = take_directive(done, text, i, &d);
                let (a, b) = trim(text, d.value_start, d.value_end);
                let block = Block::Directive {
                    key: string_of(text, i + 2, d.key_end),
                    value: string_of(text, a, b),
                };
                front = push_front_block(done, block, table, Ghost(s), i, d.next);
                i = d.next;
            },
            None => {
                let line = match till_eol(text, i) {
                    Some(line) => line,
                    None => { return Err(i); },
                };
                if skip(text, i, line.end, CharClass::White) == line.end {
                    let done = flush_paragraph(front, table, Ghost(s), i);
                    front = push_front_block(
                        done,
                        Block::Paragraph(RichText::default()),
                        table,
                        Ghost(s),
                        i,
                        line.next,
                    );
                } else {
                    let mut para: Option<(usize, Vec<char>)> = None;
                    core::mem::swap(&mut front.para, &mut para);
                    let joined = match para {
                        Some((start, t)) => {
                            let ghost had = t@;
                            let mut t = t;
                            t.push('\n');
                            push_range(&mut t, text, i, line.end);
                            assert(t@ =~= had + seq!['\n'] + s.subrange(
                                i as int,
                                line.end as int,
                            ));
                            (start, t)
                        },
                        None => (i, chars_in(text, i, line.end)),
                    };
                    front.para = Some(joined);
                }
                i = line.next;
            },
        }
    }
}

} // verus!
