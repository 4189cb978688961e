//! The parsers: inline markup, and the line-oriented structure of a
//! document.

pub mod blocks;
pub mod body;
pub mod drawers;
pub mod headline;
pub mod inline;
pub mod lines;
pub mod preamble;
pub mod timestamp;

use crate::parser::body::{parse_headings_tree, tree};
use crate::parser::lines::fragment_at;
use crate::parser::preamble::{empty_front, parse_preamble, preamble_from, FrontMatter};
use crate::source::offset_table;
use crate::tags::TagSet;
use crate::text::{chars_of, skip, string_of, CharClass};
use crate::tree::{file_wf, FileSettings, OrgFile, OrgFileView};
use std::path::PathBuf;
use vstd::prelude::*;
use vstd::string::*;

verus! {

/// The two stages of parsing a document.
#[derive(Debug, Clone, Copy, PartialEq, Eq, Structural)]
pub enum ParseStage {
    /// What stands before the first heading.
    Preamble,
    /// The headings and what stands under them.
    Headings,
}

/// Why a document could not be parsed: the stage that stopped, and the
/// text from where it stopped up to the end of that line.
#[derive(Debug, Clone, PartialEq, Eq)]
pub struct ParseError {
    pub stage: ParseStage,
    pub fragment: String,
}

pub struct ParseErrorView {
    pub stage: ParseStage,
    pub fragment: Seq<char>,
}

impl View for ParseError {
    type V = ParseErrorView;

    open spec fn view(&self) -> ParseErrorView {
        ParseErrorView { stage: self.stage, fragment: self.fragment@ }
    }
}

impl ParseError {
    /// The name of the stage that stopped.
    pub open spec fn stage_name(stage: ParseStage) -> Seq<char> {
        match stage {
            ParseStage::Preamble => "preamble"@,
            ParseStage::Headings => "headings"@,
        }
    }

    /// The error as one reads it.
    pub open spec fn text(e: ParseErrorView) -> Seq<char> {
        "parse error in "@ + Self::stage_name(e.stage) + ":\n  at: "@ + e.fragment + "\n"@
    }

    /// The error as one reads it: the stage, and the text where parsing
    /// stopped.
    pub fn message(&self) -> (r: String)
        ensures
            r@ == Self::text(self@),
    {
        let mut r = "parse error in ".to_owned();
        match self.stage {
            ParseStage::Preamble => r.append("preamble"),
            ParseStage::Headings => r.append("headings"),
        }
        r.append(":\n  at: ");
        r.append(self.fragment.as_str());
        r.append("\n");
        r
    }
}

/// The document that a text stands for, or the failure that parsing it ends
/// in.
///
/// A text fails to parse where a line ends in a `\r` without a `\n`, and
/// where a planning line or a clock line holds a timestamp whose numbers
/// name no day or no time. Every other text is a document.
pub open spec fn parse_document(s: Seq<char>) -> Result<OrgFileView, ParseErrorView> {
    match preamble_from(s, 0, empty_front()) {
        Err(at) => Err(
            ParseErrorView { stage: ParseStage::Preamble, fragment: fragment_at(s, at) },
        ),
        Ok((front, pos)) => match tree(s, pos, Seq::empty(), Seq::empty()) {
            Err(at) => Err(
                ParseErrorView { stage: ParseStage::Headings, fragment: fragment_at(s, at) },
            ),
            Ok(roots) => Ok(
                OrgFileView {
                    title: front.title,
                    file_tags: front.file_tags,
                    settings: front.settings,
                    preamble: front.blocks,
                    headings: roots,
                    source_text: Some(s),
                },
            ),
        },
    }
}

/// The parser of this library, as a value to hand around.
#[derive(Debug, Clone, Copy, PartialEq, Eq, Structural)]
pub struct NomOrgParser;

impl NomOrgParser {
    /// Parses the text of a file that was read from `path`.
    pub fn parse_text(&self, path: PathBuf, text: &str) -> (r: Result<OrgFile, ParseError>)
        ensures
            match r {
                Ok(file) => parse_document(text@) == Ok::<OrgFileView, ParseErrorView>(file@)
                    && file.path == Some(path) && file_wf(file@),
                Err(e) => parse_document(text@) == Err::<OrgFileView, ParseErrorView>(e@),
            },
    {
        parse_org_from_str(Some(path), text)
    }
}

/// The failure of a stage at the place `at`.
fn failure(text: &Vec<char>, stage: ParseStage, at: usize) -> (e: ParseError)
    requires
        at <= text@.len(),
    ensures
        e@ == (ParseErrorView { stage, fragment: fragment_at(text@, at as int) }),
{
    let end = skip(text, at, text.len(), CharClass::Except('\n'));
    ParseError { stage, fragment: string_of(text, at, end) }
}

/// Parses a document.
///
/// The result is the document that `parse_document` describes, with fresh
/// identities, the given path and a copy of the text. It is well formed,
/// so it can be formatted, and every heading in it lies deeper than the
/// heading it stands under. On failure no document is handed out.
pub fn parse_org_from_str(path: Option<PathBuf>, input: &str) -> (r: Result<OrgFile, ParseError>)
    ensures
        match r {
            Ok(file) => parse_document(input@) == Ok::<OrgFileView, ParseErrorView>(file@)
                && file.path == path && file_wf(file@) && crate::tree::all_nest(file@.headings),
            Err(e) => parse_document(input@) == Err::<OrgFileView, ParseErrorView>(e@),
        },
{
    let text = chars_of(input);
    let table = offset_table(input, &text);
    let front = FrontMatter {
        settings: FileSettings::default(),
        title: None,
        file_tags: TagSet::new(),
        blocks: Vec::new(),
        para: None,
    };
    assert(front@.blocks =~= Seq::<crate::model::BlockWithSourceView>::empty());
    assert(front@.settings.todo_sequences =~= Seq::<Seq<Seq<char>>>::empty());
    let (front, pos) = match parse_preamble(&text, &table, 0, front) {
        Ok(found) => found,
        Err(at) => { return Err(failure(&text, ParseStage::Preamble, at)); },
    };
    let headings = match parse_headings_tree(&text, &table, pos) {
        Ok(roots) => roots,
        Err(at) => { return Err(failure(&text, ParseStage::Headings, at)); },
    };
    let mut file = OrgFile::new(path);
    file.source_text = Some(input.to_owned());
    file.title = front.title;
    file.file_tags = front.file_tags;
    file.settings = front.settings;
    file.preamble = front.blocks;
    file.headings = headings;
    Ok(file)
}

} // verus!
