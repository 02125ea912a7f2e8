//! The parsed document as the editor's syntax view reads it: directives,
//! staves and their lines, each annotation element with its source position.
use vstd::prelude::*;
use crate::rhythm::types::ParsedElement;

verus! {

/// Where a parsed item starts: line counted from 1, column from 0 (in bytes).
#[derive(Clone, Copy, Debug, PartialEq, Eq, Structural)]
pub struct SourcePosition {
    pub line: usize,
    pub column: usize,
}

/// The text a parsed item was read from, if kept, and where it starts.
#[derive(Clone, Debug)]
pub struct Source {
    pub value: Option<String>,
    pub position: SourcePosition,
}

/// A `key: value` directive at the head of a document.
#[derive(Clone, Debug)]
pub struct Directive {
    pub key: String,
    pub value: String,
}

/// A run of blank lines.
#[derive(Clone, Debug)]
pub struct BlankLines {
    pub content: String,
}

/// A line of free text inside a stave.
#[derive(Clone, Debug)]
pub struct TextLine {
    pub content: String,
}

/// An element of an annotation line above the content line.
#[derive(Clone, Debug)]
pub enum UpperElement {
    UpperOctaveMarker { marker: String, source: Source },
    SlurIndicator { value: String, source: Source },
    UpperHashes { value: String, source: Source },
    Ornament { pitches: Vec<String>, source: Source },
    Chord { chord: String, source: Source },
    Mordent { source: Source },
    Space { count: usize, source: Source },
    Unknown { value: String, source: Source },
    Newline { value: String, source: Source },
}

/// An element of an annotation line below the content line.
#[derive(Clone, Debug)]
pub enum LowerElement {
    LowerOctaveMarker { marker: String, source: Source },
    BeatGroupIndicator { value: String, source: Source },
    Syllable { content: String, source: Source },
    Space { count: usize, source: Source },
    Unknown { value: String, source: Source },
    Newline { value: String, source: Source },
    EndOfInput { source: Source },
}

/// An annotation line above the content line.
#[derive(Clone, Debug)]
pub struct UpperLine {
    pub elements: Vec<UpperElement>,
    pub source: Source,
}

/// An annotation line below the content line.
#[derive(Clone, Debug)]
pub struct LowerLine {
    pub elements: Vec<LowerElement>,
    pub source: Source,
}

/// A syllable of a lyrics line.
#[derive(Clone, Debug)]
pub struct Syllable {
    pub content: String,
}

/// A line of lyrics.
#[derive(Clone, Debug)]
pub struct LyricsLine {
    pub syllables: Vec<Syllable>,
}

/// A line holding only whitespace.
#[derive(Clone, Debug)]
pub struct WhitespaceLine {
    pub source: Source,
}

/// A line of a stave.
#[derive(Clone, Debug)]
pub enum StaveLine {
    Text(TextLine),
    Upper(UpperLine),
    Content(Vec<ParsedElement>),
    Lower(LowerLine),
    Lyrics(LyricsLine),
    Whitespace(WhitespaceLine),
    BlankLines(BlankLines),
}

/// A stave: its lines from top to bottom.
#[derive(Clone, Debug)]
pub struct Stave {
    pub lines: Vec<StaveLine>,
}

/// A top-level element of a document.
#[derive(Clone, Debug)]
pub enum DocumentElement {
    BlankLines(BlankLines),
    Stave(Stave),
}

/// A parsed document: its directives, its elements in order, and its source.
#[derive(Clone, Debug)]
pub struct Document {
    pub directives: Vec<Directive>,
    pub elements: Vec<DocumentElement>,
    pub source: Source,
}

} // verus!
