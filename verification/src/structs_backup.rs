//! Token and node structures of the document tree, with pitch information
//! on nodes.
use vstd::prelude::*;
use crate::pitch::PitchCode;

verus! {

/// A chunk of a line with its column.
#[derive(Clone, Debug)]
pub struct ChunkInfo {
    pub value: String,
    pub col: usize,
}

/// A source line split into chunks.
#[derive(Debug)]
pub struct LineInfo {
    pub line_number: usize,
    pub line_text: String,
    pub chunks: Vec<ChunkInfo>,
}

/// A lexical token.
#[derive(Clone, Debug)]
pub struct Token {
    pub token_type: String,
    pub value: String,
    pub line: usize,
    pub col: usize,
}

/// The title of a document.
#[derive(Debug)]
pub struct Title {
    pub text: String,
    pub row: usize,
    pub col: usize,
}

/// A `key: value` directive.
#[derive(Debug)]
pub struct Directive {
    pub key: String,
    pub value: String,
    pub row: usize,
    pub col: usize,
}

/// Title and directives of a document.
#[derive(Debug)]
pub struct Metadata {
    pub title: Option<Title>,
    pub directives: Vec<Directive>,
}

/// A parsed document: metadata and a tree of nodes.
#[derive(Debug)]
pub struct Document {
    pub metadata: Metadata,
    pub nodes: Vec<Node>,
}

/// Kinds of tokens.
#[derive(Clone, Copy, Debug, PartialEq, Eq, Structural, Hash)]
pub enum TokenType {
    Pitch,
    Barline,
    Symbols,
    Word,
    Unknown,
    Whitespace,
}

/// The name of a token kind as the output format spells it.
pub open spec fn token_type_name(t: TokenType) -> Seq<char> {
    match t {
        TokenType::Pitch => "PITCH"@,
        TokenType::Barline => "BARLINE"@,
        TokenType::Symbols => "SYMBOLS"@,
        TokenType::Word => "WORD"@,
        TokenType::Unknown => "UNKNOWN"@,
        TokenType::Whitespace => "WHITESPACE"@,
    }
}

impl TokenType {
    /// The upper-case name of the token kind.
    pub fn as_str(&self) -> (s: &'static str)
        ensures
            s@ == token_type_name(*self),
    {
        match self {
            TokenType::Pitch => "PITCH",
            TokenType::Barline => "BARLINE",
            TokenType::Symbols => "SYMBOLS",
            TokenType::Word => "WORD",
            TokenType::Unknown => "UNKNOWN",
            TokenType::Whitespace => "WHITESPACE",
        }
    }
}

/// A node of the document tree, with pitch and octave for pitch nodes.
#[derive(Debug)]
pub struct Node {
    pub node_type: String,
    pub value: String,
    pub row: usize,
    pub col: usize,
    pub divisions: usize,
    pub dash_consumed: bool,
    pub nodes: Vec<Node>,
    pub pitch_code: Option<PitchCode>,
    /// 0 = middle, 1 = upper, -1 = lower, etc.
    pub octave: Option<i8>,
}

impl Node {
    /// A leaf node without divisions, pitch or octave.
    pub fn new(node_type: String, value: String, row: usize, col: usize) -> (n: Self)
        ensures
            n.node_type == node_type,
            n.value == value,
            n.row == row,
            n.col == col,
            n.divisions == 0,
            !n.dash_consumed,
            n.nodes@.len() == 0,
            n.pitch_code is None,
            n.octave is None,
    {
        Node { node_type, value, row, col, divisions: 0, dash_consumed: false, nodes: Vec::new(), pitch_code: None, octave: None }
    }

    /// A node with the given children, without divisions, pitch or octave.
    pub fn with_children(node_type: String, value: String, row: usize, col: usize, nodes: Vec<Node>) -> (n: Self)
        ensures
            n.node_type == node_type,
            n.value == value,
            n.row == row,
            n.col == col,
            n.divisions == 0,
            !n.dash_consumed,
            n.nodes == nodes,
            n.pitch_code is None,
            n.octave is None,
    {
        Node { node_type, value, row, col, divisions: 0, dash_consumed: false, nodes, pitch_code: None, octave: None }
    }
}

} // verus!
