//! Template kinds and the context that LilyPond templates are filled from.
use vstd::prelude::*;

verus! {

/// The LilyPond template layouts.
#[derive(Clone, Copy, Debug, PartialEq, Eq, Structural)]
pub enum LilyPondTemplate {
    Minimal,
    Standard,
    MultiStave,
}

/// Values substituted into a LilyPond template.
#[derive(Clone, Debug, PartialEq)]
pub struct TemplateContext {
    pub version: String,
    pub title: Option<String>,
    pub composer: Option<String>,
    pub source_comment: Option<String>,
    pub staves: String,
    pub time_signature: Option<String>,
    pub key_signature: Option<String>,
    pub lyrics: Option<String>,
}

/// Whether a context is the default one (version 2.24.0, nothing else set).
pub open spec fn is_default_context(c: TemplateContext) -> bool {
    &&& c.version@ == "2.24.0"@
    &&& c.title is None
    &&& c.composer is None
    &&& c.source_comment is None
    &&& c.staves@ == Seq::<char>::empty()
    &&& c.time_signature is None
    &&& c.key_signature is None
    &&& c.lyrics is None
}

impl Default for TemplateContext {
    fn default() -> (c: Self)
        ensures
            is_default_context(c),
    {
        TemplateContext {
            version: "2.24.0".to_owned(),
            title: None,
            composer: None,
            source_comment: None,
            staves: String::new(),
            time_signature: None,
            key_signature: None,
            lyrics: None,
        }
    }
}

/// State of the line splitter after reading some characters: the completed
/// lines and the line being read.  A line ends at `\n`; one `\r` before it is dropped.
pub open spec fn lines_state(s: Seq<char>) -> (Seq<Seq<char>>, Seq<char>)
    decreases s.len(),
{
    if s.len() == 0 {
        (Seq::empty(), Seq::empty())
    } else {
        let (done, cur) = lines_state(s.drop_last());
        if s.last() == '\n' {
            (done.push(strip_cr(cur)), Seq::empty())
        } else {
            (done, cur.push(s.last()))
        }
    }
}

/// A line without one trailing carriage return.
pub open spec fn strip_cr(l: Seq<char>) -> Seq<char> {
    if l.len() > 0 && l.last() == '\r' { l.drop_last() } else { l }
}

/// The lines of a text, as `str::lines` yields them: the last line needs no
/// terminator, and a terminator at the very end starts no further line.
pub open spec fn text_lines(s: Seq<char>) -> Seq<Seq<char>> {
    let (done, cur) = lines_state(s);
    if cur.len() == 0 { done } else { done.push(cur) }
}

/// Each line prefixed with `% `, joined by newlines.
pub open spec fn comment_lines(lines: Seq<Seq<char>>) -> Seq<char>
    decreases lines.len(),
{
    if lines.len() == 0 {
        Seq::empty()
    } else if lines.len() == 1 {
        "% "@ + lines[0]
    } else {
        comment_lines(lines.drop_last()) + "\n"@ + "% "@ + lines.last()
    }
}

/// The source text as LilyPond comment lines.
pub open spec fn source_comment_spec(s: Seq<char>) -> Seq<char> {
    comment_lines(text_lines(s))
}

proof fn lemma_comment_push(lines: Seq<Seq<char>>, l: Seq<char>)
    ensures
        comment_lines(lines.push(l)) == (if lines.len() == 0 { "% "@ + l } else {
            comment_lines(lines) + "\n"@ + "% "@ + l
        }),
{
    assert(lines.push(l).drop_last() =~= lines);
}

/// Turns source text into LilyPond comment lines (`% ` before each line).
pub fn format_source_comment(source: &str) -> (r: String)
    ensures
        r@ == source_comment_spec(source@),
{
    let n = source.unicode_len();
    let mut out = String::new();
    let mut cur = String::new();
    let mut has_lines = false;
    let mut i: usize = 0;
    while i < n
        invariant
            n == source@.len(),
            i <= n,
            lines_state(source@.take(i as int)).1 == cur@,
            has_lines == (lines_state(source@.take(i as int)).0.len() > 0),
            out@ == comment_lines(lines_state(source@.take(i as int)).0),
        decreases n - i,
    {
        let c = source.get_char(i);
        proof {
            assert(source@.take(i + 1).drop_last() =~= source@.take(i as int));
            assert(source@.take(i + 1).last() == c);
        }
        if c == '\n' {
            let ghost done = lines_state(source@.take(i as int)).0;
            let line = strip_trailing_cr(&cur);
            proof { lemma_comment_push(done, line@); }
            if has_lines {
                out.append("\n");
            }
            out.append("% ");
            out.append(line.as_str());
            has_lines = true;
            cur = String::new();
        } else {
            crate::text::push_char(&mut cur, c);
        }
        i = i + 1;
    }
    assert(source@.take(n as int) =~= source@);
    if cur.unicode_len() > 0 {
        proof { lemma_comment_push(lines_state(source@).0, cur@); }
        if has_lines {
            out.append("\n");
        }
        out.append("% ");
        out.append(cur.as_str());
    }
    out
}

fn strip_trailing_cr(s: &String) -> (r: String)
    ensures
        r@ == strip_cr(s@),
{
    let n = s.as_str().unicode_len();
    if n > 0 && s.as_str().get_char(n - 1) == '\r' {
        s.as_str().substring_char(0, n - 1).to_owned()
    } else {
        s.clone()
    }
}

impl TemplateContext {
    /// The default context.
    pub fn new() -> (c: Self)
        ensures
            is_default_context(c),
    {
        Self::default()
    }

    /// Sets the title.
    pub fn set_title(&mut self, title: Option<String>)
        ensures
            *final(self) == (TemplateContext { title, ..*old(self) }),
    {
        self.title = title;
    }

    /// Sets the source comment from the source text (each line becomes a comment line).
    pub fn set_source_comment(&mut self, source: Option<String>)
        ensures
            final(self).source_comment matches Some(c) ==> source matches Some(s) && c@ == source_comment_spec(s@),
            final(self).source_comment is None <==> source is None,
            final(self).version == old(self).version,
            final(self).title == old(self).title,
            final(self).composer == old(self).composer,
            final(self).staves == old(self).staves,
            final(self).time_signature == old(self).time_signature,
            final(self).key_signature == old(self).key_signature,
            final(self).lyrics == old(self).lyrics,
    {
        self.source_comment = match source {
            Some(s) => Some(format_source_comment(s.as_str())),
            None => None,
        };
    }

    /// Sets the notes of the staves.
    pub fn set_staves(&mut self, staves: String)
        ensures
            *final(self) == (TemplateContext { staves, ..*old(self) }),
    {
        self.staves = staves;
    }

    /// A builder starting from the default context.
    pub fn builder() -> (b: TemplateContextBuilder)
        ensures
            is_default_context(b.context),
    {
        TemplateContextBuilder::new()
    }
}

/// Builds a `TemplateContext` field by field.
pub struct TemplateContextBuilder {
    pub context: TemplateContext,
}

impl TemplateContextBuilder {
    /// A builder starting from the default context.
    pub fn new() -> (b: Self)
        ensures
            is_default_context(b.context),
    {
        TemplateContextBuilder { context: TemplateContext::default() }
    }

    /// Sets the title.
    pub fn title(self, title: &str) -> (b: Self)
        ensures
            b.context.title matches Some(t) && t@ == title@,
            b.context == (TemplateContext { title: b.context.title, ..self.context }),
    {
        let mut b = self;
        b.context.title = Some(title.to_owned());
        b
    }

    /// Sets the source comment from the source text.
    pub fn source_comment(self, source: &str) -> (b: Self)
        ensures
            b.context.source_comment matches Some(c) && c@ == source_comment_spec(source@),
            b.context == (TemplateContext { source_comment: b.context.source_comment, ..self.context }),
    {
        let mut b = self;
        b.context.source_comment = Some(format_source_comment(source));
        b
    }

    /// Sets the notes of the staves.
    pub fn staves(self, staves: &str) -> (b: Self)
        ensures
            b.context.staves@ == staves@,
            b.context == (TemplateContext { staves: b.context.staves, ..self.context }),
    {
        let mut b = self;
        b.context.staves = staves.to_owned();
        b
    }

    /// Sets the lyrics.
    pub fn lyrics(self, lyrics: &str) -> (b: Self)
        ensures
            b.context.lyrics matches Some(l) && l@ == lyrics@,
            b.context == (TemplateContext { lyrics: b.context.lyrics, ..self.context }),
    {
        let mut b = self;
        b.context.lyrics = Some(lyrics.to_owned());
        b
    }

    /// The context built so far.
    pub fn build(self) -> (c: TemplateContext)
        ensures
            c == self.context,
    {
        self.context
    }
}

/// The template a document is rendered with: `Standard` when it has a title,
/// `Minimal` otherwise.
pub fn auto_select_template_for_document(document_title: &Option<String>) -> (t: LilyPondTemplate)
    ensures
        t == (if document_title is Some { LilyPondTemplate::Standard } else { LilyPondTemplate::Minimal }),
{
    if document_title.is_some() {
        LilyPondTemplate::Standard
    } else {
        LilyPondTemplate::Minimal
    }
}

} // verus!
