//! Music font handling: SMuFL code points with plain Unicode fallbacks.
use vstd::prelude::*;
use crate::text::{push_char, to_lowercase, unicode_lowercase};

verus! {

/// Symbols that have a SMuFL glyph.
#[derive(Clone, Copy, Debug, PartialEq, Eq, Structural, Hash)]
pub enum SymbolType {
    BarlineSingle,
    BarlineDouble,
    RepeatStart,
    RepeatEnd,
    Sharp,
    Flat,
    Mordent,
    Trill,
}

/// The SMuFL code point of a symbol.
pub open spec fn smufl_char(t: SymbolType) -> char {
    match t {
        SymbolType::BarlineSingle => '\u{E030}',
        SymbolType::BarlineDouble => '\u{E031}',
        SymbolType::RepeatStart => '\u{E040}',
        SymbolType::RepeatEnd => '\u{E041}',
        SymbolType::Sharp => '\u{E262}',
        SymbolType::Flat => '\u{E260}',
        SymbolType::Mordent => '\u{E56C}',
        SymbolType::Trill => '\u{E566}',
    }
}

/// The Unicode text shown when SMuFL fonts are not used.
pub open spec fn fallback_text(t: SymbolType) -> Seq<char> {
    match t {
        SymbolType::BarlineSingle => "|"@,
        SymbolType::BarlineDouble => "‖"@,
        SymbolType::RepeatStart => "|:"@,
        SymbolType::RepeatEnd => ":|"@,
        SymbolType::Sharp => "♯"@,
        SymbolType::Flat => "♭"@,
        SymbolType::Mordent => "∿"@,
        SymbolType::Trill => "tr"@,
    }
}

/// The order in which the mapper lists the symbols.
pub open spec fn symbol_index(t: SymbolType) -> int {
    match t {
        SymbolType::BarlineSingle => 0,
        SymbolType::BarlineDouble => 1,
        SymbolType::RepeatStart => 2,
        SymbolType::RepeatEnd => 3,
        SymbolType::Sharp => 4,
        SymbolType::Flat => 5,
        SymbolType::Mordent => 6,
        SymbolType::Trill => 7,
    }
}

/// Maps symbols to SMuFL glyphs, with fallbacks.  Every symbol type has both
/// a glyph and a fallback.
pub struct SMuFLMapper {
    symbols: Vec<(SymbolType, char)>,
    fallbacks: Vec<(SymbolType, &'static str)>,
}

impl SMuFLMapper {
    /// Whether the tables hold exactly the glyph and fallback of every symbol type.
    pub closed spec fn wf(&self) -> bool {
        &&& self.symbols@.len() == 8
        &&& self.fallbacks@.len() == 8
        &&& forall|i: int| 0 <= i < 8 ==> (#[trigger] self.symbols@[i]).1 == smufl_char(self.symbols@[i].0)
            && symbol_index(self.symbols@[i].0) == i
        &&& forall|i: int| 0 <= i < 8 ==> (#[trigger] self.fallbacks@[i]).1@ == fallback_text(self.fallbacks@[i].0)
            && symbol_index(self.fallbacks@[i].0) == i
    }

    /// The mapper with all eight symbols.
    pub fn new() -> (m: Self)
        ensures
            m.wf(),
    {
        let mut symbols = Vec::new();
        let mut fallbacks = Vec::new();
        symbols.push((SymbolType::BarlineSingle, '\u{E030}'));
        fallbacks.push((SymbolType::BarlineSingle, "|"));
        symbols.push((SymbolType::BarlineDouble, '\u{E031}'));
        fallbacks.push((SymbolType::BarlineDouble, "‖"));
        symbols.push((SymbolType::RepeatStart, '\u{E040}'));
        fallbacks.push((SymbolType::RepeatStart, "|:"));
        symbols.push((SymbolType::RepeatEnd, '\u{E041}'));
        fallbacks.push((SymbolType::RepeatEnd, ":|"));
        symbols.push((SymbolType::Sharp, '\u{E262}'));
        fallbacks.push((SymbolType::Sharp, "♯"));
        symbols.push((SymbolType::Flat, '\u{E260}'));
        fallbacks.push((SymbolType::Flat, "♭"));
        symbols.push((SymbolType::Mordent, '\u{E56C}'));
        fallbacks.push((SymbolType::Mordent, "∿"));
        symbols.push((SymbolType::Trill, '\u{E566}'));
        fallbacks.push((SymbolType::Trill, "tr"));
        let m = SMuFLMapper { symbols, fallbacks };
        m
    }

    /// The SMuFL glyph of the symbol when `use_smufl`, its fallback text otherwise.
    pub fn get_symbol(&self, symbol_type: SymbolType, use_smufl: bool) -> (s: String)
        requires
            self.wf(),
        ensures
            s@ == (if use_smufl { seq![smufl_char(symbol_type)] } else { fallback_text(symbol_type) }),
    {
        if use_smufl {
            let mut i: usize = 0;
            while i < self.symbols.len()
                invariant
                    self.wf(),
                    use_smufl,
                    i <= self.symbols@.len(),
                    forall|j: int| 0 <= j < i ==> (#[trigger] self.symbols@[j]).0 != symbol_type,
                decreases self.symbols@.len() - i,
            {
                if self.symbols[i].0 == symbol_type {
                    assert(self.symbols@[i as int].1 == smufl_char(self.symbols@[i as int].0));
                    let mut s = String::new();
                    push_char(&mut s, self.symbols[i].1);
                    assert(s@ =~= seq![smufl_char(symbol_type)]);
                    return s;
                }
                i = i + 1;
            }
            assert(self.symbols@[symbol_index(symbol_type)].0 == symbol_type);
            assert(false);
        }
        let mut k: usize = 0;
        while k < self.fallbacks.len()
            invariant
                self.wf(),
                !use_smufl,
                k <= self.fallbacks@.len(),
                forall|j: int| 0 <= j < k ==> (#[trigger] self.fallbacks@[j]).0 != symbol_type,
            decreases self.fallbacks@.len() - k,
        {
            if self.fallbacks[k].0 == symbol_type {
                assert(self.fallbacks@[k as int].1@ == fallback_text(self.fallbacks@[k as int].0));
                return self.fallbacks[k].1.to_owned();
            }
            k = k + 1;
        }
        assert(self.fallbacks@[symbol_index(symbol_type)].0 == symbol_type);
        assert(false);
        "?".to_owned()
    }

    /// CSS class of rendered symbols.
    pub fn get_symbol_class(&self, use_smufl: bool) -> (c: &'static str)
        ensures
            c@ == (if use_smufl { "smufl-symbol"@ } else { "unicode-symbol"@ }),
    {
        if use_smufl { "smufl-symbol" } else { "unicode-symbol" }
    }
}

impl Default for SMuFLMapper {
    fn default() -> (m: Self)
        ensures
            m.wf(),
    {
        Self::new()
    }
}

} // verus!

verus! {

/// Fonts used for music symbols and text.
#[derive(Clone, Copy, Debug)]
pub struct FontStrategy {
    pub primary_music_font: &'static str,
    pub fallback_music_font: &'static str,
    pub text_font: &'static str,
    pub use_smufl: bool,
}

impl Default for FontStrategy {
    fn default() -> (f: Self)
        ensures
            f.primary_music_font@ == "Bravura"@,
            f.fallback_music_font@ == "Leland"@,
            f.text_font@ == "Georgia"@,
            f.use_smufl,
    {
        FontStrategy {
            primary_music_font: "Bravura",
            fallback_music_font: "Leland",
            text_font: "Georgia",
            use_smufl: true,
        }
    }
}

/// The `@font-face` declarations for the primary and fallback music fonts.
pub open spec fn font_face_css(primary: Seq<char>, fallback: Seq<char>) -> Seq<char> {
    "\n@font-face {\n  font-family: '"@ + primary + "';\n  src: url('"@ + unicode_lowercase(primary)
        + ".woff2') format('woff2'),\n       url('"@ + unicode_lowercase(primary)
        + ".woff') format('woff');\n  font-display: swap;\n  unicode-range: U+E000-E8FF; /* SMuFL Private Use Area */\n}\n\n@font-face {\n  font-family: '"@
        + fallback + "';\n  src: url('"@ + unicode_lowercase(fallback)
        + ".woff2') format('woff2');\n  font-display: swap;\n  unicode-range: U+E000-E8FF;\n}\n"@
}

impl FontStrategy {
    /// CSS `@font-face` declarations loading the music fonts (file names in lower case).
    pub fn generate_font_face_css(&self) -> (css: String)
        ensures
            css@ == font_face_css(self.primary_music_font@, self.fallback_music_font@),
    {
        let primary_lower = to_lowercase(self.primary_music_font);
        let fallback_lower = to_lowercase(self.fallback_music_font);
        let mut css = "\n@font-face {\n  font-family: '".to_owned();
        css.append(self.primary_music_font);
        css.append("';\n  src: url('");
        css.append(primary_lower.as_str());
        css.append(".woff2') format('woff2'),\n       url('");
        css.append(primary_lower.as_str());
        css.append(".woff') format('woff');\n  font-display: swap;\n  unicode-range: U+E000-E8FF; /* SMuFL Private Use Area */\n}\n\n@font-face {\n  font-family: '");
        css.append(self.fallback_music_font);
        css.append("';\n  src: url('");
        css.append(fallback_lower.as_str());
        css.append(".woff2') format('woff2');\n  font-display: swap;\n  unicode-range: U+E000-E8FF;\n}\n");
        css
    }

    /// The CSS font family for music symbols.
    pub fn get_music_font_family(&self) -> (f: String)
        ensures
            f@ == (if self.use_smufl {
                "'"@ + self.primary_music_font@ + "', '"@ + self.fallback_music_font@ + "', serif"@
            } else {
                "serif"@
            }),
    {
        if self.use_smufl {
            let mut f = "'".to_owned();
            f.append(self.primary_music_font);
            f.append("', '");
            f.append(self.fallback_music_font);
            f.append("', serif");
            f
        } else {
            "serif".to_owned()
        }
    }
}

} // verus!
