//! The grammar registry: a fixed set of language grammars and one color
//! theme, both loaded from definition data embedded in the syntect crate, and
//! the per-block line highlighter that runs over them.
//!
//! A `Registry` is immutable once built; every lookup against it is a pure
//! function of the language tag, which is what lets the resolved class name
//! be spoken of in contracts through [`syntect_class`].
//!
//! The single active theme is one of the theme definitions embedded in the
//! syntect crate — this crate embeds no definition data of its own — so the
//! colors it assigns are those of that built-in theme; no contract
//! constrains which colors they are.

use vstd::prelude::*;

use syntect::easy::HighlightLines;
use syntect::highlighting::Theme;
use syntect::highlighting::ThemeSet;
use syntect::parsing::SyntaxReference;
use syntect::parsing::SyntaxSet;

verus! {

#[verifier::external_type_specification]
#[verifier::external_body]
pub struct ExSyntaxSet(SyntaxSet);

#[verifier::external_type_specification]
#[verifier::external_body]
pub struct ExSyntaxReference(SyntaxReference);

#[verifier::external_type_specification]
#[verifier::external_body]
pub struct ExTheme(Theme);

#[verifier::external_type_specification]
#[verifier::external_body]
pub struct ExHighlightLines<'a>(HighlightLines<'a>);

/// One color, as the theme gives it: red, green, blue, alpha.
#[derive(Clone, Copy, PartialEq, Eq, Structural)]
pub struct Rgba {
    pub r: u8,
    pub g: u8,
    pub b: u8,
    pub a: u8,
}

/// One contiguous run of same-styled characters within one highlighted line.
pub struct StyledSpan {
    pub fg: Rgba,
    pub bg: Rgba,
    /// Font flags as syntect packs them: 1 bold, 2 underline, 4 italic.
    pub font: u8,
    pub text: Vec<char>,
}

/// The texts of a row of spans, joined back together.
pub open spec fn concat_texts(spans: Seq<StyledSpan>) -> Seq<char>
    decreases spans.len(),
{
    if spans.len() == 0 {
        Seq::empty()
    } else {
        spans[0].text@ + concat_texts(spans.skip(1))
    }
}

/// The class name that the fixed grammar registry resolves for a language
/// tag: the matched grammar's name, lowercased, or `None` when no grammar's
/// name or extension matches the tag.
pub uninterp spec fn syntect_class(tag: Seq<char>) -> Option<Seq<char>>;

/// The class name of the universal fallback grammar.
pub open spec fn plain_class() -> Seq<char> {
    "plain text"@
}

/// The class name a fence's language tag resolves to: the matched grammar's,
/// or the plain-text fallback for an absent or unmatched tag.
pub open spec fn class_for(tag: Seq<char>) -> Seq<char> {
    if tag.len() == 0 {
        plain_class()
    } else {
        match syntect_class(tag) {
            Some(c) => c,
            None => plain_class(),
        }
    }
}

/// An absent or unmatched language tag resolves to the plain-text class:
/// the lookup never fails, it degrades.
pub proof fn lemma_fallback_class(tag: Seq<char>)
    requires
        tag.len() == 0 || syntect_class(tag) is None,
    ensures
        class_for(tag) == plain_class(),
{
}

/// The process-fixed set of grammars plus the single active theme.
pub struct Registry {
    syntaxes: SyntaxSet,
    theme: Theme,
    /// The theme's default background; spans that share it carry no
    /// background of their own.
    pub bg: Rgba,
}

/// One language grammar, resolved from the registry: its lowercased name (the
/// class the output advertises) and the underlying lexer definition.
pub struct Grammar {
    pub name: Vec<char>,
    pub syntax: SyntaxReference,
}

/// The stateful highlighter for one code block: line state carries across
/// lines only as far as the grammar's own multi-line constructs require.
pub struct LineHighlighter<'a> {
    inner: HighlightLines<'a>,
    set: &'a SyntaxSet,
}

impl Registry {
    /// Relies on syntect's embedded definition data: the default syntax set
    /// (newline variant) and the default theme set, of which one theme is
    /// taken; its declared background, if any, becomes the default.
    #[verifier::external_body]
    pub(crate) fn new() -> (reg: Registry) {
        let syntaxes = SyntaxSet::load_defaults_newlines();
        let themes = ThemeSet::load_defaults();
        let theme = themes.themes.get("base16-ocean.dark").cloned().unwrap_or_default();
        let c = theme.settings.background.unwrap_or(syntect::highlighting::Color::BLACK);
        let bg = Rgba { r: c.r, g: c.g, b: c.b, a: c.a };
        Registry { syntaxes, theme, bg }
    }

    /// Relies on syntect's SyntaxSet::find_syntax_by_token: a grammar is
    /// matched by extension or by case-insensitive name, a pure function of
    /// the tag for a fixed set, named here by [`syntect_class`].
    #[verifier::external_body]
    fn find_grammar(&self, tag: &Vec<char>) -> (r: Option<Grammar>)
        ensures
            r matches Some(g) ==> Some(g.name@) == syntect_class(tag@),
            r is None ==> syntect_class(tag@) is None,
    {
        let t: String = tag.iter().collect();
        self.syntaxes.find_syntax_by_token(&t).map(
            |syn| Grammar { name: syn.name.to_lowercase().chars().collect(), syntax: syn.clone() },
        )
    }

    /// Relies on syntect's SyntaxSet::find_syntax_plain_text: the default
    /// set always holds the "Plain Text" grammar.
    #[verifier::external_body]
    fn plain_grammar(&self) -> (g: Grammar)
        ensures
            g.name@ == plain_class(),
    {
        let syn = self.syntaxes.find_syntax_plain_text();
        Grammar { name: syn.name.to_lowercase().chars().collect(), syntax: syn.clone() }
    }

    /// Resolve a fence's language tag to a grammar. Total: an empty (absent)
    /// or unmatched tag falls back to the plain-text grammar.
    pub fn lookup(&self, tag: &Vec<char>) -> (g: Grammar)
        ensures
            g.name@ == class_for(tag@),
    {
        if tag.len() == 0 {
            self.plain_grammar()
        } else {
            match self.find_grammar(tag) {
                Some(g) => g,
                None => self.plain_grammar(),
            }
        }
    }

    /// The theme's default background color.
    pub fn background(&self) -> Rgba {
        self.bg
    }

    /// Relies on syntect's HighlightLines: a fresh highlighter over this
    /// registry's theme, seeded from the given grammar.
    #[verifier::external_body]
    pub(crate) fn start_block<'a>(&'a self, g: &Grammar) -> (h: LineHighlighter<'a>) {
        LineHighlighter {
            inner: HighlightLines::new(&g.syntax, &self.theme),
            set: &self.syntaxes,
        }
    }
}

impl<'a> LineHighlighter<'a> {
    /// Relies on syntect's HighlightLines::highlight_line, whose regions are
    /// consecutive slices of the line it is given: concatenated, they give
    /// the line back. A line it cannot process yields `None`.
    #[verifier::external_body]
    pub(crate) fn next_line(&mut self, line: &Vec<char>) -> (r: Option<Vec<StyledSpan>>)
        ensures
            r matches Some(spans) ==> concat_texts(spans@) == line@,
    {
        let l: String = line.iter().collect();
        match self.inner.highlight_line(&l, self.set) {
            Ok(regions) => Some(
                regions.into_iter().map(
                    |(st, t)| StyledSpan {
                        fg: Rgba { r: st.foreground.r, g: st.foreground.g, b: st.foreground.b, a: st.foreground.a },
                        bg: Rgba { r: st.background.r, g: st.background.g, b: st.background.b, a: st.background.a },
                        font: st.font_style.bits(),
                        text: t.chars().collect(),
                    },
                ).collect(),
            ),
            Err(_) => None,
        }
    }
}

} // verus!
