//! Syntax highlighting.

use vstd::prelude::*;

#[allow(unused_imports)]
use crate::notebook::source_lines;
use crate::style::{Color, Line, Span, Style};
#[allow(unused_imports)]
use crate::style::{ColorView, LineView, SpanView, StyleView};
use crate::text;
#[allow(unused_imports)]
use crate::text::{strip_trailing, views};

verus! {

/// `syntect::parsing::SyntaxSet`, opaque.
#[verifier::external_type_specification]
#[verifier::external_body]
pub struct ExSyntaxSet(syntect::parsing::SyntaxSet);

/// `syntect::highlighting::ThemeSet`, opaque.
#[verifier::external_type_specification]
#[verifier::external_body]
pub struct ExThemeSet(syntect::highlighting::ThemeSet);

/// `std::sync::OnceLock`, opaque.
#[verifier::external_type_specification]
#[verifier::external_body]
#[verifier::reject_recursive_types(T)]
pub struct ExOnceLock<T>(std::sync::OnceLock<T>);

/// Themes that come with the highlighter.
pub open spec fn bundled(theme: Seq<char>) -> bool {
    ||| theme == "base16-ocean.dark"@
    ||| theme == "base16-eighties.dark"@
    ||| theme == "base16-mocha.dark"@
    ||| theme == "base16-ocean.light"@
    ||| theme == "InspiredGitHub"@
    ||| theme == "Solarized (dark)"@
    ||| theme == "Solarized (light)"@
}

/// The theme in use where `theme` is asked for.
pub open spec fn theme_or_default(theme: Seq<char>) -> Seq<char> {
    if bundled(theme) {
        theme
    } else {
        "base16-ocean.dark"@
    }
}

/// What `syntect` makes of `source` in the syntax that `lang` names: for each
/// line, pieces of text with their foreground colours. Nothing where `lang`
/// names no syntax.
pub uninterp spec fn syntax_tokens(
    theme: Seq<char>,
    lang: Seq<char>,
    source: Seq<char>,
) -> Option<Seq<Seq<(Seq<char>, u8, u8, u8)>>>;

pub open spec fn token_views(
    v: Seq<Vec<(String, u8, u8, u8)>>,
) -> Seq<Seq<(Seq<char>, u8, u8, u8)>> {
    v.map_values(
        |l: Vec<(String, u8, u8, u8)>|
            l@.map_values(|t: (String, u8, u8, u8)| (t.0@, t.1, t.2, t.3)),
    )
}

pub open spec fn found_tokens(
    r: Option<Vec<Vec<(String, u8, u8, u8)>>>,
) -> Option<Seq<Seq<(Seq<char>, u8, u8, u8)>>> {
    match r {
        Some(v) => Some(token_views(v@)),
        None => None,
    }
}

/// `OnceLock::new`: an empty cell. That it is empty is not stated.
#[verifier::external_body]
fn empty_cell() -> std::sync::OnceLock<
    (syntect::parsing::SyntaxSet, syntect::highlighting::ThemeSet),
> {
    std::sync::OnceLock::new()
}

/// `syntect::easy::HighlightLines` over the default syntaxes and the bundled
/// theme. The syntax is what `SyntaxSet::find_syntax_by_token` gives for `lang`
/// (an extension or a name), and there is no result where it gives none; the
/// default set has a syntax named "Plain Text". The source is cut with
/// `LinesWithEndings`, so there is one list per line, a final line break
/// starting no further line. `sets` caches the two default sets; this function
/// alone fills it.
#[verifier::external_body]
fn tokens(
    sets: &std::sync::OnceLock<(syntect::parsing::SyntaxSet, syntect::highlighting::ThemeSet)>,
    theme: &str,
    lang: &str,
    source: &str,
) -> (r: Option<Vec<Vec<(String, u8, u8, u8)>>>)
    requires
        bundled(theme@),
    ensures
        found_tokens(r) == syntax_tokens(theme@, lang@, source@),
        r matches Some(v) ==> v@.len() == source_lines(source@).len(),
        lang@ == "Plain Text"@ ==> r is Some,
{
    let (ps, ts) = sets.get_or_init(
        || (syntect::parsing::SyntaxSet::load_defaults_newlines(), syntect::highlighting::ThemeSet::load_defaults()),
    );
    let syntax = ps.find_syntax_by_token(lang)?;
    let mut hl = syntect::easy::HighlightLines::new(syntax, &ts.themes[theme]);
    let lines = syntect::util::LinesWithEndings::from(source)
        .map(|line| hl.highlight_line(line, ps).unwrap_or_default())
        .map(|l| l.into_iter().map(|(st, txt)| (txt.to_string(), st.foreground.r, st.foreground.g, st.foreground.b)).collect())
        .collect();
    Some(lines)
}

/// One highlighted line: line breaks are cut off the pieces.
pub open spec fn token_line(tokens: Seq<(Seq<char>, u8, u8, u8)>) -> LineView {
    LineView::of(
        tokens.map_values(
            |t: (Seq<char>, u8, u8, u8)|
                SpanView::styled(
                    strip_trailing(t.0, '\n'),
                    StyleView::of(ColorView::Rgb(t.1, t.2, t.3)),
                ),
        ),
    )
}

/// The pieces of `source` in the syntax that `lang` names, as plain text where
/// it names none.
pub open spec fn tokens_or_plain(theme: Seq<char>, lang: Seq<char>, source: Seq<char>) -> Seq<
    Seq<(Seq<char>, u8, u8, u8)>,
> {
    match syntax_tokens(theme, lang, source) {
        Some(t) => t,
        None => syntax_tokens(theme, "Plain Text"@, source)->Some_0,
    }
}

/// The highlighted lines of `source`.
pub open spec fn highlighted(theme: Seq<char>, lang: Seq<char>, source: Seq<char>) -> Seq<
    LineView,
> {
    tokens_or_plain(theme_or_default(theme), lang, source).map_values(
        |l: Seq<(Seq<char>, u8, u8, u8)>| token_line(l),
    )
}

fn is_bundled(theme: &str) -> (r: bool)
    ensures
        r == bundled(theme@),
{
    text::same(theme, "base16-ocean.dark") || text::same(theme, "base16-eighties.dark")
        || text::same(theme, "base16-mocha.dark") || text::same(theme, "base16-ocean.light")
        || text::same(theme, "InspiredGitHub") || text::same(theme, "Solarized (dark)")
        || text::same(theme, "Solarized (light)")
}

/// Highlights source text in one theme.
pub struct Highlighter {
    theme: String,
    sets: std::sync::OnceLock<(syntect::parsing::SyntaxSet, syntect::highlighting::ThemeSet)>,
}

impl View for Highlighter {
    type V = Seq<char>;

    closed spec fn view(&self) -> Seq<char> {
        self.theme@
    }
}

fn make_line(tokens: &Vec<(String, u8, u8, u8)>) -> (r: Line)
    ensures
        r@ == token_line(tokens@.map_values(|t: (String, u8, u8, u8)| (t.0@, t.1, t.2, t.3))),
{
    let ghost all = tokens@.map_values(|t: (String, u8, u8, u8)| (t.0@, t.1, t.2, t.3));
    let mut spans: Vec<Span> = Vec::new();
    let mut i: usize = 0;
    while i < tokens.len()
        invariant
            i <= tokens@.len(),
            all == tokens@.map_values(|t: (String, u8, u8, u8)| (t.0@, t.1, t.2, t.3)),
            spans@.len() == i,
            forall|k: int| 0 <= k < i ==> (#[trigger] spans@[k])@ == token_line(all).spans[k],
        decreases tokens@.len() - i,
    {
        let t = &tokens[i];
        let s = text::without_trailing(t.0.as_str(), '\n');
        spans.push(Span::styled(s, Style::of(Color::Rgb(t.1, t.2, t.3))));
        assert(all[i as int] == (t.0@, t.1, t.2, t.3));
        i += 1;
    }
    assert(views(spans@) =~= token_line(all).spans);
    Line::of(spans)
}

impl Highlighter {
    /// A highlighter for `theme`, or for the default theme where there is no
    /// such theme.
    pub fn new(theme: &str) -> (r: Highlighter)
        ensures
            r@ == theme@,
    {
        Highlighter { theme: theme.to_owned(), sets: empty_cell() }
    }

    /// Syntax-highlight source text. `lang` may be a name ("rust", "python")
    /// or an extension ("rs", "py").
    pub fn lines(&self, source: &str, lang: &str) -> (r: Vec<Line>)
        ensures
            views(r@) == highlighted(self@, lang@, source@),
            r@.len() == source_lines(source@).len(),
    {
        let theme = if is_bundled(self.theme.as_str()) {
            self.theme.as_str()
        } else {
            "base16-ocean.dark"
        };
        let toks = match tokens(&self.sets, theme, lang, source) {
            Some(t) => t,
            None => match tokens(&self.sets, theme, "Plain Text", source) {
                Some(t) => t,
                None => Vec::new(),
            },
        };
        let ghost all = token_views(toks@);
        let mut r: Vec<Line> = Vec::new();
        let mut i: usize = 0;
        while i < toks.len()
            invariant
                i <= toks@.len(),
                all == token_views(toks@),
                r@.len() == i,
                forall|k: int| 0 <= k < i ==> (#[trigger] r@[k])@ == token_line(all[k]),
            decreases toks@.len() - i,
        {
            r.push(make_line(&toks[i]));
            i += 1;
        }
        assert(views(r@) =~= highlighted(self@, lang@, source@));
        r
    }
}

} // verus!
