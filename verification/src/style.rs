//! Styled text: what a line on the screen is made of.

use vstd::prelude::*;

use crate::text;
#[allow(unused_imports)]
use crate::text::{opt_view, views};

verus! {

/// A terminal colour.
pub enum Color {
    Black,
    Red,
    Green,
    Yellow,
    Blue,
    Magenta,
    Cyan,
    Gray,
    DarkGray,
    Rgb(u8, u8, u8),
    /// Any other colour, by its name.
    Named(String),
}

pub enum ColorView {
    Black,
    Red,
    Green,
    Yellow,
    Blue,
    Magenta,
    Cyan,
    Gray,
    DarkGray,
    Rgb(u8, u8, u8),
    Named(Seq<char>),
}

impl View for Color {
    type V = ColorView;

    open spec fn view(&self) -> ColorView {
        match *self {
            Color::Black => ColorView::Black,
            Color::Red => ColorView::Red,
            Color::Green => ColorView::Green,
            Color::Yellow => ColorView::Yellow,
            Color::Blue => ColorView::Blue,
            Color::Magenta => ColorView::Magenta,
            Color::Cyan => ColorView::Cyan,
            Color::Gray => ColorView::Gray,
            Color::DarkGray => ColorView::DarkGray,
            Color::Rgb(r, g, b) => ColorView::Rgb(r, g, b),
            Color::Named(s) => ColorView::Named(s@),
        }
    }
}

impl Color {
    pub fn duplicate(&self) -> (r: Color)
        ensures
            r@ == self@,
    {
        match self {
            Color::Black => Color::Black,
            Color::Red => Color::Red,
            Color::Green => Color::Green,
            Color::Yellow => Color::Yellow,
            Color::Blue => Color::Blue,
            Color::Magenta => Color::Magenta,
            Color::Cyan => Color::Cyan,
            Color::Gray => Color::Gray,
            Color::DarkGray => Color::DarkGray,
            Color::Rgb(r, g, b) => Color::Rgb(*r, *g, *b),
            Color::Named(s) => Color::Named(s.clone()),
        }
    }
}

// Modifier bits, as terminals' style attributes are numbered.
pub const BOLD: u16 = 1;

pub const ITALIC: u16 = 4;

pub const UNDERLINED: u16 = 8;

pub const REVERSED: u16 = 64;

/// Colours and modifiers of a piece of text; what is not set is inherited.
pub struct Style {
    pub fg: Option<Color>,
    pub bg: Option<Color>,
    /// Modifier bits switched on.
    pub add: u16,
    /// Modifier bits switched off.
    pub sub: u16,
}

#[verifier::ext_equal]
pub struct StyleView {
    pub fg: Option<ColorView>,
    pub bg: Option<ColorView>,
    pub add: u16,
    pub sub: u16,
}

impl View for Style {
    type V = StyleView;

    open spec fn view(&self) -> StyleView {
        StyleView { fg: opt_view(self.fg), bg: opt_view(self.bg), add: self.add, sub: self.sub }
    }
}

impl StyleView {
    /// The style that sets nothing.
    pub open spec fn plain() -> StyleView {
        StyleView { fg: None, bg: None, add: 0, sub: 0 }
    }

    pub open spec fn of(fg: ColorView) -> StyleView {
        StyleView { fg: Some(fg), bg: None, add: 0, sub: 0 }
    }

    /// With modifier bits switched on.
    pub open spec fn with(self, bits: u16) -> StyleView {
        StyleView { add: self.add | bits, sub: self.sub & !bits, ..self }
    }
}

impl Style {
    /// The style that sets nothing.
    pub fn plain() -> (r: Style)
        ensures
            r@ == StyleView::plain(),
    {
        Style { fg: None, bg: None, add: 0, sub: 0 }
    }

    /// A foreground colour alone.
    pub fn of(fg: Color) -> (r: Style)
        ensures
            r@ == StyleView::of(fg@),
    {
        Style { fg: Some(fg), bg: None, add: 0, sub: 0 }
    }

    /// With modifier bits switched on.
    pub fn with(self, bits: u16) -> (r: Style)
        ensures
            r@ == self@.with(bits),
    {
        Style { fg: self.fg, bg: self.bg, add: self.add | bits, sub: self.sub & !bits }
    }

    pub fn is_plain(&self) -> (r: bool)
        ensures
            r == (self@ == StyleView::plain()),
    {
        self.fg.is_none() && self.bg.is_none() && self.add == 0 && self.sub == 0
    }

    pub fn duplicate(&self) -> (r: Style)
        ensures
            r@ == self@,
    {
        let fg = match &self.fg {
            Some(c) => Some(c.duplicate()),
            None => None,
        };
        let bg = match &self.bg {
            Some(c) => Some(c.duplicate()),
            None => None,
        };
        Style { fg, bg, add: self.add, sub: self.sub }
    }
}

/// Text in one style.
pub struct Span {
    pub content: String,
    pub style: Style,
}

#[verifier::ext_equal]
pub struct SpanView {
    pub content: Seq<char>,
    pub style: StyleView,
}

impl View for Span {
    type V = SpanView;

    open spec fn view(&self) -> SpanView {
        SpanView { content: self.content@, style: self.style@ }
    }
}

impl SpanView {
    pub open spec fn raw(s: Seq<char>) -> SpanView {
        SpanView { content: s, style: StyleView::plain() }
    }

    pub open spec fn styled(s: Seq<char>, style: StyleView) -> SpanView {
        SpanView { content: s, style }
    }
}

impl Span {
    pub fn raw(content: String) -> (r: Span)
        ensures
            r@ == SpanView::raw(content@),
    {
        Span { content, style: Style::plain() }
    }

    pub fn styled(content: String, style: Style) -> (r: Span)
        ensures
            r@ == SpanView::styled(content@, style@),
    {
        Span { content, style }
    }

    pub fn duplicate(&self) -> (r: Span)
        ensures
            r@ == self@,
    {
        Span { content: self.content.clone(), style: self.style.duplicate() }
    }
}

/// A line: spans, over a style for the whole line.
pub struct Line {
    pub spans: Vec<Span>,
    pub style: Style,
}

#[verifier::ext_equal]
pub struct LineView {
    pub spans: Seq<SpanView>,
    pub style: StyleView,
}

impl View for Line {
    type V = LineView;

    open spec fn view(&self) -> LineView {
        LineView { spans: views(self.spans@), style: self.style@ }
    }
}

/// The characters of spans, one after the other.
pub open spec fn content(spans: Seq<SpanView>) -> Seq<char>
    decreases spans.len(),
{
    if spans.len() == 0 {
        Seq::empty()
    } else {
        content(spans.drop_last()) + spans.last().content
    }
}

impl LineView {
    pub open spec fn of(spans: Seq<SpanView>) -> LineView {
        LineView { spans, style: StyleView::plain() }
    }

    /// A line of unstyled text; empty text has no span.
    pub open spec fn raw(s: Seq<char>) -> LineView {
        LineView::of(
            if s.len() == 0 {
                Seq::empty()
            } else {
                seq![SpanView::raw(s)]
            },
        )
    }

    /// A line of text in one style; empty text has no span.
    pub open spec fn styled(s: Seq<char>, style: StyleView) -> LineView {
        LineView { style, ..LineView::raw(s) }
    }

    /// The text of the line.
    pub open spec fn text(self) -> Seq<char> {
        content(self.spans)
    }
}

impl Line {
    pub fn of(spans: Vec<Span>) -> (r: Line)
        ensures
            r@ == LineView::of(views(spans@)),
    {
        Line { spans, style: Style::plain() }
    }

    pub fn raw(s: String) -> (r: Line)
        ensures
            r@ == LineView::raw(s@),
    {
        Line::styled(s, Style::plain())
    }

    pub fn styled(s: String, style: Style) -> (r: Line)
        ensures
            r@ == LineView::styled(s@, style@),
    {
        let mut spans: Vec<Span> = Vec::new();
        let empty = s.as_str().is_empty();
        if !empty {
            spans.push(Span::raw(s));
            assert(views(spans@) =~= seq![SpanView::raw(s@)]);
        } else {
            assert(views(spans@) =~= Seq::<SpanView>::empty());
        }
        Line { spans, style }
    }

    /// An empty line.
    pub fn empty() -> (r: Line)
        ensures
            r@ == LineView::raw(Seq::empty()),
    {
        let spans: Vec<Span> = Vec::new();
        assert(views(spans@) =~= Seq::<SpanView>::empty());
        Line { spans, style: Style::plain() }
    }

    /// The text of the line.
    pub fn text(&self) -> (r: String)
        ensures
            r@ == self@.text(),
    {
        let ghost all = self@.spans;
        let mut s = String::new();
        let mut i: usize = 0;
        while i < self.spans.len()
            invariant
                i <= self.spans@.len(),
                all == views(self.spans@),
                s@ == content(all.take(i as int)),
            decreases self.spans@.len() - i,
        {
            s.append(self.spans[i].content.as_str());
            i += 1;
            assert(all.take(i as int).drop_last() =~= all.take(i - 1));
        }
        assert(all.take(i as int) =~= all);
        s
    }

    pub fn duplicate(&self) -> (r: Line)
        ensures
            r@ == self@,
    {
        Line { spans: duplicate_spans(&self.spans), style: self.style.duplicate() }
    }
}

pub fn duplicate_spans(v: &Vec<Span>) -> (r: Vec<Span>)
    ensures
        views(r@) == views(v@),
{
    let mut r: Vec<Span> = Vec::new();
    let mut i: usize = 0;
    while i < v.len()
        invariant
            i <= v@.len(),
            r@.len() == i,
            forall|k: int| 0 <= k < i ==> (#[trigger] r@[k])@ == v@[k]@,
        decreases v@.len() - i,
    {
        r.push(v[i].duplicate());
        i += 1;
    }
    assert(views(r@) =~= views(v@));
    r
}

/// Number of characters of a line.
pub fn line_chars(line: &Line) -> (r: usize)
    ensures
        r == line@.text().len(),
{
    let s = line.text();
    s.as_str().unicode_len()
}

// ---------------------------------------------------------------------------
// Selections
// ---------------------------------------------------------------------------

pub open spec fn reversed() -> StyleView {
    StyleView::plain().with(REVERSED)
}

/// Span `s`, which starts at column `at` of its line, with the characters at
/// columns `from` to `to` reversed: up to three spans.
pub open spec fn split_reversed(s: SpanView, at: int, from: int, to: int) -> Seq<SpanView> {
    let n = s.content.len() as int;
    if at + n <= from || at > to || n == 0 {
        seq![s]
    } else {
        let a = if from > at {
            from - at
        } else {
            0
        };
        let b = if to + 1 - at < n {
            to + 1 - at
        } else {
            n
        };
        let head = if a > 0 {
            seq![SpanView { content: s.content.subrange(0, a), ..s }]
        } else {
            Seq::empty()
        };
        let mid = seq![
            SpanView { content: s.content.subrange(a, b), style: s.style.with(REVERSED) },
        ];
        let tail = if b < n {
            seq![SpanView { content: s.content.subrange(b, n), ..s }]
        } else {
            Seq::empty()
        };
        head + mid + tail
    }
}

/// The spans with columns `from` to `to` reversed.
pub open spec fn overlaid(spans: Seq<SpanView>, from: int, to: int) -> Seq<SpanView>
    decreases spans.len(),
{
    if spans.len() == 0 {
        Seq::empty()
    } else {
        overlaid(spans.drop_last(), from, to) + split_reversed(
            spans.last(),
            content(spans.drop_last()).len() as int,
            from,
            to,
        )
    }
}

/// Whether a span reaches from column `to`, or before, to beyond `from`.
pub open spec fn spans_both(spans: Seq<SpanView>, from: int, to: int) -> bool {
    exists|i: int| #[trigger] spans_both_at(spans, i, from, to)
}

pub open spec fn spans_both_at(spans: Seq<SpanView>, i: int, from: int, to: int) -> bool {
    let at = content(spans.take(i)).len();
    0 <= i < spans.len() && spans[i].content.len() > 0 && at <= to && from < at
        + spans[i].content.len()
}

impl LineView {
    /// Columns `from` to `to` reversed; an empty line shows one reversed cell.
    pub open spec fn selected(self, from: int, to: int) -> LineView {
        if self.text().len() == 0 {
            LineView { spans: seq![SpanView::styled(seq![' '], reversed())], ..self }
        } else {
            LineView { spans: overlaid(self.spans, from, to), ..self }
        }
    }
}

/// Restyle chars `from..=to` of a highlighted line as reversed, splitting
/// spans at the boundaries. A span is not cut at a range that runs backwards.
pub fn overlay_reversed(line: &mut Line, from: usize, to: usize)
    requires
        from > to + 1 ==> !spans_both(old(line)@.spans, from as int, to as int),
    ensures
        final(line)@ == old(line)@.selected(from as int, to as int),
{
    let ghost all = line@.spans;
    if line_chars(line) == 0 {
        let mut one = String::new();
        one.push(' ');
        let mut spans: Vec<Span> = Vec::new();
        spans.push(Span::styled(one, Style::plain().with(REVERSED)));
        line.spans = spans;
        assert(one@ =~= seq![' ']);
        assert(line@.spans =~= seq![SpanView::styled(seq![' '], reversed())]);
        return;
    }
    let mut out: Vec<Span> = Vec::new();
    let mut before = String::new();
    let mut i: usize = 0;
    while i < line.spans.len()
        invariant
            i <= line.spans@.len(),
            from > to + 1 ==> !spans_both(all, from as int, to as int),
            *line == *old(line),
            all == views(line.spans@),
            before@ == content(all.take(i as int)),
            views(out@) == overlaid(all.take(i as int), from as int, to as int),
        decreases line.spans@.len() - i,
    {
        let ghost o0 = out@;
        let at = before.as_str().unicode_len();
        let span = &line.spans[i];
        let s = span.content.as_str();
        let n = s.unicode_len();
        before.append(s);
        let end = before.as_str().unicode_len();
        proof {
            assert(all[i as int] == span@);
            assert(all.take(i + 1).drop_last() =~= all.take(i as int));
            assert(all.take(i + 1).last() == span@);
            assert(end == at + n);
            if !(end <= from || at > to || n == 0) {
                assert(spans_both_at(all, i as int, from as int, to as int));
                assert(from <= to + 1);
            }
        }
        let ghost parts = split_reversed(span@, at as int, from as int, to as int);
        if end <= from || at > to || n == 0 {
            out.push(span.duplicate());
            assert(views(out@) =~= views(o0) + parts);
        } else {
            let a = if from > at {
                from - at
            } else {
                0
            };
            let b = if to - at < n {
                to - at + 1
            } else {
                n
            };
            if a > 0 {
                out.push(Span::styled(s.substring_char(0, a).to_owned(), span.style.duplicate()));
            }
            let ghost o1 = out@;
            out.push(
                Span::styled(
                    s.substring_char(a, b).to_owned(),
                    span.style.duplicate().with(REVERSED),
                ),
            );
            let ghost o2 = out@;
            if b < n {
                out.push(Span::styled(s.substring_char(b, n).to_owned(), span.style.duplicate()));
            }
            assert(views(out@) =~= views(o0) + parts);
        }
        i += 1;
    }
    assert(all.take(i as int) =~= all);
    line.spans = out;
}

/// Overlaying a selection keeps the text of a line that has any.
pub proof fn law_selection_keeps_the_text(line: LineView, from: int, to: int)
    requires
        0 <= from,
        from > to + 1 ==> !spans_both(line.spans, from, to),
        line.text().len() > 0,
    ensures
        line.selected(from, to).text() == line.text(),
{
    lemma_overlaid_text(line.spans, from, to);
}

proof fn lemma_content_concat(a: Seq<SpanView>, b: Seq<SpanView>)
    ensures
        content(a + b) == content(a) + content(b),
    decreases b.len(),
{
    if b.len() == 0 {
        assert(a + b =~= a);
        assert(content(a) + content(b) =~= content(a));
    } else {
        assert((a + b).drop_last() =~= a + b.drop_last());
        lemma_content_concat(a, b.drop_last());
        assert(content(a + b) =~= content(a) + content(b));
    }
}

proof fn lemma_overlaid_text(spans: Seq<SpanView>, from: int, to: int)
    requires
        0 <= from,
        from > to + 1 ==> !spans_both(spans, from, to),
    ensures
        content(overlaid(spans, from, to)) == content(spans),
    decreases spans.len(),
{
    if spans.len() > 0 {
        let d = spans.drop_last();
        assert(d =~= spans.take(spans.len() - 1));
        assert forall|i: int| spans_both_at(d, i, from, to) implies spans_both_at(
            spans,
            i,
            from,
            to,
        ) by {
            assert(d.take(i) =~= spans.take(i));
        }
        if from > to + 1 {
            assert(!spans_both(d, from, to)) by {
                if spans_both(d, from, to) {
                    let i = choose|i: int| spans_both_at(d, i, from, to);
                    assert(spans_both_at(spans, i, from, to));
                }
            }
            assert(!spans_both_at(spans, spans.len() - 1, from, to));
        }
        lemma_overlaid_text(d, from, to);
        let parts = split_reversed(spans.last(), content(d).len() as int, from, to);
        lemma_content_concat(overlaid(d, from, to), parts);
        reveal_with_fuel(content, 4);
        assert(content(parts) =~= spans.last().content) by {
            assert(parts.len() <= 3);
            assert(parts.drop_last().len() == parts.len() - 1);
            assert(parts.drop_last().drop_last().len() == 0 || parts.len() != 2);
        }
    }
}

} // verus!
