//! Minimal markdown: headings, fenced code, math, bullets, tables, links,
//! emphasis and images, as lines of styled text.

use vstd::prelude::*;

use crate::highlight::Highlighter;
#[allow(unused_imports)]
use crate::highlight::highlighted;
use crate::json::Json;
#[allow(unused_imports)]
use crate::json::{keys_in_order, JsonView};
use crate::latex;
#[allow(unused_imports)]
use crate::latex::unicode_approx;
#[allow(unused_imports)]
use crate::notebook::source_lines;
use crate::pictures::{Ask, Gallery, Graphic, InlineImage, Picture};
#[allow(unused_imports)]
use crate::pictures::{AskView, GalleryView, GraphicView, ImageView, PictureView};
use crate::style::{Color, Line, Span, Style, BOLD, ITALIC, UNDERLINED};
#[allow(unused_imports)]
use crate::style::{ColorView, LineView, SpanView, StyleView};
use crate::text;
#[allow(unused_imports)]
use crate::text::{
    byte_len, find_char, find_infix, has_prefix, has_suffix, join, lines_of, opt_view, repeated,
    split_on, strip_leading, strip_trailing, trim, trim_start, views,
};

verus! {

// ---------------------------------------------------------------------------
// Inline grammar
// ---------------------------------------------------------------------------

/// An element of a line of markdown.
pub enum Inline {
    Text(String),
    Code(String),
    Math(String),
    Strong(String),
    Emphasis(String),
    Link(String, String),
    /// A mid-text image, shown by its label.
    Image(String),
}

pub enum InlineView {
    Text(Seq<char>),
    Code(Seq<char>),
    Math(Seq<char>),
    Strong(Seq<char>),
    Emphasis(Seq<char>),
    Link(Seq<char>, Seq<char>),
    Image(Seq<char>),
}

impl View for Inline {
    type V = InlineView;

    open spec fn view(&self) -> InlineView {
        match *self {
            Inline::Text(s) => InlineView::Text(s@),
            Inline::Code(s) => InlineView::Code(s@),
            Inline::Math(s) => InlineView::Math(s@),
            Inline::Strong(s) => InlineView::Strong(s@),
            Inline::Emphasis(s) => InlineView::Emphasis(s@),
            Inline::Link(a, b) => InlineView::Link(a@, b@),
            Inline::Image(s) => InlineView::Image(s@),
        }
    }
}

/// Position of the first `**` from `i` on; the length where there is none.
pub open spec fn find_stars(s: Seq<char>, i: int) -> int
    decreases s.len() - i,
{
    if i + 1 >= s.len() {
        s.len() as int
    } else if s[i] == '*' && s[i + 1] == '*' {
        i
    } else {
        find_stars(s, i + 1)
    }
}

/// What follows a `[`: `label](url)`, with the characters it takes; or else
/// the literal text of what was consumed in looking for it.
pub open spec fn link_at(s: Seq<char>) -> (Result<(Seq<char>, Seq<char>), Seq<char>>, int) {
    let n = s.len() as int;
    let k = find_char(s, ']', 0);
    if k == n {
        (Err(seq!['['] + s), n)
    } else if !(k + 1 < n && s[k + 1] == '(') {
        (Err(seq!['['] + s.take(k + 1)), k + 1)
    } else {
        let u = find_char(s, ')', k + 2);
        if u == n {
            (Err(seq!['['] + s), n)
        } else {
            (Ok((s.take(k), s.subrange(k + 2, u))), u + 1)
        }
    }
}

/// `s` without one `*` at its end.
pub open spec fn drop_star(s: Seq<char>) -> Seq<char> {
    if s.len() > 0 && s.last() == '*' {
        s.drop_last()
    } else {
        s
    }
}

/// The element at the start of `s`, which is not empty, and the characters it
/// takes.
pub open spec fn element(s: Seq<char>) -> (InlineView, int) {
    let n = s.len() as int;
    let c = s[0];
    if c == '`' || c == '$' {
        let j = find_char(s, c, 1);
        if j == n {
            (InlineView::Text(s), n)
        } else {
            let inner = trim(s.subrange(1, j));
            if c == '`' {
                (InlineView::Code(inner), j + 1)
            } else if inner.len() == 0 {
                (InlineView::Text(s.take(j + 1)), j + 1)
            } else {
                (InlineView::Math(inner), j + 1)
            }
        }
    } else if c == '*' && n > 1 && s[1] == '*' {
        let j = find_stars(s, 2);
        if j == n {
            (InlineView::Text(s.take(2) + drop_star(s.skip(2))), n)
        } else if j == 2 {
            (InlineView::Text(s.take(2)), 4)
        } else {
            (InlineView::Strong(s.subrange(2, j)), j + 2)
        }
    } else if c == '*' {
        let j = find_char(s, '*', 1);
        if j == n {
            (InlineView::Text(s), n)
        } else {
            (InlineView::Emphasis(s.subrange(1, j)), j + 1)
        }
    } else if c == '[' {
        let (link, k) = link_at(s.skip(1));
        match link {
            Ok((label, url)) => (InlineView::Link(label, url), k + 1),
            Err(lit) => (InlineView::Text(lit), k + 1),
        }
    } else if c == '!' && n > 1 && s[1] == '[' {
        let (link, k) = link_at(s.skip(2));
        match link {
            Ok((label, url)) => (
                InlineView::Image(
                    if label.len() == 0 {
                        url
                    } else {
                        label
                    },
                ),
                k + 2,
            ),
            Err(lit) => (InlineView::Text(seq!['!'] + lit), k + 2),
        }
    } else {
        (InlineView::Text(s.take(1)), 1)
    }
}

/// The elements of a line.
pub open spec fn elements(s: Seq<char>) -> Seq<InlineView>
    decreases s.len(),
{
    let (e, k) = element(s);
    if s.len() == 0 || k <= 0 || k > s.len() {
        Seq::empty()
    } else {
        seq![e] + elements(s.skip(k))
    }
}

fn stars_from(s: &Vec<char>, from: usize) -> (r: usize)
    requires
        from <= s@.len(),
    ensures
        r == find_stars(s@, from as int),
        from <= r <= s@.len(),
        r < s@.len() ==> r + 1 < s@.len(),
{
    let mut i: usize = from;
    while i < s.len() && s.len() - i > 1 && !(s[i] == '*' && s[i + 1] == '*')
        invariant
            from <= i <= s@.len(),
            find_stars(s@, from as int) == find_stars(s@, i as int),
        decreases s@.len() - i,
    {
        i += 1;
    }
    if i < s.len() && s.len() - i > 1 {
        i
    } else {
        s.len()
    }
}

/// After a consumed `[`, take `label](url)`. Err carries the literal text to
/// emit when the shape doesn't match (those chars are already consumed).
pub fn take_link(s: &Vec<char>) -> (r: (Result<(String, String), String>, usize))
    ensures
        match r.0 {
            Ok(p) => link_at(s@).0 == Ok::<(Seq<char>, Seq<char>), Seq<char>>((p.0@, p.1@)),
            Err(lit) => link_at(s@).0 == Err::<(Seq<char>, Seq<char>), Seq<char>>(lit@),
        },
        r.1 == link_at(s@).1,
        r.1 <= s@.len(),
{
    let n = s.len();
    let k = text::find_char_from(s, ']', 0);
    let mut lit = String::new();
    lit.push('[');
    assert(lit@ =~= seq!['[']);
    if k == n {
        lit.append(text::string_of(s).as_str());
        return (Err(lit), n);
    }
    if !(n - k > 1 && s[k + 1] == '(') {
        lit.append(text::string_between(s, 0, k + 1).as_str());
        assert(s@.subrange(0, k + 1) =~= s@.take(k + 1));
        return (Err(lit), k + 1);
    }
    let u = text::find_char_from(s, ')', k + 2);
    if u == n {
        lit.append(text::string_of(s).as_str());
        return (Err(lit), n);
    }
    assert(s@.subrange(0, k as int) =~= s@.take(k as int));
    (Ok((text::string_between(s, 0, k), text::string_between(s, k + 2, u))), u + 1)
}

fn tail(s: &Vec<char>, from: usize) -> (r: Vec<char>)
    requires
        from <= s@.len(),
    ensures
        r@ == s@.skip(from as int),
{
    let mut r: Vec<char> = Vec::new();
    let mut i: usize = from;
    while i < s.len()
        invariant
            from <= i <= s@.len(),
            r@ == s@.subrange(from as int, i as int),
        decreases s@.len() - i,
    {
        r.push(s[i]);
        i += 1;
        assert(s@.subrange(from as int, i as int) =~= s@.subrange(from as int, i - 1).push(
            s@[i - 1],
        ));
    }
    assert(s@.subrange(from as int, i as int) =~= s@.skip(from as int));
    r
}

fn take_element(s: &Vec<char>) -> (r: (Inline, usize))
    requires
        s@.len() > 0,
    ensures
        r.0@ == element(s@).0,
        r.1 == element(s@).1,
        0 < r.1 <= s@.len(),
{
    let n = s.len();
    let c = s[0];
    if c == '`' || c == '$' {
        let j = text::find_char_from(s, c, 1);
        if j == n {
            return (Inline::Text(text::string_of(s)), n);
        }
        let inner = text::trimmed(text::string_between(s, 1, j).as_str());
        if c == '`' {
            (Inline::Code(inner), j + 1)
        } else if inner.as_str().is_empty() {
            assert(s@.subrange(0, j + 1) =~= s@.take(j + 1));
            (Inline::Text(text::string_between(s, 0, j + 1)), j + 1)
        } else {
            (Inline::Math(inner), j + 1)
        }
    } else if c == '*' && n > 1 && s[1] == '*' {
        let j = stars_from(s, 2);
        if j == n {
            let end = if n > 2 && s[n - 1] == '*' {
                n - 1
            } else {
                n
            };
            assert(s@.subrange(0, end as int) =~= s@.take(2) + drop_star(s@.skip(2)));
            (Inline::Text(text::string_between(s, 0, end)), n)
        } else if j == 2 {
            assert(s@.subrange(0, 2) =~= s@.take(2));
            (Inline::Text(text::string_between(s, 0, 2)), 4)
        } else {
            (Inline::Strong(text::string_between(s, 2, j)), j + 2)
        }
    } else if c == '*' {
        let j = text::find_char_from(s, '*', 1);
        if j == n {
            (Inline::Text(text::string_of(s)), n)
        } else {
            (Inline::Emphasis(text::string_between(s, 1, j)), j + 1)
        }
    } else if c == '[' {
        let rest = tail(s, 1);
        let _m = rest.len();
        let (link, k) = take_link(&rest);
        match link {
            Ok((label, url)) => (Inline::Link(label, url), k + 1),
            Err(lit) => (Inline::Text(lit), k + 1),
        }
    } else if c == '!' && n > 1 && s[1] == '[' {
        let rest = tail(s, 2);
        let _m = rest.len();
        let (link, k) = take_link(&rest);
        match link {
            Ok((label, url)) => {
                let shown = if label.as_str().is_empty() {
                    url
                } else {
                    label
                };
                (Inline::Image(shown), k + 2)
            },
            Err(lit) => {
                let mut t = String::new();
                t.push('!');
                assert(t@ =~= seq!['!']);
                t.append(lit.as_str());
                (Inline::Text(t), k + 2)
            },
        }
    } else {
        assert(s@.subrange(0, 1) =~= s@.take(1));
        (Inline::Text(text::string_between(s, 0, 1)), 1)
    }
}

/// The elements of a line of markdown.
pub fn parse_inline(s: &str) -> (r: Vec<Inline>)
    ensures
        views(r@) == elements(s@),
{
    let mut rest = text::chars_of(s);
    let mut r: Vec<Inline> = Vec::new();
    assert(views(r@) + elements(rest@) =~= elements(s@));
    while rest.len() > 0
        invariant
            views(r@) + elements(rest@) == elements(s@),
        decreases rest@.len(),
    {
        let ghost r0 = r@;
        let (e, k) = take_element(&rest);
        let next = tail(&rest, k);
        r.push(e);
        proof {
            assert(views(r@) =~= views(r0).push(e@));
            assert(elements(rest@) =~= seq![e@] + elements(next@));
            assert(views(r@) + elements(next@) =~= views(r0) + elements(rest@));
        }
        rest = next;
    }
    assert(elements(rest@) =~= Seq::empty());
    assert(views(r@) + elements(rest@) =~= views(r@));
    r
}

// ---------------------------------------------------------------------------
// Lines of text
// ---------------------------------------------------------------------------

/// A line under construction: finished spans, text that waits for its span,
/// the column reached, pictures placed and what the host is to be asked about pictures.
pub struct Row {
    pub spans: Vec<Span>,
    pub text: String,
    pub col: u16,
    pub images: Vec<InlineImage>,
    pub wants: Vec<Ask>,
}

#[verifier::ext_equal]
pub struct RowView {
    pub spans: Seq<SpanView>,
    pub text: Seq<char>,
    pub col: u16,
    pub images: Seq<ImageView>,
    pub wants: Seq<AskView>,
}

impl View for Row {
    type V = RowView;

    open spec fn view(&self) -> RowView {
        RowView {
            spans: views(self.spans@),
            text: self.text@,
            col: self.col,
            images: views(self.images@),
            wants: views(self.wants@),
        }
    }
}

/// The column `n` characters on.
pub open spec fn advanced(col: u16, n: int) -> u16 {
    (col + n) as u16
}

fn advance(col: u16, n: usize) -> (r: u16)
    ensures
        r == advanced(col, n as int),
{
    (col as u128 + n as u128) as u16
}

pub open spec fn code_style() -> StyleView {
    StyleView::of(ColorView::Yellow)
}

pub open spec fn math_style() -> StyleView {
    StyleView::of(ColorView::Magenta).with(ITALIC)
}

pub open spec fn link_style() -> StyleView {
    StyleView::of(ColorView::Blue).with(UNDERLINED)
}

pub open spec fn url_style() -> StyleView {
    StyleView::of(ColorView::DarkGray)
}

/// A list of questions to the host with those about a graphic.
pub open spec fn wanting(g: GalleryView, wants: Seq<AskView>, x: GraphicView, full: bool) -> Seq<
    AskView,
> {
    match g.asking(x, full) {
        Some(q) => wants.push(q),
        None => wants,
    }
}

fn want(g: &Gallery, wants: &mut Vec<Ask>, x: &Graphic, full: bool)
    ensures
        views(final(wants)@) == wanting(g@, views(old(wants)@), x@, full),
{
    if let Some(q) = g.ask(x, full) {
        let ghost w0 = wants@;
        wants.push(q);
        assert(views(wants@) =~= views(w0).push(q@));
    }
}

impl RowView {
    /// Waiting text becomes an unstyled span.
    pub open spec fn flushed(self) -> RowView {
        if self.text.len() == 0 {
            self
        } else {
            RowView {
                spans: self.spans.push(SpanView::raw(self.text)),
                text: Seq::empty(),
                col: advanced(self.col, self.text.len() as int),
                ..self
            }
        }
    }

    pub open spec fn styled(self, s: Seq<char>, style: StyleView) -> RowView {
        let f = self.flushed();
        RowView {
            spans: f.spans.push(SpanView::styled(s, style)),
            col: advanced(f.col, s.len() as int),
            ..f
        }
    }

    /// Inline math: a picture over reserved columns, or its approximation.
    pub open spec fn math(self, g: GalleryView, line: int, tex: Seq<char>) -> RowView {
        let x = GraphicView::Host(PictureView::Inline(tex));
        let f = RowView { wants: wanting(g, self.wants, x, false), ..self.flushed() };
        match g.entry(x, false) {
            Some(e) => RowView {
                spans: f.spans.push(SpanView::raw(repeated(' ', e.cols))),
                images: f.images.push(ImageView { line, col: f.col, ..e }),
                col: advanced(f.col, e.cols as int),
                ..f
            },
            None => f.styled(unicode_approx(tex), math_style()),
        }
    }

    /// The row with one more element.
    pub open spec fn placed(self, g: GalleryView, line: int, e: InlineView) -> RowView {
        match e {
            InlineView::Text(s) => RowView { text: self.text + s, ..self },
            InlineView::Code(s) => self.styled(s, code_style()),
            InlineView::Math(s) => self.math(g, line, s),
            InlineView::Strong(s) => self.styled(s, StyleView::plain().with(BOLD)),
            InlineView::Emphasis(s) => self.styled(s, StyleView::plain().with(ITALIC)),
            InlineView::Link(label, url) => self.styled(label, link_style()).styled(
                " ⟨"@ + url + "⟩"@,
                url_style(),
            ),
            InlineView::Image(s) => self.styled(
                "[image: "@ + s + "]"@,
                StyleView::of(ColorView::Magenta),
            ),
        }
    }

    pub open spec fn all_placed(self, g: GalleryView, line: int, es: Seq<InlineView>) -> RowView
        decreases es.len(),
    {
        if es.len() == 0 {
            self
        } else {
            self.all_placed(g, line, es.drop_last()).placed(g, line, es.last())
        }
    }

    /// Every picture is on line `line`.
    pub open spec fn images_on(self, line: int) -> bool {
        forall|k: int| 0 <= k < self.images.len() ==> (#[trigger] self.images[k]).line == line
    }

    /// A row that starts with `text`.
    pub open spec fn starting(text: Seq<char>) -> RowView {
        RowView {
            spans: Seq::empty(),
            text,
            col: 0,
            images: Seq::empty(),
            wants: Seq::empty(),
        }
    }
}

impl Row {
    fn flush(&mut self)
        ensures
            final(self)@ == old(self)@.flushed(),
    {
        let n = self.text.as_str().unicode_len();
        if n > 0 {
            let ghost s0 = self.spans@;
            let t = self.text.clone();
            self.text = String::new();
            self.col = advance(self.col, n);
            self.spans.push(Span::raw(t));
            assert(views(self.spans@) =~= views(s0).push(SpanView::raw(t@)));
        }
    }

    fn push_styled(&mut self, s: String, style: Style)
        ensures
            final(self)@ == old(self)@.styled(s@, style@),
    {
        self.flush();
        let ghost s0 = self.spans@;
        self.col = advance(self.col, s.as_str().unicode_len());
        self.spans.push(Span::styled(s, style));
        assert(views(self.spans@) =~= views(s0).push(SpanView::styled(s@, style@)));
    }

    fn push_math(&mut self, g: &Gallery, line: usize, tex: String)
        ensures
            final(self)@ == old(self)@.math(g@, line as int, tex@),
    {
        self.flush();
        let x = Graphic::Host(Picture::Inline(tex.clone()));
        want(g, &mut self.wants, &x, false);
        match g.image_entry(x, false) {
            Some(entry) => {
                let ghost s0 = self.spans@;
                let ghost i0 = self.images@;
                let pad = text::repeat_char(' ', entry.cols as usize);
                self.spans.push(Span::raw(pad));
                assert(views(self.spans@) =~= views(s0).push(SpanView::raw(pad@)));
                let cols = entry.cols as usize;
                let img = InlineImage {
                    line,
                    col: self.col,
                    cols: entry.cols,
                    rows: entry.rows,
                    width: entry.width,
                    height: entry.height,
                    graphic: entry.graphic,
                };
                self.images.push(img);
                assert(views(self.images@) =~= views(i0).push(img@));
                self.col = advance(self.col, cols);
            },
            None => {
                self.push_styled(
                    latex::to_unicode_approx(tex.as_str()),
                    Style::of(Color::Magenta).with(ITALIC),
                );
            },
        }
    }

    fn place(&mut self, g: &Gallery, line: usize, e: &Inline)
        ensures
            final(self)@ == old(self)@.placed(g@, line as int, e@),
    {
        match e {
            Inline::Text(s) => {
                self.text.append(s.as_str());
            },
            Inline::Code(s) => {
                self.push_styled(s.clone(), Style::of(Color::Yellow));
            },
            Inline::Math(s) => {
                self.push_math(g, line, s.clone());
            },
            Inline::Strong(s) => {
                self.push_styled(s.clone(), Style::plain().with(BOLD));
            },
            Inline::Emphasis(s) => {
                self.push_styled(s.clone(), Style::plain().with(ITALIC));
            },
            Inline::Link(label, url) => {
                self.push_styled(label.clone(), Style::of(Color::Blue).with(UNDERLINED));
                let mut t = " ⟨".to_owned();
                t.append(url.as_str());
                t.append("⟩");
                self.push_styled(t, Style::of(Color::DarkGray));
            },
            Inline::Image(s) => {
                let mut t = "[image: ".to_owned();
                t.append(s.as_str());
                t.append("]");
                self.push_styled(t, Style::of(Color::Magenta));
            },
        }
    }
}

/// Whether a line is a list item.
pub open spec fn is_bullet(raw: Seq<char>) -> bool {
    has_prefix(trim_start(raw), "- "@) || has_prefix(trim_start(raw), "* "@)
}

/// What a list item starts with: its indentation, in bytes, and a bullet.
pub open spec fn bullet(raw: Seq<char>) -> Seq<char> {
    repeated(' ', byte_len(raw.take(raw.len() - trim_start(raw).len())) as nat) + "• "@
}

/// A line of running text, as rendered line number `line`.
pub open spec fn text_row(g: GalleryView, raw: Seq<char>, line: int) -> RowView {
    let (start, rest) = if is_bullet(raw) {
        (bullet(raw), trim_start(raw).skip(2))
    } else {
        (Seq::empty(), raw)
    };
    RowView::starting(start).all_placed(g, line, elements(rest)).flushed()
}

/// Inline markdown spans: bullets, `code`, $math$, [links](url),
/// *emphasis*/**bold**, ![inline images] as alt text.
pub fn md_line(g: &Gallery, raw: &str, line: usize) -> (r: Row)
    ensures
        r@ == text_row(g@, raw@, line as int),
        r@.images_on(line as int),
{
    let t = text::trimmed_start(raw);
    let mut start = String::new();
    let rest = if text::starts_with(t.as_str(), "- ") || text::starts_with(t.as_str(), "* ") {
        proof {
            reveal_strlit("- ");
            reveal_strlit("* ");
        }
        let tn = t.as_str().unicode_len();
        let n = raw.unicode_len();
        proof {
            lemma_trim_start_len(raw@);
        }
        let blank = text::take(raw, n - tn);
        start = text::repeat_char(' ', blank.as_str().len());
        start.append("• ");
        text::skip(t.as_str(), 2)
    } else {
        raw.to_owned()
    };
    let es = parse_inline(rest.as_str());
    let ghost all = views(es@);
    let spans: Vec<Span> = Vec::new();
    let images: Vec<InlineImage> = Vec::new();
    let wants: Vec<Ask> = Vec::new();
    let mut row = Row { spans, text: start, col: 0, images, wants };
    let ghost first = row@;
    assert(row@ =~= RowView::starting(start@));
    let mut i: usize = 0;
    while i < es.len()
        invariant
            i <= es@.len(),
            all == views(es@),
            row@ == first.all_placed(g@, line as int, all.take(i as int)),
            row@.images_on(line as int),
        decreases es@.len() - i,
    {
        row.place(g, line, &es[i]);
        i += 1;
        assert(all.take(i as int).drop_last() =~= all.take(i - 1));
    }
    assert(all.take(i as int) =~= all);
    row.flush();
    row
}

proof fn lemma_trim_start_len(s: Seq<char>)
    ensures
        trim_start(s).len() <= s.len(),
    decreases s.len(),
{
    if s.len() > 0 {
        lemma_trim_start_len(s.skip(1));
    }
}

// ---------------------------------------------------------------------------
// Tables
// ---------------------------------------------------------------------------

/// The cells of a table row.
pub open spec fn table_cells(row: Seq<char>) -> Seq<Seq<char>> {
    split_on(strip_trailing(strip_leading(trim(row), '|'), '|'), '|').map_values(
        |c: Seq<char>| trim(c),
    )
}

pub open spec fn is_rule_cell(c: Seq<char>) -> bool {
    c.len() > 0 && forall|i: int| 0 <= i < c.len() ==> (#[trigger] c[i] == '-' || c[i] == ':')
}

/// Whether a row is a separator.
pub open spec fn is_separator(cells: Seq<Seq<char>>) -> bool {
    cells.len() > 0 && forall|j: int| 0 <= j < cells.len() ==> is_rule_cell(#[trigger] cells[j])
}

pub open spec fn larger(a: int, b: int) -> int {
    if a >= b {
        a
    } else {
        b
    }
}

/// Number of columns: that of the longest row.
pub open spec fn column_count(rows: Seq<Seq<Seq<char>>>) -> int
    decreases rows.len(),
{
    if rows.len() == 0 {
        0
    } else {
        larger(column_count(rows.drop_last()), rows.last().len() as int)
    }
}

/// Width of column `j`: that of its longest cell, separators aside.
pub open spec fn column_width(rows: Seq<Seq<Seq<char>>>, j: int) -> int
    decreases rows.len(),
{
    if rows.len() == 0 {
        0
    } else {
        let w = column_width(rows.drop_last(), j);
        let row = rows.last();
        if !is_separator(row) && j < row.len() {
            larger(w, row[j].len() as int)
        } else {
            w
        }
    }
}

pub open spec fn column_widths(rows: Seq<Seq<Seq<char>>>) -> Seq<int> {
    Seq::new(column_count(rows) as nat, |j: int| column_width(rows, j))
}

pub open spec fn rule_parts(widths: Seq<int>) -> Seq<Seq<char>> {
    widths.map_values(|w: int| repeated('─', w as nat) + "──"@)
}

/// A cell in its column: a blank on each side, filled up to the width.
pub open spec fn padded_cell(cells: Seq<Seq<char>>, j: int, w: int) -> Seq<char> {
    let c = if j < cells.len() {
        cells[j]
    } else {
        Seq::empty()
    };
    " "@ + c + repeated(
        ' ',
        if w > c.len() {
            (w - c.len()) as nat
        } else {
            0
        },
    ) + " "@
}

/// The spans of a row up to column `n`: cells with bars between them.
pub open spec fn row_spans(
    cells: Seq<Seq<char>>,
    widths: Seq<int>,
    style: StyleView,
    n: int,
) -> Seq<SpanView>
    decreases n,
{
    if n <= 0 {
        Seq::empty()
    } else {
        let before = row_spans(cells, widths, style, n - 1);
        let barred = if n > 1 {
            before.push(SpanView::styled("│"@, url_style()))
        } else {
            before
        };
        barred.push(SpanView::styled(padded_cell(cells, n - 1, widths[n - 1]), style))
    }
}

/// Row `i` of a table.
pub open spec fn table_line(rows: Seq<Seq<Seq<char>>>, i: int) -> LineView {
    let widths = column_widths(rows);
    if is_separator(rows[i]) {
        LineView::styled(join(rule_parts(widths), "┼"@), url_style())
    } else {
        let style = if rows.len() > 1 && is_separator(rows[1]) && i == 0 {
            StyleView::plain().with(BOLD)
        } else {
            StyleView::plain()
        };
        LineView::of(row_spans(rows[i], widths, style, widths.len() as int))
    }
}

/// Pipe table -> aligned rows; separator rows become rules, a header row goes
/// bold.
pub open spec fn table_lines(table: Seq<Seq<char>>) -> Seq<LineView> {
    let rows = table.map_values(|r: Seq<char>| table_cells(r));
    Seq::new(table.len(), |i: int| table_line(rows, i))
}

fn cells_of(row: &str) -> (r: Vec<String>)
    ensures
        views(r@) == table_cells(row@),
{
    let t = text::trimmed(row);
    let a = text::without_leading(t.as_str(), '|');
    let b = text::without_trailing(a.as_str(), '|');
    let parts = text::split(b.as_str(), '|');
    let ghost p = views(parts@);
    let mut r: Vec<String> = Vec::new();
    let mut i: usize = 0;
    while i < parts.len()
        invariant
            i <= parts@.len(),
            p == views(parts@),
            r@.len() == i,
            forall|k: int| 0 <= k < i ==> (#[trigger] r@[k])@ == trim(p[k]),
        decreases parts@.len() - i,
    {
        r.push(text::trimmed(parts[i].as_str()));
        i += 1;
    }
    assert(views(r@) =~= table_cells(row@));
    r
}

fn rule_cell(c: &str) -> (r: bool)
    ensures
        r == is_rule_cell(c@),
{
    let v = text::chars_of(c);
    let mut i: usize = 0;
    while i < v.len()
        invariant
            i <= v@.len(),
            v@ == c@,
            forall|k: int| 0 <= k < i ==> (#[trigger] c@[k] == '-' || c@[k] == ':'),
        decreases v@.len() - i,
    {
        if !(v[i] == '-' || v[i] == ':') {
            assert(!(c@[i as int] == '-' || c@[i as int] == ':'));
            return false;
        }
        i += 1;
    }
    v.len() > 0
}

fn separator(cells: &Vec<String>) -> (r: bool)
    ensures
        r == is_separator(views(cells@)),
{
    let ghost v = views(cells@);
    let mut j: usize = 0;
    while j < cells.len()
        invariant
            j <= cells@.len(),
            v == views(cells@),
            forall|k: int| 0 <= k < j ==> is_rule_cell(#[trigger] v[k]),
        decreases cells@.len() - j,
    {
        assert(v[j as int] == cells@[j as int]@);
        if !rule_cell(cells[j].as_str()) {
            return false;
        }
        j += 1;
    }
    cells.len() > 0
}

spec fn row_views(rows: Seq<Vec<String>>) -> Seq<Seq<Seq<char>>> {
    rows.map_values(|r: Vec<String>| views(r@))
}

spec fn ints(v: Seq<usize>) -> Seq<int> {
    v.map_values(|x: usize| x as int)
}

fn measure_columns(rows: &Vec<Vec<String>>) -> (r: Vec<usize>)
    ensures
        ints(r@) == column_widths(row_views(rows@)),
{
    let ghost all = row_views(rows@);
    let mut widths: Vec<usize> = Vec::new();
    let mut i: usize = 0;
    while i < rows.len()
        invariant
            i <= rows@.len(),
            all == row_views(rows@),
            widths@.len() == column_count(all.take(i as int)),
            forall|j: int|
                0 <= j < widths@.len() ==> #[trigger] widths@[j] == column_width(
                    all.take(i as int),
                    j,
                ),
            forall|j: int|
                j >= widths@.len() ==> #[trigger] column_width(all.take(i as int), j) == 0,
        decreases rows@.len() - i,
    {
        let row = &rows[i];
        let ghost p = all.take(i + 1);
        assert(p.drop_last() =~= all.take(i as int));
        assert(p.last() == views(row@));
        let sep = separator(row);
        while widths.len() < row.len()
            invariant
                widths@.len() <= larger(column_count(all.take(i as int)), row@.len() as int),
                widths@.len() >= column_count(all.take(i as int)),
                forall|j: int|
                    0 <= j < widths@.len() ==> #[trigger] widths@[j] == column_width(
                        all.take(i as int),
                        j,
                    ),
                forall|j: int|
                    j >= column_count(all.take(i as int)) ==> #[trigger] column_width(
                        all.take(i as int),
                        j,
                    ) == 0,
            decreases row@.len() - widths@.len(),
        {
            widths.push(0);
        }
        let ghost grown = widths@;
        let mut j: usize = 0;
        while j < row.len()
            invariant
                j <= row@.len(),
                row@.len() <= widths@.len(),
                widths@.len() == grown.len(),
                p.len() > 0,
                p.drop_last() == all.take(i as int),
                p.last() == views(row@),
                sep == is_separator(views(row@)),
                forall|k: int|
                    0 <= k < grown.len() ==> #[trigger] grown[k] == column_width(
                        all.take(i as int),
                        k,
                    ),
                forall|k: int| 0 <= k < j ==> #[trigger] widths@[k] == column_width(p, k),
                forall|k: int| j <= k < widths@.len() ==> #[trigger] widths@[k] == grown[k],
            decreases row@.len() - j,
        {
            let n = row[j].as_str().unicode_len();
            assert(views(row@)[j as int] == row@[j as int]@);
            assert(widths@[j as int] == grown[j as int]);
            if !sep && n > widths[j] {
                widths.set(j, n);
            }
            j += 1;
        }
        assert forall|k: int| 0 <= k < widths@.len() implies #[trigger] widths@[k] == column_width(
            p,
            k,
        ) by {
            if k >= row@.len() {
                assert(widths@[k] == grown[k]);
            }
        }
        assert forall|k: int| k >= widths@.len() implies #[trigger] column_width(p, k) == 0 by {
            assert(column_width(all.take(i as int), k) == 0);
        }
        i += 1;
    }
    assert(all.take(i as int) =~= all);
    assert(ints(widths@) =~= column_widths(all));
    widths
}

fn rule(widths: &Vec<usize>) -> (r: String)
    ensures
        r@ == join(rule_parts(ints(widths@)), "┼"@),
{
    let ghost want = rule_parts(ints(widths@));
    let mut parts: Vec<String> = Vec::new();
    let mut j: usize = 0;
    while j < widths.len()
        invariant
            j <= widths@.len(),
            want == rule_parts(ints(widths@)),
            parts@.len() == j,
            forall|k: int| 0 <= k < j ==> (#[trigger] parts@[k])@ == want[k],
        decreases widths@.len() - j,
    {
        let mut s = text::repeat_char('─', widths[j]);
        s.append("──");
        parts.push(s);
        j += 1;
    }
    assert(views(parts@) =~= want);
    text::join_strings(&parts, "┼")
}

fn pad_cell(cells: &Vec<String>, j: usize, w: usize) -> (r: String)
    ensures
        r@ == padded_cell(views(cells@), j as int, w as int),
{
    let c = if j < cells.len() {
        assert(views(cells@)[j as int] == cells@[j as int]@);
        cells[j].clone()
    } else {
        String::new()
    };
    let n = c.as_str().unicode_len();
    let fill = if w > n {
        w - n
    } else {
        0
    };
    let mut s = " ".to_owned();
    s.append(c.as_str());
    s.append(text::repeat_char(' ', fill).as_str());
    s.append(" ");
    s
}

fn make_row(cells: &Vec<String>, widths: &Vec<usize>, header: bool) -> (r: Line)
    ensures
        r@ == LineView::of(
            row_spans(
                views(cells@),
                ints(widths@),
                if header {
                    StyleView::plain().with(BOLD)
                } else {
                    StyleView::plain()
                },
                widths@.len() as int,
            ),
        ),
{
    let ghost style = if header {
        StyleView::plain().with(BOLD)
    } else {
        StyleView::plain()
    };
    let mut spans: Vec<Span> = Vec::new();
    let mut j: usize = 0;
    assert(views(spans@) =~= row_spans(views(cells@), ints(widths@), style, 0));
    while j < widths.len()
        invariant
            j <= widths@.len(),
            style == (if header {
                StyleView::plain().with(BOLD)
            } else {
                StyleView::plain()
            }),
            views(spans@) == row_spans(views(cells@), ints(widths@), style, j as int),
        decreases widths@.len() - j,
    {
        let ghost s0 = spans@;
        if j > 0 {
            spans.push(Span::styled("│".to_owned(), Style::of(Color::DarkGray)));
            assert(views(spans@) =~= views(s0).push(SpanView::styled("│"@, url_style())));
        }
        let ghost s1 = spans@;
        let st = if header {
            Style::plain().with(BOLD)
        } else {
            Style::plain()
        };
        let c = pad_cell(cells, j, widths[j]);
        spans.push(Span::styled(c, st));
        assert(views(spans@) =~= views(s1).push(SpanView::styled(c@, style)));
        assert(ints(widths@)[j as int] == widths@[j as int]);
        j += 1;
    }
    Line::of(spans)
}

/// Pipe table -> aligned rows; separator rows become rules, header goes bold.
pub fn render_table(table: &Vec<String>) -> (r: Vec<Line>)
    ensures
        views(r@) == table_lines(views(table@)),
{
    let ghost src = views(table@);
    let ghost want_rows = src.map_values(|r: Seq<char>| table_cells(r));
    let mut rows: Vec<Vec<String>> = Vec::new();
    let mut i: usize = 0;
    while i < table.len()
        invariant
            i <= table@.len(),
            src == views(table@),
            want_rows == src.map_values(|r: Seq<char>| table_cells(r)),
            rows@.len() == i,
            forall|k: int| 0 <= k < i ==> views((#[trigger] rows@[k])@) == want_rows[k],
        decreases table@.len() - i,
    {
        rows.push(cells_of(table[i].as_str()));
        i += 1;
    }
    assert(row_views(rows@) =~= want_rows);
    let widths = measure_columns(&rows);
    let header = rows.len() > 1 && separator(&rows[1]);
    let mut r: Vec<Line> = Vec::new();
    let mut k: usize = 0;
    while k < rows.len()
        invariant
            k <= rows@.len(),
            rows@.len() == table@.len(),
            src == views(table@),
            want_rows == src.map_values(|r: Seq<char>| table_cells(r)),
            row_views(rows@) == want_rows,
            ints(widths@) == column_widths(want_rows),
            header == (want_rows.len() > 1 && is_separator(want_rows[1])),
            r@.len() == k,
            forall|q: int| 0 <= q < k ==> (#[trigger] r@[q])@ == table_line(want_rows, q),
        decreases rows@.len() - k,
    {
        let row = &rows[k];
        assert(row_views(rows@)[k as int] == views(row@));
        let line = if separator(row) {
            Line::styled(rule(&widths), Style::of(Color::DarkGray))
        } else {
            assert(ints(widths@).len() == widths@.len());
            make_row(row, &widths, header && k == 0)
        };
        r.push(line);
        k += 1;
    }
    assert(views(r@) =~= table_lines(src));
    r
}

/// The cells of a column are all padded to the same width.
pub proof fn law_columns_line_up(rows: Seq<Seq<Seq<char>>>, i: int, j: int)
    requires
        0 <= i < rows.len(),
        0 <= j < rows[i].len(),
        !is_separator(rows[i]),
    ensures
        j < column_widths(rows).len(),
        padded_cell(rows[i], j, column_widths(rows)[j]).len() == column_widths(rows)[j] + 2,
{
    lemma_widths_cover(rows, i, j);
    reveal_strlit(" ");
}

proof fn lemma_widths_cover(rows: Seq<Seq<Seq<char>>>, i: int, j: int)
    requires
        0 <= i < rows.len(),
        0 <= j < rows[i].len(),
    ensures
        j < column_count(rows),
        !is_separator(rows[i]) ==> rows[i][j].len() <= column_width(rows, j),
    decreases rows.len(),
{
    if i < rows.len() - 1 {
        assert(rows.drop_last()[i] == rows[i]);
        lemma_widths_cover(rows.drop_last(), i, j);
    }
}

// ---------------------------------------------------------------------------
// Image lines
// ---------------------------------------------------------------------------

/// `![alt](src)` alone on a line -> (alt, src).
pub open spec fn image_line(t: Seq<char>) -> Option<(Seq<char>, Seq<char>)> {
    if !has_prefix(t, "!["@) {
        None
    } else {
        let u = t.skip(2);
        match find_infix(u, "]("@, 0) {
            None => None,
            Some(i) => {
                let alt = u.take(i);
                let rest = u.skip(i + 2);
                if rest.len() == 0 || rest.last() != ')' {
                    None
                } else {
                    let src = rest.drop_last();
                    if src.contains(')') || alt.contains(']') {
                        None
                    } else {
                        Some((alt, src))
                    }
                }
            },
        }
    }
}

/// `![alt](src)` alone on a line -> (alt, src).
pub fn parse_md_image(t: &str) -> (r: Option<(String, String)>)
    ensures
        match r {
            Some(p) => image_line(t@) == Some((p.0@, p.1@)),
            None => image_line(t@) is None,
        },
{
    proof {
        reveal_strlit("![");
        reveal_strlit("](");
    }
    if !text::starts_with(t, "![") {
        return None;
    }
    let u = text::skip(t, 2);
    assert(u@ == t@.skip(2));
    let i = match text::find(u.as_str(), "](") {
        Some(i) => i,
        None => {
            return None;
        },
    };
    let n = u.as_str().unicode_len();
    let alt = u.as_str().substring_char(0, i).to_owned();
    assert(alt@ =~= u@.take(i as int));
    let rest = u.as_str().substring_char(i + 2, n).to_owned();
    assert(rest@ =~= u@.skip(i + 2));
    let m = rest.as_str().unicode_len();
    if m == 0 || rest.as_str().get_char(m - 1) != ')' {
        return None;
    }
    let src = rest.as_str().substring_char(0, m - 1).to_owned();
    assert(src@ =~= rest@.drop_last());
    if text::contains_char(src.as_str(), ')') || text::contains_char(alt.as_str(), ']') {
        return None;
    }
    Some((alt, src))
}

/// A path relative to a directory.
pub open spec fn joined_path(dir: Seq<char>, path: Seq<char>) -> Seq<char> {
    if has_prefix(path, "/"@) || dir.len() == 0 {
        path
    } else if has_suffix(dir, "/"@) {
        dir + path
    } else {
        dir + "/"@ + path
    }
}

/// A path relative to a directory.
pub fn join_path(dir: &str, path: &str) -> (r: String)
    ensures
        r@ == joined_path(dir@, path@),
{
    if text::starts_with(path, "/") || dir.is_empty() {
        path.to_owned()
    } else if text::ends_with(dir, "/") {
        text::concat(dir, path)
    } else {
        let mut s = text::concat(dir, "/");
        s.append(path);
        s
    }
}

/// The first member, by key, that decodes to an image.
pub open spec fn first_image(
    m: Map<Seq<char>, JsonView>,
    keys: Seq<Seq<char>>,
) -> Option<GraphicView>
    decreases keys.len(),
{
    if keys.len() == 0 {
        None
    } else {
        match crate::pictures::payload(m[keys[0]]) {
            Some(b) if crate::pictures::image_size(b) is Some => Some(GraphicView::Raster(b)),
            _ => first_image(m, keys.skip(1)),
        }
    }
}

/// What a markdown image is drawn from: `attachment:name` from the cell's
/// attachments, otherwise a path relative to the notebook directory. No
/// network.
pub open spec fn image_graphic(
    dir: Seq<char>,
    src: Seq<char>,
    attachments: Option<JsonView>,
) -> Option<GraphicView> {
    if has_prefix(src, "attachment:"@) {
        match attachments {
            None => None,
            Some(a) => match a.get(src.skip(11)) {
                Some(JsonView::Obj(m)) => first_image(m, keys_in_order(m)),
                _ => None,
            },
        }
    } else if has_prefix(src, "http://"@) || has_prefix(src, "https://"@) {
        None
    } else {
        Some(GraphicView::Host(PictureView::File(joined_path(dir, src))))
    }
}

fn first_attachment(m: &crate::json::Object) -> (r: Option<Graphic>)
    ensures
        opt_view(r) == first_image(m@, keys_in_order(m@)),
{
    let keys = m.keys();
    let ghost ks = views(keys@);
    let mut i: usize = 0;
    assert(ks.skip(0) =~= ks);
    while i < keys.len()
        invariant
            i <= keys@.len(),
            ks == views(keys@),
            ks == keys_in_order(m@),
            crate::json::are_keys_of(ks, m@),
            first_image(m@, ks) == first_image(m@, ks.skip(i as int)),
        decreases keys@.len() - i,
    {
        proof {
            assert(ks[i as int] == keys@[i as int]@);
            assert(ks.contains(ks[i as int]));
            assert(m@.contains_key(ks[i as int]));
            assert(ks.skip(i as int)[0] == ks[i as int]);
            assert(ks.skip(i as int).skip(1) =~= ks.skip(i + 1));
        }
        if let Some(v) = m.get(keys[i].as_str()) {
            if let Some(g) = crate::pictures::decodable(v) {
                return Some(g);
            }
        }
        i += 1;
    }
    None
}

/// What a markdown image is drawn from.
pub fn md_image(dir: &str, src: &str, attachments: Option<&Json>) -> (r: Option<Graphic>)
    ensures
        opt_view(r) == image_graphic(
            dir@,
            src@,
            match attachments {
                Some(a) => Some(a@),
                None => None,
            },
        ),
{
    proof {
        reveal_strlit("attachment:");
    }
    if text::starts_with(src, "attachment:") {
        let name = text::skip(src, 11);
        assert(name@ == src@.skip(11));
        return match attachments {
            None => None,
            Some(a) => match a.get(name.as_str()) {
                Some(Json::Obj(m)) => first_attachment(m),
                _ => None,
            },
        };
    }
    if text::starts_with(src, "http://") || text::starts_with(src, "https://") {
        return None;
    }
    Some(Graphic::Host(Picture::File(join_path(dir, src))))
}

// ---------------------------------------------------------------------------
// Documents
// ---------------------------------------------------------------------------

/// Rendered lines under construction.
pub struct Canvas {
    pub lines: Vec<Line>,
    pub images: Vec<InlineImage>,
    /// Rendered line -> source line.
    pub map: Vec<usize>,
    /// What the host is to be asked about pictures.
    pub wants: Vec<Ask>,
}

#[verifier::ext_equal]
pub struct CanvasView {
    pub lines: Seq<LineView>,
    pub images: Seq<ImageView>,
    pub map: Seq<usize>,
    pub wants: Seq<AskView>,
}

impl View for Canvas {
    type V = CanvasView;

    open spec fn view(&self) -> CanvasView {
        CanvasView {
            lines: views(self.lines@),
            images: views(self.images@),
            map: self.map@,
            wants: views(self.wants@),
        }
    }
}

/// Four blanks and a line of approximated math.
pub open spec fn math_line(l: Seq<char>) -> LineView {
    LineView::styled("    "@ + l, math_style())
}

/// The source lines `from` to `to - 1`.
pub open spec fn line_range(from: int, to: int) -> Seq<usize> {
    Seq::new(
        if to > from {
            (to - from) as nat
        } else {
            0
        },
        |i: int| (from + i) as usize,
    )
}

impl CanvasView {
    /// No picture starts below the last line.
    pub open spec fn images_inside(self) -> bool {
        forall|k: int|
            0 <= k < self.images.len() ==> 0 <= (#[trigger] self.images[k]).line
                <= self.lines.len()
    }

    pub open spec fn empty() -> CanvasView {
        CanvasView {
            lines: Seq::empty(),
            images: Seq::empty(),
            map: Seq::empty(),
            wants: Seq::empty(),
        }
    }

    /// Blank lines reserved for a picture.
    pub open spec fn with_image(self, e: ImageView) -> CanvasView {
        CanvasView {
            lines: self.lines + Seq::new(e.rows, |i: int| LineView::raw(Seq::empty())),
            images: self.images.push(ImageView { line: self.lines.len() as int, ..e }),
            ..self
        }
    }

    pub open spec fn wanting(self, g: GalleryView, x: GraphicView, full: bool) -> CanvasView {
        CanvasView { wants: wanting(g, self.wants, x, full), ..self }
    }

    pub open spec fn with_line(self, l: LineView) -> CanvasView {
        CanvasView { lines: self.lines.push(l), ..self }
    }

    pub open spec fn with_lines(self, l: Seq<LineView>) -> CanvasView {
        CanvasView { lines: self.lines + l, ..self }
    }

    /// Display math: a picture, or its approximation line by line.
    pub open spec fn math(self, g: GalleryView, tex: Seq<char>) -> CanvasView {
        let x = GraphicView::Host(PictureView::Math(tex));
        let c = self.wanting(g, x, false);
        match g.entry(x, false) {
            Some(e) => c.with_image(e),
            None => c.with_lines(
                lines_of(unicode_approx(tex)).map_values(|l: Seq<char>| math_line(l)),
            ),
        }
    }

    /// Every line not mapped yet belongs to source line `i`.
    pub open spec fn mapped_to(self, i: usize) -> CanvasView {
        CanvasView {
            map: if self.lines.len() > self.map.len() {
                self.map + Seq::new((self.lines.len() - self.map.len()) as nat, |k: int| i)
            } else {
                self.map
            },
            ..self
        }
    }

    pub open spec fn mapped_range(self, from: int, to: int) -> CanvasView {
        CanvasView { map: self.map + line_range(from, to), ..self }
    }
}

impl Canvas {
    pub fn empty() -> (r: Canvas)
        ensures
            r@ == CanvasView::empty(),
    {
        let lines: Vec<Line> = Vec::new();
        let images: Vec<InlineImage> = Vec::new();
        let map: Vec<usize> = Vec::new();
        let wants: Vec<Ask> = Vec::new();
        let c = Canvas { lines, images, map, wants };
        assert(c@ =~= CanvasView::empty());
        c
    }

    pub fn push_line(&mut self, l: Line)
        ensures
            final(self)@ == old(self)@.with_line(l@),
    {
        let ghost l0 = self.lines@;
        self.lines.push(l);
        assert(views(self.lines@) =~= views(l0).push(l@));
    }

    /// Appends lines.
    pub fn extend(&mut self, new: Vec<Line>)
        ensures
            final(self)@ == old(self)@.with_lines(views(new@)),
    {
        let ghost l0 = self.lines@;
        let ghost n0 = new@;
        let mut new = new;
        self.lines.append(&mut new);
        assert(views(self.lines@) =~= views(l0) + views(n0));
    }

    /// Reserve blank lines for `entry` at the current position and record it.
    pub fn push_image(&mut self, entry: InlineImage)
        ensures
            final(self)@ == old(self)@.with_image(entry@),
    {
        let ghost l0 = views(self.lines@);
        let ghost i0 = self.images@;
        let at = self.lines.len();
        let rows = entry.rows;
        let mut k: u16 = 0;
        assert(l0 + Seq::new(0nat, |i: int| LineView::raw(Seq::empty())) =~= l0);
        while k < rows
            invariant
                k <= rows,
                views(self.lines@) == l0 + Seq::new(
                    k as nat,
                    |i: int| LineView::raw(Seq::empty()),
                ),
                self.images@ == i0,
                self.map@ == old(self).map@,
                self.wants@ == old(self).wants@,
            decreases rows - k,
        {
            let ghost l1 = self.lines@;
            let blank = Line::empty();
            self.lines.push(blank);
            assert(views(self.lines@) =~= views(l1).push(blank@));
            k += 1;
            assert(views(self.lines@) =~= l0 + Seq::new(
                k as nat,
                |i: int| LineView::raw(Seq::empty()),
            ));
        }
        let img = InlineImage {
            line: at,
            col: entry.col,
            cols: entry.cols,
            rows: entry.rows,
            width: entry.width,
            height: entry.height,
            graphic: entry.graphic,
        };
        self.images.push(img);
        assert(views(self.images@) =~= views(i0).push(img@));
    }

    /// Notes what is still to be asked about a picture.
    pub fn note(&mut self, g: &Gallery, x: &Graphic, full: bool)
        ensures
            final(self)@ == old(self)@.wanting(g@, x@, full),
    {
        want(g, &mut self.wants, x, full);
    }

    /// Display math, as a picture or approximated.
    pub fn push_math(&mut self, g: &Gallery, tex: &str)
        ensures
            final(self)@ == old(self)@.math(g@, tex@),
    {
        let x = Graphic::Host(Picture::Math(tex.to_owned()));
        self.note(g, &x, false);
        match g.image_entry(x, false) {
            Some(e) => {
                self.push_image(e);
            },
            None => {
                let ls = text::lines(latex::to_unicode_approx(tex).as_str());
                let ghost want = lines_of(unicode_approx(tex@)).map_values(
                    |l: Seq<char>| math_line(l),
                );
                let mut new: Vec<Line> = Vec::new();
                let mut i: usize = 0;
                while i < ls.len()
                    invariant
                        i <= ls@.len(),
                        views(ls@) == lines_of(unicode_approx(tex@)),
                        want == lines_of(unicode_approx(tex@)).map_values(
                            |l: Seq<char>| math_line(l),
                        ),
                        new@.len() == i,
                        forall|k: int| 0 <= k < i ==> (#[trigger] new@[k])@ == want[k],
                    decreases ls@.len() - i,
                {
                    assert(views(ls@)[i as int] == ls@[i as int]@);
                    let t = text::concat("    ", ls[i].as_str());
                    new.push(Line::styled(t, Style::of(Color::Magenta).with(ITALIC)));
                    i += 1;
                }
                assert(views(ls@).len() == ls@.len());
                assert(views(new@) =~= want);
                self.extend(new);
            },
        }
    }

    /// Every line not mapped yet belongs to source line `i`.
    pub fn map_rest(&mut self, i: usize)
        ensures
            final(self)@ == old(self)@.mapped_to(i),
    {
        let ghost m0 = self.map@;
        let ghost n = if self.lines@.len() > m0.len() {
            (self.lines@.len() - m0.len()) as nat
        } else {
            0
        };
        assert(m0 + Seq::new(0nat, |k: int| i) =~= m0);
        while self.map.len() < self.lines.len()
            invariant
                self.lines@ == old(self).lines@,
                self.images@ == old(self).images@,
                self.wants@ == old(self).wants@,
                m0 == old(self).map@,
                m0.len() <= self.map@.len(),
                self.map@.len() <= self.lines@.len() || self.map@ == m0,
                self.map@ =~= m0 + Seq::new((self.map@.len() - m0.len()) as nat, |k: int| i),
            decreases self.lines@.len() - self.map@.len(),
        {
            self.map.push(i);
        }
    }

    /// The next lines are the source lines `from` to `to - 1`.
    pub fn map_range(&mut self, from: usize, to: usize)
        ensures
            final(self)@ == old(self)@.mapped_range(from as int, to as int),
    {
        let ghost m0 = self.map@;
        let mut i: usize = from;
        assert(m0 + line_range(from as int, from as int) =~= m0);
        while i < to
            invariant
                from <= i,
                i <= to || i == from,
                self.lines@ == old(self).lines@,
                self.images@ == old(self).images@,
                self.wants@ == old(self).wants@,
                self.map@ == m0 + line_range(from as int, i as int),
            decreases to - i,
        {
            self.map.push(i);
            i += 1;
            assert(m0 + line_range(from as int, i as int) =~= (m0 + line_range(
                from as int,
                i - 1,
            )).push((i - 1) as usize));
        }
        assert(line_range(from as int, i as int) =~= line_range(from as int, to as int));
    }
}

/// A document under construction: what is open at the end of the lines read.
pub struct Document {
    pub canvas: Canvas,
    /// An open code fence: its language, what it holds, the line it is on.
    pub fence: Option<(String, String, usize)>,
    /// Open display math.
    pub math: Option<String>,
    /// Table rows read, and the line of the first.
    pub table: Vec<String>,
    pub table_at: usize,
}

#[verifier::ext_equal]
pub struct DocumentView {
    pub canvas: CanvasView,
    pub fence: Option<(Seq<char>, Seq<char>, usize)>,
    pub math: Option<Seq<char>>,
    pub table: Seq<Seq<char>>,
    pub table_at: usize,
}

pub open spec fn fence_view(f: Option<(String, String, usize)>) -> Option<
    (Seq<char>, Seq<char>, usize),
> {
    match f {
        Some(f) => Some((f.0@, f.1@, f.2)),
        None => None,
    }
}

impl View for Document {
    type V = DocumentView;

    open spec fn view(&self) -> DocumentView {
        DocumentView {
            canvas: self.canvas@,
            fence: fence_view(self.fence),
            math: opt_view(self.math),
            table: views(self.table@),
            table_at: self.table_at,
        }
    }
}

/// The model of optional attachments.
pub open spec fn attached(a: Option<&Json>) -> Option<JsonView> {
    match a {
        Some(v) => Some(v@),
        None => None,
    }
}

/// Number of `#` that a line starts with.
pub open spec fn heading_level(t: Seq<char>) -> int {
    t.len() - strip_leading(t, '#').len()
}

pub open spec fn heading_style(level: int) -> StyleView {
    let st = StyleView::of(
        if level == 1 {
            ColorView::Green
        } else if level == 2 {
            ColorView::Cyan
        } else {
            ColorView::Blue
        },
    ).with(BOLD);
    if level == 1 {
        st.with(UNDERLINED)
    } else {
        st
    }
}

/// The language of a fence; code where none is given.
pub open spec fn fence_lang(lang: Seq<char>) -> Seq<char> {
    if lang.len() == 0 {
        "py"@
    } else {
        lang
    }
}

impl DocumentView {
    pub open spec fn empty() -> DocumentView {
        DocumentView {
            canvas: CanvasView::empty(),
            fence: None,
            math: None,
            table: Seq::empty(),
            table_at: 0,
        }
    }

    pub open spec fn on(self, canvas: CanvasView) -> DocumentView {
        DocumentView { canvas, ..self }
    }

    /// Line `i` inside a code fence.
    pub open spec fn fence_line(
        self,
        theme: Seq<char>,
        f: (Seq<char>, Seq<char>, usize),
        i: int,
        raw: Seq<char>,
    ) -> DocumentView {
        if has_prefix(trim(raw), "```"@) {
            DocumentView {
                canvas: self.canvas.mapped_range(f.2 + 1, i).with_lines(
                    highlighted(theme, fence_lang(f.0), f.1),
                ),
                fence: None,
                ..self
            }
        } else {
            DocumentView { fence: Some((f.0, f.1 + raw + "\n"@, f.2)), ..self }
        }
    }

    /// Line `i` inside display math.
    pub open spec fn math_line(self, g: GalleryView, buf: Seq<char>, i: usize, raw: Seq<char>) ->
        DocumentView {
        let t = trim(raw);
        if has_suffix(t, "$$"@) {
            DocumentView {
                canvas: self.canvas.math(g, buf + t.take(t.len() - 2)).mapped_to(i),
                math: None,
                ..self
            }
        } else {
            DocumentView { math: Some(buf + raw + "\n"@), ..self }
        }
    }

    /// The table read so far, if any, is laid out; it ends before line `i`.
    pub open spec fn table_closed(self, i: int) -> DocumentView {
        if self.table.len() == 0 {
            self
        } else {
            DocumentView {
                canvas: self.canvas.mapped_range(self.table_at as int, i).with_lines(
                    table_lines(self.table),
                ),
                table: Seq::empty(),
                ..self
            }
        }
    }

    pub open spec fn table_row(self, i: usize, t: Seq<char>) -> DocumentView {
        DocumentView {
            table: self.table.push(t),
            table_at: if self.table.len() == 0 {
                i
            } else {
                self.table_at
            },
            ..self
        }
    }

    /// An image alone on line `i`: a picture, or its alternative text.
    pub open spec fn image(
        self,
        g: GalleryView,
        attachments: Option<JsonView>,
        i: usize,
        alt: Seq<char>,
        src: Seq<char>,
    ) -> DocumentView {
        let x = image_graphic(g.dir, src, attachments);
        let c = match x {
            Some(x) => self.canvas.wanting(g, x, false),
            None => self.canvas,
        };
        let e = match x {
            Some(x) => g.entry(x, false),
            None => None,
        };
        let shown = if alt.len() == 0 {
            src
        } else {
            alt
        };
        self.on(
            match e {
                Some(e) => c.with_image(e),
                None => c.with_line(
                    LineView::styled(
                        "[image: "@ + shown + "]"@,
                        StyleView::of(ColorView::Gray),
                    ),
                ),
            }.mapped_to(i),
        )
    }

    /// Line `i`, which starts with `$$`.
    pub open spec fn math_opened(self, g: GalleryView, i: usize, rest: Seq<char>) -> DocumentView {
        if has_suffix(rest, "$$"@) {
            self.on(self.canvas.math(g, rest.take(rest.len() - 2)).mapped_to(i))
        } else {
            DocumentView {
                canvas: self.canvas.mapped_to(i),
                math: Some(rest + "\n"@),
                ..self
            }
        }
    }

    /// Line `i` outside fences, math and tables.
    pub open spec fn block_line(
        self,
        g: GalleryView,
        attachments: Option<JsonView>,
        i: usize,
        raw: Seq<char>,
    ) -> DocumentView {
        let t = trim(raw);
        match image_line(t) {
            Some((alt, src)) => self.image(g, attachments, i, alt, src),
            None => if has_prefix(t, "```"@) {
                DocumentView { fence: Some((trim(t.skip(3)), Seq::empty(), i)), ..self }
            } else if has_prefix(t, "$$"@) {
                self.math_opened(g, i, t.skip(2))
            } else if has_prefix(t, "#"@) {
                self.on(
                    self.canvas.with_line(
                        LineView::styled(
                            trim_start(strip_leading(t, '#')),
                            heading_style(heading_level(t)),
                        ),
                    ).mapped_to(i),
                )
            } else {
                let row = text_row(g, raw, self.canvas.lines.len() as int);
                self.on(
                    CanvasView {
                        images: self.canvas.images + row.images,
                        wants: self.canvas.wants + row.wants,
                        ..self.canvas
                    }.with_line(LineView::of(row.spans)).mapped_to(i),
                )
            },
        }
    }

    /// The document with line `i` read.
    pub open spec fn read(
        self,
        theme: Seq<char>,
        g: GalleryView,
        attachments: Option<JsonView>,
        i: usize,
        raw: Seq<char>,
    ) -> DocumentView {
        match (self.fence, self.math) {
            (Some(f), _) => self.fence_line(theme, f, i as int, raw),
            (None, Some(buf)) => self.math_line(g, buf, i, raw),
            (None, None) => if has_prefix(trim(raw), "|"@) {
                self.table_row(i, trim(raw))
            } else {
                self.table_closed(i as int).block_line(g, attachments, i, raw)
            },
        }
    }

    /// The end of a document of `total` lines: an open table is laid out, an
    /// unterminated fence or formula shown raw.
    pub open spec fn closed(self, total: int) -> CanvasView {
        let d = self.table_closed(total);
        let c = match d.fence {
            Some(f) => d.canvas.with_lines(raw_lines(f.1)),
            None => d.canvas,
        };
        let e = match d.math {
            Some(buf) => c.with_lines(raw_lines(buf)),
            None => c,
        };
        e.mapped_to((total - 1) as usize)
    }

    /// Each rendered line is mapped to one of the `i` source lines read, and
    /// what is open accounts for lines just read.
    pub open spec fn sound(self, i: int) -> bool {
        &&& self.canvas.map.len() == self.canvas.lines.len()
        &&& forall|k: int| 0 <= k < self.canvas.map.len() ==> (#[trigger] self.canvas.map[k]) < i
        &&& self.canvas.images_inside()
        &&& self.table.len() > 0 ==> self.table_at + self.table.len() == i
        &&& self.fence matches Some(f) ==> f.2 < i && whole_lines(f.1, i - f.2 - 1)
        &&& self.fence is Some || self.math is Some ==> self.table.len() == 0
    }
}

/// `s` is `n` lines, each with its line break.
pub open spec fn whole_lines(s: Seq<char>, n: int) -> bool {
    split_on(s, '\n').len() == n + 1 && split_on(s, '\n').last().len() == 0
}

pub open spec fn raw_lines(s: Seq<char>) -> Seq<LineView> {
    lines_of(s).map_values(|l: Seq<char>| LineView::raw(l))
}

/// The document after the first `n` of its lines.
pub open spec fn document(
    theme: Seq<char>,
    g: GalleryView,
    attachments: Option<JsonView>,
    lines: Seq<Seq<char>>,
    n: int,
) -> DocumentView
    decreases n,
{
    if n <= 0 {
        DocumentView::empty()
    } else {
        document(theme, g, attachments, lines, n - 1).read(
            theme,
            g,
            attachments,
            (n - 1) as usize,
            lines[n - 1],
        )
    }
}

/// A markdown text rendered.
pub open spec fn rendered_markdown(
    theme: Seq<char>,
    g: GalleryView,
    attachments: Option<JsonView>,
    source: Seq<char>,
) -> CanvasView {
    let lines = split_on(source, '\n');
    document(theme, g, attachments, lines, lines.len() as int).closed(lines.len() as int)
}

proof fn lemma_clean_append(s: Seq<char>, raw: Seq<char>)
    requires
        !raw.contains('\n'),
    ensures
        split_on(s + raw, '\n').len() == split_on(s, '\n').len(),
    decreases raw.len(),
{
    if raw.len() == 0 {
        assert(s + raw =~= s);
    } else {
        let r = raw.drop_last();
        assert(!r.contains('\n')) by {
            if r.contains('\n') {
                let k = r.index_of('\n');
                assert(raw[k] == '\n');
                assert(raw.contains('\n'));
            }
        }
        lemma_clean_append(s, r);
        assert((s + raw).drop_last() =~= s + r);
        assert(raw[raw.len() - 1] != '\n') by {
            if raw[raw.len() - 1] == '\n' {
                assert(raw.contains('\n'));
            }
        }
        text::lemma_split_nonempty(s + r, '\n');
    }
}

proof fn lemma_whole_line(s: Seq<char>, n: int, raw: Seq<char>)
    requires
        whole_lines(s, n),
        !raw.contains('\n'),
    ensures
        whole_lines(s + raw + "\n"@, n + 1),
        source_lines(s).len() == n,
{
    lemma_clean_append(s, raw);
    reveal_strlit("\n");
    let t = s + raw + "\n"@;
    assert(t.drop_last() =~= s + raw);
    assert(t.last() == '\n');
}

impl Document {
    fn empty() -> (r: Document)
        ensures
            r@ == DocumentView::empty(),
            r@.sound(0),
    {
        let table: Vec<String> = Vec::new();
        assert(views(table@) =~= Seq::<Seq<char>>::empty());
        Document { canvas: Canvas::empty(), fence: None, math: None, table, table_at: 0 }
    }

    fn read_fence(&mut self, h: &Highlighter, i: usize, raw: &str)
        requires
            old(self)@.sound(i as int),
            old(self)@.fence is Some,
            !raw@.contains('\n'),
            i < usize::MAX,
        ensures
            final(self)@ == old(self)@.fence_line(h@, old(self)@.fence->Some_0, i as int, raw@),
            final(self)@.sound(i + 1),
    {
        let ghost before = self@;
        let ghost f = before.fence->Some_0;
        proof {
            lemma_whole_line(f.1, i - f.2 - 1, raw@);
        }
        let (lang, body, at) = match &self.fence {
            Some(f) => (f.0.clone(), f.1.clone(), f.2),
            None => (String::new(), String::new(), 0),
        };
        if text::starts_with(text::trimmed(raw).as_str(), "```") {
            let lang = if lang.as_str().is_empty() {
                "py"
            } else {
                lang.as_str()
            };
            let lines = h.lines(body.as_str(), lang);
            self.canvas.map_range(at + 1, i);
            self.canvas.extend(lines);
            self.fence = None;
        } else {
            let mut b = body;
            b.append(raw);
            b.append("\n");
            self.fence = Some((lang, b, at));
        }
    }

    fn read_math(&mut self, g: &Gallery, i: usize, raw: &str)
        requires
            old(self)@.sound(i as int),
            old(self)@.fence is None,
            old(self)@.math is Some,
            i < usize::MAX,
        ensures
            final(self)@ == old(self)@.math_line(g@, old(self)@.math->Some_0, i, raw@),
            final(self)@.sound(i + 1),
    {
        let mut buf = match &self.math {
            Some(b) => b.clone(),
            None => String::new(),
        };
        let t = text::trimmed(raw);
        if text::ends_with(t.as_str(), "$$") {
            proof {
                reveal_strlit("$$");
            }
            let n = t.as_str().unicode_len();
            let head = t.as_str().substring_char(0, n - 2);
            assert(head@ =~= t@.take(t@.len() - 2));
            buf.append(head);
            self.canvas.push_math(g, buf.as_str());
            self.canvas.map_rest(i);
            self.math = None;
        } else {
            buf.append(raw);
            buf.append("\n");
            self.math = Some(buf);
        }
    }

    fn close_table(&mut self, i: usize)
        requires
            old(self)@.sound(i as int),
        ensures
            final(self)@ == old(self)@.table_closed(i as int),
            final(self)@.sound(i as int),
            final(self)@.table.len() == 0,
    {
        if self.table.len() > 0 {
            let lines = render_table(&self.table);
            self.canvas.map_range(self.table_at, i);
            self.canvas.extend(lines);
            let none: Vec<String> = Vec::new();
            assert(views(none@) =~= Seq::<Seq<char>>::empty());
            assert(views(self.table@).len() == self.table@.len());
            self.table = none;
        } else {
            assert(views(self.table@).len() == 0);
        }
    }

    fn read_image(
        &mut self,
        g: &Gallery,
        attachments: Option<&Json>,
        i: usize,
        alt: String,
        src: String,
    )
        requires
            old(self)@.sound(i as int),
            old(self)@.fence is None,
            old(self)@.table.len() == 0,
            i < usize::MAX,
        ensures
            final(self)@ == old(self)@.image(g@, attached(attachments), i, alt@, src@),
            final(self)@.sound(i + 1),
    {
        let x = md_image(g.dir.as_str(), src.as_str(), attachments);
        let entry = match x {
            Some(x) => {
                self.canvas.note(g, &x, false);
                g.image_entry(x, false)
            },
            None => None,
        };
        match entry {
            Some(e) => {
                self.canvas.push_image(e);
            },
            None => {
                let mut t = "[image: ".to_owned();
                if alt.as_str().is_empty() {
                    t.append(src.as_str());
                } else {
                    t.append(alt.as_str());
                }
                t.append("]");
                self.canvas.push_line(Line::styled(t, Style::of(Color::Gray)));
            },
        }
        self.canvas.map_rest(i);
    }

    fn read_heading(&mut self, i: usize, t: &str)
        requires
            old(self)@.sound(i as int),
            old(self)@.fence is None,
            old(self)@.table.len() == 0,
            i < usize::MAX,
        ensures
            final(self)@ == old(self)@.on(
                old(self)@.canvas.with_line(
                    LineView::styled(
                        trim_start(strip_leading(t@, '#')),
                        heading_style(heading_level(t@)),
                    ),
                ).mapped_to(i),
            ),
            final(self)@.sound(i + 1),
    {
        let body = text::without_leading(t, '#');
        let n = t.unicode_len();
        let m = body.as_str().unicode_len();
        proof {
            lemma_strip_leading_len(t@, '#');
        }
        let level = n - m;
        let color = if level == 1 {
            Color::Green
        } else if level == 2 {
            Color::Cyan
        } else {
            Color::Blue
        };
        let mut st = Style::of(color).with(BOLD);
        if level == 1 {
            st = st.with(UNDERLINED);
        }
        self.canvas.push_line(Line::styled(text::trimmed_start(body.as_str()), st));
        self.canvas.map_rest(i);
    }

    fn read_text(&mut self, g: &Gallery, i: usize, raw: &str)
        requires
            old(self)@.sound(i as int),
            old(self)@.fence is None,
            old(self)@.table.len() == 0,
            i < usize::MAX,
        ensures
            ({
                let row = text_row(g@, raw@, old(self)@.canvas.lines.len() as int);
                final(self)@ == old(self)@.on(
                    CanvasView {
                        images: old(self)@.canvas.images + row.images,
                        wants: old(self)@.canvas.wants + row.wants,
                        ..old(self)@.canvas
                    }.with_line(LineView::of(row.spans)).mapped_to(i),
                )
            }),
            final(self)@.sound(i + 1),
    {
        let at = self.canvas.lines.len();
        let row = md_line(g, raw, at);
        let ghost r = row@;
        let ghost i0 = self.canvas.images@;
        let ghost w0 = self.canvas.wants@;
        let Row { spans, text: _, col: _, images, wants } = row;
        let mut images = images;
        let mut wants = wants;
        self.canvas.images.append(&mut images);
        self.canvas.wants.append(&mut wants);
        assert(views(self.canvas.images@) =~= views(i0) + r.images);
        assert(views(self.canvas.wants@) =~= views(w0) + r.wants);
        self.canvas.push_line(Line::of(spans));
        self.canvas.map_rest(i);
    }

    fn read_block(&mut self, g: &Gallery, attachments: Option<&Json>, i: usize, raw: &str)
        requires
            old(self)@.sound(i as int),
            old(self)@.fence is None,
            old(self)@.math is None,
            old(self)@.table.len() == 0,
            i < usize::MAX,
        ensures
            final(self)@ == old(self)@.block_line(g@, attached(attachments), i, raw@),
            final(self)@.sound(i + 1),
    {
        let t = text::trimmed(raw);
        proof {
            reveal_strlit("```");
            reveal_strlit("$$");
        }
        match parse_md_image(t.as_str()) {
            Some((alt, src)) => {
                self.read_image(g, attachments, i, alt, src);
            },
            None => if text::starts_with(t.as_str(), "```") {
                let rest = text::skip(t.as_str(), 3);
                let lang = text::trimmed(rest.as_str());
                self.fence = Some((lang, String::new(), i));
                assert(split_on(Seq::empty(), '\n').last().len() == 0);
            } else if text::starts_with(t.as_str(), "$$") {
                let rest = text::skip(t.as_str(), 2);
                if text::ends_with(rest.as_str(), "$$") {
                    let n = rest.as_str().unicode_len();
                    let inner = rest.as_str().substring_char(0, n - 2);
                    assert(inner@ =~= rest@.take(rest@.len() - 2));
                    self.canvas.push_math(g, inner);
                    self.canvas.map_rest(i);
                } else {
                    let mut buf = rest;
                    buf.append("\n");
                    self.math = Some(buf);
                    self.canvas.map_rest(i);
                }
            } else if text::starts_with(t.as_str(), "#") {
                self.read_heading(i, t.as_str());
            } else {
                self.read_text(g, i, raw);
            },
        }
    }

    fn read(
        &mut self,
        h: &Highlighter,
        g: &Gallery,
        attachments: Option<&Json>,
        i: usize,
        raw: &str,
    )
        requires
            old(self)@.sound(i as int),
            !raw@.contains('\n'),
            i < usize::MAX,
        ensures
            final(self)@ == old(self)@.read(h@, g@, attached(attachments), i, raw@),
            final(self)@.sound(i + 1),
    {
        if self.fence.is_some() {
            self.read_fence(h, i, raw);
        } else if self.math.is_some() {
            self.read_math(g, i, raw);
        } else {
            let t = text::trimmed(raw);
            if text::starts_with(t.as_str(), "|") {
                let ghost t0 = self.table@;
                if self.table.len() == 0 {
                    self.table_at = i;
                }
                self.table.push(t);
                assert(views(self.table@) =~= views(t0).push(t@));
            } else {
                self.close_table(i);
                self.read_block(g, attachments, i, raw);
            }
        }
    }
}

fn plain_lines(s: &str) -> (r: Vec<Line>)
    ensures
        views(r@) == raw_lines(s@),
{
    let ls = text::lines(s);
    let ghost want = raw_lines(s@);
    let mut r: Vec<Line> = Vec::new();
    let mut i: usize = 0;
    while i < ls.len()
        invariant
            i <= ls@.len(),
            views(ls@) == lines_of(s@),
            want == raw_lines(s@),
            r@.len() == i,
            forall|k: int| 0 <= k < i ==> (#[trigger] r@[k])@ == want[k],
        decreases ls@.len() - i,
    {
        assert(views(ls@)[i as int] == ls@[i as int]@);
        r.push(Line::raw(ls[i].clone()));
        i += 1;
    }
    assert(views(ls@).len() == ls@.len());
    assert(views(r@) =~= want);
    r
}

proof fn lemma_strip_leading_len(s: Seq<char>, c: char)
    ensures
        strip_leading(s, c).len() <= s.len(),
    decreases s.len(),
{
    if s.len() > 0 {
        lemma_strip_leading_len(s.skip(1), c);
    }
}

/// Renders markdown: lines, pictures and a rendered-line -> source-line map,
/// so that mouse clicks land on the right raw line. The map has an entry for
/// every line, and each names a line of the source. Fence bodies and table
/// rows map exactly; math blocks map to their closing `$$` line.
pub fn render_markdown(
    h: &Highlighter,
    g: &Gallery,
    source: &str,
    attachments: Option<&Json>,
) -> (r: Canvas)
    ensures
        r@ == rendered_markdown(h@, g@, attached(attachments), source@),
        r.map@.len() == r.lines@.len(),
        r@.images_inside(),
        forall|k: int|
            0 <= k < r.map@.len() ==> (#[trigger] r.map@[k]) < split_on(source@, '\n').len(),
{
    let lines = text::split(source, '\n');
    let ghost all = views(lines@);
    proof {
        text::lemma_split_nonempty(source@, '\n');
    }
    let mut d = Document::empty();
    let mut i: usize = 0;
    while i < lines.len()
        invariant
            i <= lines.len(),
            all == views(lines@),
            all == split_on(source@, '\n'),
            d@ == document(h@, g@, attached(attachments), all, i as int),
            d@.sound(i as int),
        decreases lines@.len() - i,
    {
        assert(all[i as int] == lines@[i as int]@);
        proof {
            text::lemma_split_clean(source@, '\n', i as int);
        }
        d.read(h, g, attachments, i, lines[i].as_str());
        i += 1;
    }
    let total = lines.len();
    d.close_table(total);
    let Document { canvas, fence, math, table: _, table_at: _ } = d;
    let mut canvas = canvas;
    if let Some(f) = fence {
        canvas.extend(plain_lines(f.1.as_str()));
    }
    if let Some(buf) = math {
        canvas.extend(plain_lines(buf.as_str()));
    }
    canvas.map_rest(total - 1);
    canvas
}

} // verus!
