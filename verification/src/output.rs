//! Cell outputs as lines of text.

use vstd::prelude::*;

use crate::json::Json;
#[allow(unused_imports)]
use crate::json::{keys_in_order, JsonView};
use crate::notebook;
#[allow(unused_imports)]
use crate::notebook::multiline;
use crate::style::{Color, Line, Span, Style};
#[allow(unused_imports)]
use crate::style::{ColorView, LineView, SpanView, StyleView};
use crate::text;
#[allow(unused_imports)]
use crate::text::{has_prefix, join, lines_of, opt_view, replaced, split_on, views};

verus! {

// ---------------------------------------------------------------------------
// ANSI escapes
// ---------------------------------------------------------------------------

/// Model of a piece of ANSI text: its characters, foreground and background
/// by colour name, and modifier bits on and off.
pub type AnsiPiece = (Seq<char>, Option<Seq<char>>, Option<Seq<char>>, u16, u16);

/// What `ansi_to_tui` makes of `text`: lines of styled pieces.
pub uninterp spec fn ansi_lines(text: Seq<char>) -> Option<Seq<Seq<AnsiPiece>>>;

pub open spec fn piece_view(
    p: (String, Option<String>, Option<String>, u16, u16),
) -> AnsiPiece {
    (p.0@, opt_view(p.1), opt_view(p.2), p.3, p.4)
}

pub open spec fn pieces_view(
    v: Vec<(String, Option<String>, Option<String>, u16, u16)>,
) -> Seq<AnsiPiece> {
    v@.map_values(|p: (String, Option<String>, Option<String>, u16, u16)| piece_view(p))
}

pub open spec fn ansi_view(
    o: Option<Vec<Vec<(String, Option<String>, Option<String>, u16, u16)>>>,
) -> Option<Seq<Seq<AnsiPiece>>> {
    match o {
        Some(v) => Some(
            v@.map_values(
                |l: Vec<(String, Option<String>, Option<String>, u16, u16)>| pieces_view(l),
            ),
        ),
        None => None,
    }
}

/// The lines of `s`; a final line break starts no further line.
pub open spec fn text_lines(s: Seq<char>) -> Seq<Seq<char>> {
    let p = split_on(s, '\n');
    if p.len() > 1 && p.last().len() == 0 {
        p.drop_last()
    } else {
        p
    }
}

pub open spec fn unstyled(s: Seq<char>) -> Seq<AnsiPiece> {
    if s.len() == 0 {
        Seq::empty()
    } else {
        seq![(s, None, None, 0u16, 0u16)]
    }
}

/// `ansi_to_tui::IntoText::into_text`: the text with its escape sequences
/// turned into styles; colours by the names that ratatui's `Color` prints.
/// Text with neither escapes nor carriage returns comes back unstyled, line
/// by line, an empty line with no piece.
#[verifier::external_body]
fn parse_ansi(
    text: &str,
) -> (r: Option<Vec<Vec<(String, Option<String>, Option<String>, u16, u16)>>>)
    ensures
        ansi_view(r) == ansi_lines(text@),
        !text@.contains('\x1b') && !text@.contains('\r') ==> ansi_view(r) == Some(
            text_lines(text@).map_values(|l: Seq<char>| unstyled(l)),
        ),
{
    ansi_to_tui::IntoText::into_text(&text).ok().map(|t| {
        t.lines.into_iter().map(|l| {
            l.spans.into_iter().map(|s| {
                let (fg, bg) = (s.style.fg.map(|c| c.to_string()), s.style.bg.map(|c| c.to_string()));
                (s.content.to_string(), fg, bg, s.style.add_modifier.bits(), s.style.sub_modifier.bits())
            }).collect()
        }).collect()
    })
}

// ---------------------------------------------------------------------------
// Styled output lines
// ---------------------------------------------------------------------------

pub open spec fn named(c: Option<Seq<char>>) -> Option<ColorView> {
    match c {
        Some(s) => Some(ColorView::Named(s)),
        None => None,
    }
}

pub open spec fn piece_span(p: AnsiPiece) -> SpanView {
    SpanView {
        content: p.0,
        style: StyleView { fg: named(p.1), bg: named(p.2), add: p.3, sub: p.4 },
    }
}

pub open spec fn all_plain(spans: Seq<SpanView>) -> bool {
    forall|i: int| 0 <= i < spans.len() ==> (#[trigger] spans[i]).style == StyleView::plain()
}

/// A line of pieces; where none is styled, the whole line is in `style`.
pub open spec fn piece_line(pieces: Seq<AnsiPiece>, style: StyleView) -> LineView {
    let spans = pieces.map_values(|p: AnsiPiece| piece_span(p));
    LineView {
        spans,
        style: if all_plain(spans) {
            style
        } else {
            StyleView::plain()
        },
    }
}

/// Output text as lines, given what the ANSI parser made of it.
pub open spec fn styled_lines(
    parsed: Option<Seq<Seq<AnsiPiece>>>,
    text: Seq<char>,
    style: StyleView,
) -> Seq<LineView> {
    match parsed {
        Some(lines) => lines.map_values(|l: Seq<AnsiPiece>| piece_line(l, style)),
        None => lines_of(text).map_values(|l: Seq<char>| LineView::styled(l, style)),
    }
}

pub open spec fn output_style() -> StyleView {
    StyleView::of(ColorView::Gray)
}

pub open spec fn error_style() -> StyleView {
    StyleView::of(ColorView::Red)
}

fn color_named(c: &Option<String>) -> (r: Option<Color>)
    ensures
        opt_view(r) == named(opt_view(*c)),
{
    match c {
        Some(s) => Some(Color::Named(s.clone())),
        None => None,
    }
}

/// One line of ANSI pieces.
pub fn line_of_pieces(
    pieces: &Vec<(String, Option<String>, Option<String>, u16, u16)>,
    style: &Style,
) -> (r: Line)
    ensures
        r@ == piece_line(pieces_view(*pieces), style@),
{
    let ghost want = pieces_view(*pieces).map_values(|p: AnsiPiece| piece_span(p));
    let mut spans: Vec<Span> = Vec::new();
    let mut plain = true;
    let mut i: usize = 0;
    while i < pieces.len()
        invariant
            i <= pieces@.len(),
            want == pieces_view(*pieces).map_values(|p: AnsiPiece| piece_span(p)),
            spans@.len() == i,
            forall|k: int| 0 <= k < i ==> (#[trigger] spans@[k])@ == want[k],
            plain == (forall|k: int|
                0 <= k < i ==> (#[trigger] want[k]).style == StyleView::plain()),
        decreases pieces@.len() - i,
    {
        let p = &pieces[i];
        let st = Style { fg: color_named(&p.1), bg: color_named(&p.2), add: p.3, sub: p.4 };
        assert(pieces_view(*pieces)[i as int] == piece_view(*p));
        assert(want[i as int].style == st@);
        if !st.is_plain() {
            plain = false;
        }
        spans.push(Span { content: p.0.clone(), style: st });
        i += 1;
    }
    assert(views(spans@) =~= want);
    let line_style = if plain {
        style.duplicate()
    } else {
        Style::plain()
    };
    Line { spans, style: line_style }
}

/// Output text as lines, given what the ANSI parser made of it.
pub fn lines_of_parsed(
    parsed: &Option<Vec<Vec<(String, Option<String>, Option<String>, u16, u16)>>>,
    text: &str,
    style: &Style,
) -> (r: Vec<Line>)
    ensures
        views(r@) == styled_lines(ansi_view(*parsed), text@, style@),
{
    let mut r: Vec<Line> = Vec::new();
    match parsed {
        Some(lines) => {
            let ghost want = styled_lines(ansi_view(*parsed), text@, style@);
            let mut i: usize = 0;
            while i < lines.len()
                invariant
                    i <= lines@.len(),
                    *parsed == Some(*lines),
                    want == styled_lines(ansi_view(*parsed), text@, style@),
                    r@.len() == i,
                    forall|k: int| 0 <= k < i ==> (#[trigger] r@[k])@ == want[k],
                decreases lines@.len() - i,
            {
                r.push(line_of_pieces(&lines[i], style));
                i += 1;
            }
            assert(views(r@) =~= want);
        },
        None => {
            let ls = text::lines(text);
            let ghost want = styled_lines(ansi_view(*parsed), text@, style@);
            let mut i: usize = 0;
            while i < ls.len()
                invariant
                    i <= ls@.len(),
                    views(ls@) == lines_of(text@),
                    want == lines_of(text@).map_values(
                        |l: Seq<char>| LineView::styled(l, style@),
                    ),
                    r@.len() == i,
                    forall|k: int| 0 <= k < i ==> (#[trigger] r@[k])@ == want[k],
                decreases ls@.len() - i,
            {
                assert(views(ls@)[i as int] == ls@[i as int]@);
                r.push(Line::styled(ls[i].clone(), style.duplicate()));
                i += 1;
            }
            assert(views(ls@).len() == ls@.len());
            assert(views(r@) =~= want);
        },
    }
    r
}

// ---------------------------------------------------------------------------
// Outputs
// ---------------------------------------------------------------------------

/// The strings among array elements.
pub open spec fn string_items(a: Seq<JsonView>) -> Seq<Seq<char>>
    decreases a.len(),
{
    if a.len() == 0 {
        Seq::empty()
    } else {
        match a.last() {
            JsonView::Str(s) => string_items(a.drop_last()).push(s),
            _ => string_items(a.drop_last()),
        }
    }
}

fn items_of(a: &Vec<Json>) -> (r: Vec<String>)
    ensures
        views(r@) == string_items(views(a@)),
{
    let ghost all = views(a@);
    let mut r: Vec<String> = Vec::new();
    let mut i: usize = 0;
    assert(views(r@) =~= string_items(all.take(0)));
    while i < a.len()
        invariant
            i <= a@.len(),
            all == views(a@),
            views(r@) == string_items(all.take(i as int)),
        decreases a@.len() - i,
    {
        let ghost r0 = r@;
        assert(all.take(i + 1).drop_last() =~= all.take(i as int));
        assert(all.take(i + 1).last() == a@[i as int]@);
        if let Json::Str(s) = &a[i] {
            r.push(s.clone());
            assert(views(r@) =~= views(r0).push(s@));
        }
        i += 1;
    }
    assert(all.take(i as int) =~= all);
    r
}

/// `[key]` for each key.
pub open spec fn bracketed(ks: Seq<Seq<char>>) -> Seq<Seq<char>> {
    ks.map_values(|k: Seq<char>| "["@ + k + "]"@)
}

fn bracket_all(ks: &Vec<String>) -> (r: Vec<String>)
    ensures
        views(r@) == bracketed(views(ks@)),
{
    let ghost want = bracketed(views(ks@));
    let mut r: Vec<String> = Vec::new();
    let mut i: usize = 0;
    while i < ks.len()
        invariant
            i <= ks@.len(),
            want == bracketed(views(ks@)),
            r@.len() == i,
            forall|k: int| 0 <= k < i ==> (#[trigger] r@[k])@ == want[k],
        decreases ks@.len() - i,
    {
        let mut s = "[".to_owned();
        s.append(ks[i].as_str());
        s.append("]");
        r.push(s);
        i += 1;
    }
    assert(views(r@) =~= want);
    r
}

/// The text of an output and its style; `None` where there is none to show.
pub open spec fn output_text(o: JsonView) -> Option<(Seq<char>, StyleView)> {
    match o.at("output_type"@).as_str() {
        None => None,
        Some(t) => if t == "stream"@ {
            Some((multiline(o.at("text"@)), output_style()))
        } else if t == "execute_result"@ || t == "display_data"@ {
            let data = o.at("data"@);
            let plain = multiline(data.at("text/plain"@));
            if plain.len() > 0 {
                Some((plain, output_style()))
            } else {
                match data {
                    JsonView::Obj(m) => Some(
                        (join(bracketed(keys_in_order(m)), " "@), output_style()),
                    ),
                    _ => None,
                }
            }
        } else if t == "error"@ {
            Some(
                (
                    match o.at("traceback"@) {
                        JsonView::Arr(tb) => join(string_items(tb), "\n"@),
                        other => multiline(other),
                    },
                    error_style(),
                ),
            )
        } else {
            None
        },
    }
}

/// Output text without carriage returns: any that is left is the mark of a
/// pending overwrite.
pub open spec fn without_cr(s: Seq<char>) -> Seq<char> {
    replaced(s, "\r"@, ""@)
}

/// The lines of an output.
pub open spec fn shown_output(o: JsonView) -> Seq<LineView> {
    match output_text(o) {
        None => Seq::empty(),
        Some((t, style)) => styled_lines(ansi_lines(without_cr(t)), without_cr(t), style),
    }
}

fn text_of_output(output: &Json) -> (r: Option<(String, Style)>)
    ensures
        match r {
            None => output_text(output@) is None,
            Some(p) => output_text(output@) == Some((p.0@, p.1@)),
        },
{
    let t = match output.str_at("output_type") {
        Some(t) => t,
        None => {
            return None;
        },
    };
    if text::same(t, "stream") {
        Some((notebook::multiline_at(output, "text"), Style::of(Color::Gray)))
    } else if text::same(t, "execute_result") || text::same(t, "display_data") {
        let data = match output.get("data") {
            Some(d) => d,
            None => {
                return None;
            },
        };
        let plain = notebook::multiline_at(data, "text/plain");
        if !plain.as_str().is_empty() {
            return Some((plain, Style::of(Color::Gray)));
        }
        match data {
            Json::Obj(m) => {
                let ks = m.keys();
                let shown = bracket_all(&ks);
                Some((text::join_strings(&shown, " "), Style::of(Color::Gray)))
            },
            _ => None,
        }
    } else if text::same(t, "error") {
        let s = match output.get("traceback") {
            Some(Json::Arr(tb)) => {
                proof {
                    crate::json::lemma_array_view(tb@);
                }
                let items = items_of(tb);
                text::join_strings(&items, "\n")
            },
            Some(other) => notebook::join_multiline(other),
            None => String::new(),
        };
        Some((s, Style::of(Color::Red)))
    } else {
        None
    }
}

/// Text with neither escape sequences nor carriage returns.
pub open spec fn is_clean(t: Seq<char>) -> bool {
    !t.contains('\x1b') && !t.contains('\r')
}

/// The lines of a text, each whole and in one style.
pub open spec fn clean_lines(t: Seq<char>, style: StyleView) -> Seq<LineView> {
    text_lines(t).map_values(|l: Seq<char>| LineView::styled(l, style))
}

/// `o` is the result of a cell, or was displayed by it, and its plain text is
/// `t`.
pub open spec fn is_result(o: JsonView, t: Seq<char>) -> bool {
    &&& o.get("output_type"@) == Some(JsonView::Str("execute_result"@)) || o.get("output_type"@)
        == Some(JsonView::Str("display_data"@))
    &&& o.get("data"@) matches Some(data) && data.get("text/plain"@) matches Some(v) && multiline(
        v,
    ) == t
}

/// `o` is the text `t` that a cell wrote.
pub open spec fn is_stream(o: JsonView, t: Seq<char>) -> bool {
    &&& o.get("output_type"@) == Some(JsonView::Str("stream"@))
    &&& o.get("text"@) matches Some(v) && multiline(v) == t
}

/// `o` is the failure of a cell, with this traceback.
pub open spec fn is_failure(o: JsonView, traceback: Seq<Seq<char>>) -> bool {
    &&& o.get("output_type"@) == Some(JsonView::Str("error"@))
    &&& o.get("traceback"@) == Some(
        JsonView::Arr(traceback.map_values(|l: Seq<char>| JsonView::Str(l))),
    )
}

proof fn lemma_string_items(l: Seq<Seq<char>>)
    ensures
        string_items(l.map_values(|x: Seq<char>| JsonView::Str(x))) == l,
    decreases l.len(),
{
    let a = l.map_values(|x: Seq<char>| JsonView::Str(x));
    if l.len() > 0 {
        lemma_string_items(l.drop_last());
        assert(a.drop_last() =~= l.drop_last().map_values(|x: Seq<char>| JsonView::Str(x)));
        assert(a.last() == JsonView::Str(l.last()));
        assert(l.drop_last().push(l.last()) =~= l);
    } else {
        assert(string_items(a) =~= l);
    }
}

proof fn lemma_clean_stays(t: Seq<char>)
    requires
        !t.contains('\r'),
    ensures
        without_cr(t) == t,
    decreases t.len(),
{
    reveal_strlit("\r");
    if t.len() > 0 {
        let rest = t.skip(1);
        assert(!rest.contains('\r')) by {
            if rest.contains('\r') {
                let k = choose|k: int| 0 <= k < rest.len() && rest[k] == '\r';
                assert(t[k + 1] == '\r');
            }
        }
        lemma_clean_stays(rest);
        assert(!has_prefix(t, "\r"@)) by {
            if has_prefix(t, "\r"@) {
                assert(t.subrange(0, 1)[0] == t[0]);
                assert("\r"@[0] == '\r');
                assert(t.contains(t[0]));
            }
        }
        assert(seq![t[0]] + rest =~= t);
    }
}

proof fn lemma_clean_lines(t: Seq<char>, style: StyleView)
    ensures
        styled_lines(
            Some(text_lines(t).map_values(|l: Seq<char>| unstyled(l))),
            t,
            style,
        ) == clean_lines(t, style),
{
    let parsed = text_lines(t).map_values(|l: Seq<char>| unstyled(l));
    let a = styled_lines(Some(parsed), t, style);
    let b = clean_lines(t, style);
    assert forall|k: int| 0 <= k < b.len() implies a[k] == b[k] by {
        let l = text_lines(t)[k];
        assert(a[k] == piece_line(unstyled(l), style));
        let spans = unstyled(l).map_values(|p: AnsiPiece| piece_span(p));
        assert(spans =~= LineView::raw(l).spans);
        assert(all_plain(spans));
    }
    assert(a =~= b);
}

/// The text that an output shows: the plain text of a result, what was
/// written, or the traceback of a failure, whole and in its own colour. A
/// result without plain text shows which kinds of data it has.
pub proof fn law_outputs_show_their_text(
    o: JsonView,
    t: Seq<char>,
    traceback: Seq<Seq<char>>,
    m: Map<Seq<char>, JsonView>,
)
    ensures
        is_result(o, t) && t.len() > 0 ==> output_text(o) == Some(
            (t, StyleView::of(ColorView::Gray)),
        ),
        is_stream(o, t) ==> output_text(o) == Some((t, StyleView::of(ColorView::Gray))),
        is_failure(o, traceback) ==> output_text(o) == Some(
            (join(traceback, seq!['\n']), StyleView::of(ColorView::Red)),
        ),
        is_result(o, Seq::empty()) && o.get("data"@) == Some(JsonView::Obj(m)) ==> output_text(o)
            == Some(
            (
                join(
                    keys_in_order(m).map_values(|k: Seq<char>| seq!['['] + k + seq![']']),
                    seq![' '],
                ),
                StyleView::of(ColorView::Gray),
            ),
        ),
{
    lemma_output_types();
    lemma_string_items(traceback);
    reveal_strlit("\n");
    reveal_strlit(" ");
    reveal_strlit("[");
    reveal_strlit("]");
    assert("\n"@ =~= seq!['\n']);
    assert(" "@ =~= seq![' ']);
    assert("["@ =~= seq!['[']);
    assert("]"@ =~= seq![']']);
    assert(bracketed(keys_in_order(m)) =~= keys_in_order(m).map_values(
        |k: Seq<char>| seq!['['] + k + seq![']'],
    ));
}

proof fn lemma_output_types()
    ensures
        "stream"@ != "execute_result"@,
        "stream"@ != "display_data"@,
        "stream"@ != "error"@,
        "error"@ != "execute_result"@,
        "error"@ != "display_data"@,
{
    reveal_strlit("stream");
    reveal_strlit("execute_result");
    reveal_strlit("display_data");
    reveal_strlit("error");
    assert("stream"@.len() == 6);
    assert("execute_result"@.len() == 14);
    assert("display_data"@.len() == 12);
    assert("error"@.len() == 5);
}

/// The lines of a text, with the line breaks between them, are the text, its
/// last line break aside; none of them holds a line break.
pub proof fn law_lines_are_the_text(t: Seq<char>)
    ensures
        ({
            let whole = join(text_lines(t), seq!['\n']);
            whole == t || whole + seq!['\n'] == t
        }),
        forall|k: int| 0 <= k < text_lines(t).len() ==> !(#[trigger] text_lines(t)[k]).contains('\n'),
{
    let p = split_on(t, '\n');
    text::lemma_join_split(t, '\n');
    assert forall|k: int| 0 <= k < p.len() implies !(#[trigger] p[k]).contains('\n') by {
        text::lemma_split_clean(t, '\n', k);
    }
    if p.len() > 1 && p.last().len() == 0 {
        assert(join(p, seq!['\n']) =~= join(p.drop_last(), seq!['\n']) + seq!['\n']);
    }
}

/// The lines of an output, styled as its escape sequences say. Those of a
/// clean text are its own lines.
pub fn output_lines(output: &Json) -> (r: Vec<Line>)
    ensures
        views(r@) == shown_output(output@),
        forall|t: Seq<char>| #[trigger]
            is_result(output@, t) && t.len() > 0 && is_clean(t) ==> views(r@) == clean_lines(
                t,
                StyleView::of(ColorView::Gray),
            ),
        forall|t: Seq<char>| #[trigger]
            is_stream(output@, t) && is_clean(t) ==> views(r@) == clean_lines(
                t,
                StyleView::of(ColorView::Gray),
            ),
        forall|tb: Seq<Seq<char>>| #[trigger]
            is_failure(output@, tb) && is_clean(join(tb, seq!['\n'])) ==> views(r@) == clean_lines(
                join(tb, seq!['\n']),
                StyleView::of(ColorView::Red),
            ),
{
    proof {
        assert forall|t: Seq<char>| #[trigger]
            is_result(output@, t) && t.len() > 0 implies output_text(output@) == Some(
            (t, StyleView::of(ColorView::Gray)),
        ) by {
            law_outputs_show_their_text(output@, t, Seq::empty(), Map::empty());
        }
        assert forall|t: Seq<char>| #[trigger] is_stream(output@, t) implies output_text(output@)
            == Some((t, StyleView::of(ColorView::Gray))) by {
            law_outputs_show_their_text(output@, t, Seq::empty(), Map::empty());
        }
        assert forall|tb: Seq<Seq<char>>| #[trigger] is_failure(output@, tb) implies output_text(
            output@,
        ) == Some((join(tb, seq!['\n']), StyleView::of(ColorView::Red))) by {
            law_outputs_show_their_text(output@, Seq::empty(), tb, Map::empty());
        }
    }
    match text_of_output(output) {
        None => {
            let r: Vec<Line> = Vec::new();
            assert(views(r@) =~= Seq::<LineView>::empty());
            r
        },
        Some((t, style)) => {
            proof {
                reveal_strlit("\r");
                if is_clean(t@) {
                    lemma_clean_stays(t@);
                    lemma_clean_lines(t@, style@);
                }
            }
            let shown = text::replace(t.as_str(), "\r", "");
            let parsed = parse_ansi(shown.as_str());
            lines_of_parsed(&parsed, shown.as_str(), &style)
        },
    }
}

} // verus!
