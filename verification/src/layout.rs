//! The notebook as rows of the screen: prompts, wrapped sources and outputs,
//! and what each row belongs to.

use vstd::prelude::*;

use crate::app::{Hit, HitKind};
use crate::notebook::Cell;
#[allow(unused_imports)]
use crate::notebook::CellView;
use crate::nvim::{Backend, ModeKind};
#[allow(unused_imports)]
use crate::nvim::BackendView;
use crate::pictures::InlineImage;
#[allow(unused_imports)]
use crate::pictures::ImageView;
use crate::style;
use crate::style::{Color, Line, Span, Style, BOLD, REVERSED};
#[allow(unused_imports)]
use crate::style::{ColorView, LineView, SpanView, StyleView};
use crate::text;
#[allow(unused_imports)]
use crate::text::{decimal, signed_decimal, views};
use crate::ui;
use crate::ui::CellBlock;
#[allow(unused_imports)]
use crate::ui::{at_most, latex_raw, BlockView};
use crate::wrap;
#[allow(unused_imports)]
use crate::wrap::{row_starts, wrapped};

verus! {

// ---------------------------------------------------------------------------
// Prompts
// ---------------------------------------------------------------------------

/// A number of two digits at least.
pub open spec fn two_digits(n: int) -> Seq<char> {
    if n < 10 {
        "0"@ + decimal(n)
    } else {
        decimal(n)
    }
}

/// A number of tenths with one decimal.
pub open spec fn tenths_text(tenths: int) -> Seq<char> {
    decimal(tenths / 10) + "."@ + decimal(tenths % 10)
}

/// What `{:.1}` prints of the seconds in a duration of whole milliseconds.
pub uninterp spec fn seconds_text(ms: u64) -> Seq<char>;

/// `format!("{:.1}")` of `Duration::as_secs_f64`: the nearest tenth. Half-way
/// between two tenths it is one of them, as the seconds round in binary; which
/// one is not stated.
#[verifier::external_body]
fn seconds_string(ms: u64) -> (r: String)
    requires
        ms < 60000,
    ensures
        r@ == seconds_text(ms),
        ms % 100 != 50 ==> r@ == tenths_text((ms as int + 50) / 100),
        ms % 100 == 50 ==> r@ == tenths_text(ms as int / 100) || r@ == tenths_text(
            ms as int / 100 + 1,
        ),
{
    format!("{:.1}", std::time::Duration::from_millis(ms).as_secs_f64())
}

/// A duration in milliseconds: `820ms`, `1.5s` (to the nearest tenth), `2m05s`.
pub open spec fn duration_text(ms: u64) -> Seq<char> {
    if ms < 1000 {
        decimal(ms as int) + "ms"@
    } else if ms < 60000 {
        seconds_text(ms) + "s"@
    } else {
        let s = ms as int / 1000;
        decimal(s / 60) + "m"@ + two_digits(s % 60) + "s"@
    }
}

pub fn fmt_duration(ms: u64) -> (r: String)
    ensures
        r@ == duration_text(ms),
        1000 <= ms < 60000 && ms % 100 != 50 ==> r@ == tenths_text((ms as int + 50) / 100) + "s"@,
{
    if ms < 1000 {
        text::concat(text::decimal_string(ms).as_str(), "ms")
    } else if ms < 60000 {
        text::concat(seconds_string(ms).as_str(), "s")
    } else {
        let secs = ms / 1000;
        let mut s = text::decimal_string(secs / 60);
        s.append("m");
        let rest = secs % 60;
        if rest < 10 {
            s.append(text::concat("0", text::decimal_string(rest).as_str()).as_str());
        } else {
            s.append(text::decimal_string(rest).as_str());
        }
        s.append("s");
        s
    }
}

/// What stands at a cell's prompt. `run`: None = idle, Some(false) = queued,
/// Some(true) = executing.
pub open spec fn prompt_label(c: CellView, run: Option<bool>) -> Seq<char> {
    if c.is_code() {
        match run {
            Some(true) => "In [*]:"@,
            Some(false) => "In [·]:"@,
            None => match c.execution_count() {
                Some(n) => "In ["@ + signed_decimal(n as int) + "]:"@,
                None => "In [ ]:"@,
            },
        }
    } else {
        "["@ + c.cell_type + "]"@
    }
}

pub open spec fn prompt_style(c: CellView, is_selected: bool) -> StyleView {
    let s = StyleView::of(
        if c.is_code() {
            ColorView::Cyan
        } else {
            ColorView::Magenta
        },
    ).with(BOLD);
    if is_selected {
        s.with(REVERSED)
    } else {
        s
    }
}

pub open spec fn marker(is_selected: bool, editing: bool) -> Seq<char> {
    if is_selected {
        if editing {
            "✎ "@
        } else {
            "▶ "@
        }
    } else {
        "  "@
    }
}

/// A cell's prompt line.
pub open spec fn prompted(
    c: CellView,
    is_selected: bool,
    run: Option<bool>,
    editing: bool,
    elapsed: Option<u64>,
) -> LineView {
    let spans = seq![
        SpanView::raw(marker(is_selected, editing)),
        SpanView::styled(prompt_label(c, run), prompt_style(c, is_selected)),
    ];
    LineView::of(
        match elapsed {
            Some(ms) => if run is None {
                spans.push(
                    SpanView::styled(
                        " "@ + duration_text(ms),
                        StyleView::of(ColorView::DarkGray),
                    ),
                )
            } else {
                spans
            },
            None => spans,
        },
    )
}

fn label_of(c: &Cell, run: Option<bool>) -> (r: String)
    ensures
        r@ == prompt_label(c@, run),
{
    if c.is_code() {
        match run {
            Some(true) => "In [*]:".to_owned(),
            Some(false) => "In [·]:".to_owned(),
            None => match c.execution_count() {
                Some(n) => text::concat(
                    text::concat("In [", text::signed_decimal_string(n).as_str()).as_str(),
                    "]:",
                ),
                None => "In [ ]:".to_owned(),
            },
        }
    } else {
        text::concat(text::concat("[", c.cell_type.as_str()).as_str(), "]")
    }
}

/// A cell's prompt line. `run`: None = idle, Some(false) = queued,
/// Some(true) = executing.
pub fn prompt_line(
    cell: &Cell,
    is_selected: bool,
    run: Option<bool>,
    editing: bool,
    elapsed: Option<u64>,
) -> (r: Line)
    ensures
        r@ == prompted(cell@, is_selected, run, editing, elapsed),
{
    let fg = if cell.is_code() {
        Color::Cyan
    } else {
        Color::Magenta
    };
    let style = Style::of(fg).with(BOLD);
    let style = if is_selected {
        style.with(REVERSED)
    } else {
        style
    };
    let mark = if is_selected {
        if editing {
            "✎ ".to_owned()
        } else {
            "▶ ".to_owned()
        }
    } else {
        "  ".to_owned()
    };
    let mut spans: Vec<Span> = Vec::new();
    spans.push(Span::raw(mark));
    spans.push(Span::styled(label_of(cell, run), style));
    assert(views(spans@) =~= seq![
        SpanView::raw(marker(is_selected, editing)),
        SpanView::styled(prompt_label(cell@, run), prompt_style(cell@, is_selected)),
    ]);
    if run.is_none() {
        if let Some(ms) = elapsed {
            let ghost s0 = spans@;
            let t = Span::styled(
                text::concat(" ", fmt_duration(ms).as_str()),
                Style::of(Color::DarkGray),
            );
            spans.push(t);
            assert(views(spans@) =~= views(s0).push(t@));
        }
    }
    Line::of(spans)
}

// ---------------------------------------------------------------------------
// Visual selections
// ---------------------------------------------------------------------------

/// Whether a position comes before another, or is it.
pub open spec fn not_after(a: (usize, usize), b: (usize, usize)) -> bool {
    a.0 < b.0 || a.0 == b.0 && a.1 <= b.1
}

/// Char-column range (inclusive) of a row's visual selection, if any.
pub open spec fn selection_on(
    kind: ModeKind,
    anchor: (usize, usize),
    cursor: (usize, usize),
    row: usize,
    len: usize,
) -> Option<(usize, usize)> {
    let (lo, hi) = if not_after(anchor, cursor) {
        (anchor, cursor)
    } else {
        (cursor, anchor)
    };
    let eol = if len > 0 {
        (len - 1) as usize
    } else {
        0
    };
    if row < lo.0 || row > hi.0 {
        None
    } else {
        match kind {
            ModeKind::VisualLine => Some((0, eol)),
            ModeKind::VisualBlock => if lo.1 <= hi.1 {
                Some((lo.1, hi.1))
            } else {
                Some((hi.1, lo.1))
            },
            ModeKind::Visual => Some(
                (
                    if row == lo.0 {
                        lo.1
                    } else {
                        0
                    },
                    if row == hi.0 {
                        hi.1
                    } else {
                        eol
                    },
                ),
            ),
            _ => None,
        }
    }
}

/// Char-column range (inclusive) of `row`'s visual selection, if any.
/// Anchor/cursor are (row, col) in chars; vim selections include the cursor.
pub fn sel_range(
    kind: ModeKind,
    anchor: (usize, usize),
    cursor: (usize, usize),
    row: usize,
    len: usize,
) -> (r: Option<(usize, usize)>)
    ensures
        r == selection_on(kind, anchor, cursor, row, len),
{
    let before = anchor.0 < cursor.0 || anchor.0 == cursor.0 && anchor.1 <= cursor.1;
    let (lo, hi) = if before {
        (anchor, cursor)
    } else {
        (cursor, anchor)
    };
    if row < lo.0 || row > hi.0 {
        return None;
    }
    let eol = len.saturating_sub(1);
    match kind {
        ModeKind::VisualLine => Some((0, eol)),
        ModeKind::VisualBlock => if lo.1 <= hi.1 {
            Some((lo.1, hi.1))
        } else {
            Some((hi.1, lo.1))
        },
        ModeKind::Visual => {
            let from = if row == lo.0 {
                lo.1
            } else {
                0
            };
            let to = if row == hi.0 {
                hi.1
            } else {
                eol
            };
            Some((from, to))
        },
        _ => None,
    }
}

/// The selection is the same whichever end is the anchor.
pub proof fn law_selections_have_no_direction(
    kind: ModeKind,
    a: (usize, usize),
    b: (usize, usize),
    row: usize,
    len: usize,
)
    ensures
        selection_on(kind, a, b, row, len) == selection_on(kind, b, a, row, len),
{
}

// ---------------------------------------------------------------------------
// Rows
// ---------------------------------------------------------------------------

/// A row of the screen, and what it belongs to.
pub struct ScreenRow {
    pub line: Line,
    pub hit: Hit,
}

#[verifier::ext_equal]
pub struct RowOf {
    pub line: LineView,
    pub hit: Hit,
}

impl View for ScreenRow {
    type V = RowOf;

    open spec fn view(&self) -> RowOf {
        RowOf { line: self.line@, hit: self.hit }
    }
}

/// The columns that pictures on a line take.
pub open spec fn held_on(images: Seq<ImageView>, line: int) -> Seq<(usize, usize)>
    decreases images.len(),
{
    if images.len() == 0 {
        Seq::empty()
    } else {
        let before = held_on(images.drop_last(), line);
        if images.last().line == line {
            before.push((images.last().col as usize, images.last().cols as usize))
        } else {
            before
        }
    }
}

/// The kind of a row that starts at a column.
pub open spec fn kind_at(base: HitKind, col: usize) -> HitKind {
    match base {
        HitKind::Source { line, col: _ } => HitKind::Source { line, col },
        k => k,
    }
}

pub open spec fn starts_of(line: LineView, held: Seq<(usize, usize)>, w: int) -> Seq<usize> {
    row_starts(line.text(), held, w, 0)
}

/// The rows of a line.
pub open spec fn line_rows(
    cell: usize,
    line: LineView,
    held: Seq<(usize, usize)>,
    base: HitKind,
    w: int,
) -> Seq<RowOf> {
    let starts = starts_of(line, held, w);
    Seq::new(
        starts.len(),
        |k: int|
            RowOf {
                line: wrapped(line, starts)[k],
                hit: Hit { cell, kind: kind_at(base, starts[k]) },
            },
    )
}

/// A cell's source as shown: the rendered block, or the lines being edited.
pub struct Shown {
    pub cell: CellView,
    pub block: BlockView,
    pub edit: Option<Seq<LineView>>,
}

impl Shown {
    pub open spec fn src_count(self) -> int {
        match self.edit {
            Some(l) => l.len() as int,
            None => self.block.src_lines,
        }
    }

    pub open spec fn src_line(self, k: int) -> LineView {
        match self.edit {
            Some(l) => l[k],
            None => self.block.lines[k],
        }
    }

    pub open spec fn src_held(self, k: int) -> Seq<(usize, usize)> {
        match self.edit {
            Some(_) => Seq::empty(),
            None => held_on(self.block.images, k),
        }
    }

    pub open spec fn src_kind(self, k: int) -> HitKind {
        if self.edit is Some || self.cell.cell_type != "markdown"@ && !latex_raw(self.cell) {
            HitKind::Source { line: k as usize, col: 0 }
        } else if 0 <= k < self.block.src_map.len() {
            // rendered markdown row -> raw source line
            HitKind::Source { line: self.block.src_map[k], col: 0 }
        } else {
            // latex raw: no per-row mapping
            HitKind::Other
        }
    }

    /// The rows of the first `n` source lines.
    pub open spec fn src_rows(self, i: usize, w: int, n: int) -> Seq<RowOf>
        decreases n,
    {
        if n <= 0 {
            Seq::empty()
        } else {
            self.src_rows(i, w, n - 1) + line_rows(
                i,
                self.src_line(n - 1),
                self.src_held(n - 1),
                self.src_kind(n - 1),
                w,
            )
        }
    }

    /// The rows of `n` output lines from line `first` on.
    pub open spec fn out_rows(self, i: usize, w: int, first: int, n: int) -> Seq<RowOf>
        decreases n,
    {
        if n <= 0 {
            Seq::empty()
        } else {
            let k = self.block.src_lines + first + n - 1;
            self.out_rows(i, w, first, n - 1) + line_rows(
                i,
                self.block.lines[k],
                held_on(self.block.images, k),
                HitKind::Output,
                w,
            )
        }
    }

    /// What stands below a clipped or hidden output.
    pub open spec fn footer(self) -> Seq<char> {
        let (first, shown, _) = self.block.window();
        if self.block.collapsed {
            "··· "@ + decimal(self.block.out_len()) + " output lines hidden (o) ···"@
        } else {
            "··· output "@ + decimal(at_most(first + 1, usize::MAX as int)) + "–"@ + decimal(
                first + shown,
            ) + " of "@ + decimal(self.block.out_len()) + " · [ ] or wheel scrolls, o hides ···"@
        }
    }

    pub open spec fn footer_rows(self, i: usize) -> Seq<RowOf> {
        if self.block.window().2 {
            seq![
                RowOf {
                    line: LineView::styled(self.footer(), StyleView::of(ColorView::DarkGray)),
                    hit: Hit { cell: i, kind: HitKind::Output },
                },
            ]
        } else {
            Seq::empty()
        }
    }

    /// The rows of a cell: prompt, source, the output's window, separator.
    pub open spec fn rows(self, i: usize, prompt: LineView, w: int) -> Seq<RowOf> {
        let (first, shown, _) = self.block.window();
        seq![RowOf { line: prompt, hit: Hit { cell: i, kind: HitKind::Other } }] + self.src_rows(
            i,
            w,
            self.src_count(),
        ) + self.out_rows(i, w, first, shown) + self.footer_rows(i) + seq![
            RowOf {
                line: LineView::raw(Seq::empty()),
                hit: Hit { cell: i, kind: HitKind::Other },
            },
        ]
    }
}

/// The columns that pictures on a line take.
pub fn held_columns(images: &Vec<InlineImage>, line: usize) -> (r: Vec<(usize, usize)>)
    ensures
        r@ == held_on(views(images@), line as int),
{
    let ghost all = views(images@);
    let mut r: Vec<(usize, usize)> = Vec::new();
    let mut i: usize = 0;
    assert(all.take(0) =~= Seq::<ImageView>::empty());
    assert(r@ =~= Seq::empty());
    while i < images.len()
        invariant
            i <= images@.len(),
            all == views(images@),
            r@ == held_on(all.take(i as int), line as int),
        decreases images@.len() - i,
    {
        assert(all.take(i + 1).drop_last() =~= all.take(i as int));
        assert(all.take(i + 1).last() == images@[i as int]@);
        if images[i].line == line {
            r.push((images[i].col as usize, images[i].cols as usize));
        }
        i += 1;
    }
    assert(all.take(i as int) =~= all);
    r
}

/// Where the rows of a line start.
pub fn line_starts(line: &Line, held: &Vec<(usize, usize)>, w: usize) -> (r: Vec<usize>)
    requires
        w >= 1,
    ensures
        r@ == starts_of(line@, held@, w as int),
        r@.len() >= 1,
{
    let chars = text::chars_of(line.text().as_str());
    wrap::wrap_starts(&chars, held, w)
}

fn push_line(
    rows: &mut Vec<ScreenRow>,
    cell: usize,
    line: &Line,
    held: &Vec<(usize, usize)>,
    base: HitKind,
    w: usize,
)
    requires
        w >= 1,
    ensures
        views(final(rows)@) == views(old(rows)@) + line_rows(cell, line@, held@, base, w as int),
{
    let starts = line_starts(line, held, w);
    let _ = style::line_chars(line);
    let lines = wrap::wrap_line(line, &starts);
    let ghost want = line_rows(cell, line@, held@, base, w as int);
    let ghost r0 = views(rows@);
    assert(lines@.len() == views(lines@).len());
    let mut lines = lines;
    let mut k: usize = 0;
    let ghost all = views(lines@);
    assert(r0 + want.take(0) =~= r0);
    while k < starts.len()
        invariant
            k <= starts@.len(),
            all.len() == starts@.len(),
            lines@.len() == all.len(),
            starts@ == starts_of(line@, held@, w as int),
            all == wrapped(line@, starts@),
            all == views(lines@),
            want == line_rows(cell, line@, held@, base, w as int),
            views(rows@) == r0 + want.take(k as int),
        decreases starts@.len() - k,
    {
        let kind = match base {
            HitKind::Source { line: l, col: _ } => HitKind::Source { line: l, col: starts[k] },
            other => other,
        };
        let row = ScreenRow { line: lines[k].duplicate(), hit: Hit { cell, kind } };
        assert(row@ == want[k as int]);
        let ghost v0 = rows@;
        rows.push(row);
        assert(views(rows@) =~= views(v0).push(row@));
        assert(r0 + want.take(k + 1) =~= (r0 + want.take(k as int)).push(want[k as int]));
        k += 1;
    }
    assert(want.take(k as int) =~= want);
}

/// The model of a cell as shown.
pub open spec fn shown_of(cell: &Cell, block: &CellBlock, edit: &Option<Vec<Line>>) -> Shown {
    Shown {
        cell: cell@,
        block: block@,
        edit: match *edit {
            Some(v) => Some(views(v@)),
            None => None,
        },
    }
}

fn source_kind(cell: &Cell, block: &CellBlock, edit: &Option<Vec<Line>>, k: usize) -> (r: HitKind)
    ensures
        r == shown_of(cell, block, edit).src_kind(k as int),
{
    if edit.is_some() || !text::same(cell.cell_type.as_str(), "markdown") && !ui::is_latex_raw(
        cell,
    ) {
        HitKind::Source { line: k, col: 0 }
    } else if k < block.src_map.len() {
        HitKind::Source { line: block.src_map[k], col: 0 }
    } else {
        HitKind::Other
    }
}

fn push_source(
    rows: &mut Vec<ScreenRow>,
    i: usize,
    cell: &Cell,
    block: &CellBlock,
    edit: &Option<Vec<Line>>,
    w: usize,
)
    requires
        w >= 1,
        block@.wf(),
    ensures
        ({
            let s = shown_of(cell, block, edit);
            views(final(rows)@) == views(old(rows)@) + s.src_rows(i, w as int, s.src_count())
        }),
{
    let ghost s = shown_of(cell, block, edit);
    let ghost r0 = views(rows@);
    let n = match edit {
        Some(l) => l.len(),
        None => block.src_lines,
    };
    let mut k: usize = 0;
    assert(r0 + s.src_rows(i, w as int, 0) =~= r0);
    while k < n
        invariant
            k <= n,
            w >= 1,
            block@.wf(),
            s == shown_of(cell, block, edit),
            n == s.src_count(),
            views(rows@) == r0 + s.src_rows(i, w as int, k as int),
        decreases n - k,
    {
        let base = source_kind(cell, block, edit, k);
        let ghost before = s.src_rows(i, w as int, k as int);
        match edit {
            Some(l) => {
                let none: Vec<(usize, usize)> = Vec::new();
                assert(none@ =~= s.src_held(k as int));
                assert(l@[k as int]@ == s.src_line(k as int));
                push_line(rows, i, &l[k], &none, base, w);
            },
            None => {
                let held = held_columns(&block.images, k);
                assert(block.lines@[k as int]@ == s.src_line(k as int));
                push_line(rows, i, &block.lines[k], &held, base, w);
            },
        }
        assert(views(rows@) =~= r0 + s.src_rows(i, w as int, k + 1));
        k += 1;
    }
}

fn push_output(
    rows: &mut Vec<ScreenRow>,
    i: usize,
    cell: &Cell,
    block: &CellBlock,
    edit: &Option<Vec<Line>>,
    w: usize,
    first: usize,
    n: usize,
)
    requires
        w >= 1,
        block@.wf(),
        first + n <= block@.out_len(),
    ensures
        views(final(rows)@) == views(old(rows)@) + shown_of(cell, block, edit).out_rows(
            i,
            w as int,
            first as int,
            n as int,
        ),
{
    let ghost s = shown_of(cell, block, edit);
    let ghost r0 = views(rows@);
    let mut k: usize = 0;
    assert(r0 + s.out_rows(i, w as int, first as int, 0) =~= r0);
    while k < n
        invariant
            k <= n,
            w >= 1,
            block@.wf(),
            first + n <= block@.out_len(),
            s == shown_of(cell, block, edit),
            views(rows@) == r0 + s.out_rows(i, w as int, first as int, k as int),
        decreases n - k,
    {
        let total = block.lines.len();
        assert(total == block@.lines.len());
        let at = block.src_lines + first + k;
        let held = held_columns(&block.images, at);
        assert(block.lines@[at as int]@ == s.block.lines[at as int]);
        push_line(rows, i, &block.lines[at], &held, HitKind::Output, w);
        assert(views(rows@) =~= r0 + s.out_rows(i, w as int, first as int, k + 1));
        k += 1;
    }
}

fn footer_text(block: &CellBlock, Ghost(s): Ghost<Shown>) -> (r: String)
    requires
        s.block == block@,
        block@.wf(),
    ensures
        r@ == s.footer(),
{
    let (first, shown, _) = block.window();
    if block.collapsed {
        let mut t = "··· ".to_owned();
        t.append(text::usize_string(block.out_len()).as_str());
        t.append(" output lines hidden (o) ···");
        t
    } else {
        let mut t = "··· output ".to_owned();
        let out = block.out_len();
        t.append(text::usize_string(first.saturating_add(1)).as_str());
        t.append("–");
        t.append(text::usize_string(first + shown).as_str());
        t.append(" of ");
        t.append(text::usize_string(out).as_str());
        t.append(" · [ ] or wheel scrolls, o hides ···");
        t
    }
}

/// Adds the rows of a cell.
pub fn push_cell(
    rows: &mut Vec<ScreenRow>,
    i: usize,
    cell: &Cell,
    block: &CellBlock,
    edit: &Option<Vec<Line>>,
    prompt: Line,
    w: usize,
)
    requires
        w >= 1,
        block@.wf(),
    ensures
        views(final(rows)@) == views(old(rows)@) + shown_of(cell, block, edit).rows(
            i,
            prompt@,
            w as int,
        ),
{
    let ghost s = shown_of(cell, block, edit);
    let ghost r0 = views(rows@);
    let head = ScreenRow { line: prompt, hit: Hit { cell: i, kind: HitKind::Other } };
    let ghost v = rows@;
    rows.push(head);
    assert(views(rows@) =~= r0 + seq![head@]);
    push_source(rows, i, cell, block, edit, w);
    let (first, shown, footer) = block.window();
    push_output(rows, i, cell, block, edit, w, first, shown);
    let ghost r1 = views(rows@);
    if footer {
        let line = Line::styled(footer_text(block, Ghost(s)), Style::of(Color::DarkGray));
        let row = ScreenRow { line, hit: Hit { cell: i, kind: HitKind::Output } };
        rows.push(row);
        assert(views(rows@) =~= r1 + seq![row@]);
    } else {
        assert(views(rows@) =~= r1 + Seq::<RowOf>::empty());
    }
    assert(views(rows@) == r1 + s.footer_rows(i));
    let ghost r2 = views(rows@);
    let end = ScreenRow { line: Line::empty(), hit: Hit { cell: i, kind: HitKind::Other } };
    rows.push(end);
    assert(views(rows@) =~= r2 + seq![end@]);
    assert(views(rows@) =~= r0 + s.rows(i, head.line@, w as int));
}

// ---------------------------------------------------------------------------
// Lines being edited
// ---------------------------------------------------------------------------

/// A highlighted line with the visual selection on it.
pub open spec fn with_selection(
    line: LineView,
    visual: Option<(ModeKind, (usize, usize), (usize, usize))>,
    row: usize,
) -> LineView {
    match visual {
        Some((kind, anchor, cursor)) => match selection_on(
            kind,
            anchor,
            cursor,
            row,
            line.text().len() as usize,
        ) {
            Some((from, to)) => if from <= to + 1 {
                line.selected(from as int, to as int)
            } else {
                line
            },
            None => line,
        },
        None => line,
    }
}

/// The lines of the cell being edited, live from the editor, highlighted.
pub open spec fn edit_lines(e: BackendView, highlit: Seq<LineView>) -> Seq<LineView> {
    Seq::new(
        e.line_count() as nat,
        |k: int|
            with_selection(
                if k < highlit.len() {
                    highlit[k]
                } else {
                    LineView::raw(Seq::empty())
                },
                e.visual(),
                k as usize,
            ),
    )
}

fn select_in(
    line: Line,
    visual: Option<(ModeKind, (usize, usize), (usize, usize))>,
    row: usize,
) -> (r: Line)
    ensures
        r@ == with_selection(line@, visual, row),
{
    let mut line = line;
    if let Some((kind, anchor, cursor)) = visual {
        let n = style::line_chars(&line);
        if let Some((from, to)) = sel_range(kind, anchor, cursor, row, n) {
            if from <= to || from - to <= 1 {
                style::overlay_reversed(&mut line, from, to);
            }
        }
    }
    line
}

/// The lines of the cell being edited, live from the editor, highlighted.
pub fn editing_lines(e: &Backend, highlit: &Vec<Line>) -> (r: Vec<Line>)
    ensures
        views(r@) == edit_lines(e@, views(highlit@)),
{
    let ghost want = edit_lines(e@, views(highlit@));
    let visual = e.visual();
    let n = e.line_count();
    let mut r: Vec<Line> = Vec::new();
    let mut k: usize = 0;
    while k < n
        invariant
            k <= n,
            n == e@.line_count(),
            visual == e@.visual(),
            want == edit_lines(e@, views(highlit@)),
            r@.len() == k,
            forall|j: int| 0 <= j < k ==> (#[trigger] r@[j])@ == want[j],
        decreases n - k,
    {
        let line = if k < highlit.len() {
            highlit[k].duplicate()
        } else {
            Line::empty()
        };
        r.push(select_in(line, visual, k));
        k += 1;
    }
    assert(views(r@) =~= want);
    r
}

} // verus!
