//! A frame of the screen: the rows in view, the pictures on them, the cursor
//! and the status line.

use vstd::prelude::*;

#[allow(unused_imports)]
use crate::app::{state, AppView, Hit, ScreenView, State};
use crate::app::{App, PromptKind};
use crate::ids::IdMap;
#[allow(unused_imports)]
use crate::ids::value_of;
#[allow(unused_imports)]
use crate::highlight::highlighted;
use crate::keys::Rect;
use crate::layout;
use crate::layout::ScreenRow;
#[allow(unused_imports)]
use crate::layout::{edit_lines, held_on, prompted, shown_of, starts_of, RowOf, Shown};
use crate::notebook::Cell;
use crate::nvim::ModeKind;
#[allow(unused_imports)]
use crate::nvim::BackendView;
use crate::style::{Color, Line, Span, Style, BOLD};
#[allow(unused_imports)]
use crate::style::{ColorView, LineView, SpanView, StyleView};
use crate::text;
#[allow(unused_imports)]
use crate::text::{decimal, opt_view, views};
use crate::ui;
use crate::ui::{CellBlock, Rendered};
#[allow(unused_imports)]
use crate::ui::cell_language;
use crate::wrap;
#[allow(unused_imports)]
use crate::wrap::row_of;

verus! {

// ---------------------------------------------------------------------------
// Rows
// ---------------------------------------------------------------------------

/// Whether a cell runs: None = idle, Some(false) = queued, Some(true) =
/// executing.
pub open spec fn run_of(
    running: Seq<(Seq<char>, usize)>,
    started: Seq<(Seq<char>, u64)>,
    cell: int,
) -> Option<bool>
    decreases running.len(),
{
    if running.len() == 0 {
        None
    } else if running[0].1 == cell {
        Some(value_of(started, running[0].0) is Some)
    } else {
        run_of(running.skip(1), started, cell)
    }
}

impl State {
    pub open spec fn edits(self, i: int) -> bool {
        self.app.editor is Some && i == self.app.selected
    }

    /// The lines of the cell being edited.
    pub open spec fn live_lines(self) -> Seq<LineView> {
        match (self.app.editor, self.app.current()) {
            (Some(e), Some(c)) => edit_lines(
                e,
                highlighted(
                    self.ui.look.theme,
                    cell_language(c, self.ui.look.language),
                    e.source(),
                ),
            ),
            _ => Seq::empty(),
        }
    }

    pub open spec fn shown(self, i: int) -> Shown {
        Shown {
            cell: self.app.notebook.cells[i],
            block: self.ui.blocks[i],
            edit: if self.edits(i) {
                Some(self.live_lines())
            } else {
                None
            },
        }
    }

    pub open spec fn prompt_of(self, i: int) -> LineView {
        prompted(
            self.app.notebook.cells[i],
            i == self.app.selected,
            run_of(self.app.run.running, self.app.run.started, i),
            self.edits(i),
            self.ui.blocks[i].elapsed,
        )
    }

    pub open spec fn cell_rows(self, i: int, w: int) -> Seq<RowOf> {
        self.shown(i).rows(i as usize, self.prompt_of(i), w)
    }

    /// The rows of the first `n` cells.
    pub open spec fn rows_before(self, n: int, w: int) -> Seq<RowOf>
        decreases n,
    {
        if n <= 0 {
            Seq::empty()
        } else {
            self.rows_before(n - 1, w) + self.cell_rows(n - 1, w)
        }
    }

    /// All rows of the notebook.
    pub open spec fn all_rows(self, w: int) -> Seq<RowOf> {
        self.rows_before(self.app.notebook.cells.len() as int, w)
    }

    /// The row that a cell starts on.
    pub open spec fn start_of(self, i: int, w: int) -> int {
        self.rows_before(i, w).len() as int
    }
}

fn run_state(running: &IdMap<usize>, started: &IdMap<u64>, cell: usize) -> (r: Option<bool>)
    ensures
        r == run_of(running@, started@, cell as int),
{
    let ghost all = running@;
    let n = running.len();
    let mut i: usize = 0;
    assert(all.skip(0) =~= all);
    while i < n
        invariant
            i <= n,
            n == running@.len(),
            all == running@,
            run_of(all, started@, cell as int) == run_of(
                all.skip(i as int),
                started@,
                cell as int,
            ),
        decreases n - i,
    {
        let (id, at) = running.entry(i);
        assert(all.skip(i as int)[0] == (id@, at));
        assert(all.skip(i as int).skip(1) =~= all.skip(i + 1));
        if at == cell {
            return Some(started.contains_key(id.as_str()));
        }
        i += 1;
    }
    assert(all.skip(i as int) =~= Seq::empty());
    None
}

impl App {
    /// The lines of the cell being edited, if one is.
    fn live(&self, rendered: &Rendered) -> (r: Option<Vec<Line>>)
        ensures
            match r {
                Some(v) => self@.editor is Some && views(v@) == state(self, rendered).live_lines(),
                None => self@.editor is None,
            },
    {
        match &self.editor {
            None => None,
            Some(e) => {
                if self.selected >= self.notebook.cells.len() {
                    let none: Vec<Line> = Vec::new();
                    assert(views(none@) =~= Seq::<LineView>::empty());
                    return Some(none);
                }
                let c = &self.notebook.cells[self.selected];
                assert(self@.current() == Some(c@));
                let lang = ui::cell_ext(c, rendered.language.as_str());
                let h = rendered.highlight(e.source().as_str(), lang.as_str());
                Some(layout::editing_lines(e, &h))
            },
        }
    }

    /// All rows of the notebook, and where each cell starts.
    fn rows(&self, rendered: &Rendered, live: &Option<Vec<Line>>, w: usize) -> (r: (
        Vec<ScreenRow>,
        Vec<usize>,
    ))
        requires
            state(self, rendered).wf(),
            w >= 1,
            match *live {
                Some(v) => self@.editor is Some && views(v@) == state(self, rendered).live_lines(),
                None => self@.editor is None,
            },
        ensures
            views(r.0@) == state(self, rendered).all_rows(w as int),
            r.1@.len() == self@.notebook.cells.len(),
            forall|k: int|
                0 <= k < r.1@.len() ==> #[trigger] r.1@[k] == state(self, rendered).start_of(
                    k,
                    w as int,
                ),
    {
        let ghost s = state(self, rendered);
        let n = self.notebook.cells.len();
        let none: Option<Vec<Line>> = None;
        let mut rows: Vec<ScreenRow> = Vec::new();
        let mut starts: Vec<usize> = Vec::new();
        let mut i: usize = 0;
        assert(views(rows@) =~= Seq::<RowOf>::empty());
        while i < n
            invariant
                i <= n,
                w >= 1,
                s == state(self, rendered),
                s.wf(),
                n == self.notebook.cells@.len(),
                none is None,
                match *live {
                    Some(v) => self@.editor is Some && views(v@) == s.live_lines(),
                    None => self@.editor is None,
                },
                views(rows@) == s.rows_before(i as int, w as int),
                starts@.len() == i,
                forall|k: int|
                    0 <= k < i ==> #[trigger] starts@[k] == s.start_of(k, w as int),
            decreases n - i,
        {
            assert(rows@.len() == views(rows@).len());
            starts.push(rows.len());
            self.push_cell(rendered, live, i, w, &mut rows);
            i += 1;
        }
        (rows, starts)
    }

    fn push_cell(
        &self,
        rendered: &Rendered,
        live: &Option<Vec<Line>>,
        i: usize,
        w: usize,
        rows: &mut Vec<ScreenRow>,
    )
        requires
            state(self, rendered).wf(),
            w >= 1,
            i < self.notebook.cells@.len(),
            match *live {
                Some(v) => self@.editor is Some && views(v@) == state(self, rendered).live_lines(),
                None => self@.editor is None,
            },
        ensures
            views(final(rows)@) == views(old(rows)@) + state(self, rendered).cell_rows(
                i as int,
                w as int,
            ),
    {
        let ghost s = state(self, rendered);
        assert(rendered.blocks@.len() == rendered@.blocks.len());
        let cell = &self.notebook.cells[i];
        let block = &rendered.blocks[i];
        assert(s.app.notebook.cells[i as int] == cell@);
        assert(s.ui.blocks[i as int] == block@);
        assert(s.ui.blocks[i as int].wf());
        let run = run_state(&self.running, &self.started, i);
        let editing = self.editor.is_some() && i == self.selected;
        let prompt = layout::prompt_line(cell, i == self.selected, run, editing, block.elapsed);
        if editing {
            assert(shown_of(cell, block, live) == s.shown(i as int));
            layout::push_cell(rows, i, cell, block, live, prompt, w);
        } else {
            let none: Option<Vec<Line>> = None;
            assert(shown_of(cell, block, &none) == s.shown(i as int));
            layout::push_cell(rows, i, cell, block, &none, prompt, w);
        }
    }
}

// ---------------------------------------------------------------------------
// What is in view
// ---------------------------------------------------------------------------

impl State {
    /// Where the cursor is: the row below its cell's prompt, and the column.
    pub open spec fn cursor_at(self, w: int) -> (int, int) {
        match self.app.editor {
            None => (0, 0),
            Some(e) => {
                let sh = self.shown(self.app.selected);
                let n = sh.src_count();
                let i = self.app.selected as usize;
                if e.row() < n {
                    let starts = starts_of(sh.src_line(e.row()), Seq::empty(), w);
                    let r = row_of(starts, e.col());
                    (sh.src_rows(i, w, e.row()).len() + r, e.col() - starts[r])
                } else {
                    (sh.src_rows(i, w, n).len() as int, e.col())
                }
            },
        }
    }

    /// The first row in view: the selection stays visible (the cursor's row
    /// when editing, else the whole cell), unless the user wheel-scrolled
    /// away; then the content bounds it.
    pub open spec fn scroll_for(self, w: int, height: int) -> int {
        let total = self.all_rows(w).len() as int;
        let scroll = self.app.screen.scroll as int;
        if self.app.screen.manual_scroll || self.app.notebook.cells.len() == 0 {
            let max = if total > 0 {
                total - 1
            } else {
                0
            };
            if scroll <= max {
                scroll
            } else {
                max
            }
        } else {
            let start = self.start_of(self.app.selected, w);
            let (first, end) = if self.app.editor is Some {
                let cur = start + 1 + self.cursor_at(w).0;
                (cur, cur + 1)
            } else {
                (start, start + self.cell_rows(self.app.selected, w).len() - 1)
            };
            let down = if end > scroll + height {
                end - height
            } else {
                scroll
            };
            if first < down {
                first
            } else {
                down
            }
        }
    }
}

/// The rows of the first source lines are no more than those of all.
pub proof fn lemma_src_rows_grow(sh: Shown, i: usize, w: int, k: int, n: int)
    requires
        k <= n,
    ensures
        sh.src_rows(i, w, k).len() <= sh.src_rows(i, w, n).len(),
    decreases n - k,
{
    if k < n {
        lemma_src_rows_grow(sh, i, w, k, n - 1);
    }
}

pub proof fn lemma_out_rows_grow(sh: Shown, i: usize, w: int, first: int, k: int, n: int)
    requires
        k <= n,
    ensures
        sh.out_rows(i, w, first, k).len() <= sh.out_rows(i, w, first, n).len(),
    decreases n - k,
{
    if k < n {
        lemma_out_rows_grow(sh, i, w, first, k, n - 1);
    }
}

/// The rows before a cell and its own are among all rows.
pub proof fn lemma_cell_inside(s: State, w: int, i: int, n: int)
    requires
        0 <= i < n,
    ensures
        s.start_of(i, w) + s.cell_rows(i, w).len() <= s.rows_before(n, w).len(),
    decreases n - i,
{
    if i < n - 1 {
        lemma_cell_inside(s, w, i, n - 1);
    }
}

/// Number of rows of the first source lines.
fn count_source(
    i: usize,
    cell: &Cell,
    block: &CellBlock,
    edit: &Option<Vec<Line>>,
    w: usize,
    n: usize,
) -> (r: usize)
    requires
        w >= 1,
        block@.wf(),
        n <= shown_of(cell, block, edit).src_count(),
        shown_of(cell, block, edit).src_rows(i, w as int, n as int).len() <= usize::MAX,
    ensures
        r == shown_of(cell, block, edit).src_rows(i, w as int, n as int).len(),
{
    let ghost sh = shown_of(cell, block, edit);
    let mut r: usize = 0;
    let mut k: usize = 0;
    while k < n
        invariant
            k <= n,
            w >= 1,
            block@.wf(),
            sh == shown_of(cell, block, edit),
            n <= sh.src_count(),
            sh.src_rows(i, w as int, n as int).len() <= usize::MAX,
            r == sh.src_rows(i, w as int, k as int).len(),
        decreases n - k,
    {
        let starts = source_starts(cell, block, edit, w, k);
        proof {
            lemma_src_rows_grow(sh, i, w as int, k + 1, n as int);
        }
        r = r + starts.len();
        k += 1;
    }
    r
}

/// Where the rows of a source line start.
fn source_starts(
    cell: &Cell,
    block: &CellBlock,
    edit: &Option<Vec<Line>>,
    w: usize,
    k: usize,
) -> (r: Vec<usize>)
    requires
        w >= 1,
        block@.wf(),
        k < shown_of(cell, block, edit).src_count(),
    ensures
        ({
            let sh = shown_of(cell, block, edit);
            r@ == starts_of(sh.src_line(k as int), sh.src_held(k as int), w as int)
        }),
        r@.len() >= 1,
{
    let ghost sh = shown_of(cell, block, edit);
    match edit {
        Some(l) => {
            let none: Vec<(usize, usize)> = Vec::new();
            assert(none@ =~= sh.src_held(k as int));
            assert(l@[k as int]@ == sh.src_line(k as int));
            layout::line_starts(&l[k], &none, w)
        },
        None => {
            let held = layout::held_columns(&block.images, k);
            assert(block.lines@[k as int]@ == sh.src_line(k as int));
            layout::line_starts(&block.lines[k], &held, w)
        },
    }
}

/// Number of rows of the first output lines in view.
fn count_output(
    i: usize,
    cell: &Cell,
    block: &CellBlock,
    edit: &Option<Vec<Line>>,
    w: usize,
    first: usize,
    n: usize,
) -> (r: usize)
    requires
        w >= 1,
        block@.wf(),
        first + n <= block@.out_len(),
        shown_of(cell, block, edit).out_rows(i, w as int, first as int, n as int).len()
            <= usize::MAX,
    ensures
        r == shown_of(cell, block, edit).out_rows(i, w as int, first as int, n as int).len(),
{
    let ghost sh = shown_of(cell, block, edit);
    let mut r: usize = 0;
    let mut k: usize = 0;
    while k < n
        invariant
            k <= n,
            w >= 1,
            block@.wf(),
            first + n <= block@.out_len(),
            sh == shown_of(cell, block, edit),
            sh.out_rows(i, w as int, first as int, n as int).len() <= usize::MAX,
            r == sh.out_rows(i, w as int, first as int, k as int).len(),
        decreases n - k,
    {
        let total = block.lines.len();
        assert(total == block@.lines.len());
        let at = block.src_lines + first + k;
        let starts = output_starts(block, w, at);
        proof {
            lemma_out_rows_grow(sh, i, w as int, first as int, k + 1, n as int);
        }
        r = r + starts.len();
        k += 1;
    }
    r
}

/// Where the rows of a rendered line start.
fn output_starts(block: &CellBlock, w: usize, at: usize) -> (r: Vec<usize>)
    requires
        w >= 1,
        at < block@.lines.len(),
    ensures
        r@ == starts_of(
            block@.lines[at as int],
            held_on(block@.images, at as int),
            w as int,
        ),
        r@.len() >= 1,
{
    let held = layout::held_columns(&block.images, at);
    assert(block.lines@[at as int]@ == block@.lines[at as int]);
    layout::line_starts(&block.lines[at], &held, w)
}

impl App {
    /// Where the cursor is: the row below its cell's prompt, and the column.
    fn cursor_place(&self, rendered: &Rendered, live: &Option<Vec<Line>>, w: usize) -> (r: (
        usize,
        usize,
    ))
        requires
            state(self, rendered).wf(),
            w >= 1,
            self@.editor is Some,
            self@.selected < self@.notebook.cells.len(),
            *live matches Some(v) && views(v@) == state(self, rendered).live_lines(),
            state(self, rendered).cell_rows(self@.selected, w as int).len() <= usize::MAX,
        ensures
            (r.0 as int, r.1 as int) == state(self, rendered).cursor_at(w as int),
            r.0 + 2 <= state(self, rendered).cell_rows(self@.selected, w as int).len(),
    {
        let ghost s = state(self, rendered);
        let i = self.selected;
        assert(rendered.blocks@.len() == rendered@.blocks.len());
        let cell = &self.notebook.cells[i];
        let block = &rendered.blocks[i];
        assert(s.app.notebook.cells[i as int] == cell@);
        assert(s.ui.blocks[i as int] == block@);
        assert(s.ui.blocks[i as int].wf());
        let ghost sh = s.shown(i as int);
        assert(shown_of(cell, block, live) == sh);
        let (row, col) = match &self.editor {
            Some(e) => e.cursor(),
            None => (0, 0),
        };
        let n = match live {
            Some(v) => v.len(),
            None => 0,
        };
        assert(n == sh.src_count());
        proof {
            lemma_parts_inside(s, i as int, w as int);
        }
        if row < n {
            proof {
                lemma_src_rows_grow(sh, i, w as int, row as int, n as int);
                lemma_src_rows_grow(sh, i, w as int, row + 1, n as int);
            }
            let before = count_source(i, cell, block, live, w, row);
            let starts = source_starts(cell, block, live, w, row);
            let r = wrap::find_row(&starts, col);
            proof {
                lemma_starts(sh.src_line(row as int), sh.src_held(row as int), w as int);
                lemma_row_of(starts@, col as int);
                assert(sh.src_held(row as int) =~= Seq::<(usize, usize)>::empty());
            }
            assert(sh.src_rows(i, w as int, row + 1).len() == before + starts@.len());
            (before + r, col - starts[r])
        } else {
            let before = count_source(i, cell, block, live, w, n);
            (before, col)
        }
    }
}

// ---------------------------------------------------------------------------
// Pictures
// ---------------------------------------------------------------------------

/// A picture on the screen: which one, the area that clips it, and where its
/// upper left corner is in that area.
pub struct Placement {
    pub cell: usize,
    pub image: usize,
    pub area: Rect,
    pub x: u16,
    pub y: i32,
}

pub struct PlacementView {
    pub cell: int,
    pub image: int,
    pub area: Rect,
    pub x: int,
    pub y: int,
}

impl View for Placement {
    type V = PlacementView;

    open spec fn view(&self) -> PlacementView {
        PlacementView {
            cell: self.cell as int,
            image: self.image as int,
            area: self.area,
            x: self.x as int,
            y: self.y as int,
        }
    }
}

impl Shown {
    /// An output picture: clipped by the output window, then the viewport.
    pub open spec fn out_place(self, i: usize, k: int, start: int, body: Rect, scroll: int) -> Option<
        PlacementView,
    > {
        let w = width_of(body);
        let b = self.block;
        let img = b.images[k];
        let (first, n, _) = b.window();
        let ol = img.line - b.src_lines;
        let wtop = start + 1 + self.src_rows(i, w, self.src_count()).len() - scroll;
        let wrows = self.out_rows(i, w, first, n).len() as int;
        let y0 = if wtop > 0 {
            wtop
        } else {
            0
        };
        let y1 = if wtop + wrows < body.height {
            wtop + wrows
        } else {
            body.height as int
        };
        let starts = starts_of(b.lines[img.line], held_on(b.images, img.line), w);
        let r = row_of(starts, img.col as int);
        let (off, x) = if ol >= first {
            (self.out_rows(i, w, first, ol - first).len() + r, img.col - starts[r])
        } else {
            (ol - first, img.col as int)
        };
        let y = wtop + off - y0;
        if ol + img.rows <= first || ol >= first + n || y1 <= y0 || x < 0 || x >= body.width || y
            + img.rows <= 0 || y >= y1 - y0 {
            None
        } else {
            Some(
                PlacementView {
                    cell: i as int,
                    image: k,
                    area: Rect {
                        x: body.x,
                        y: (body.y + y0) as u16,
                        width: body.width,
                        height: (y1 - y0) as u16,
                    },
                    x,
                    y,
                },
            )
        }
    }
}

impl State {
    /// A source picture: straight mapping, clipped by the viewport. Editing
    /// replaces the source region: its pictures hide.
    pub open spec fn source_place(self, i: int, k: int, body: Rect, scroll: int) -> Option<
        PlacementView,
    > {
        let w = width_of(body);
        let b = self.ui.blocks[i];
        let img = b.images[k];
        let sh = self.shown(i);
        let starts = starts_of(b.lines[img.line], held_on(b.images, img.line), w);
        let r = row_of(starts, img.col as int);
        let x = img.col - starts[r];
        let rel = self.start_of(i, w) + 1 + sh.src_rows(i as usize, w, img.line).len() + r - scroll;
        if self.edits(i) || x < 0 || x >= body.width || rel + img.rows <= 0 || rel >= body.height {
            None
        } else {
            Some(PlacementView { cell: i, image: k, area: body, x, y: rel })
        }
    }

    /// An output picture.
    pub open spec fn output_place(self, i: int, k: int, body: Rect, scroll: int) -> Option<
        PlacementView,
    > {
        self.shown(i).out_place(i as usize, k, self.start_of(i, width_of(body)), body, scroll)
    }

    pub open spec fn image_place(self, i: int, k: int, body: Rect, scroll: int) -> Option<
        PlacementView,
    > {
        let b = self.ui.blocks[i];
        if b.images[k].line >= b.lines.len() {
            None
        } else if b.images[k].line < b.src_lines {
            self.source_place(i, k, body, scroll)
        } else {
            self.output_place(i, k, body, scroll)
        }
    }

    /// The pictures of a cell, the first `n` of them.
    pub open spec fn cell_places(self, i: int, n: int, body: Rect, scroll: int) -> Seq<
        PlacementView,
    >
        decreases n,
    {
        if n <= 0 {
            Seq::empty()
        } else {
            let before = self.cell_places(i, n - 1, body, scroll);
            match self.image_place(i, n - 1, body, scroll) {
                Some(p) => before.push(p),
                None => before,
            }
        }
    }

    /// The pictures of the first `n` cells.
    pub open spec fn places(self, n: int, body: Rect, scroll: int) -> Seq<PlacementView>
        decreases n,
    {
        if n <= 0 {
            Seq::empty()
        } else {
            self.places(n - 1, body, scroll) + self.cell_places(
                n - 1,
                self.ui.blocks[n - 1].images.len() as int,
                body,
                scroll,
            )
        }
    }
}

/// The width that lines wrap to.
pub open spec fn width_of(body: Rect) -> int {
    if body.width > 0 {
        body.width as int
    } else {
        1
    }
}

fn wrap_width(body: Rect) -> (r: usize)
    ensures
        r == width_of(body),
        r >= 1,
{
    if body.width > 0 {
        body.width as usize
    } else {
        1
    }
}

/// A row of a line starts no later than the column that is on it.
proof fn lemma_row_of(starts: Seq<usize>, col: int)
    requires
        starts.len() >= 1,
        starts[0] == 0,
        col >= 0,
    ensures
        0 <= row_of(starts, col) < starts.len(),
        starts[row_of(starts, col)] <= col,
    decreases starts.len(),
{
    if starts.len() > 1 && starts.last() > col {
        lemma_row_of(starts.drop_last(), col);
    }
}

proof fn lemma_starts(line: LineView, held: Seq<(usize, usize)>, w: int)
    ensures
        starts_of(line, held, w).len() >= 1,
        starts_of(line, held, w)[0] == 0,
{
}

/// The rows of a cell's source and output are among its rows.
proof fn lemma_parts_inside(s: State, i: int, w: int)
    ensures
        ({
            let sh = s.shown(i);
            let (first, n, _) = s.ui.blocks[i].window();
            1 + sh.src_rows(i as usize, w, sh.src_count()).len() + sh.out_rows(
                i as usize,
                w,
                first,
                n,
            ).len() < s.cell_rows(i, w).len()
        }),
{
}

impl App {
    fn place_source(
        &self,
        rendered: &Rendered,
        i: usize,
        k: usize,
        start: usize,
        body: Rect,
        scroll: usize,
    ) -> (r: Option<Placement>)
        requires
            state(self, rendered).wf(),
            i < self@.notebook.cells.len(),
            k < rendered@.blocks[i as int].images.len(),
            0 <= rendered@.blocks[i as int].images[k as int].line
                < rendered@.blocks[i as int].src_lines,
            start == state(self, rendered).start_of(i as int, width_of(body)),
            state(self, rendered).all_rows(width_of(body)).len() <= usize::MAX,
        ensures
            opt_view(r) == state(self, rendered).source_place(
                i as int,
                k as int,
                body,
                scroll as int,
            ),
    {
        let ghost s = state(self, rendered);
        if self.editor.is_some() && i == self.selected {
            return None;
        }
        let w = wrap_width(body);
        assert(rendered.blocks@.len() == rendered@.blocks.len());
        let cell = &self.notebook.cells[i];
        let block = &rendered.blocks[i];
        assert(s.app.notebook.cells[i as int] == cell@);
        assert(s.ui.blocks[i as int] == block@);
        assert(s.ui.blocks[i as int].wf());
        let img = &block.images[k];
        assert(block@.images[k as int] == img@);
        let ghost sh = s.shown(i as int);
        let none: Option<Vec<Line>> = None;
        assert(shown_of(cell, block, &none) == sh);
        let starts = output_starts(block, w, img.line);
        let r = wrap::find_row(&starts, img.col as usize);
        proof {
            lemma_starts(
                block@.lines[img.line as int],
                held_on(block@.images, img.line as int),
                w as int,
            );
            lemma_row_of(starts@, img.col as int);
            lemma_cell_inside(s, w as int, i as int, s.app.notebook.cells.len() as int);
            lemma_parts_inside(s, i as int, w as int);
            lemma_src_rows_grow(sh, i, w as int, img.line + 1, sh.src_count());
        }
        let x = img.col as usize - starts[r];
        if x >= body.width as usize {
            return None;
        }
        let before = count_source(i, cell, block, &none, w, img.line);
        assert(sh.src_rows(i, w as int, img.line + 1).len() == before + starts@.len());
        let top = start + 1 + before + r;
        match relative(top, scroll, img.rows, body.height) {
            Some(y) => Some(Placement { cell: i, image: k, area: body, x: x as u16, y }),
            None => None,
        }
    }
}

/// A row relative to the first row in view, if a picture that starts there is
/// in view.
fn relative(top: usize, scroll: usize, rows: u16, height: u16) -> (r: Option<i32>)
    ensures
        match r {
            Some(y) => y == top - scroll && y + rows > 0 && y < height,
            None => top - scroll + rows <= 0 || top - scroll >= height,
        },
{
    if top >= scroll {
        if top - scroll >= height as usize {
            None
        } else if top == scroll && rows == 0 {
            None
        } else {
            Some((top - scroll) as i32)
        }
    } else if scroll - top >= rows as usize {
        None
    } else {
        Some(-((scroll - top) as i32))
    }
}

/// The part of the viewport that rows of an output take: first row, height,
/// and how many of the rows are above it.
fn clip_rows(top: usize, rows: usize, scroll: usize, height: u16) -> (r: Option<(u16, u16, usize)>)
    ensures
        ({
            let wtop = top - scroll;
            let y0 = if wtop > 0 {
                wtop
            } else {
                0
            };
            let y1 = if wtop + rows < height {
                wtop + rows
            } else {
                height as int
            };
            match r {
                Some(t) => y1 > y0 && t.0 == y0 && t.1 == y1 - y0 && t.2 == y0 - wtop && t.0 + t.1
                    <= height,
                None => y1 <= y0,
            }
        }),
{
    if top >= scroll {
        let d = top - scroll;
        if d >= height as usize {
            return None;
        }
        let room = height as usize - d;
        let n = if rows < room {
            rows
        } else {
            room
        };
        if n == 0 {
            return None;
        }
        Some((d as u16, n as u16, 0))
    } else {
        let hid = scroll - top;
        if hid >= rows {
            return None;
        }
        let rest = rows - hid;
        let n = if rest < height as usize {
            rest
        } else {
            height as usize
        };
        if n == 0 {
            return None;
        }
        Some((0, n as u16, hid))
    }
}

fn place_in_output(
    i: usize,
    k: usize,
    cell: &Cell,
    block: &CellBlock,
    edit: &Option<Vec<Line>>,
    start: usize,
    body: Rect,
    scroll: usize,
) -> (r: Option<Placement>)
    requires
        block@.wf(),
        k < block@.images.len(),
        block@.src_lines <= block@.images[k as int].line < block@.lines.len(),
        ({
            let sh = shown_of(cell, block, edit);
            let (first, n, _) = block@.window();
            let w = width_of(body);
            start + 1 + sh.src_rows(i, w, sh.src_count()).len() + sh.out_rows(i, w, first, n).len()
                <= usize::MAX
        }),
        body.y + body.height <= u16::MAX,
    ensures
        opt_view(r) == shown_of(cell, block, edit).out_place(
            i,
            k as int,
            start as int,
            body,
            scroll as int,
        ),
{
    let ghost sh = shown_of(cell, block, edit);
    let w = wrap_width(body);
    let img = &block.images[k];
    assert(block@.images[k as int] == img@);
    let (first, n, _) = block.window();
    let ol = img.line - block.src_lines;
    let rows = img.rows;
    if first >= ol && first - ol >= rows as usize {
        return None;
    }
    if ol >= first && ol - first >= n {
        return None;
    }
    let count = match edit {
        Some(l) => l.len(),
        None => block.src_lines,
    };
    let src = count_source(i, cell, block, edit, w, count);
    let wrows = count_output(i, cell, block, edit, w, first, n);
    let top = start + 1 + src;
    let clip = clip_rows(top, wrows, scroll, body.height);
    let (y0, h, hid) = match clip {
        Some(t) => t,
        None => {
            return None;
        },
    };
    let area = Rect { x: body.x, y: body.y + y0, width: body.width, height: h };
    if ol >= first {
        let starts = output_starts(block, w, img.line);
        let r = wrap::find_row(&starts, img.col as usize);
        proof {
            lemma_starts(
                block@.lines[img.line as int],
                held_on(block@.images, img.line as int),
                w as int,
            );
            lemma_row_of(starts@, img.col as int);
            lemma_out_rows_grow(sh, i, w as int, first as int, ol - first + 1, n as int);
            lemma_out_rows_grow(sh, i, w as int, first as int, ol - first, n as int);
        }
        let x = img.col as usize - starts[r];
        if x >= body.width as usize {
            return None;
        }
        let before = count_output(i, cell, block, edit, w, first, ol - first);
        assert(sh.out_rows(i, w as int, first as int, ol - first + 1).len() == before
            + starts@.len());
        match relative(before + r, hid, rows, h) {
            Some(y) => Some(Placement { cell: i, image: k, area, x: x as u16, y }),
            None => None,
        }
    } else {
        if img.col >= body.width {
            return None;
        }
        match relative(0, (first - ol).saturating_add(hid), rows, h) {
            Some(y) => Some(Placement { cell: i, image: k, area, x: img.col, y }),
            None => None,
        }
    }
}

impl App {
    fn place_output(
        &self,
        rendered: &Rendered,
        live: &Option<Vec<Line>>,
        i: usize,
        k: usize,
        start: usize,
        body: Rect,
        scroll: usize,
    ) -> (r: Option<Placement>)
        requires
            state(self, rendered).wf(),
            i < self@.notebook.cells.len(),
            k < rendered@.blocks[i as int].images.len(),
            rendered@.blocks[i as int].src_lines <= rendered@.blocks[i as int].images[k as int].line
                < rendered@.blocks[i as int].lines.len(),
            start == state(self, rendered).start_of(i as int, width_of(body)),
            state(self, rendered).all_rows(width_of(body)).len() <= usize::MAX,
            body.y + body.height <= u16::MAX,
            match *live {
                Some(v) => self@.editor is Some && views(v@) == state(self, rendered).live_lines(),
                None => self@.editor is None,
            },
        ensures
            opt_view(r) == state(self, rendered).output_place(
                i as int,
                k as int,
                body,
                scroll as int,
            ),
    {
        let ghost s = state(self, rendered);
        let ghost w = width_of(body);
        assert(rendered.blocks@.len() == rendered@.blocks.len());
        let cell = &self.notebook.cells[i];
        let block = &rendered.blocks[i];
        assert(s.app.notebook.cells[i as int] == cell@);
        assert(s.ui.blocks[i as int] == block@);
        assert(s.ui.blocks[i as int].wf());
        let none: Option<Vec<Line>> = None;
        let edit = if self.editor.is_some() && i == self.selected {
            live
        } else {
            &none
        };
        assert(shown_of(cell, block, edit) == s.shown(i as int));
        proof {
            lemma_cell_inside(s, w, i as int, s.app.notebook.cells.len() as int);
            lemma_parts_inside(s, i as int, w);
        }
        place_in_output(i, k, cell, block, edit, start, body, scroll)
    }

    fn place_image(
        &self,
        rendered: &Rendered,
        live: &Option<Vec<Line>>,
        i: usize,
        k: usize,
        start: usize,
        body: Rect,
        scroll: usize,
    ) -> (r: Option<Placement>)
        requires
            state(self, rendered).wf(),
            i < self@.notebook.cells.len(),
            k < rendered@.blocks[i as int].images.len(),
            start == state(self, rendered).start_of(i as int, width_of(body)),
            state(self, rendered).all_rows(width_of(body)).len() <= usize::MAX,
            body.y + body.height <= u16::MAX,
            match *live {
                Some(v) => self@.editor is Some && views(v@) == state(self, rendered).live_lines(),
                None => self@.editor is None,
            },
        ensures
            opt_view(r) == state(self, rendered).image_place(
                i as int,
                k as int,
                body,
                scroll as int,
            ),
    {
        assert(rendered.blocks@.len() == rendered@.blocks.len());
        let block = &rendered.blocks[i];
        assert(rendered@.blocks[i as int] == block@);
        let line = block.images[k].line;
        assert(block@.images[k as int] == block.images@[k as int]@);
        if line >= block.lines.len() {
            None
        } else if line < block.src_lines {
            self.place_source(rendered, i, k, start, body, scroll)
        } else {
            self.place_output(rendered, live, i, k, start, body, scroll)
        }
    }

    /// The pictures in view.
    fn place_images(
        &self,
        rendered: &Rendered,
        live: &Option<Vec<Line>>,
        starts: &Vec<usize>,
        body: Rect,
        scroll: usize,
    ) -> (r: Vec<Placement>)
        requires
            state(self, rendered).wf(),
            starts@.len() == self@.notebook.cells.len(),
            forall|k: int|
                0 <= k < starts@.len() ==> #[trigger] starts@[k] == state(
                    self,
                    rendered,
                ).start_of(k, width_of(body)),
            state(self, rendered).all_rows(width_of(body)).len() <= usize::MAX,
            body.y + body.height <= u16::MAX,
            match *live {
                Some(v) => self@.editor is Some && views(v@) == state(self, rendered).live_lines(),
                None => self@.editor is None,
            },
        ensures
            views(r@) == state(self, rendered).places(
                self@.notebook.cells.len() as int,
                body,
                scroll as int,
            ),
    {
        let ghost s = state(self, rendered);
        let n = starts.len();
        let mut r: Vec<Placement> = Vec::new();
        let mut i: usize = 0;
        assert(views(r@) =~= Seq::<PlacementView>::empty());
        while i < n
            invariant
                i <= n,
                n == starts@.len(),
                s == state(self, rendered),
                s.wf(),
                n == self@.notebook.cells.len(),
                forall|k: int|
                    0 <= k < starts@.len() ==> #[trigger] starts@[k] == s.start_of(
                        k,
                        width_of(body),
                    ),
                s.all_rows(width_of(body)).len() <= usize::MAX,
                body.y + body.height <= u16::MAX,
                match *live {
                    Some(v) => self@.editor is Some && views(v@) == s.live_lines(),
                    None => self@.editor is None,
                },
                views(r@) == s.places(i as int, body, scroll as int),
            decreases n - i,
        {
            let ghost before = views(r@);
            assert(rendered.blocks@.len() == rendered@.blocks.len());
            let m = rendered.blocks[i].images.len();
            assert(rendered@.blocks[i as int] == rendered.blocks@[i as int]@);
            let mut k: usize = 0;
            assert(before + s.cell_places(i as int, 0, body, scroll as int) =~= before);
            while k < m
                invariant
                    i < n,
                    k <= m,
                    n == starts@.len(),
                    s == state(self, rendered),
                    s.wf(),
                    n == self@.notebook.cells.len(),
                    m == rendered@.blocks[i as int].images.len(),
                    starts@[i as int] == s.start_of(i as int, width_of(body)),
                    s.all_rows(width_of(body)).len() <= usize::MAX,
                    body.y + body.height <= u16::MAX,
                    match *live {
                        Some(v) => self@.editor is Some && views(v@) == s.live_lines(),
                        None => self@.editor is None,
                    },
                    views(r@) == before + s.cell_places(i as int, k as int, body, scroll as int),
                decreases m - k,
            {
                let p = self.place_image(rendered, live, i, k, starts[i], body, scroll);
                let ghost r0 = r@;
                match p {
                    Some(p) => {
                        r.push(p);
                        assert(views(r@) =~= views(r0).push(p@));
                    },
                    None => {},
                }
                assert(views(r@) =~= before + s.cell_places(
                    i as int,
                    k + 1,
                    body,
                    scroll as int,
                ));
                k += 1;
            }
            i += 1;
        }
        r
    }
}

// ---------------------------------------------------------------------------
// The status line
// ---------------------------------------------------------------------------

/// The mode's chip.
pub open spec fn mode_chip(e: Option<BackendView>) -> (Seq<char>, ColorView) {
    match e {
        None => (" VIEW "@, ColorView::Cyan),
        Some(e) => match e.mode() {
            ModeKind::Insert => (" INSERT "@, ColorView::Green),
            ModeKind::Visual => (" VISUAL "@, ColorView::Magenta),
            ModeKind::VisualLine => (" V-LINE "@, ColorView::Magenta),
            ModeKind::VisualBlock => (" V-BLOCK "@, ColorView::Magenta),
            ModeKind::Replace => (" REPLACE "@, ColorView::Red),
            ModeKind::Pending => (" O-PEND "@, ColorView::Yellow),
            ModeKind::Cmdline => (" CMD "@, ColorView::Yellow),
            ModeKind::Normal => (" NORMAL "@, ColorView::Yellow),
        },
    }
}

impl AppView {
    /// Rightmost: a question, a prompt, nvim's cmdline, or the message.
    pub open spec fn status_tail(self) -> Seq<char> {
        if let Some(c) = self.overlay.confirm {
            c.question()
        } else if let Some(p) = self.overlay.prompt {
            match p.kind {
                PromptKind::Search => "/"@ + p.buf + "▏"@,
                PromptKind::SaveAs => "save as: "@ + p.buf + "▏"@,
            }
        } else if let Some(c) = (match self.editor {
            Some(e) => e.cmdline(),
            None => None,
        }) {
            c + "▏"@
        } else {
            match self.message {
                Some(m) => m,
                None => Seq::empty(),
            }
        }
    }

    pub open spec fn kernel_chip(self) -> SpanView {
        if self.run.kernel is None {
            SpanView::styled("◌ no kernel"@, StyleView::of(ColorView::DarkGray))
        } else if self.run.kernel_busy {
            SpanView::styled("● busy"@, StyleView::of(ColorView::Yellow))
        } else {
            SpanView::styled("○ idle"@, StyleView::of(ColorView::Green))
        }
    }

    pub open spec fn status_line(self) -> LineView {
        let (label, bg) = mode_chip(self.editor);
        LineView::of(
            seq![
                SpanView::styled(
                    label,
                    StyleView {
                        fg: Some(ColorView::Black),
                        bg: Some(bg),
                        add: 0,
                        sub: 0,
                    }.with(BOLD),
                ),
                SpanView::raw(
                    " "@ + self.file.path + (if self.file.dirty {
                        " [+]"@
                    } else {
                        ""@
                    }) + "  cell "@ + decimal(self.selected + 1) + "/"@ + decimal(
                        self.notebook.cells.len() as int,
                    ) + "  "@,
                ),
                self.kernel_chip(),
                SpanView::raw("  "@ + self.status_tail()),
            ],
        )
    }
}

impl App {
    fn tail_text(&self) -> (r: String)
        ensures
            r@ == self@.status_tail(),
    {
        if let Some(c) = &self.confirm {
            return c.question();
        }
        if let Some(p) = &self.prompt {
            return match p.kind {
                PromptKind::Search => text::concat(
                    text::concat("/", p.buf.as_str()).as_str(),
                    "▏",
                ),
                PromptKind::SaveAs => text::concat(
                    text::concat("save as: ", p.buf.as_str()).as_str(),
                    "▏",
                ),
            };
        }
        let cmdline = match &self.editor {
            Some(e) => e.cmdline(),
            None => None,
        };
        if let Some(c) = cmdline {
            return text::concat(c.as_str(), "▏");
        }
        match &self.message {
            Some(m) => m.clone(),
            None => {
                let none = String::new();
                assert(none@ =~= Seq::<char>::empty());
                none
            },
        }
    }

    fn mode_span(&self) -> (r: Span)
        ensures
            ({
                let (label, bg) = mode_chip(self@.editor);
                r@ == SpanView::styled(
                    label,
                    StyleView {
                        fg: Some(ColorView::Black),
                        bg: Some(bg),
                        add: 0,
                        sub: 0,
                    }.with(BOLD),
                )
            }),
    {
        let (label, bg) = match &self.editor {
            None => (" VIEW ", Color::Cyan),
            Some(e) => match e.mode() {
                ModeKind::Insert => (" INSERT ", Color::Green),
                ModeKind::Visual => (" VISUAL ", Color::Magenta),
                ModeKind::VisualLine => (" V-LINE ", Color::Magenta),
                ModeKind::VisualBlock => (" V-BLOCK ", Color::Magenta),
                ModeKind::Replace => (" REPLACE ", Color::Red),
                ModeKind::Pending => (" O-PEND ", Color::Yellow),
                ModeKind::Cmdline => (" CMD ", Color::Yellow),
                ModeKind::Normal => (" NORMAL ", Color::Yellow),
            },
        };
        let style = Style { fg: Some(Color::Black), bg: Some(bg), add: 0, sub: 0 };
        Span::styled(label.to_owned(), style.with(BOLD))
    }

    /// The status line.
    pub fn status_line(&self) -> (r: Line)
        requires
            self@.wf(),
        ensures
            r@ == self@.status_line(),
    {
        let kernel = if self.kernel.is_none() {
            Span::styled("◌ no kernel".to_owned(), Style::of(Color::DarkGray))
        } else if self.kernel_busy {
            Span::styled("● busy".to_owned(), Style::of(Color::Yellow))
        } else {
            Span::styled("○ idle".to_owned(), Style::of(Color::Green))
        };
        let n = self.notebook.cells.len();
        assert(n == self@.notebook.cells.len());
        let mut s = " ".to_owned();
        s.append(self.path.as_str());
        s.append(if self.dirty {
            " [+]"
        } else {
            ""
        });
        s.append("  cell ");
        s.append(text::usize_string(self.selected + 1).as_str());
        s.append("/");
        s.append(text::usize_string(n).as_str());
        s.append("  ");
        let tail = text::concat("  ", self.tail_text().as_str());
        let mut spans: Vec<Span> = Vec::new();
        spans.push(self.mode_span());
        spans.push(Span::raw(s));
        spans.push(kernel);
        spans.push(Span::raw(tail));
        assert(views(spans@) =~= self@.status_line().spans);
        Line::of(spans)
    }
}

/// The terminal cursor's shape.
#[derive(Clone, Copy, Debug, PartialEq, Eq, Structural)]
pub enum CursorShape {
    /// What the user has set.
    Default,
    Block,
    Bar,
    Underscore,
}

/// The modal cursor shape: a block, a bar in insert mode, an underscore in
/// replace mode.
pub fn cursor_shape(mode: Option<ModeKind>) -> (r: CursorShape)
    ensures
        r == match mode {
            None => CursorShape::Default,
            Some(ModeKind::Insert) => CursorShape::Bar,
            Some(ModeKind::Replace) => CursorShape::Underscore,
            Some(_) => CursorShape::Block,
        },
{
    match mode {
        None => CursorShape::Default,
        Some(ModeKind::Insert) => CursorShape::Bar,
        Some(ModeKind::Replace) => CursorShape::Underscore,
        Some(_) => CursorShape::Block,
    }
}

// ---------------------------------------------------------------------------
// Frames
// ---------------------------------------------------------------------------

/// The part of the screen above the status line.
pub open spec fn body_of(area: Rect) -> Rect {
    Rect {
        height: if area.height > 0 {
            (area.height - 1) as u16
        } else {
            0
        },
        ..area
    }
}

/// A frame of the screen.
pub struct Frame {
    pub body: Rect,
    pub rows: Vec<Line>,
    /// None while the zoom overlay owns the screen.
    pub images: Vec<Placement>,
    pub cursor: Option<(u16, u16)>,
    pub status: Line,
    /// A status message that was not logged yet.
    pub log: Option<String>,
}

pub struct FrameView {
    pub body: Rect,
    pub rows: Seq<LineView>,
    pub images: Seq<PlacementView>,
    pub cursor: Option<(u16, u16)>,
    pub status: LineView,
    pub log: Option<Seq<char>>,
}

impl View for Frame {
    type V = FrameView;

    open spec fn view(&self) -> FrameView {
        FrameView {
            body: self.body,
            rows: views(self.rows@),
            images: views(self.images@),
            cursor: self.cursor,
            status: self.status@,
            log: opt_view(self.log),
        }
    }
}

impl State {
    /// The rows in view.
    pub open spec fn rows_in_view(self, body: Rect) -> Seq<RowOf> {
        let rows = self.all_rows(width_of(body));
        let from = self.scroll_for(width_of(body), body.height as int);
        let to = if from + body.height < rows.len() {
            from + body.height
        } else {
            rows.len() as int
        };
        rows.subrange(from, to)
    }

    /// The editor's cursor on the screen, if it is in view.
    pub open spec fn cursor_in(self, body: Rect) -> Option<(u16, u16)> {
        let w = width_of(body);
        if self.app.editor is Some && self.app.current() is Some {
            let (row, col) = self.cursor_at(w);
            let y = self.start_of(self.app.selected, w) + 1 + row - self.scroll_for(
                w,
                body.height as int,
            );
            let last = if body.width > 0 {
                body.width - 1
            } else {
                0
            };
            let x = if col <= last {
                col
            } else {
                last
            };
            if 0 <= y < body.height {
                Some(((body.x + x) as u16, (body.y + y) as u16))
            } else {
                None
            }
        } else {
            None
        }
    }

    /// The session after a draw: what it showed is kept for the pointer.
    pub open spec fn drawn(self, area: Rect) -> AppView {
        let body = body_of(area);
        AppView {
            screen: ScreenView {
                content_lines: self.all_rows(width_of(body)).len() as usize,
                body,
                scroll: self.scroll_for(width_of(body), body.height as int) as usize,
                hit: self.rows_in_view(body).map_values(|r: RowOf| r.hit),
                logged_status: if self.app.message is Some {
                    self.app.message
                } else {
                    self.app.screen.logged_status
                },
                ..self.app.screen
            },
            ..self.app
        }
    }

    /// A frame.
    pub open spec fn frame(self, area: Rect) -> FrameView {
        let body = body_of(area);
        let scroll = self.scroll_for(width_of(body), body.height as int);
        FrameView {
            body,
            rows: self.rows_in_view(body).map_values(|r: RowOf| r.line),
            images: if self.app.overlay.zoom is Some {
                Seq::empty()
            } else {
                self.places(self.app.notebook.cells.len() as int, body, scroll)
            },
            cursor: self.cursor_in(body),
            status: self.app.status_line(),
            log: if self.app.message is Some && self.app.message
                != self.app.screen.logged_status {
                self.app.message
            } else {
                None
            },
        }
    }
}

fn hits_between(rows: &Vec<ScreenRow>, from: usize, to: usize) -> (r: Vec<Hit>)
    requires
        from <= to <= rows@.len(),
    ensures
        r@ == views(rows@).subrange(from as int, to as int).map_values(|x: RowOf| x.hit),
{
    let ghost want = views(rows@).subrange(from as int, to as int).map_values(|x: RowOf| x.hit);
    let mut r: Vec<Hit> = Vec::new();
    let mut i: usize = from;
    while i < to
        invariant
            from <= i <= to <= rows@.len(),
            want == views(rows@).subrange(from as int, to as int).map_values(|x: RowOf| x.hit),
            r@.len() == i - from,
            forall|k: int| 0 <= k < r@.len() ==> #[trigger] r@[k] == want[k],
        decreases to - i,
    {
        assert(want[i - from] == rows@[i as int]@.hit);
        r.push(rows[i].hit);
        i += 1;
    }
    assert(r@ =~= want);
    r
}

fn lines_between(rows: &Vec<ScreenRow>, from: usize, to: usize) -> (r: Vec<Line>)
    requires
        from <= to <= rows@.len(),
    ensures
        views(r@) == views(rows@).subrange(from as int, to as int).map_values(|x: RowOf| x.line),
{
    let ghost want = views(rows@).subrange(from as int, to as int).map_values(|x: RowOf| x.line);
    let mut r: Vec<Line> = Vec::new();
    let mut i: usize = from;
    while i < to
        invariant
            from <= i <= to <= rows@.len(),
            want == views(rows@).subrange(from as int, to as int).map_values(|x: RowOf| x.line),
            r@.len() == i - from,
            forall|k: int| 0 <= k < r@.len() ==> (#[trigger] r@[k])@ == want[k],
        decreases to - i,
    {
        assert(want[i - from] == rows@[i as int]@.line);
        r.push(rows[i].line.duplicate());
        i += 1;
    }
    assert(views(r@) =~= want);
    r
}

/// What draw keeps of a frame's geometry.
struct Window {
    scroll: usize,
    cursor: Option<(u16, u16)>,
}

impl App {
    /// The first row in view and the cursor.
    fn look(
        &self,
        rendered: &Rendered,
        live: &Option<Vec<Line>>,
        starts: &Vec<usize>,
        total: usize,
        body: Rect,
    ) -> (r: Window)
        requires
            state(self, rendered).wf(),
            starts@.len() == self@.notebook.cells.len(),
            forall|k: int|
                0 <= k < starts@.len() ==> #[trigger] starts@[k] == state(
                    self,
                    rendered,
                ).start_of(k, width_of(body)),
            total == state(self, rendered).all_rows(width_of(body)).len(),
            body.y + body.height <= u16::MAX,
            body.x + body.width <= u16::MAX,
            match *live {
                Some(v) => self@.editor is Some && views(v@) == state(self, rendered).live_lines(),
                None => self@.editor is None,
            },
        ensures
            r.scroll == state(self, rendered).scroll_for(width_of(body), body.height as int),
            r.scroll <= total,
            r.cursor == state(self, rendered).cursor_in(body),
    {
        let ghost s = state(self, rendered);
        let w = wrap_width(body);
        let n = self.notebook.cells.len();
        assert(n == self@.notebook.cells.len());
        let editing = self.editor.is_some() && self.selected < n;
        let at = self.selected;
        let mut row: usize = 0;
        let mut col: usize = 0;
        if editing {
            proof {
                lemma_cell_inside(s, w as int, at as int, n as int);
            }
            let (r, c) = self.cursor_place(rendered, live, w);
            row = r;
            col = c;
        }
        let height = body.height as usize;
        let scroll = if self.manual_scroll || n == 0 {
            let max = if total > 0 {
                total - 1
            } else {
                0
            };
            if self.scroll <= max {
                self.scroll
            } else {
                max
            }
        } else {
            proof {
                lemma_cell_inside(s, w as int, at as int, n as int);
                lemma_cell_len(s, at as int, w as int);
            }
            let start = starts[at];
            let next = if at + 1 < n {
                starts[at + 1]
            } else {
                total
            };
            proof {
                lemma_next_start(s, w as int, at as int);
            }
            let (first, end) = if editing {
                (start + 1 + row, start + 1 + row + 1)
            } else {
                (start, next - 1)
            };
            let down = if end > height && end - height > self.scroll {
                end - height
            } else {
                self.scroll
            };
            if first < down {
                first
            } else {
                down
            }
        };
        let cursor = if editing {
            let abs = starts[at] + 1 + row;
            let last = if body.width > 0 {
                body.width - 1
            } else {
                0
            };
            let x = if col <= last as usize {
                col as u16
            } else {
                last
            };
            if abs >= scroll && abs - scroll < height {
                Some((body.x + x, body.y + (abs - scroll) as u16))
            } else {
                None
            }
        } else {
            None
        };
        Window { scroll, cursor }
    }

    fn note_frame(&mut self, body: Rect, scroll: usize, total: usize, hit: Vec<Hit>)
        ensures
            final(self)@ == (AppView {
                screen: ScreenView {
                    content_lines: total,
                    body,
                    scroll,
                    hit: hit@,
                    ..old(self)@.screen
                },
                ..old(self)@
            }),
    {
        self.content_lines = total;
        self.body = body;
        self.scroll = scroll;
        self.hit = hit;
    }

    /// A status message is logged once.
    fn note_status(&mut self) -> (r: Option<String>)
        ensures
            opt_view(r) == if old(self)@.message is Some && old(self)@.message
                != old(self)@.screen.logged_status {
                old(self)@.message
            } else {
                None
            },
            final(self)@ == (AppView {
                screen: ScreenView {
                    logged_status: if old(self)@.message is Some {
                        old(self)@.message
                    } else {
                        old(self)@.screen.logged_status
                    },
                    ..old(self)@.screen
                },
                ..old(self)@
            }),
    {
        let m = match &self.message {
            Some(m) => m.clone(),
            None => {
                return None;
            },
        };
        if text::opt_same(&self.logged_status, m.as_str()) {
            return None;
        }
        self.logged_status = Some(m.clone());
        Some(m)
    }

    /// Draw the notebook into an area of the screen; what it shows is kept for
    /// the pointer.
    pub fn draw(&mut self, rendered: &Rendered, area: Rect) -> (r: Frame)
        requires
            state(old(self), rendered).wf(),
            area.y + area.height <= u16::MAX,
            area.x + area.width <= u16::MAX,
        ensures
            final(self)@ == state(old(self), rendered).drawn(area),
            r@ == state(old(self), rendered).frame(area),
            state(final(self), rendered).wf(),
            final(self)@.hits_fit(),
    {
        let ghost s = state(self, rendered);
        let body = Rect {
            x: area.x,
            y: area.y,
            width: area.width,
            height: if area.height > 0 {
                area.height - 1
            } else {
                0
            },
        };
        assert(body == body_of(area));
        let w = wrap_width(body);
        let live = self.live(rendered);
        let (rows, starts) = self.rows(rendered, &live, w);
        let total = rows.len();
        assert(views(rows@).len() == rows@.len());
        let Window { scroll, cursor } = self.look(rendered, &live, &starts, total, body);
        let height = body.height as usize;
        let end = if total - scroll > height {
            scroll + height
        } else {
            total
        };
        let images = if self.zoom.is_some() {
            let none: Vec<Placement> = Vec::new();
            assert(views(none@) =~= Seq::<PlacementView>::empty());
            none
        } else {
            self.place_images(rendered, &live, &starts, body, scroll)
        };
        let hit = hits_between(&rows, scroll, end);
        let lines = lines_between(&rows, scroll, end);
        let status = self.status_line();
        let n = self.notebook.cells.len();
        assert(n == s.app.notebook.cells.len());
        let log = self.note_status();
        self.note_frame(body, scroll, total, hit);
        proof {
            law_hits_point_at_cells(s, area);
        }
        Frame { body, rows: lines, images, cursor, status, log }
    }
}

proof fn lemma_cell_len(s: State, i: int, w: int)
    ensures
        s.cell_rows(i, w).len() >= 2,
{
}

/// The next cell starts after this one's rows.
proof fn lemma_next_start(s: State, w: int, i: int)
    requires
        0 <= i < s.app.notebook.cells.len(),
    ensures
        (if i + 1 < s.app.notebook.cells.len() {
            s.start_of(i + 1, w)
        } else {
            s.all_rows(w).len() as int
        }) == s.start_of(i, w) + s.cell_rows(i, w).len(),
{
}

/// Every row in view points at a cell that there is.
pub proof fn law_hits_point_at_cells(s: State, area: Rect)
    requires
        s.wf(),
        s.app.notebook.cells.len() <= usize::MAX,
    ensures
        s.drawn(area).hits_fit(),
{
    let body = body_of(area);
    let w = width_of(body);
    let rows = s.all_rows(w);
    lemma_scroll_inside(s, w, body.height as int);
    lemma_hits_in_cells(s, w, s.app.notebook.cells.len() as int);
    let view = s.rows_in_view(body);
    assert forall|k: int| 0 <= k < s.drawn(area).screen.hit.len() implies (
    #[trigger] s.drawn(area).screen.hit[k]).cell < s.app.notebook.cells.len() by {
        let from = s.scroll_for(w, body.height as int);
        assert(view[k] == rows[from + k]);
    }
}

/// The cursor's row is a row of its cell.
proof fn lemma_cursor_inside(s: State, w: int)
    requires
        s.wf(),
        s.app.editor is Some,
        0 <= s.app.selected < s.app.notebook.cells.len(),
        w >= 1,
    ensures
        0 <= s.cursor_at(w).0,
        s.cursor_at(w).0 + 2 <= s.cell_rows(s.app.selected, w).len(),
{
    let i = s.app.selected;
    let sh = s.shown(i);
    let n = sh.src_count();
    let e = s.app.editor->Some_0;
    lemma_parts_inside(s, i, w);
    if e.row() < n {
        let line = sh.src_line(e.row());
        lemma_src_rows_grow(sh, i as usize, w, e.row(), n);
        lemma_src_rows_grow(sh, i as usize, w, e.row() + 1, n);
        lemma_starts(line, Seq::empty(), w);
        lemma_row_of(starts_of(line, Seq::empty(), w), e.col());
        assert(sh.src_held(e.row()) =~= Seq::<(usize, usize)>::empty());
    }
}

/// The first row in view is one of the rows, or there is none.
proof fn lemma_scroll_inside(s: State, w: int, height: int)
    requires
        s.wf(),
        w >= 1,
        height >= 0,
    ensures
        0 <= s.scroll_for(w, height) <= s.all_rows(w).len(),
{
    if !s.app.screen.manual_scroll && s.app.notebook.cells.len() > 0 {
        let i = s.app.selected;
        lemma_cell_inside(s, w, i, s.app.notebook.cells.len() as int);
        lemma_cell_len(s, i, w);
        if s.app.editor is Some {
            lemma_cursor_inside(s, w);
        }
    }
}

/// Every row points at one cell.
spec fn all_at(rows: Seq<RowOf>, i: usize) -> bool {
    forall|k: int| 0 <= k < rows.len() ==> (#[trigger] rows[k]).hit.cell == i
}

proof fn lemma_src_at(sh: Shown, i: usize, w: int, n: int)
    ensures
        all_at(sh.src_rows(i, w, n), i),
    decreases n,
{
    if n > 0 {
        lemma_src_at(sh, i, w, n - 1);
    }
}

proof fn lemma_out_at(sh: Shown, i: usize, w: int, first: int, n: int)
    ensures
        all_at(sh.out_rows(i, w, first, n), i),
    decreases n,
{
    if n > 0 {
        lemma_out_at(sh, i, w, first, n - 1);
    }
}

proof fn lemma_rows_at(sh: Shown, i: usize, prompt: LineView, w: int)
    ensures
        all_at(sh.rows(i, prompt, w), i),
{
    let (first, shown, _) = sh.block.window();
    lemma_src_at(sh, i, w, sh.src_count());
    lemma_out_at(sh, i, w, first, shown);
}

/// The rows of the first `n` cells point at those cells.
proof fn lemma_hits_in_cells(s: State, w: int, n: int)
    requires
        0 <= n <= s.app.notebook.cells.len() <= usize::MAX,
    ensures
        forall|k: int|
            0 <= k < s.rows_before(n, w).len() ==> (#[trigger] s.rows_before(n, w)[k]).hit.cell
                < n,
    decreases n,
{
    if n > 0 {
        lemma_hits_in_cells(s, w, n - 1);
        lemma_rows_at(s.shown(n - 1), (n - 1) as usize, s.prompt_of(n - 1), w);
        assert(all_at(s.cell_rows(n - 1, w), (n - 1) as usize));
        let before = s.rows_before(n - 1, w);
        assert forall|k: int| 0 <= k < s.rows_before(n, w).len() implies (
        #[trigger] s.rows_before(n, w)[k]).hit.cell < n by {
            if k < before.len() {
                assert(s.rows_before(n, w)[k] == before[k]);
            } else {
                assert(s.rows_before(n, w)[k] == s.cell_rows(n - 1, w)[k - before.len()]);
            }
        }
    }
}

/// The selected cell's first row is in view after a draw, unless the view was
/// scrolled by hand.
pub proof fn law_the_selection_is_in_view(s: State, area: Rect)
    requires
        s.wf(),
        area.height > 1,
        s.app.notebook.cells.len() > 0,
        !s.app.screen.manual_scroll,
        s.app.editor is None,
    ensures
        ({
            let body = body_of(area);
            let w = width_of(body);
            let from = s.scroll_for(w, body.height as int);
            from <= s.start_of(s.app.selected, w) < from + body.height
        }),
{
    let w = width_of(body_of(area));
    lemma_cell_len(s, s.app.selected, w);
}

/// The cursor is in view after a draw, unless the view was scrolled by hand.
pub proof fn law_the_cursor_is_in_view(s: State, area: Rect)
    requires
        s.wf(),
        area.height > 1,
        s.app.current() is Some,
        !s.app.screen.manual_scroll,
        s.app.editor is Some,
    ensures
        s.cursor_in(body_of(area)) is Some,
{
}

} // verus!
