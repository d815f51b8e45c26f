//! The pointer: wheel gestures and clicks.

use vstd::prelude::*;

use crate::app::{AfterOpen, App, Effect, HitKind, WheelTarget};
#[allow(unused_imports)]
use crate::app::{state, AppView, EffectView, Hit, OverlayView, PagerView, ScreenView, State};
use crate::keys::{MouseEvent, MouseKind};
use crate::nvim::NvimMove;
use crate::text;
#[allow(unused_imports)]
use crate::text::opt_view;
use crate::ui::Rendered;
#[allow(unused_imports)]
use crate::ui::RenderedView;

verus! {

/// Columns left of the text.
pub const GUTTER: u16 = 0;

/// Rows that a wheel tick scrolls.
pub const WHEEL_ROWS: usize = 3;

/// Ticks and clicks less than this many milliseconds apart belong together.
pub const GESTURE_GAP: u64 = 400;

/// A position moved by a wheel tick.
pub open spec fn wheeled(at: usize, down: bool) -> usize {
    if down {
        at.saturating_add(WHEEL_ROWS)
    } else {
        at.saturating_sub(WHEEL_ROWS)
    }
}

fn wheel(at: usize, down: bool) -> (r: usize)
    ensures
        r == wheeled(at, down),
{
    if down {
        at.saturating_add(WHEEL_ROWS)
    } else {
        at.saturating_sub(WHEEL_ROWS)
    }
}

impl AppView {
    /// What the screen shows at a row of the body.
    pub open spec fn hit_at(self, y: int) -> Option<Hit> {
        let i = y - self.screen.body.y;
        if 0 <= i < self.screen.hit.len() {
            Some(self.screen.hit[i])
        } else {
            None
        }
    }

    /// Every row shown belongs to a cell.
    pub open spec fn hits_fit(self) -> bool {
        forall|i: int|
            0 <= i < self.screen.hit.len() ==> (#[trigger] self.screen.hit[i]).cell
                < self.notebook.cells.len()
    }

    pub open spec fn with_screen(self, screen: ScreenView) -> AppView {
        AppView { screen, ..self }
    }

    /// The view scrolled by a wheel tick.
    pub open spec fn view_scrolled(self, down: bool) -> AppView {
        let max = if self.screen.content_lines > 0 {
            (self.screen.content_lines - 1) as usize
        } else {
            0
        };
        let to = wheeled(self.screen.scroll, down);
        self.with_screen(
            ScreenView {
                scroll: if to <= max {
                    to
                } else {
                    max
                },
                manual_scroll: true,
                ..self.screen
            },
        )
    }

    pub open spec fn latched(self, now: u64, target: WheelTarget) -> AppView {
        self.with_screen(ScreenView { wheel_latch: Some((now, target)), ..self.screen })
    }
}

/// An output scrolled by a tick, and what the gesture is for after it: at the
/// edge it is handed on to the view.
#[verifier::opaque]
pub open spec fn output_ticked(ui: RenderedView, target: WheelTarget, down: bool) -> (
    RenderedView,
    WheelTarget,
) {
    match target {
        WheelTarget::View => (ui, WheelTarget::View),
        WheelTarget::Output(cell) => {
            let i = cell as int;
            if i < ui.blocks.len() && ui.blocks[i].scrollable() {
                let b = ui.blocks[i];
                let d = if down {
                    WHEEL_ROWS as int
                } else {
                    -(WHEEL_ROWS as int)
                };
                (
                    ui.output_scrolled(i, d),
                    if b.scrolled(d).win_start() == b.win_start() {
                        WheelTarget::View
                    } else {
                        target
                    },
                )
            } else {
                (ui, WheelTarget::View)
            }
        },
    }
}

impl State {
    /// What a new wheel gesture is for: the output under the pointer if it can
    /// scroll, else the view.
    pub open spec fn hovered(self, column: int, row: int) -> WheelTarget {
        if self.app.screen.body.holds(column, row) {
            match self.app.hit_at(row) {
                Some(h) => if h.kind == HitKind::Output && h.cell < self.ui.blocks.len()
                    && self.ui.blocks[h.cell as int].scrollable() {
                    WheelTarget::Output(h.cell)
                } else {
                    WheelTarget::View
                },
                None => WheelTarget::View,
            }
        } else {
            WheelTarget::View
        }
    }

    /// What a wheel tick is for. Ticks less than a pause apart form one
    /// gesture, and the gesture keeps its initial target — a view scroll is
    /// never captured by an output that merely slides under the pointer. A
    /// fresh gesture re-decides from hover.
    pub open spec fn wheel_target(self, column: int, row: int, now: u64) -> WheelTarget {
        match self.app.screen.wheel_latch {
            Some((t, target)) => if now.saturating_sub(t) < GESTURE_GAP {
                target
            } else {
                self.hovered(column, row)
            },
            None => self.hovered(column, row),
        }
    }

    /// A wheel tick over the notebook.
    pub open spec fn scrolled(self, column: int, row: int, down: bool, now: u64) -> State {
        self.ticked(self.wheel_target(column, row, now), down, now)
    }

    /// A wheel tick for a target.
    pub open spec fn ticked(self, target: WheelTarget, down: bool, now: u64) -> State {
        let (ui, target) = output_ticked(self.ui, target, down);
        let a = if target == WheelTarget::View {
            self.app.view_scrolled(down)
        } else {
            self.app
        };
        State { app: a.latched(now, target), ui }
    }

    /// Whether a click is the second of a double click.
    pub open spec fn doubles(self, x: u16, y: u16, now: u64) -> bool {
        match self.app.screen.last_click {
            Some((t, px, py)) => now.saturating_sub(t) < GESTURE_GAP && px == x && py == y,
            None => false,
        }
    }

    /// A click's cell selected; another cell's editor is closed first. A click
    /// never scrolls the view.
    pub open spec fn cell_clicked(self, cell: int, x: u16, y: u16, now: u64) -> State {
        let s = self.on(
            self.app.with_screen(
                ScreenView { last_click: Some((now, x, y)), ..self.app.screen },
            ),
        );
        let t = if s.app.editor is Some && cell != s.app.selected {
            s.committed()
        } else {
            s
        };
        let a = t.app.at_cell(cell);
        t.on(a.with_screen(ScreenView { manual_scroll: true, ..a.screen }))
    }

    /// A click on source text: the cursor goes there.
    pub open spec fn text_clicked(self, row: usize, col: usize, double: bool) -> State {
        match self.app.editor {
            Some(e) => {
                let a = self.app.with_editor(Some(e.clicked(row as int, col as int, double)));
                self.on(
                    match e.click_move(row, col as int, double) {
                        Some(m) => a.emitting(EffectView::Nvim(m)),
                        None => a,
                    },
                )
            },
            None => self.on(
                self.app.opening(AfterOpen::Click { row, col, insert: double }),
            ),
        }
    }

    /// Whether the selected cell is markdown.
    pub open spec fn on_markdown(self) -> bool {
        self.app.current() matches Some(c) && c.cell_type == "markdown"@
    }

    /// A click on a row of a cell.
    pub open spec fn hit_clicked(self, h: Hit, x: u16, y: u16, now: u64) -> State {
        let double = self.doubles(x, y, now);
        let s = self.cell_clicked(h.cell as int, x, y, now);
        match h.kind {
            // markdown renders rich when not edited: a single click only
            // selects; a double click opens the raw source at the line
            HitKind::Source { line, col } => if s.on_markdown() && !double && s.app.editor is None {
                s
            } else {
                let over = (x - self.app.screen.body.x) as u16;
                s.text_clicked(
                    line,
                    col.saturating_add(over.saturating_sub(GUTTER) as usize),
                    double,
                )
            },
            // double click on rendered markdown / prompt / output: edit raw
            _ => if double && s.app.editor is None {
                s.on(s.app.opening(AfterOpen::Nothing))
            } else {
                s
            },
        }
    }

    pub open spec fn clicked(self, x: u16, y: u16, now: u64) -> State {
        let body = self.app.screen.body;
        if y < body.y || y >= body.y + body.height || x < body.x {
            self
        } else {
            match self.app.hit_at(y as int) {
                Some(h) => if h.cell < self.app.notebook.cells.len() {
                    self.hit_clicked(h, x, y, now)
                } else {
                    // drawn before the cell went away
                    self
                },
                None => self,
            }
        }
    }

    /// A pointer event.
    pub open spec fn pointed(self, mouse: MouseEvent, now: u64) -> State {
        let o = self.app.overlay;
        let wheels = mouse.kind == MouseKind::ScrollUp || mouse.kind == MouseKind::ScrollDown;
        let down = mouse.kind == MouseKind::ScrollDown;
        if let Some(p) = o.pager {
            self.on(
                self.app.with_overlay(
                    OverlayView {
                        pager: Some(
                            if wheels {
                                PagerView { top: wheeled(p.top, down), ..p }
                            } else {
                                p
                            },
                        ),
                        ..o
                    },
                ),
            )
        } else if let Some(up) = o.logs {
            self.on(
                self.app.with_overlay(
                    OverlayView {
                        logs: Some(
                            if wheels {
                                wheeled(up, !down)
                            } else {
                                up
                            },
                        ),
                        ..o
                    },
                ),
            )
        } else if self.app.covered() || o.confirm is Some {
            // overlay/question owns the screen; keys close it
            self
        } else {
            let s = if mouse.kind == MouseKind::Other {
                self
            } else {
                // manual movement
                self.on(self.app.following(false))
            };
            if wheels {
                s.scrolled(mouse.column as int, mouse.row as int, down, now)
            } else if mouse.kind == MouseKind::DownLeft {
                s.clicked(mouse.column, mouse.row, now)
            } else {
                s
            }
        }
    }
}

impl App {
    fn scroll_view(&mut self, down: bool)
        ensures
            final(self)@ == old(self)@.view_scrolled(down),
    {
        let max = if self.content_lines > 0 {
            self.content_lines - 1
        } else {
            0
        };
        let to = wheel(self.scroll, down);
        self.scroll = if to <= max {
            to
        } else {
            max
        };
        self.manual_scroll = true;
    }

    fn row_hit(&self, y: u16) -> (r: Option<Hit>)
        ensures
            r == self@.hit_at(y as int),
    {
        if y < self.body.y {
            return None;
        }
        let i = (y - self.body.y) as usize;
        if i < self.hit.len() {
            Some(self.hit[i])
        } else {
            None
        }
    }

    fn hover(&self, column: u16, row: u16, rendered: &Rendered) -> (r: WheelTarget)
        requires
            state(self, rendered).wf(),
        ensures
            r == state(self, rendered).hovered(column as int, row as int),
    {
        if self.body.contains(column, row) {
            if let Some(h) = self.row_hit(row) {
                assert(rendered.blocks@.len() == rendered@.blocks.len());
                if h.kind == HitKind::Output && h.cell < rendered.blocks.len() {
                    assert(rendered@.blocks[h.cell as int] == rendered.blocks@[h.cell as int]@);
                    assert(rendered@.blocks[h.cell as int].wf());
                    if rendered.blocks[h.cell].output_scrollable() {
                        return WheelTarget::Output(h.cell);
                    }
                }
            }
        }
        WheelTarget::View
    }

    fn on_wheel(
        &mut self,
        column: u16,
        row: u16,
        down: bool,
        now: u64,
        rendered: &mut Rendered,
    )
        requires
            state(old(self), old(rendered)).wf(),
        ensures
            state(final(self), final(rendered)) == state(old(self), old(rendered)).scrolled(
                column as int,
                row as int,
                down,
                now,
            ),
            state(final(self), final(rendered)).wf(),
    {
        let target = self.gesture(column, row, now, rendered);
        self.tick(target, down, now, rendered);
    }

    fn gesture(&self, column: u16, row: u16, now: u64, rendered: &Rendered) -> (r: WheelTarget)
        requires
            state(self, rendered).wf(),
        ensures
            r == state(self, rendered).wheel_target(column as int, row as int, now),
    {
        match self.wheel_latch {
            Some((t, target)) => if now.saturating_sub(t) < GESTURE_GAP {
                target
            } else {
                self.hover(column, row, rendered)
            },
            None => self.hover(column, row, rendered),
        }
    }

    fn tick(&mut self, target: WheelTarget, down: bool, now: u64, rendered: &mut Rendered)
        requires
            state(old(self), old(rendered)).wf(),
        ensures
            state(final(self), final(rendered)) == state(old(self), old(rendered)).ticked(
                target,
                down,
                now,
            ),
            state(final(self), final(rendered)).wf(),
    {
        let target = wheel_output(target, down, rendered);
        if target == WheelTarget::View {
            self.scroll_view(down);
        }
        self.latch(now, target);
    }

    fn latch(&mut self, now: u64, target: WheelTarget)
        ensures
            final(self)@ == old(self)@.latched(now, target),
    {
        self.wheel_latch = Some((now, target));
    }

    fn click_cell(&mut self, cell: usize, x: u16, y: u16, now: u64, rendered: &mut Rendered)
        requires
            state(old(self), old(rendered)).wf(),
            cell < old(self)@.notebook.cells.len(),
        ensures
            state(final(self), final(rendered)) == state(old(self), old(rendered)).cell_clicked(
                cell as int,
                x,
                y,
                now,
            ),
            state(final(self), final(rendered)).wf(),
    {
        self.note_click(x, y, now);
        if self.editor.is_some() && cell != self.selected {
            self.commit_editor(rendered);
        }
        self.select(cell);
        self.manual_scroll = true;
    }

    fn note_click(&mut self, x: u16, y: u16, now: u64)
        ensures
            final(self)@ == old(self)@.with_screen(
                ScreenView { last_click: Some((now, x, y)), ..old(self)@.screen },
            ),
    {
        self.last_click = Some((now, x, y));
    }

    fn click_editor(&mut self, row: usize, col: usize, double: bool) -> (r: Option<NvimMove>)
        requires
            old(self)@.wf(),
            old(self)@.editor is Some,
        ensures
            ({
                let e = old(self)@.editor->Some_0;
                &&& final(self)@ == old(self)@.with_editor(
                    Some(e.clicked(row as int, col as int, double)),
                )
                &&& opt_view(r) == e.click_move(row, col as int, double)
            }),
            final(self)@.wf(),
    {
        match &mut self.editor {
            Some(e) => e.click(row, col, double),
            None => None,
        }
    }

    fn click_text(&mut self, row: usize, col: usize, double: bool, rendered: &Rendered)
        requires
            state(old(self), rendered).wf(),
        ensures
            state(final(self), rendered) == state(old(self), rendered).text_clicked(
                row,
                col,
                double,
            ),
            state(final(self), rendered).wf(),
    {
        if self.editor.is_some() {
            if let Some(m) = self.click_editor(row, col, double) {
                self.emit(Effect::Nvim(m));
            }
        } else {
            self.open_editor(AfterOpen::Click { row, col, insert: double });
        }
    }

    fn is_on_markdown(&self, Ghost(s): Ghost<State>) -> (r: bool)
        requires
            s.app == self@,
        ensures
            r == s.on_markdown(),
    {
        if self.selected < self.notebook.cells.len() {
            assert(self@.current() == Some(self.notebook.cells@[self.selected as int]@));
            text::same(self.notebook.cells[self.selected].cell_type.as_str(), "markdown")
        } else {
            false
        }
    }

    fn click_hit(&mut self, h: Hit, x: u16, y: u16, now: u64, rendered: &mut Rendered)
        requires
            state(old(self), old(rendered)).wf(),
            h.cell < old(self)@.notebook.cells.len(),
            old(self)@.screen.body.x <= x,
        ensures
            state(final(self), final(rendered)) == state(old(self), old(rendered)).hit_clicked(
                h,
                x,
                y,
                now,
            ),
            state(final(self), final(rendered)).wf(),
    {
        let double = match self.last_click {
            Some((t, px, py)) => now.saturating_sub(t) < GESTURE_GAP && px == x && py == y,
            None => false,
        };
        let over = x - self.body.x;
        self.click_cell(h.cell, x, y, now, rendered);
        match h.kind {
            HitKind::Source { line, col } => {
                if self.is_on_markdown(Ghost(state(self, rendered))) && !double
                    && self.editor.is_none() {
                    return;
                }
                let col = col.saturating_add(over.saturating_sub(GUTTER) as usize);
                self.click_text(line, col, double, rendered);
            },
            _ => {
                if double && self.editor.is_none() {
                    self.open_editor(AfterOpen::Nothing);
                }
            },
        }
    }

    fn click(&mut self, x: u16, y: u16, now: u64, rendered: &mut Rendered)
        requires
            state(old(self), old(rendered)).wf(),
        ensures
            state(final(self), final(rendered)) == state(old(self), old(rendered)).clicked(
                x,
                y,
                now,
            ),
            state(final(self), final(rendered)).wf(),
    {
        let body = self.body;
        if y < body.y || (y - body.y) >= body.height || x < body.x {
            return;
        }
        // the hit map is window-relative (only visible rows are materialized)
        if let Some(h) = self.row_hit(y) {
            // a row drawn before its cell went away points nowhere
            if h.cell < self.notebook.cells.len() {
                self.click_hit(h, x, y, now, rendered);
            }
        }
    }

    fn wheel_pager(&mut self, down: bool)
        requires
            old(self)@.overlay.pager is Some,
        ensures
            ({
                let o = old(self)@.overlay;
                let p = o.pager->Some_0;
                final(self)@ == old(self)@.with_overlay(
                    OverlayView {
                        pager: Some(PagerView { top: wheeled(p.top, down), ..p }),
                        ..o
                    },
                )
            }),
    {
        if let Some(p) = &mut self.pager {
            p.top = wheel(p.top, down);
        }
    }

    /// A pointer event at the time `now` (in milliseconds).
    pub fn on_mouse(&mut self, mouse: MouseEvent, now: u64, rendered: &mut Rendered)
        requires
            state(old(self), old(rendered)).wf(),
        ensures
            state(final(self), final(rendered)) == state(old(self), old(rendered)).pointed(
                mouse,
                now,
            ),
            state(final(self), final(rendered)).wf(),
    {
        let wheels = mouse.kind == MouseKind::ScrollUp || mouse.kind == MouseKind::ScrollDown;
        let down = mouse.kind == MouseKind::ScrollDown;
        if self.pager.is_some() {
            if wheels {
                self.wheel_pager(down);
            }
            return;
        }
        if let Some(up) = self.logs {
            if wheels {
                self.logs = Some(wheel(up, !down));
            }
            return;
        }
        if self.zoom.is_some() || self.show_help || self.debug.is_some() || self.confirm.is_some() {
            return;
        }
        if mouse.kind != MouseKind::Other {
            self.follow = false;
        }
        if wheels {
            self.on_wheel(mouse.column, mouse.row, down, now, rendered);
        } else if mouse.kind == MouseKind::DownLeft {
            self.click(mouse.column, mouse.row, now, rendered);
        }
    }
}

/// Scrolls a cell's output by a tick; what the gesture is for after it.
fn wheel_output(target: WheelTarget, down: bool, rendered: &mut Rendered) -> (r: WheelTarget)
    requires
        old(rendered).wf(),
    ensures
        (final(rendered)@, r) == output_ticked(old(rendered)@, target, down),
        final(rendered)@.blocks.len() == old(rendered)@.blocks.len(),
        final(rendered).wf(),
{
    proof {
        reveal(output_ticked);
    }
    let cell = match target {
        WheelTarget::View => {
            return WheelTarget::View;
        },
        WheelTarget::Output(cell) => cell,
    };
    assert(rendered.blocks@.len() == rendered@.blocks.len());
    if cell >= rendered.blocks.len() {
        return WheelTarget::View;
    }
    assert(rendered@.blocks[cell as int] == rendered.blocks@[cell as int]@);
    assert(rendered@.blocks[cell as int].wf());
    if !rendered.blocks[cell].output_scrollable() {
        return WheelTarget::View;
    }
    let before = rendered.blocks[cell].win_start();
    let delta: isize = if down {
        3
    } else {
        -3
    };
    rendered.scroll_cell(cell, delta);
    assert(rendered.blocks@.len() == rendered@.blocks.len());
    assert(rendered@.blocks[cell as int] == rendered.blocks@[cell as int]@);
    assert(rendered@.blocks[cell as int].wf());
    if rendered.blocks[cell].win_start() == before {
        WheelTarget::View // edge: hand off
    } else {
        WheelTarget::Output(cell)
    }
}

/// A gesture that scrolls the view keeps scrolling the view, whatever slides
/// under the pointer.
pub proof fn law_a_view_gesture_stays_with_the_view(
    s: State,
    column: int,
    row: int,
    down: bool,
    t: u64,
    now: u64,
)
    requires
        s.app.screen.wheel_latch == Some((t, WheelTarget::View)),
        t <= now < t + GESTURE_GAP,
    ensures
        s.scrolled(column, row, down, now).ui == s.ui,
        s.scrolled(column, row, down, now).app.screen.wheel_latch == Some(
            (now, WheelTarget::View),
        ),
{
    reveal(output_ticked);
}

/// A gesture that scrolls an output leaves the view where it is, until the
/// output's edge.
pub proof fn law_an_output_gesture_leaves_the_view(
    s: State,
    column: int,
    row: int,
    down: bool,
    now: u64,
)
    ensures
        s.scrolled(column, row, down, now).app.screen.wheel_latch != Some(
            (now, WheelTarget::View),
        ) ==> s.scrolled(column, row, down, now).app.screen.scroll == s.app.screen.scroll,
{
}

} // verus!
