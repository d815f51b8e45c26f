//! What the pointer does, and what the frame tells of the session.

#[allow(unused_imports)]
use vstd::prelude::*;

#[allow(unused_imports)]
use crate::app::{AppView, Hit, HitKind, State, WheelTarget};
#[allow(unused_imports)]
use crate::draw::run_of;
#[allow(unused_imports)]
use crate::edit_keys::lemma_committed;
#[allow(unused_imports)]
use crate::editor::{EditorView, Mode};
#[allow(unused_imports)]
use crate::ids::value_of;
#[allow(unused_imports)]
use crate::keys::{MouseEvent, MouseKind};
#[allow(unused_imports)]
use crate::nvim::BackendView;
#[allow(unused_imports)]
use crate::pointer::output_ticked;
#[allow(unused_imports)]
use crate::text::{decimal, lemma_join_split};

verus! {

/// Nothing is open over the notebook.
pub open spec fn bare_screen(s: State) -> bool {
    &&& s.wf()
    &&& s.app.overlay.pager is None
    &&& s.app.overlay.logs is None
    &&& !s.app.overlay.show_help
    &&& s.app.overlay.debug is None
    &&& s.app.overlay.zoom is None
    &&& s.app.overlay.confirm is None
}

/// A click at (x, y) is on a row of the screen that shows `h`.
pub open spec fn click_on(s: State, x: u16, y: u16, h: Hit) -> bool {
    let body = s.app.screen.body;
    let i = y as int - body.y as int;
    &&& bare_screen(s)
    &&& body.y <= y < body.y + body.height
    &&& body.x <= x
    &&& 0 <= i < s.app.screen.hit.len()
    &&& s.app.screen.hit[i] == h
    &&& h.cell < s.app.notebook.cells.len()
}

pub open spec fn left(x: u16, y: u16) -> MouseEvent {
    MouseEvent { kind: MouseKind::DownLeft, column: x, row: y }
}

/// The first click at a place, or the first for a while.
pub open spec fn single(s: State, x: u16, y: u16, now: u64) -> bool {
    s.app.screen.last_click matches Some((t, a, b)) ==> a != x || b != y || now >= t + 400
}

/// A click selects the cell under the pointer. On a prompt or an output it
/// does no more.
pub proof fn law_a_click_selects(s: State, x: u16, y: u16, h: Hit, now: u64)
    requires
        click_on(s, x, y, h),
        single(s, x, y, now),
        s.app.editor is None,
    ensures
        ({
            let t = s.pointed(left(x, y), now);
            &&& t.app.selected == h.cell
            &&& t.app.notebook == s.app.notebook
            &&& t.app.file == s.app.file
            &&& !(h.kind is Source) ==> t.app.editor is None && t.app.effects == s.app.effects
            &&& s.app.notebook.cells[h.cell as int].cell_type == "markdown"@ ==> t.app.editor is None
                && t.app.effects == s.app.effects
        }),
{
}

/// A click on the text of a code cell opens the builtin editor there, on the
/// line and the column under the pointer, as far as there is text; nothing is
/// changed.
pub proof fn law_a_click_puts_the_cursor(
    s: State,
    x: u16,
    y: u16,
    h: Hit,
    now: u64,
    line: usize,
    col: usize,
)
    requires
        click_on(s, x, y, h),
        single(s, x, y, now),
        s.app.editor is None,
        h.kind == (HitKind::Source { line, col }),
        s.app.notebook.cells[h.cell as int].cell_type == "code"@,
        s.app.config.editor != "nvim"@,
        col + x <= usize::MAX,
    ensures
        ({
            let t = s.pointed(left(x, y), now);
            let text = s.app.notebook.cells[h.cell as int].source;
            &&& t.app.selected == h.cell
            &&& t.app.notebook == s.app.notebook
            &&& t.app.editor matches Some(BackendView::Builtin(e)) && {
                let last = e.lines[e.row].len() as int - 1;
                let over = col + (x - s.app.screen.body.x);
                &&& e.source() == text
                &&& e.mode == Mode::Normal
                &&& e.row == (if line < e.lines.len() {
                    line as int
                } else {
                    e.lines.len() - 1
                })
                &&& e.col == (if over <= last {
                    over
                } else if last >= 0 {
                    last
                } else {
                    0
                })
            }
        }),
{
    reveal_strlit("code");
    reveal_strlit("markdown");
    assert("code"@.len() == 4 && "markdown"@.len() == 8);
    let text = s.app.notebook.cells[h.cell as int].source;
    lemma_join_split(text, '\n');
    crate::text::lemma_split_nonempty(text, '\n');
}

/// A click on another cell while one is edited puts the text into the edited
/// cell first.
pub proof fn law_a_click_elsewhere_commits(
    s: State,
    x: u16,
    y: u16,
    h: Hit,
    now: u64,
    e: EditorView,
)
    requires
        click_on(s, x, y, h),
        single(s, x, y, now),
        s.app.editor == Some(BackendView::Builtin(e)),
        h.cell != s.app.selected,
        !(h.kind is Source),
    ensures
        ({
            let t = s.pointed(left(x, y), now);
            let (cells, at) = (s.app.notebook.cells, s.app.selected);
            &&& t.app.editor is None
            &&& t.app.selected == h.cell
            &&& t.app.notebook.cells.len() == cells.len()
            &&& t.app.notebook.cells[at].source == e.source()
            &&& forall|k: int|
                0 <= k < cells.len() && k != at ==> #[trigger] t.app.notebook.cells[k] == cells[k]
        }),
{
    let f = s.on(s.app.following(false));
    let g = f.on(
        f.app.with_screen(
            crate::app::ScreenView { last_click: Some((now, x, y)), ..f.app.screen },
        ),
    );
    lemma_committed(g, e);
}

/// The wheel over the view scrolls it by three rows, down or up, within the
/// content; nothing else changes.
pub proof fn law_the_wheel_scrolls_the_view(s: State, mouse: MouseEvent, now: u64)
    requires
        bare_screen(s),
        mouse.kind == MouseKind::ScrollDown || mouse.kind == MouseKind::ScrollUp,
        s.wheel_target(mouse.column as int, mouse.row as int, now) == WheelTarget::View,
    ensures
        ({
            let t = s.pointed(mouse, now);
            let last = if s.app.screen.content_lines > 0 {
                s.app.screen.content_lines - 1
            } else {
                0
            };
            let to = if mouse.kind == MouseKind::ScrollDown {
                s.app.screen.scroll + 3
            } else if s.app.screen.scroll > 3 {
                s.app.screen.scroll - 3
            } else {
                0
            };
            &&& t.app.screen.scroll == (if to <= last {
                to
            } else {
                last
            })
            &&& t.app.notebook == s.app.notebook
            &&& t.app.selected == s.app.selected
            &&& t.ui == s.ui
            &&& t.app.effects == s.app.effects
        }),
{
    reveal(output_ticked);
}

/// A fresh turn of the wheel over an output that can scroll scrolls that
/// output by three rows, and not the view while it goes.
pub proof fn law_the_wheel_scrolls_an_output(s: State, mouse: MouseEvent, h: Hit, now: u64)
    requires
        bare_screen(s),
        mouse.kind == MouseKind::ScrollDown || mouse.kind == MouseKind::ScrollUp,
        s.app.screen.wheel_latch is None,
        s.app.screen.body.holds(mouse.column as int, mouse.row as int),
        s.app.hit_at(mouse.row as int) == Some(h),
        h.kind == HitKind::Output,
        h.cell < s.ui.blocks.len(),
        s.ui.blocks[h.cell as int].scrollable(),
        s.ui.blocks[h.cell as int].lines.len() <= usize::MAX,
    ensures
        ({
            let t = s.pointed(mouse, now);
            let b = s.ui.blocks[h.cell as int];
            let max = b.max_out_scroll();
            let to = if mouse.kind == MouseKind::ScrollDown {
                b.win_start() + 3
            } else {
                b.win_start() - 3
            };
            &&& t.ui.blocks.len() == s.ui.blocks.len()
            &&& t.ui.blocks[h.cell as int].win_start() == (if to < 0 {
                0
            } else if to > max {
                max
            } else {
                to
            })
            &&& forall|k: int|
                0 <= k < s.ui.blocks.len() && k != h.cell ==> #[trigger] t.ui.blocks[k]
                    == s.ui.blocks[k]
            &&& t.ui.blocks[h.cell as int].win_start() != b.win_start() ==> t.app.screen.scroll
                == s.app.screen.scroll
            &&& t.app.notebook == s.app.notebook
        }),
{
    reveal(output_ticked);
    let b = s.ui.blocks[h.cell as int];
    assert(b.wf());
    let t = s.pointed(mouse, now);
    let c = t.ui.blocks[h.cell as int];
    assert(c == b.scrolled(if mouse.kind == MouseKind::ScrollDown {
        3
    } else {
        -3
    }));
    assert(c.max_out_scroll() == b.max_out_scroll());
}

/// The second click of a double click on a code cell's text opens the editor
/// there to type.
pub proof fn law_a_double_click_types(
    s: State,
    x: u16,
    y: u16,
    h: Hit,
    now: u64,
    line: usize,
    col: usize,
    first: u64,
)
    requires
        click_on(s, x, y, h),
        s.app.screen.last_click == Some((first, x, y)),
        first <= now < first + 400,
        s.app.editor is None,
        h.kind == (HitKind::Source { line, col }),
        s.app.config.editor != "nvim"@,
    ensures
        ({
            let t = s.pointed(left(x, y), now);
            let text = s.app.notebook.cells[h.cell as int].source;
            &&& t.app.selected == h.cell
            &&& t.app.notebook == s.app.notebook
            &&& t.app.editor matches Some(BackendView::Builtin(e)) && e.source() == text && e.mode
                == Mode::Insert && (line < e.lines.len() ==> e.row == line)
        }),
{
    let text = s.app.notebook.cells[h.cell as int].source;
    lemma_join_split(text, '\n');
    crate::text::lemma_split_nonempty(text, '\n');
}

/// With the log or the pager open, the wheel scrolls it by three rows.
pub proof fn law_the_wheel_scrolls_overlays(s: State, mouse: MouseEvent, now: u64)
    requires
        mouse.kind == MouseKind::ScrollDown || mouse.kind == MouseKind::ScrollUp,
    ensures
        ({
            let t = s.pointed(mouse, now);
            let down = mouse.kind == MouseKind::ScrollDown;
            &&& s.app.overlay.pager matches Some(p) ==> (t.app.overlay.pager matches Some(q) && q.text
                == p.text && (down && p.top + 3 <= usize::MAX ==> q.top == p.top + 3) && (!down
                ==> q.top == (if p.top > 3 {
                p.top - 3
            } else {
                0
            })))
            &&& s.app.overlay.pager is None ==> (s.app.overlay.logs matches Some(up) ==> (
            t.app.overlay.logs matches Some(n) && (!down && up + 3 <= usize::MAX ==> n == up + 3)
                && (down ==> n == (if up > 3 {
                up - 3
            } else {
                0
            }))))
        }),
{
}

/// A cell that was sent to the kernel is shown as waiting, and as running once
/// the kernel started it; any other as idle.
pub proof fn law_what_runs_is_shown(
    running: Seq<(Seq<char>, usize)>,
    started: Seq<(Seq<char>, u64)>,
    cell: int,
    k: int,
)
    requires
        0 <= k <= running.len(),
        forall|i: int| 0 <= i < k ==> (#[trigger] running[i]).1 != cell,
    ensures
        k == running.len() ==> run_of(running, started, cell) is None,
        k < running.len() && running[k].1 == cell ==> run_of(running, started, cell) == Some(
            value_of(started, running[k].0) is Some,
        ),
    decreases k,
{
    if k > 0 {
        let t = running.skip(1);
        assert forall|i: int| 0 <= i < k - 1 implies (#[trigger] t[i]).1 != cell by {
            assert(t[i] == running[i + 1]);
        }
        law_what_runs_is_shown(t, started, cell, k - 1);
        assert(running[0].1 != cell);
    }
}

/// The status line shows the path, whether there are unsaved changes, which
/// cell of how many is selected, the kernel's state, and last a question, a
/// prompt or a message.
pub proof fn law_the_status_line(a: AppView)
    ensures
        ({
            let l = a.status_line();
            &&& l.spans.len() == 4
            &&& l.spans[1].content == " "@ + a.file.path + (if a.file.dirty {
                " [+]"@
            } else {
                ""@
            }) + "  cell "@ + decimal(a.selected + 1) + "/"@ + decimal(
                a.notebook.cells.len() as int,
            ) + "  "@
            &&& a.editor is None ==> l.spans[0].content == " VIEW "@
            &&& a.run.kernel is None ==> l.spans[2].content == "◌ no kernel"@
            &&& a.run.kernel is Some && a.run.kernel_busy ==> l.spans[2].content == "● busy"@
            &&& a.run.kernel is Some && !a.run.kernel_busy ==> l.spans[2].content == "○ idle"@
            &&& a.overlay.confirm matches Some(c) ==> l.spans[3].content == "  "@ + c.question()
            &&& a.overlay.confirm is None && a.overlay.prompt is None && a.editor is None ==> (
            a.message matches Some(m) ==> l.spans[3].content == "  "@ + m)
        }),
{
}

} // verus!
