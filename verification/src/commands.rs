//! The notebook's own keys, and the way of every key.

use vstd::prelude::*;

use crate::app::{
    Action, AfterOpen, AfterSave, App, Confirm, Effect, Moment, Prompt, PromptKind,
};
#[allow(unused_imports)]
use crate::app::{
    state, AfterSaveView, AppView, ConfirmView, EffectView, InputView, MomentView, OverlayView,
    PromptView, ScreenView, State,
};
#[allow(unused_imports)]
use crate::edits::bad_metadata;
use crate::json::Json;
use crate::keys::{KeyCode, KeyEvent, KeyModifiers};
#[allow(unused_imports)]
use crate::keys::no_modifiers;
use crate::log::Level;
use crate::notebook;
#[allow(unused_imports)]
use crate::notebook::CellView;
use crate::pictures;
#[allow(unused_imports)]
use crate::pictures::clipboard_sequence;
use crate::text;
#[allow(unused_imports)]
use crate::text::{is_ascii_digit, opt_view, replaced};
use crate::ui::{Rendered, Zoom};
#[allow(unused_imports)]
use crate::ui::{zoom_of, ZoomView};

verus! {

/// How far a count moves: at least one.
pub open spec fn step_of(count: Option<usize>) -> int {
    match count {
        Some(n) => if n >= 1 {
            n as int
        } else {
            1
        },
        None => 1,
    }
}

/// A count with one more digit.
pub open spec fn counting(count: Option<usize>, c: char) -> usize {
    let n = (match count {
        Some(n) => n as int,
        None => 0,
    }) * 10 + (c as int - '0' as int);
    if n <= usize::MAX {
        n as usize
    } else {
        usize::MAX
    }
}

impl AppView {
    /// A picture over the whole screen, or none.
    pub open spec fn zoomed(self, zoom: Option<ZoomView>) -> AppView {
        self.with_overlay(OverlayView { zoom, ..self.overlay }).said(
            if zoom is Some {
                "zoom — any key closes"@
            } else {
                "no image output in this cell"@
            },
        )
    }
}

impl State {
    /// The selection `n` cells down, or on the last one.
    pub open spec fn moved_down(self, n: int) -> State {
        let last = AppView::last_cell(self.app.notebook);
        self.on(
            self.app.at_cell(
                if self.app.selected + n <= last {
                    self.app.selected + n
                } else {
                    last
                },
            ),
        )
    }

    /// The selection `n` cells up, or on the first one.
    pub open spec fn moved_up(self, n: int) -> State {
        self.on(
            self.app.at_cell(
                if self.app.selected >= n {
                    self.app.selected - n
                } else {
                    0
                },
            ),
        )
    }

    /// The last cell, or the one that a count names (1-based, like vim).
    pub open spec fn gone_to(self, count: Option<usize>) -> State {
        let last = AppView::last_cell(self.app.notebook);
        self.on(
            self.app.at_cell(
                match count {
                    Some(n) => if n >= 1 && n - 1 <= last {
                        n - 1
                    } else if n == 0 {
                        0
                    } else {
                        last
                    },
                    None => last,
                },
            ),
        )
    }

    pub open spec fn awaiting(self, c: char) -> State {
        self.on(
            AppView { input: InputView { pending: Some(c), ..self.app.input }, ..self.app },
        )
    }

    /// Moving about: `j k g G n N`, and the chords that `d` and `y` start.
    #[verifier::opaque]
    pub open spec fn moving_key(self, c: char, count: Option<usize>) -> State {
        if c == 'j' {
            self.moved_down(step_of(count))
        } else if c == 'k' {
            self.moved_up(step_of(count))
        } else if c == 'g' {
            self.on(self.app.at_cell(0))
        } else if c == 'G' {
            self.gone_to(count)
        } else if c == 'n' {
            self.on(self.app.found(1))
        } else if c == 'N' {
            self.on(self.app.found(-1))
        } else {
            self.awaiting(c)
        }
    }

    /// The file and the overlays: `q w W S / ? L`.
    #[verifier::opaque]
    pub open spec fn file_key(self, c: char, on_disk: Option<u64>) -> State {
        if c == 'q' {
            self.on(
                if self.app.file.dirty {
                    self.app.with_confirm(Some(ConfirmView::Quit))
                } else {
                    AppView { should_quit: true, ..self.app }
                },
            )
        } else if c == 'w' {
            self.on(self.app.saving(false, on_disk, AfterSaveView::Nothing))
        } else if c == 'W' {
            self.on(self.app.saving(true, on_disk, AfterSaveView::Nothing))
        } else if c == 'S' {
            self.on(
                AppView {
                    input: InputView { overwrite_armed: None, ..self.app.input },
                    ..self.app
                }.with_prompt(
                    Some(PromptView { kind: PromptKind::SaveAs, buf: self.app.file.path }),
                ),
            )
        } else if c == '/' {
            self.on(
                self.app.with_prompt(
                    Some(PromptView { kind: PromptKind::Search, buf: Seq::empty() }),
                ),
            )
        } else if c == '?' {
            self.on(
                self.app.with_overlay(OverlayView { show_help: true, ..self.app.overlay }),
            )
        } else {
            self.on(
                self.app.with_overlay(OverlayView { logs: Some(0), ..self.app.overlay }),
            )
        }
    }

    /// The cells: `u C M a b p J K m`.
    #[verifier::opaque]
    pub open spec fn cell_key(self, c: char, id: Seq<char>) -> State {
        let at = self.app.selected;
        if c == 'u' {
            self.undone()
        } else if c == 'C' {
            self.outputs_cleared(0, self.app.notebook.cells.len() as int)
        } else if c == 'M' {
            self.merged()
        } else if c == 'a' {
            self.cell_inserted(at + 1, CellView::new_code(id))
        } else if c == 'b' {
            self.cell_inserted(at, CellView::new_code(id))
        } else if c == 'p' {
            match self.app.yanked {
                Some(cell) => self.cell_inserted(at + 1, cell.with_id(id)),
                None => self,
            }
        } else if c == 'J' {
            self.cell_moved(1)
        } else if c == 'K' {
            self.cell_moved(-1)
        } else {
            self.retyped()
        }
    }

    /// Running: `X`, space, `< > R`.
    #[verifier::opaque]
    pub open spec fn run_key(self, c: char) -> State {
        let at = self.app.selected;
        let n = self.app.notebook.cells.len() as int;
        if c == 'X' {
            self.ran_range(0, n)
        } else if c == ' ' {
            self.ran(at)
        } else if c == '<' {
            self.ran_range(0, at)
        } else if c == '>' {
            self.ran_range(at, n)
        } else if self.app.run.kernel is None && !self.app.run.kernel_starting {
            // a live kernel holds state worth a confirmation; a dead one not
            self.on(self.app.restarting(false))
        } else {
            self.on(self.app.with_confirm(Some(ConfirmView::Restart)))
        }
    }

    /// Looking: `o [ ] D z Z`. A picture to zoom is made by the host first.
    #[verifier::opaque]
    pub open spec fn look_key(self, c: char) -> State {
        let at = self.app.selected;
        if c == 'o' {
            State { ui: self.ui.folded(at), ..self }
        } else if c == '[' {
            State { ui: self.ui.output_scrolled(at, -1), ..self }
        } else if c == ']' {
            State { ui: self.ui.output_scrolled(at, 1), ..self }
        } else if c == 'D' {
            let text = self.report();
            let a = self.app.logged(
                Level::Info,
                "debug"@,
                replaced(text, "\n"@, " | "@),
            ).emitting(EffectView::Print(clipboard_sequence(text)));
            self.on(
                a.with_overlay(OverlayView { debug: Some(text), ..a.overlay }).said(
                    "debug info copied to clipboard"@,
                ),
            )
        } else if c == 'z' {
            let zoom = match self.app.current() {
                Some(cell) => zoom_of(self.ui.look.gallery, cell, self.app.screen.body),
                None => None,
            };
            self.on(
                match zoom {
                    Some(z) => self.app.emitting(EffectView::Zoom(z)),
                    None => self.app.zoomed(None),
                },
            )
        } else {
            match self.app.current() {
                None => self,
                Some(cell) => State { ui: self.ui.toggled_full(at, cell), ..self }.said(
                    if at < self.ui.blocks.len() && !self.ui.blocks[at].full_images {
                        "images at native size — Z restores the cap"@
                    } else {
                        "images back to capped size"@
                    },
                ),
            }
        }
    }

    /// A character key of the notebook, and what the main loop must do.
    #[verifier::opaque]
    pub open spec fn char_key(
        self,
        c: char,
        mods: KeyModifiers,
        count: Option<usize>,
        m: MomentView,
    ) -> (State, Action) {
        if c == 'E' {
            (self, Action::ExternalEdit)
        } else {
            (
                if c == 'r' {
                    if mods.control {
                        self.redone()
                    } else {
                        self.ran(self.app.selected).advanced()
                    }
                } else if c == 'c' {
                    if mods == no_modifiers() {
                        self.outputs_cleared(self.app.selected, self.app.selected + 1)
                    } else if mods.control {
                        self.on(self.app.interrupting())
                    } else {
                        self
                    }
                } else if c == 'i' {
                    self.on(self.app.opening(AfterOpen::Insert))
                } else if c == 'A' {
                    self.on(self.app.opening(AfterOpen::Append))
                } else if c == 'j' || c == 'k' || c == 'g' || c == 'G' || c == 'n' || c == 'N' || c
                    == 'd' || c == 'y' {
                    self.moving_key(c, count)
                } else if c == 'q' || c == 'w' || c == 'W' || c == 'S' || c == '/' || c == '?' || c
                    == 'L' {
                    self.file_key(c, m.on_disk)
                } else if c == 'u' || c == 'C' || c == 'M' || c == 'a' || c == 'b' || c == 'p' || c
                    == 'J' || c == 'K' || c == 'm' {
                    self.cell_key(c, m.fresh_id)
                } else if c == 'X' || c == ' ' || c == '<' || c == '>' || c == 'R' {
                    self.run_key(c)
                } else if c == 'o' || c == '[' || c == ']' || c == 'D' || c == 'z' || c == 'Z' {
                    self.look_key(c)
                } else {
                    self
                },
                Action::Nothing,
            )
        }
    }

    /// Enter: edit; with a modifier run, with Shift also move on.
    #[verifier::opaque]
    pub open spec fn enter_key(self, mods: KeyModifiers) -> State {
        if mods == no_modifiers() {
            self.on(self.app.opening(AfterOpen::Nothing))
        } else {
            let s = self.ran(self.app.selected);
            if mods.shift {
                s.advanced()
            } else {
                s
            }
        }
    }

    /// The second key of a chord.
    #[verifier::opaque]
    pub open spec fn chord_key(self, first: char, code: KeyCode) -> State {
        if first == 'd' && code == KeyCode::Char('d') {
            self.cell_deleted()
        } else if first == 'y' && code == KeyCode::Char('y') {
            self.on(self.app.yanking())
        } else {
            self
        }
    }

    /// Without a started chord or count.
    pub open spec fn unprefixed(self) -> State {
        self.on(
            AppView {
                input: InputView { pending: None, count: None, ..self.app.input },
                ..self.app
            },
        )
    }

    /// A key of the notebook, and what the main loop must do.
    #[verifier::opaque]
    pub open spec fn notebook_key(self, key: KeyEvent, m: MomentView) -> (State, Action) {
        let count = self.app.input.count;
        let s = self.unprefixed();
        match self.app.input.pending {
            Some(first) => (s.chord_key(first, key.code), Action::Nothing),
            None => match key.code {
                KeyCode::Char(c) => if is_ascii_digit(c) {
                    (
                        s.on(
                            AppView {
                                input: InputView {
                                    count: Some(counting(count, c)),
                                    ..s.app.input
                                },
                                ..s.app
                            },
                        ),
                        Action::Nothing,
                    )
                } else {
                    s.char_key(c, key.modifiers, count, m)
                },
                KeyCode::Down => (s.moved_down(step_of(count)), Action::Nothing),
                KeyCode::Up => (s.moved_up(step_of(count)), Action::Nothing),
                KeyCode::Enter => (s.enter_key(key.modifiers), Action::Nothing),
                _ => (s, Action::Nothing),
            },
        }
    }

    /// Whether keys reach the notebook or its editor.
    pub open spec fn keys_pass(self) -> bool {
        &&& self.app.overlay.logs is None
        &&& self.app.overlay.pager is None
        &&& !self.app.covered()
        &&& self.app.run.stdin_req is None
        &&& self.app.overlay.prompt is None
        &&& self.app.overlay.confirm is None
    }

    /// A key that has nothing to work on: the type of a cell whose metadata is
    /// no object.
    pub open spec fn refuses(self, key: KeyEvent) -> bool {
        &&& self.keys_pass()
        &&& self.app.editor is None
        &&& self.app.input.pending is None
        &&& key.code == KeyCode::Char('m')
        &&& self.app.current() matches Some(c) && !c.is_code() && bad_metadata(c)
    }

    /// Where a key goes, and what the main loop must do.
    #[verifier::opaque]
    pub open spec fn inner_key(self, key: KeyEvent, m: MomentView) -> (State, Action) {
        // keyboard nav re-follows the selection
        let s = self.on(
            AppView {
                message: None,
                screen: ScreenView { manual_scroll: false, ..self.app.screen },
                ..self.app
            },
        );
        let a = s.app;
        if let Some(up) = a.overlay.logs {
            (s.on(a.log_key(up, key)), Action::Nothing)
        } else if let Some(p) = a.overlay.pager {
            (s.on(a.pager_key(p, key)), Action::Nothing)
        } else if a.covered() {
            (s.on(a.uncovered()), Action::Nothing)
        } else if let Some(req) = a.run.stdin_req {
            (s.on(a.stdin_key(req, key)), Action::Nothing)
        } else if let Some(p) = a.overlay.prompt {
            (s.on(a.prompt_key(p, key, m.target_exists)), Action::Nothing)
        } else if let Some(c) = a.overlay.confirm {
            (s.on(a.with_confirm(None)).answered(c, key, m.on_disk), Action::Nothing)
        } else if a.editor is Some {
            (s.edited(key, m.fresh_id), Action::Nothing)
        } else {
            s.notebook_key(key, m)
        }
    }

    /// A key. Manual movement ends run-all following.
    pub open spec fn keyed(self, key: KeyEvent, m: MomentView) -> (State, Action) {
        let (s, action) = self.inner_key(key, m);
        (
            if s.app.selected != self.app.selected {
                s.on(s.app.following(false))
            } else {
                s
            },
            action,
        )
    }
}

// ---------------------------------------------------------------------------

fn step_from(count: Option<usize>) -> (r: usize)
    ensures
        r == step_of(count),
{
    match count {
        Some(n) => if n >= 1 {
            n
        } else {
            1
        },
        None => 1,
    }
}

fn count_on(count: Option<usize>, c: char) -> (r: usize)
    requires
        is_ascii_digit(c),
    ensures
        r == counting(count, c),
{
    let n: usize = match count {
        Some(n) => n,
        None => 0,
    };
    let d = (c as u32 - '0' as u32) as usize;
    if n <= (usize::MAX - d) / 10 {
        n * 10 + d
    } else {
        usize::MAX
    }
}

impl App {
    /// Whether a key has nothing to work on.
    pub fn refuses(&self, key: KeyEvent, rendered: &Rendered) -> (r: bool)
        requires
            state(self, rendered).wf(),
        ensures
            r == state(self, rendered).refuses(key),
    {
        if self.logs.is_some() || self.pager.is_some() || self.show_help || self.debug.is_some()
            || self.zoom.is_some() || self.stdin_req.is_some() || self.prompt.is_some()
            || self.confirm.is_some() || self.editor.is_some() || self.pending.is_some()
            || key.code != KeyCode::Char('m') || self.selected >= self.notebook.cells.len() {
            return false;
        }
        let c = &self.notebook.cells[self.selected];
        assert(self@.current() == Some(c@));
        !c.is_code() && match c.extra.get("metadata") {
            Some(Json::Obj(_)) => false,
            Some(_) => true,
            None => false,
        }
    }

    fn last_index(&self) -> (r: usize)
        ensures
            r == AppView::last_cell(self@.notebook),
    {
        let n = self.notebook.cells.len();
        if n > 0 {
            n - 1
        } else {
            0
        }
    }

    fn move_down(&mut self, n: usize, rendered: &Rendered)
        requires
            state(old(self), rendered).wf(),
        ensures
            state(final(self), rendered) == state(old(self), rendered).moved_down(n as int),
            state(final(self), rendered).wf(),
    {
        let last = self.last_index();
        let to = if self.selected <= last && n <= last - self.selected {
            self.selected + n
        } else {
            last
        };
        self.select(to);
    }

    fn move_up(&mut self, n: usize, rendered: &Rendered)
        requires
            state(old(self), rendered).wf(),
        ensures
            state(final(self), rendered) == state(old(self), rendered).moved_up(n as int),
            state(final(self), rendered).wf(),
    {
        let to = self.selected.saturating_sub(n);
        self.select(to);
    }

    fn go_to(&mut self, count: Option<usize>, rendered: &Rendered)
        requires
            state(old(self), rendered).wf(),
        ensures
            state(final(self), rendered) == state(old(self), rendered).gone_to(count),
            state(final(self), rendered).wf(),
    {
        let last = self.last_index();
        let to = match count {
            Some(n) => if n == 0 {
                0
            } else if n - 1 <= last {
                n - 1
            } else {
                last
            },
            None => last,
        };
        self.select(to);
    }

    fn on_moving_key(&mut self, c: char, count: Option<usize>, rendered: &Rendered)
        requires
            state(old(self), rendered).wf(),
        ensures
            state(final(self), rendered) == state(old(self), rendered).moving_key(c, count),
            state(final(self), rendered).wf(),
    {
        proof {
            reveal(State::moving_key);
        }
        if c == 'j' {
            self.move_down(step_from(count), rendered);
        } else if c == 'k' {
            self.move_up(step_from(count), rendered);
        } else if c == 'g' {
            self.select(0);
        } else if c == 'G' {
            self.go_to(count, rendered);
        } else if c == 'n' {
            self.find(false);
        } else if c == 'N' {
            self.find(true);
        } else {
            self.pending = Some(c);
        }
    }

    fn ask(&mut self, kind: PromptKind, buf: String)
        ensures
            final(self)@ == old(self)@.with_prompt(Some(PromptView { kind, buf: buf@ })),
    {
        self.prompt = Some(Prompt { kind, buf });
    }

    fn on_file_key(&mut self, c: char, on_disk: Option<u64>, rendered: &Rendered)
        requires
            state(old(self), rendered).wf(),
        ensures
            state(final(self), rendered) == state(old(self), rendered).file_key(c, on_disk),
            state(final(self), rendered).wf(),
    {
        proof {
            reveal(State::file_key);
        }
        if c == 'q' {
            if self.dirty {
                self.confirm = Some(Confirm::Quit);
            } else {
                self.should_quit = true;
            }
        } else if c == 'w' {
            let _ = self.save_notebook(false, on_disk, AfterSave::Nothing);
        } else if c == 'W' {
            let _ = self.save_notebook(true, on_disk, AfterSave::Nothing);
        } else if c == 'S' {
            self.overwrite_armed = None;
            let buf = self.path.clone();
            self.ask(PromptKind::SaveAs, buf);
        } else if c == '/' {
            let buf = String::new();
            assert(buf@ =~= Seq::<char>::empty());
            self.ask(PromptKind::Search, buf);
        } else if c == '?' {
            self.show_help = true;
        } else {
            self.logs = Some(0);
        }
    }

    fn paste(&mut self, id: &str, rendered: &mut Rendered)
        requires
            state(old(self), old(rendered)).wf(),
        ensures
            ({
                let s = state(old(self), old(rendered));
                state(final(self), final(rendered)) == match s.app.yanked {
                    Some(cell) => s.cell_inserted(s.app.selected + 1, cell.with_id(id@)),
                    None => s,
                }
            }),
            state(final(self), final(rendered)).wf(),
    {
        let cell = notebook::duplicate_opt(&self.yanked);
        if let Some(mut cell) = cell {
            let _ = cell.extra.insert("id", Json::string(id));
            let n = self.notebook.cells.len();
            assert(self@.notebook.cells.len() == n);
            let at = self.selected + 1;
            self.insert_cell_value(at, cell, rendered);
        }
    }

    fn on_cell_key(&mut self, c: char, id: &str, rendered: &mut Rendered)
        requires
            state(old(self), old(rendered)).wf(),
            c == 'm' ==> (old(self)@.current() matches Some(x) ==> x.is_code() || !bad_metadata(
                x,
            )),
            c == 'u' || c == 'C' || c == 'M' || c == 'a' || c == 'b' || c == 'p' || c == 'J' || c
                == 'K' || c == 'm',
        ensures
            state(final(self), final(rendered)) == state(old(self), old(rendered)).cell_key(
                c,
                id@,
            ),
            state(final(self), final(rendered)).wf(),
    {
        proof {
            reveal(State::cell_key);
        }
        let at = self.selected;
        let n = self.notebook.cells.len();
        assert(self@.notebook.cells.len() == n);
        if c == 'u' {
            self.undo(rendered);
        } else if c == 'C' {
            self.clear_outputs(0, n, rendered);
        } else if c == 'M' {
            self.merge_below(rendered);
        } else if c == 'a' {
            self.insert_cell(at + 1, id, rendered);
        } else if c == 'b' {
            self.insert_cell(at, id, rendered);
        } else if c == 'p' {
            self.paste(id, rendered);
        } else if c == 'J' {
            self.move_cell(true, rendered);
        } else if c == 'K' {
            self.move_cell(false, rendered);
        } else {
            self.toggle_type(rendered);
        }
    }

    fn on_run_key(&mut self, c: char, rendered: &mut Rendered)
        requires
            state(old(self), old(rendered)).wf(),
        ensures
            state(final(self), final(rendered)) == state(old(self), old(rendered)).run_key(c),
            state(final(self), final(rendered)).wf(),
    {
        proof {
            reveal(State::run_key);
        }
        let at = self.selected;
        let n = self.notebook.cells.len();
        if c == 'X' {
            self.run_range(0, n, rendered);
        } else if c == ' ' {
            self.run_cell(at, rendered);
        } else if c == '<' {
            self.run_range(0, at, rendered);
        } else if c == '>' {
            self.run_range(at, n, rendered);
        } else if self.kernel.is_none() && !self.kernel_starting {
            self.restart_kernel(false);
        } else {
            self.confirm = Some(Confirm::Restart);
        }
    }

    fn show_report(&mut self, rendered: &Rendered)
        requires
            state(old(self), rendered).wf(),
        ensures
            ({
                let s = state(old(self), rendered);
                let text = s.report();
                let a = s.app.logged(
                    Level::Info,
                    "debug"@,
                    replaced(text, "\n"@, " | "@),
                ).emitting(EffectView::Print(clipboard_sequence(text)));
                final(self)@ == a.with_overlay(
                    OverlayView { debug: Some(text), ..a.overlay },
                ).said("debug info copied to clipboard"@)
            }),
    {
        let text = self.debug_report(rendered);
        proof {
            reveal_strlit("\n");
        }
        self.log(Level::Info, "debug", text::replace(text.as_str(), "\n", " | "));
        self.emit(Effect::Print(pictures::osc52(text.as_str())));
        self.debug = Some(text);
        self.say("debug info copied to clipboard");
    }

    fn zoom_in(&mut self, rendered: &Rendered)
        ensures
            ({
                let a = old(self)@;
                let zoom = match a.current() {
                    Some(cell) => zoom_of(rendered@.look.gallery, cell, a.screen.body),
                    None => None,
                };
                final(self)@ == match zoom {
                    Some(z) => a.emitting(EffectView::Zoom(z)),
                    None => a.zoomed(None),
                }
            }),
    {
        let zoom = if self.selected < self.notebook.cells.len() {
            assert(self@.current() == Some(self.notebook.cells@[self.selected as int]@));
            rendered.zoom_image(&self.notebook.cells[self.selected], self.body)
        } else {
            None
        };
        match zoom {
            Some(z) => {
                self.emit(Effect::Zoom(z));
            },
            None => {
                self.zoomed(None);
            },
        }
    }

    /// The picture for the whole screen was made, or the terminal cannot show
    /// it.
    pub fn zoomed(&mut self, zoom: Option<Zoom>)
        ensures
            final(self)@ == old(self)@.zoomed(opt_view(zoom)),
    {
        let found = zoom.is_some();
        self.zoom = zoom;
        if found {
            self.say("zoom — any key closes");
        } else {
            self.say("no image output in this cell");
        }
    }

    fn on_look_key(&mut self, c: char, rendered: &mut Rendered)
        requires
            state(old(self), old(rendered)).wf(),
        ensures
            state(final(self), final(rendered)) == state(old(self), old(rendered)).look_key(c),
            state(final(self), final(rendered)).wf(),
    {
        proof {
            reveal(State::look_key);
        }
        let at = self.selected;
        if c == 'o' {
            rendered.fold(at);
        } else if c == '[' {
            rendered.scroll_cell(at, -1);
        } else if c == ']' {
            rendered.scroll_cell(at, 1);
        } else if c == 'D' {
            self.show_report(rendered);
        } else if c == 'z' {
            self.zoom_in(rendered);
        } else if at < self.notebook.cells.len() {
            assert(self@.current() == Some(self.notebook.cells@[at as int]@));
            assert(rendered.blocks@.len() == rendered@.blocks.len());
            if rendered.toggle_full_images(at, &self.notebook.cells[at]) {
                self.say("images at native size — Z restores the cap");
            } else {
                self.say("images back to capped size");
            }
        }
    }

    fn clear_selected(&mut self, rendered: &mut Rendered)
        requires
            state(old(self), old(rendered)).wf(),
        ensures
            ({
                let s = state(old(self), old(rendered));
                state(final(self), final(rendered)) == s.outputs_cleared(
                    s.app.selected,
                    s.app.selected + 1,
                )
            }),
            state(final(self), final(rendered)).wf(),
    {
        let at = self.selected;
        let n = self.notebook.cells.len();
        assert(self@.notebook.cells.len() == n);
        self.clear_outputs(at, at + 1, rendered);
    }

    fn on_char(
        &mut self,
        c: char,
        mods: KeyModifiers,
        count: Option<usize>,
        m: &Moment,
        rendered: &mut Rendered,
    ) -> (r: Action)
        requires
            state(old(self), old(rendered)).wf(),
            c == 'm' ==> (old(self)@.current() matches Some(x) ==> x.is_code() || !bad_metadata(
                x,
            )),
        ensures
            (state(final(self), final(rendered)), r) == state(
                old(self),
                old(rendered),
            ).char_key(c, mods, count, m@),
            state(final(self), final(rendered)).wf(),
    {
        proof {
            reveal(State::char_key);
        }
        if c == 'E' {
            return Action::ExternalEdit;
        }
        if c == 'r' {
            if mods.control {
                self.redo(rendered);
            } else {
                let at = self.selected;
                self.run_cell(at, rendered);
                self.advance(rendered);
            }
        } else if c == 'c' {
            if mods.is_empty() {
                self.clear_selected(rendered);
            } else if mods.control {
                self.interrupt();
            }
        } else if c == 'i' {
            self.open_editor(AfterOpen::Insert);
        } else if c == 'A' {
            self.open_editor(AfterOpen::Append);
        } else if c == 'j' || c == 'k' || c == 'g' || c == 'G' || c == 'n' || c == 'N' || c == 'd'
            || c == 'y' {
            self.on_moving_key(c, count, rendered);
        } else if c == 'q' || c == 'w' || c == 'W' || c == 'S' || c == '/' || c == '?' || c == 'L' {
            self.on_file_key(c, m.on_disk, rendered);
        } else if c == 'u' || c == 'C' || c == 'M' || c == 'a' || c == 'b' || c == 'p' || c == 'J'
            || c == 'K' || c == 'm' {
            self.on_cell_key(c, m.fresh_id.as_str(), rendered);
        } else if c == 'X' || c == ' ' || c == '<' || c == '>' || c == 'R' {
            self.on_run_key(c, rendered);
        } else if c == 'o' || c == '[' || c == ']' || c == 'D' || c == 'z' || c == 'Z' {
            self.on_look_key(c, rendered);
        }
        Action::Nothing
    }

    fn on_enter(&mut self, mods: KeyModifiers, rendered: &mut Rendered)
        requires
            state(old(self), old(rendered)).wf(),
        ensures
            state(final(self), final(rendered)) == state(old(self), old(rendered)).enter_key(mods),
            state(final(self), final(rendered)).wf(),
    {
        proof {
            reveal(State::enter_key);
        }
        if mods.is_empty() {
            self.open_editor(AfterOpen::Nothing);
        } else {
            let at = self.selected;
            self.run_cell(at, rendered);
            if mods.shift {
                self.advance(rendered);
            }
        }
    }

    fn on_chord(&mut self, first: char, code: KeyCode, rendered: &mut Rendered)
        requires
            state(old(self), old(rendered)).wf(),
        ensures
            state(final(self), final(rendered)) == state(old(self), old(rendered)).chord_key(
                first,
                code,
            ),
            state(final(self), final(rendered)).wf(),
    {
        proof {
            reveal(State::chord_key);
        }
        if first == 'd' && code == KeyCode::Char('d') {
            self.delete_cell(rendered);
        } else if first == 'y' && code == KeyCode::Char('y') {
            self.yank_cell();
        }
    }

    fn clear_prefix(&mut self)
        ensures
            final(self)@ == (AppView {
                input: InputView { pending: None, count: None, ..old(self)@.input },
                ..old(self)@
            }),
    {
        self.pending = None;
        self.count = None;
    }

    fn set_count(&mut self, n: usize)
        ensures
            final(self)@ == (AppView {
                input: InputView { count: Some(n), ..old(self)@.input },
                ..old(self)@
            }),
    {
        self.count = Some(n);
    }

    fn begin_key(&mut self)
        ensures
            final(self)@ == (AppView {
                message: None,
                screen: ScreenView { manual_scroll: false, ..old(self)@.screen },
                ..old(self)@
            }),
    {
        self.message = None;
        self.manual_scroll = false; // keyboard nav re-follows the selection
    }

    fn on_key_notebook(&mut self, key: KeyEvent, m: &Moment, rendered: &mut Rendered) -> (r: Action)
        requires
            state(old(self), old(rendered)).wf(),
            old(self)@.input.pending is None && key.code == KeyCode::Char('m') ==> (old(
                self,
            )@.current() matches Some(x) ==> x.is_code() || !bad_metadata(x)),
        ensures
            (state(final(self), final(rendered)), r) == state(
                old(self),
                old(rendered),
            ).notebook_key(key, m@),
            state(final(self), final(rendered)).wf(),
    {
        proof {
            reveal(State::notebook_key);
        }
        let pending = self.pending;
        let count = self.count;
        self.clear_prefix();
        if let Some(first) = pending {
            self.on_chord(first, key.code, rendered);
            return Action::Nothing;
        }
        match key.code {
            KeyCode::Char(c) => {
                if '0' <= c && c <= '9' {
                    self.set_count(count_on(count, c));
                    Action::Nothing
                } else {
                    self.on_char(c, key.modifiers, count, m, rendered)
                }
            },
            KeyCode::Down => {
                self.move_down(step_from(count), rendered);
                Action::Nothing
            },
            KeyCode::Up => {
                self.move_up(step_from(count), rendered);
                Action::Nothing
            },
            KeyCode::Enter => {
                self.on_enter(key.modifiers, rendered);
                Action::Nothing
            },
            _ => Action::Nothing,
        }
    }

    fn take_confirm(&mut self) -> (r: Option<Confirm>)
        ensures
            opt_view(r) == old(self)@.overlay.confirm,
            final(self)@ == old(self)@.with_confirm(None),
    {
        self.confirm.take()
    }

    fn on_key_inner(&mut self, key: KeyEvent, m: &Moment, rendered: &mut Rendered) -> (r: Action)
        requires
            state(old(self), old(rendered)).wf(),
            !state(old(self), old(rendered)).refuses(key),
        ensures
            (state(final(self), final(rendered)), r) == state(
                old(self),
                old(rendered),
            ).inner_key(key, m@),
            state(final(self), final(rendered)).wf(),
    {
        proof {
            reveal(State::inner_key);
        }
        self.begin_key();
        if let Some(up) = self.logs {
            self.on_key_logs(up, key);
            return Action::Nothing;
        }
        if self.pager.is_some() {
            self.on_key_pager(key);
            return Action::Nothing;
        }
        if self.show_help || self.debug.is_some() || self.zoom.is_some() {
            self.uncover();
            return Action::Nothing;
        }
        if self.stdin_req.is_some() {
            self.on_key_stdin(key);
            return Action::Nothing;
        }
        if self.prompt.is_some() {
            self.on_key_prompt(key, m.target_exists);
            return Action::Nothing;
        }
        if self.confirm.is_some() {
            if let Some(confirm) = self.take_confirm() {
                self.answer(confirm, key, m.on_disk, rendered);
            }
            return Action::Nothing;
        }
        if self.editor.is_some() {
            self.edit(key, m.fresh_id.as_str(), rendered);
            return Action::Nothing;
        }
        self.on_key_notebook(key, m, rendered)
    }

    /// A key; what the main loop must do.
    pub fn on_key(&mut self, key: KeyEvent, m: &Moment, rendered: &mut Rendered) -> (r: Action)
        requires
            state(old(self), old(rendered)).wf(),
            !state(old(self), old(rendered)).refuses(key),
        ensures
            (state(final(self), final(rendered)), r) == state(old(self), old(rendered)).keyed(
                key,
                m@,
            ),
            state(final(self), final(rendered)).wf(),
    {
        let before = self.selected;
        let action = self.on_key_inner(key, m, rendered);
        if self.selected != before {
            self.follow = false;
        }
        action
    }
}

// ---------------------------------------------------------------------------
// Laws
// ---------------------------------------------------------------------------

/// A key that moves the selection ends run-all following.
pub proof fn law_manual_movement_ends_following(s: State, key: KeyEvent, m: MomentView)
    ensures
        ({
            let t = s.keyed(key, m).0;
            t.app.selected != s.app.selected ==> !t.app.run.follow
        }),
{
}

/// Quitting with unsaved changes asks first; without any it quits.
pub proof fn law_unsaved_changes_are_not_dropped_unasked(s: State, m: MomentView)
    requires
        s.keys_pass(),
        s.app.editor is None,
        s.app.input.pending is None,
        !s.app.should_quit,
    ensures
        ({
            let key = KeyEvent { code: KeyCode::Char('q'), modifiers: no_modifiers() };
            let t = s.keyed(key, m).0;
            &&& t.app.should_quit == !s.app.file.dirty
            &&& s.app.file.dirty ==> t.app.overlay.confirm == Some(ConfirmView::Quit)
        }),
{
    reveal(State::inner_key);
    reveal(State::notebook_key);
    reveal(State::char_key);
    reveal(State::file_key);
}

/// Restarting asks first where a kernel is alive or coming up.
pub proof fn law_a_live_kernel_is_not_restarted_unasked(s: State, m: MomentView)
    requires
        s.keys_pass(),
        s.app.editor is None,
        s.app.input.pending is None,
        s.app.run.kernel is Some || s.app.run.kernel_starting,
    ensures
        ({
            let key = KeyEvent { code: KeyCode::Char('R'), modifiers: no_modifiers() };
            let t = s.keyed(key, m).0;
            &&& t.app.overlay.confirm == Some(ConfirmView::Restart)
            &&& t.app.run.kernel == s.app.run.kernel
            &&& t.app.effects == s.app.effects
        }),
{
    reveal(State::inner_key);
    reveal(State::notebook_key);
    reveal(State::char_key);
    reveal(State::run_key);
}

/// While an overlay covers the notebook, keys leave the notebook and what is
/// being edited as they are.
pub proof fn law_overlays_keep_keys_from_the_notebook(s: State, key: KeyEvent, m: MomentView)
    requires
        s.app.overlay.logs is Some || s.app.overlay.pager is Some || s.app.covered()
            || s.app.run.stdin_req is Some,
    ensures
        s.keyed(key, m).0.app.frame() == s.app.frame(),
        s.keyed(key, m).0.ui == s.ui,
        s.keyed(key, m).1 == Action::Nothing,
{
    reveal(State::inner_key);
    reveal(AppView::log_key);
    reveal(AppView::pager_key);
    reveal(AppView::uncovered);
    reveal(AppView::stdin_key);
}

} // verus!
