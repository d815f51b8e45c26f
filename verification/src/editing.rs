//! The cell editor at work: opening a backend, its keys, and what nvim
//! answers.

use vstd::prelude::*;

use crate::app::{AfterOpen, App, Effect};
#[allow(unused_imports)]
use crate::app::{state, AppView, EffectView, State};
use crate::editor::{Editor, Outcome};
#[allow(unused_imports)]
use crate::editor::{EditorView, Mode};
use crate::keys::{KeyCode, KeyEvent, KeyModifiers};
#[allow(unused_imports)]
use crate::keys::no_modifiers;
use crate::nvim::{Backend, ModeKind, NvimCell, NvimMove, Reaction};
#[allow(unused_imports)]
use crate::nvim::{BackendView, NvimMoveView, NvimView, ReactionView};
use crate::text;
#[allow(unused_imports)]
use crate::text::{opt_view, split_on};
use crate::ui;
use crate::ui::Rendered;
#[allow(unused_imports)]
use crate::ui::{language_of, latex_raw};

verus! {

// ---------------------------------------------------------------------------
// Opening
// ---------------------------------------------------------------------------

/// The builtin editor on a text.
pub open spec fn builtin_on(source: Seq<char>) -> BackendView {
    BackendView::Builtin(
        EditorView {
            lines: split_on(source, '\n'),
            row: 0,
            col: 0,
            mode: Mode::Normal,
            yank: Seq::empty(),
            pending: None,
            undo: Seq::empty(),
            redo: Seq::empty(),
        },
    )
}

fn open_builtin(source: &str) -> (r: Backend)
    ensures
        r@ == builtin_on(source@),
        r@.wf(),
        r@.source() == source@,
{
    Backend::Builtin(Editor::new(source))
}

/// The key that enters insert mode.
pub open spec fn insert_key() -> KeyEvent {
    KeyEvent { code: KeyCode::Char('i'), modifiers: no_modifiers() }
}

/// A freshly opened editor after what was asked to follow.
pub open spec fn prepared(e: BackendView, next: AfterOpen) -> BackendView {
    match next {
        AfterOpen::Nothing => e,
        AfterOpen::Insert => e.keyed(insert_key()),
        AfterOpen::Append => e.appended(),
        AfterOpen::Click { row, col, insert } => e.clicked(row as int, col as int, insert),
    }
}

/// What nvim is told after it opened.
pub open spec fn preparation(e: BackendView, next: AfterOpen) -> Option<NvimMoveView> {
    match next {
        AfterOpen::Nothing => None,
        AfterOpen::Insert => match e.reaction(insert_key()) {
            ReactionView::Feed(keys) => Some(NvimMoveView::Keys(keys)),
            ReactionView::Done(_) => None,
        },
        AfterOpen::Append => if e.is_builtin() {
            None
        } else {
            Some(NvimMoveView::Keys("GA"@))
        },
        AfterOpen::Click { row, col, insert } => e.click_move(row, col as int, insert),
    }
}

impl AppView {
    /// An opened editor taken into use.
    pub open spec fn editing(self, e: BackendView, next: AfterOpen) -> AppView {
        let a = self.with_editor(Some(prepared(e, next)));
        match preparation(e, next) {
            Some(m) => a.emitting(EffectView::Nvim(m)),
            None => a,
        }
    }

    /// nvim `filetype` for the selected cell: the kernel language for code,
    /// `markdown`, `tex` for latex raw cells.
    pub open spec fn cell_filetype(self) -> Seq<char> {
        match self.current() {
            Some(c) => if c.is_code() {
                language_of(self.notebook)
            } else if c.cell_type == "markdown"@ {
                "markdown"@
            } else if latex_raw(c) {
                "tex"@
            } else {
                Seq::empty()
            },
            None => Seq::empty(),
        }
    }

    /// Per-cell nvim buffer key: the nbformat cell id.
    pub open spec fn cell_key(self) -> Seq<char> {
        "id-"@ + (match self.current() {
            Some(c) => match c.id() {
                Some(id) => id,
                None => Seq::empty(),
            },
            None => Seq::empty(),
        })
    }

    /// An editor asked for on the selected cell, per config.
    pub open spec fn opening(self, next: AfterOpen) -> AppView {
        match self.current() {
            None => self,
            Some(c) => if self.config.editor != "nvim"@ {
                self.editing(builtin_on(c.source), next)
            } else {
                self.emitting(
                    EffectView::OpenNvim {
                        key: self.cell_key(),
                        source: c.source,
                        filetype: self.cell_filetype(),
                        user_config: self.config.nvim_user_config,
                        next,
                    },
                )
            },
        }
    }

    /// nvim opened the selected cell, or could not.
    pub open spec fn nvim_opened(
        self,
        result: Result<NvimView, Seq<char>>,
        next: AfterOpen,
    ) -> AppView {
        match result {
            Ok(c) => self.editing(BackendView::Nvim(c), next),
            Err(e) => match self.current() {
                Some(c) => self.said("nvim unavailable ("@ + e + ") — builtin editor"@).editing(
                    builtin_on(c.source),
                    next,
                ),
                None => self,
            },
        }
    }

    /// nvim did what it was told besides keys, or could not.
    pub open spec fn nvim_moved(
        self,
        result: Result<NvimView, Seq<char>>,
        completing: bool,
    ) -> AppView {
        match result {
            Ok(c) => if self.editor is Some {
                self.with_editor(Some(BackendView::Nvim(c)))
            } else {
                self
            },
            Err(e) => if completing {
                self.said("completion failed: "@ + e)
            } else {
                self
            },
        }
    }
}

/// The model of what nvim answered.
pub open spec fn answer_view(r: Result<NvimCell, String>) -> Result<NvimView, Seq<char>> {
    match r {
        Ok(c) => Ok(c@),
        Err(e) => Err(e@),
    }
}

fn prepare(e: Backend, next: AfterOpen) -> (r: (Backend, Option<NvimMove>))
    requires
        e@.wf(),
    ensures
        r.0@ == prepared(e@, next),
        opt_view(r.1) == preparation(e@, next),
        r.0@.wf(),
{
    let mut e = e;
    let m = match next {
        AfterOpen::Nothing => None,
        AfterOpen::Insert => {
            let key = KeyEvent::new(KeyCode::Char('i'), KeyModifiers::none());
            match e.input(key) {
                Reaction::Feed(keys) => Some(NvimMove::Keys(keys)),
                Reaction::Done(_) => None,
            }
        },
        AfterOpen::Append => e.append_end(),
        AfterOpen::Click { row, col, insert } => e.click(row, col, insert),
    };
    (e, m)
}

impl App {
    fn edit_with(&mut self, e: Backend, next: AfterOpen)
        requires
            old(self)@.wf(),
            e@.wf(),
        ensures
            final(self)@ == old(self)@.editing(e@, next),
            final(self)@.wf(),
            final(self)@.notebook == old(self)@.notebook,
            final(self)@.selected == old(self)@.selected,
    {
        let (e, m) = prepare(e, next);
        self.set_editor(Some(e));
        match m {
            Some(m) => {
                self.emit(Effect::Nvim(m));
            },
            None => {},
        }
    }

    /// nvim `filetype` for the selected cell.
    pub fn cell_filetype(&self) -> (r: String)
        ensures
            r@ == self@.cell_filetype(),
    {
        if self.selected < self.notebook.cells.len() {
            let c = &self.notebook.cells[self.selected];
            assert(self@.current() == Some(c@));
            if c.is_code() {
                return ui::notebook_language(&self.notebook);
            }
            if text::same(c.cell_type.as_str(), "markdown") {
                return "markdown".to_owned();
            }
            if ui::is_latex_raw(c) {
                return "tex".to_owned();
            }
        }
        let none = String::new();
        assert(none@ =~= Seq::<char>::empty());
        none
    }

    /// Per-cell nvim buffer key: the nbformat cell id (every cell has one
    /// since reading upgrades to 4.5, and new cells get one).
    pub fn cell_key(&self) -> (r: String)
        ensures
            r@ == self@.cell_key(),
    {
        let mut s = "id-".to_owned();
        let ghost s0 = s@;
        if self.selected < self.notebook.cells.len() {
            let c = &self.notebook.cells[self.selected];
            assert(self@.current() == Some(c@));
            if let Some(id) = c.id() {
                s.append(id);
                return s;
            }
        }
        assert(s0 + Seq::<char>::empty() =~= s0);
        s
    }

    /// Open the selected cell in the configured editor; nvim is asked, the
    /// builtin one is there at once.
    pub fn open_editor(&mut self, next: AfterOpen)
        requires
            old(self)@.wf(),
        ensures
            final(self)@ == old(self)@.opening(next),
            final(self)@.wf(),
            final(self)@.notebook == old(self)@.notebook,
            final(self)@.selected == old(self)@.selected,
    {
        if self.selected >= self.notebook.cells.len() {
            return;
        }
        let source = self.source_at(self.selected);
        if !text::same(self.config.editor.as_str(), "nvim") {
            self.edit_with(open_builtin(source.as_str()), next);
            return;
        }
        let key = self.cell_key();
        let filetype = self.cell_filetype();
        let user_config = self.config.nvim_user_config;
        self.emit(Effect::OpenNvim { key, source, filetype, user_config, next });
    }

    /// The selected cell open in the editor, appending at its end.
    pub fn open_editor_for_test(&mut self)
        requires
            old(self)@.wf(),
        ensures
            final(self)@ == old(self)@.opening(AfterOpen::Append),
            final(self)@.wf(),
    {
        self.open_editor(AfterOpen::Append);
    }

    /// nvim opened the selected cell, or could not: any nvim failure falls
    /// back to the builtin with a status message, so editing always works.
    pub fn nvim_opened(&mut self, result: Result<NvimCell, String>, next: AfterOpen)
        requires
            old(self)@.wf(),
            result matches Ok(c) ==> c@.wf(),
        ensures
            final(self)@ == old(self)@.nvim_opened(answer_view(result), next),
            final(self)@.wf(),
    {
        match result {
            Ok(c) => {
                self.edit_with(Backend::Nvim(c), next);
            },
            Err(e) => {
                if self.selected >= self.notebook.cells.len() {
                    return;
                }
                let source = self.source_at(self.selected);
                let mut s = "nvim unavailable (".to_owned();
                s.append(e.as_str());
                s.append(") — builtin editor");
                self.say(s.as_str());
                self.edit_with(open_builtin(source.as_str()), next);
            },
        }
    }

    /// nvim did what it was told besides keys, or could not; `completing`
    /// where that was to put in a completion.
    pub fn nvim_moved(&mut self, result: Result<NvimCell, String>, completing: bool)
        requires
            old(self)@.wf(),
            result matches Ok(c) ==> c@.wf(),
        ensures
            final(self)@ == old(self)@.nvim_moved(answer_view(result), completing),
            final(self)@.wf(),
    {
        match result {
            Ok(c) => {
                if self.editor.is_some() {
                    self.set_editor(Some(Backend::Nvim(c)));
                }
            },
            Err(e) => {
                if completing {
                    self.say(text::concat("completion failed: ", e.as_str()).as_str());
                }
            },
        }
    }
}

// ---------------------------------------------------------------------------
// Keys
// ---------------------------------------------------------------------------

impl State {
    /// The next cell selected, or the last one.
    pub open spec fn advanced(self) -> State {
        let last = AppView::last_cell(self.app.notebook);
        self.on(
            self.app.at_cell(
                if self.app.selected + 1 <= last {
                    self.app.selected + 1
                } else {
                    last
                },
            ),
        )
    }

    /// What the editor asks for besides its text: a notice shown, a write.
    #[verifier::opaque]
    pub open spec fn editor_heard(self) -> State {
        match self.app.editor {
            None => self,
            Some(e) => {
                let a = self.on(self.app.with_editor(Some(e.unnoticed())));
                let b = match e.notice() {
                    Some(n) => a.said(n),
                    None => a,
                };
                let c = b.on(b.app.with_editor(Some(e.unnoticed().write_taken())));
                // :w inside the cell: commit but keep editing
                if e.write_requested() {
                    c.sourced(e.source())
                } else {
                    c
                }
            },
        }
    }

    /// After the editor handled a key: it goes on, is left, or its cell run.
    #[verifier::opaque]
    pub open spec fn settled(self, outcome: Outcome) -> State {
        let s = self.editor_heard();
        match s.app.editor {
            None => s,
            // :q/:wq/ZZ/... inside nvim: leave the cell instead of exiting nvim
            Some(e) => {
                let t = s.on(s.app.with_editor(Some(e.quit_taken())));
                match e.quit_request() {
                    Some(discard) => if discard {
                        t.editor_closed().said("cell edit discarded"@)
                    } else {
                        t.committed()
                    },
                    None => t.concluded(outcome),
                }
            },
        }
    }

    /// What an editor's own outcome asks for.
    #[verifier::opaque]
    pub open spec fn concluded(self, outcome: Outcome) -> State {
        match outcome {
            Outcome::Continue => self,
            Outcome::Exit => self.committed(),
            Outcome::Run { advance } => {
                let t = self.committed();
                let u = t.ran(t.app.selected);
                if advance {
                    u.advanced()
                } else {
                    u
                }
            },
        }
    }

    /// Whether a key is quit-intent from someone who forgot they're inside the
    /// cell: `q` is unbound in the builtin editor.
    pub open spec fn forgot_editing(self, key: KeyEvent) -> bool {
        &&& self.app.editor matches Some(e) && {
            &&& e.is_builtin()
            &&& e.mode() == ModeKind::Normal
            &&& key.code == KeyCode::Char('q')
            &&& key.modifiers == no_modifiers()
        }
    }

    /// Ctrl+\ splits the cell at the cursor (plain terminals report it as
    /// Ctrl+4).
    pub open spec fn splits(key: KeyEvent) -> bool {
        key.modifiers.control && (key.code == KeyCode::Char('\\') || key.code == KeyCode::Char('4'))
    }

    /// A key while a cell is being edited, and whether nvim is still to answer
    /// it.
    #[verifier::opaque]
    pub open spec fn edit_key(self, key: KeyEvent, id: Seq<char>) -> (State, bool) {
        let (a, taken) = self.app.completion_key(key);
        let s = self.on(a);
        if taken {
            (s, false)
        } else if State::splits(key) {
            (s.split(id), false)
        } else if s.forgot_editing(key) {
            (s.said("editing cell — Esc exits the editor; then q quits, w saves"@), false)
        } else {
            match s.app.editor {
                None => (s, false),
                Some(e) => {
                    let t = s.on(s.app.with_editor(Some(e.keyed(key))));
                    match e.reaction(key) {
                        ReactionView::Feed(keys) => (
                            t.on(t.app.emitting(EffectView::FeedNvim { keys, key })),
                            true,
                        ),
                        ReactionView::Done(outcome) => (t.settled(outcome), false),
                    }
                },
            }
        }
    }

    /// A key in the editor, and the completion that follows on it.
    #[verifier::opaque]
    pub open spec fn edited(self, key: KeyEvent, id: Seq<char>) -> State {
        let (s, fed) = self.edit_key(key, id);
        if fed || s.app.editor is None {
            s
        } else {
            s.on(s.app.after_key(key))
        }
    }

    /// nvim answered a key, or died: then the text is salvaged into the
    /// builtin editor.
    #[verifier::opaque]
    pub open spec fn nvim_fed(self, cell: NvimView, error: Option<Seq<char>>, key: KeyEvent) ->
        State {
        let e = BackendView::Nvim(cell);
        let s = match error {
            None => self.on(self.app.with_editor(Some(e))).settled(Outcome::Continue),
            Some(err) => {
                let t = if cell.write_requested {
                    // honor a final :wq
                    self.sourced(e.source())
                } else {
                    self
                };
                t.on(t.app.with_editor(Some(builtin_on(e.source())))).said(
                    "nvim backend lost ("@ + err + ") — builtin editor"@,
                )
            },
        };
        if s.app.editor is None {
            s
        } else {
            s.on(s.app.after_key(key))
        }
    }
}

impl App {
    fn hear_notice(&mut self)
        ensures
            ({
                let s = old(self)@;
                final(self)@ == match s.editor {
                    None => s,
                    Some(e) => {
                        let a = s.with_editor(Some(e.unnoticed()));
                        match e.notice() {
                            Some(n) => a.said(n),
                            None => a,
                        }
                    },
                }
            }),
            old(self)@.wf() ==> final(self)@.wf(),
    {
        let notice = match &mut self.editor {
            Some(e) => e.take_notice(),
            None => None,
        };
        match notice {
            Some(n) => {
                self.say(n.as_str());
            },
            None => {},
        }
    }

    fn hear_write(&mut self) -> (r: Option<String>)
        ensures
            match old(self)@.editor {
                None => final(self)@ == old(self)@ && r is None,
                Some(e) => {
                    &&& final(self)@ == old(self)@.with_editor(Some(e.write_taken()))
                    &&& opt_view(r) == if e.write_requested() {
                        Some(e.source())
                    } else {
                        None
                    }
                },
            },
            old(self)@.wf() ==> final(self)@.wf(),
    {
        match &mut self.editor {
            Some(e) => if e.take_write_request() {
                Some(e.source())
            } else {
                None
            },
            None => None,
        }
    }

    fn hear_quit(&mut self) -> (r: Option<bool>)
        ensures
            match old(self)@.editor {
                None => final(self)@ == old(self)@ && r is None,
                Some(e) => {
                    &&& final(self)@ == old(self)@.with_editor(Some(e.quit_taken()))
                    &&& r == e.quit_request()
                },
            },
            old(self)@.wf() ==> final(self)@.wf(),
    {
        match &mut self.editor {
            Some(e) => e.take_quit_request(),
            None => None,
        }
    }
}

impl App {
    /// Select the next cell, or the last one.
    pub fn advance(&mut self, rendered: &Rendered)
        requires
            state(old(self), rendered).wf(),
        ensures
            state(final(self), rendered) == state(old(self), rendered).advanced(),
            state(final(self), rendered).wf(),
    {
        let n = self.notebook.cells.len();
        assert(n == self@.notebook.cells.len());
        let next = if n > 0 && self.selected < n - 1 {
            self.selected + 1
        } else if n > 0 {
            n - 1
        } else {
            0
        };
        self.select(next);
    }

    fn hear_editor(&mut self, rendered: &mut Rendered)
        requires
            state(old(self), old(rendered)).wf(),
        ensures
            state(final(self), final(rendered)) == state(old(self), old(rendered)).editor_heard(),
            state(final(self), final(rendered)).wf(),
    {
        proof {
            reveal(State::editor_heard);
        }
        self.hear_notice();
        if let Some(source) = self.hear_write() {
            self.update_cell_source(source, rendered);
        }
    }

    fn conclude(&mut self, outcome: Outcome, rendered: &mut Rendered)
        requires
            state(old(self), old(rendered)).wf(),
        ensures
            state(final(self), final(rendered)) == state(old(self), old(rendered)).concluded(
                outcome,
            ),
            state(final(self), final(rendered)).wf(),
    {
        proof {
            reveal(State::concluded);
        }
        match outcome {
            Outcome::Continue => {},
            Outcome::Exit => {
                self.commit_editor(rendered);
            },
            Outcome::Run { advance } => {
                self.commit_editor(rendered);
                let at = self.selected;
                self.run_cell(at, rendered);
                if advance {
                    self.advance(rendered);
                }
            },
        }
    }

    fn settle(&mut self, outcome: Outcome, rendered: &mut Rendered)
        requires
            state(old(self), old(rendered)).wf(),
            old(self)@.editor is Some,
        ensures
            state(final(self), final(rendered)) == state(old(self), old(rendered)).settled(
                outcome,
            ),
            state(final(self), final(rendered)).wf(),
    {
        proof {
            reveal(State::settled);
        }
        self.hear_editor(rendered);
        if self.editor.is_none() {
            return;
        }
        match self.hear_quit() {
            Some(discard) => {
                if discard {
                    // no commit; the buffer resyncs on reopen
                    let _ = self.take_editor();
                    self.say("cell edit discarded");
                } else {
                    self.commit_editor(rendered);
                }
            },
            None => {
                self.conclude(outcome, rendered);
            },
        }
    }

    fn input_editor(&mut self, key: KeyEvent) -> (r: Reaction)
        requires
            old(self)@.wf(),
            old(self)@.editor is Some,
        ensures
            ({
                let e = old(self)@.editor->Some_0;
                &&& final(self)@ == old(self)@.with_editor(Some(e.keyed(key)))
                &&& r@ == e.reaction(key)
            }),
            final(self)@.wf(),
    {
        match &mut self.editor {
            Some(e) => e.input(key),
            None => Reaction::Done(Outcome::Continue),
        }
    }

    fn forgot_editing(&self, key: KeyEvent, Ghost(s): Ghost<State>) -> (r: bool)
        requires
            s.app == self@,
        ensures
            r == s.forgot_editing(key),
    {
        match &self.editor {
            Some(e) => e.is_builtin() && e.mode() == ModeKind::Normal && key.code
                == KeyCode::Char('q') && key.modifiers.is_empty(),
            None => false,
        }
    }

    /// A key while a cell is being edited; whether nvim is still to answer it.
    fn on_key_edit(&mut self, key: KeyEvent, id: &str, rendered: &mut Rendered) -> (r: bool)
        requires
            state(old(self), old(rendered)).wf(),
            old(self)@.editor is Some,
        ensures
            (state(final(self), final(rendered)), r) == state(
                old(self),
                old(rendered),
            ).edit_key(key, id@),
            state(final(self), final(rendered)).wf(),
    {
        proof {
            reveal(State::edit_key);
        }
        if self.on_key_completion(key) {
            return false;
        }
        if key.modifiers.control && (key.code == KeyCode::Char('\\') || key.code
            == KeyCode::Char('4')) {
            self.split_cell(id, rendered);
            return false;
        }
        if self.forgot_editing(key, Ghost(state(self, rendered))) {
            self.say("editing cell — Esc exits the editor; then q quits, w saves");
            return false;
        }
        match self.input_editor(key) {
            Reaction::Feed(keys) => {
                self.emit(Effect::FeedNvim { keys, key });
                true
            },
            Reaction::Done(outcome) => {
                self.settle(outcome, rendered);
                false
            },
        }
    }

    /// A key in the editor, and the completion that follows on it.
    pub fn edit(&mut self, key: KeyEvent, id: &str, rendered: &mut Rendered)
        requires
            state(old(self), old(rendered)).wf(),
            old(self)@.editor is Some,
        ensures
            state(final(self), final(rendered)) == state(old(self), old(rendered)).edited(
                key,
                id@,
            ),
            state(final(self), final(rendered)).wf(),
    {
        proof {
            reveal(State::edited);
        }
        let fed = self.on_key_edit(key, id, rendered);
        if !fed && self.editor.is_some() {
            self.after_edit_key(key);
        }
    }

    /// nvim answered a key with the cell as it is now, or died, with the cell
    /// as last known.
    pub fn nvim_fed(
        &mut self,
        cell: NvimCell,
        error: Option<String>,
        key: KeyEvent,
        rendered: &mut Rendered,
    )
        requires
            state(old(self), old(rendered)).wf(),
            cell@.wf(),
        ensures
            state(final(self), final(rendered)) == state(old(self), old(rendered)).nvim_fed(
                cell@,
                opt_view(error),
                key,
            ),
            state(final(self), final(rendered)).wf(),
    {
        proof {
            reveal(State::nvim_fed);
        }
        match error {
            None => {
                self.set_editor(Some(Backend::Nvim(cell)));
                self.settle(Outcome::Continue, rendered);
            },
            Some(err) => {
                let write = cell.write_requested;
                let e = Backend::Nvim(cell);
                let source = e.source();
                if write {
                    self.update_cell_source(source.clone(), rendered);
                }
                self.set_editor(Some(open_builtin(source.as_str())));
                let mut s = "nvim backend lost (".to_owned();
                s.append(err.as_str());
                s.append(") — builtin editor");
                self.say(s.as_str());
            },
        }
        if self.editor.is_some() {
            self.after_edit_key(key);
        }
    }
}

/// Editing works without nvim: where it cannot be had, the builtin editor
/// opens on the cell's text.
pub proof fn law_editing_works_without_nvim(a: AppView, e: Seq<char>)
    requires
        a.current() is Some,
    ensures
        a.nvim_opened(Err(e), AfterOpen::Nothing).editor matches Some(b) && b.is_builtin()
            && b.source() == a.current()->Some_0.source,
{
    text::lemma_join_split(a.current()->Some_0.source, '\n');
}

/// An nvim that dies leaves its text behind, in the builtin editor.
pub proof fn law_a_lost_nvim_leaves_its_text(
    s: State,
    cell: NvimView,
    err: Seq<char>,
    key: KeyEvent,
)
    ensures
        s.nvim_fed(cell, Some(err), key).app.editor matches Some(b) && b.is_builtin() && b.source()
            == cell.source(),
{
    reveal(State::nvim_fed);
    text::lemma_join_split(cell.source(), '\n');
}

} // verus!
