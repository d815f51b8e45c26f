//! The notebook and its file: opening, saving, reloading, recovery copies.

use vstd::prelude::*;

use crate::app::{AfterSave, App, Confirm, Effect, ReloadCause};
#[allow(unused_imports)]
use crate::app::{
    state, AfterSaveView, AppView, ConfirmView, EffectView, FileView, InputView, OverlayView,
    RunView, ScreenView, State,
};
use crate::cellops::CellOp;
#[allow(unused_imports)]
use crate::cellops::CellOpView;
use crate::config::Config;
#[allow(unused_imports)]
use crate::config::ConfigView;
use crate::ids::{IdMap, IdSet};
#[allow(unused_imports)]
use crate::json::lookup;
use crate::keys::Rect;
use crate::log::Level;
use crate::notebook::{differing_cells, Notebook};
#[allow(unused_imports)]
use crate::notebook::{differing, longer, NotebookView};
use crate::paths;
#[allow(unused_imports)]
use crate::paths::{age_text, autosave_of, expanded, rooted, same_path};
use crate::text;
#[allow(unused_imports)]
use crate::text::{decimal, opt_view, trim, views};
use crate::ui::Rendered;

verus! {

// ---------------------------------------------------------------------------
// Opening
// ---------------------------------------------------------------------------

/// The kernel that a notebook asks for.
pub open spec fn kernel_of(n: NotebookView) -> Option<Seq<char>> {
    match lookup(n.extra, "metadata"@) {
        Some(m) => match m.get("kernelspec"@) {
            Some(k) => match k.get("name"@) {
                Some(v) => v.as_str(),
                None => None,
            },
            None => None,
        },
        None => None,
    }
}

pub fn notebook_kernel(n: &Notebook) -> (r: Option<String>)
    ensures
        opt_view(r) == kernel_of(n@),
{
    match n.extra.get("metadata") {
        Some(m) => match m.get("kernelspec") {
            Some(k) => match k.get("name") {
                Some(v) => match v.as_str() {
                    Some(s) => Some(s.to_owned()),
                    None => None,
                },
                None => None,
            },
            None => None,
        },
        None => None,
    }
}

/// Where the session runs.
pub struct Place {
    pub state_dir: Option<String>,
    pub cwd: String,
    pub home: Option<String>,
    /// Of the program.
    pub version: String,
}

impl AppView {
    /// A session over a notebook, before anything happened.
    pub open spec fn opened(
        notebook: NotebookView,
        path: Seq<char>,
        is_new: bool,
        kernel_name: Seq<char>,
        on_disk: Option<u64>,
        config: ConfigView,
        state_dir: Option<Seq<char>>,
        cwd: Seq<char>,
        home: Option<Seq<char>>,
        version: Seq<char>,
    ) -> AppView {
        AppView {
            notebook,
            selected: 0,
            message: if is_new {
                Some("new notebook — w creates "@ + path)
            } else {
                None
            },
            should_quit: false,
            editor: None,
            completion: None,
            yanked: None,
            undo_stack: Seq::empty(),
            redo_stack: Seq::empty(),
            run: RunView {
                kernel: None,
                kernel_busy: false,
                running: Seq::empty(),
                started: Seq::empty(),
                half_done: Seq::empty(),
                pending_clear: Seq::empty(),
                follow: false,
                deferred: Seq::empty(),
                launch: 0,
                kernel_starting: false,
                kernel_name,
                stdin_req: None,
            },
            screen: ScreenView {
                scroll: 0,
                hit: Seq::empty(),
                body: Rect { x: 0, y: 0, width: 0, height: 0 },
                manual_scroll: false,
                content_lines: 0,
                last_click: None,
                wheel_latch: None,
                logged_status: None,
            },
            overlay: OverlayView {
                show_help: false,
                pager: None,
                logs: None,
                debug: None,
                zoom: None,
                confirm: None,
                prompt: None,
            },
            input: InputView {
                pending: None,
                count: None,
                search: None,
                overwrite_armed: None,
                pending_inspect: None,
            },
            file: FileView {
                path,
                dirty: false,
                autosave_pending: false,
                disk_mtime: on_disk,
                state_dir,
                cwd,
                home,
            },
            config,
            version,
            effects: Seq::empty(),
        }
    }
}

impl App {
    /// A session over the notebook found at `path`, or a new one with the id
    /// `id` where there is none.
    pub fn open(
        path: String,
        found: Option<Notebook>,
        id: &str,
        kernel_override: Option<String>,
        on_disk: Option<u64>,
        config: Config,
        place: Place,
    ) -> (r: App)
        ensures
            ({
                let nb = match found {
                    Some(n) => n@,
                    None => NotebookView::new_empty(id@),
                };
                let kernel = match kernel_override {
                    Some(k) => k@,
                    None => match kernel_of(nb) {
                        Some(k) => k,
                        None => "python3"@,
                    },
                };
                r@ == AppView::opened(
                    nb,
                    path@,
                    found is None,
                    kernel,
                    on_disk,
                    config@,
                    opt_view(place.state_dir),
                    place.cwd@,
                    opt_view(place.home),
                    place.version@,
                )
            }),
            r@.wf(),
    {
        let is_new = found.is_none();
        let notebook = match found {
            Some(n) => n,
            None => Notebook::new_empty(id),
        };
        let kernel_name = match kernel_override {
            Some(k) => k,
            None => match notebook_kernel(&notebook) {
                Some(k) => k,
                None => "python3".to_owned(),
            },
        };
        let message = if is_new {
            Some(text::concat("new notebook — w creates ", path.as_str()))
        } else {
            None
        };
        let r = App {
            notebook,
            path,
            selected: 0,
            scroll: 0,
            should_quit: false,
            message,
            kernel: None,
            kernel_busy: false,
            running: IdMap::new(),
            dirty: false,
            editor: None,
            hit: Vec::new(),
            body: Rect { x: 0, y: 0, width: 0, height: 0 },
            manual_scroll: false,
            show_help: false,
            content_lines: 0,
            last_click: None,
            confirm: None,
            pending: None,
            yanked: None,
            kernel_name,
            launch: 0,
            kernel_starting: false,
            deferred: Vec::new(),
            follow: false,
            pending_clear: IdSet::new(),
            half_done: IdSet::new(),
            disk_mtime: on_disk,
            autosave_pending: false,
            started: IdMap::new(),
            prompt: None,
            search: None,
            overwrite_armed: None,
            stdin_req: None,
            completion: None,
            pending_inspect: None,
            pager: None,
            undo_stack: Vec::new(),
            redo_stack: Vec::new(),
            count: None,
            logged_status: None,
            logs: None,
            debug: None,
            zoom: None,
            wheel_latch: None,
            config,
            state_dir: place.state_dir,
            cwd: place.cwd,
            home: place.home,
            version: place.version,
            effects: Vec::new(),
        };
        assert(views(r.undo_stack@) =~= Seq::<CellOpView>::empty());
        assert(views(r.redo_stack@) =~= Seq::<CellOpView>::empty());
        assert(views(r.deferred@) =~= Seq::<Seq<char>>::empty());
        assert(views(r.effects@) =~= Seq::<EffectView>::empty());
        assert(r.hit@ =~= Seq::empty());
        r
    }
}

// ---------------------------------------------------------------------------
// Recovery copies
// ---------------------------------------------------------------------------

impl AppView {
    /// Where this notebook's recovery copy is kept.
    pub open spec fn autosave_path(self) -> Seq<char> {
        autosave_of(
            self.file.path,
            rooted(self.file.path, self.file.cwd),
            self.file.state_dir,
        )
    }

    pub open spec fn with_confirm(self, confirm: Option<ConfirmView>) -> AppView {
        AppView { overlay: OverlayView { confirm, ..self.overlay }, ..self }
    }

    /// A recovery copy was found: its age in seconds, and what it holds.
    pub open spec fn recovery_offered(
        self,
        age: u64,
        found: Result<NotebookView, Seq<char>>,
    ) -> AppView {
        match found {
            Ok(saved) => {
                let a = saved.cells;
                let b = self.notebook.cells;
                let n = differing(a, b, longer(a.len(), b.len()));
                if n == 0 {
                    self.emitting(EffectView::RemoveFile(self.autosave_path()))
                } else {
                    self.with_confirm(
                        Some(
                            ConfirmView::Recover(
                                saved,
                                "unsaved autosave from "@ + age_text(age) + " ago: "@ + decimal(
                                    n as int,
                                ) + " cell(s) differ ("@ + decimal(a.len() as int) + " vs "@
                                    + decimal(b.len() as int) + " cells)"@,
                            ),
                        ),
                    )
                }
            },
            Err(e) => self.said("unreadable autosave "@ + self.autosave_path() + ": "@ + e),
        }
    }

    pub open spec fn autosaving(self) -> AppView {
        if self.file.autosave_pending {
            self.emitting(EffectView::Autosave { path: self.autosave_path() })
        } else {
            self
        }
    }

    /// How the write of the recovery copy went.
    pub open spec fn autosave_done(self, result: Result<(), Seq<char>>) -> AppView {
        match result {
            Ok(()) => AppView {
                file: FileView { autosave_pending: false, ..self.file },
                ..self
            },
            Err(e) => self.said("autosave failed: "@ + e),
        }
    }
}

/// The model of what reading or writing gave.
pub open spec fn outcome_view<T: View>(r: Result<T, String>) -> Result<T::V, Seq<char>> {
    match r {
        Ok(v) => Ok(v@),
        Err(e) => Err(e@),
    }
}

pub open spec fn written_view(r: Result<(), String>) -> Result<(), Seq<char>> {
    match r {
        Ok(_) => Ok(()),
        Err(e) => Err(e@),
    }
}

fn recovery_summary(age: u64, n: usize, a: usize, b: usize) -> (r: String)
    ensures
        r@ == "unsaved autosave from "@ + age_text(age) + " ago: "@ + decimal(n as int)
            + " cell(s) differ ("@ + decimal(a as int) + " vs "@ + decimal(b as int) + " cells)"@,
{
    let mut s = "unsaved autosave from ".to_owned();
    s.append(paths::age(age).as_str());
    s.append(" ago: ");
    s.append(text::usize_string(n).as_str());
    s.append(" cell(s) differ (");
    s.append(text::usize_string(a).as_str());
    s.append(" vs ");
    s.append(text::usize_string(b).as_str());
    s.append(" cells)");
    s
}

impl App {
    /// Where the autosave timer writes this notebook's recovery copy.
    pub fn autosave_path(&self) -> (r: String)
        ensures
            r@ == self@.autosave_path(),
    {
        paths::autosave_path_for(self.path.as_str(), self.cwd.as_str(), &self.state_dir)
    }

    /// Startup: an autosave that differs from the file means a session died
    /// with unsaved work — ask. An identical one is just stale: remove it.
    pub fn check_autosave(&mut self, age: u64, found: Result<Notebook, String>)
        ensures
            final(self)@ == old(self)@.recovery_offered(age, outcome_view(found)),
    {
        match found {
            Ok(saved) => {
                let n = differing_cells(&saved, &self.notebook);
                if n == 0 {
                    let side = self.autosave_path();
                    self.emit(Effect::RemoveFile(side));
                } else {
                    let summary = recovery_summary(
                        age,
                        n,
                        saved.cells.len(),
                        self.notebook.cells.len(),
                    );
                    self.confirm = Some(Confirm::Recover(saved, summary));
                }
            },
            Err(e) => {
                let mut s = "unreadable autosave ".to_owned();
                s.append(self.autosave_path().as_str());
                s.append(": ");
                s.append(e.as_str());
                self.say(s.as_str());
            },
        }
    }

    /// Called from the main loop's timer; writes the recovery copy if anything
    /// changed.
    pub fn maybe_autosave(&mut self)
        ensures
            final(self)@ == old(self)@.autosaving(),
    {
        if self.autosave_pending {
            let path = self.autosave_path();
            self.emit(Effect::Autosave { path });
        }
    }

    /// The recovery copy was written, or not.
    pub fn autosaved(&mut self, result: Result<(), String>)
        ensures
            final(self)@ == old(self)@.autosave_done(written_view(result)),
    {
        match result {
            Ok(_) => {
                self.autosave_pending = false;
            },
            Err(e) => {
                self.say(text::concat("autosave failed: ", e.as_str()).as_str());
            },
        }
    }

    /// SIGTERM/SIGHUP/SIGINT: flush unsaved work to the autosave so the
    /// next start offers it back, then quit.
    pub fn on_signal(&mut self, name: &str)
        ensures
            final(self)@ == (AppView {
                should_quit: true,
                ..old(self)@.logged(
                    Level::Warn,
                    "jotter::app"@,
                    name@ + ": autosaving and exiting"@,
                ).autosaving()
            }),
    {
        self.log(Level::Warn, "jotter::app", text::concat(name, ": autosaving and exiting"));
        self.maybe_autosave();
        self.should_quit = true;
    }
}

// ---------------------------------------------------------------------------
// Saving
// ---------------------------------------------------------------------------

impl AppView {
    /// Whether the file changed since it was last seen.
    pub open spec fn diverged(self, on_disk: Option<u64>) -> bool {
        self.file.disk_mtime is Some && on_disk != self.file.disk_mtime
    }

    /// A save asked for; `force` skips the external-modification check.
    pub open spec fn saving(self, force: bool, on_disk: Option<u64>, next: AfterSaveView) ->
        AppView {
        if !force && self.diverged(on_disk) {
            self.said("file changed on disk since open/save — W to overwrite"@)
        } else {
            self.emitting(EffectView::Save { path: self.file.path, next })
        }
    }

    /// How a save went.
    pub open spec fn save_done(
        self,
        result: Result<(), Seq<char>>,
        on_disk: Option<u64>,
        next: AfterSaveView,
    ) -> AppView {
        match result {
            Ok(()) => {
                let a = AppView {
                    file: FileView {
                        dirty: false,
                        autosave_pending: false,
                        disk_mtime: on_disk,
                        ..self.file
                    },
                    ..self
                }.emitting(EffectView::RemoveFile(self.autosave_path())).said(
                    "saved "@ + self.file.path,
                );
                match next {
                    AfterSaveView::Nothing => a,
                    AfterSaveView::Quit => AppView { should_quit: true, ..a },
                    AfterSaveView::SavedAs { path, side } => {
                        let b = if self.autosave_path() != side {
                            a.emitting(EffectView::RemoveFile(side))
                        } else {
                            a
                        };
                        b.said(
                            "saved as "@ + self.file.path
                                + " (kernel keeps its working directory)"@,
                        )
                    },
                }
            },
            Err(e) => {
                let a = self.said("save failed: "@ + e);
                match next {
                    AfterSaveView::SavedAs { path, side } => AppView {
                        file: FileView { path, ..a.file },
                        ..a
                    },
                    _ => a,
                }
            },
        }
    }

    /// The path that typed text names.
    pub open spec fn typed_path(self, typed: Seq<char>) -> Seq<char> {
        expanded(trim(typed), self.file.home)
    }

    /// Whether a save under a typed path waits for a second Enter.
    pub open spec fn save_as_waits(self, typed: Seq<char>, exists: bool) -> bool {
        let target = self.typed_path(typed);
        &&& target.len() > 0
        &&& exists
        &&& !same_path(target, self.file.path)
        &&& !(self.input.overwrite_armed matches Some(p) && same_path(p, target))
    }

    /// A save under a new path, which is then the notebook's.
    pub open spec fn saving_as(self, typed: Seq<char>, exists: bool) -> AppView {
        let target = self.typed_path(typed);
        if target.len() == 0 {
            self
        } else if self.save_as_waits(typed, exists) {
            AppView {
                input: InputView { overwrite_armed: Some(target), ..self.input },
                ..self
            }.said(target + " exists — Enter again to overwrite"@)
        } else {
            AppView {
                input: InputView { overwrite_armed: None, ..self.input },
                file: FileView { path: target, ..self.file },
                ..self
            }.saving(
                true,
                None,
                AfterSaveView::SavedAs { path: self.file.path, side: self.autosave_path() },
            )
        }
    }
}

impl App {
    /// Save to `path`; `force` skips the external-modification check. Returns
    /// whether the save goes ahead.
    pub fn save_notebook(&mut self, force: bool, on_disk: Option<u64>, next: AfterSave) -> (r: bool)
        ensures
            final(self)@ == old(self)@.saving(force, on_disk, next@),
            r == (force || !old(self)@.diverged(on_disk)),
    {
        if !force && self.disk_mtime.is_some() && on_disk != self.disk_mtime {
            self.say("file changed on disk since open/save — W to overwrite");
            return false;
        }
        let path = self.path.clone();
        self.emit(Effect::Save { path, next });
        true
    }

    /// The notebook was written, or not; `on_disk` is the file's time stamp.
    pub fn saved(&mut self, result: Result<(), String>, on_disk: Option<u64>, next: AfterSave)
        ensures
            final(self)@ == old(self)@.save_done(written_view(result), on_disk, next@),
    {
        match result {
            Ok(_) => {
                self.dirty = false;
                self.autosave_pending = false;
                self.disk_mtime = on_disk;
                let side_now = self.autosave_path();
                self.emit(Effect::RemoveFile(side_now.clone()));
                self.say(text::concat("saved ", self.path.as_str()).as_str());
                match next {
                    AfterSave::Nothing => {},
                    AfterSave::Quit => {
                        self.should_quit = true;
                    },
                    AfterSave::SavedAs { path: _, side } => {
                        if !text::same(side_now.as_str(), side.as_str()) {
                            self.emit(Effect::RemoveFile(side));
                        }
                        let msg = text::concat(
                            text::concat("saved as ", self.path.as_str()).as_str(),
                            " (kernel keeps its working directory)",
                        );
                        self.say(msg.as_str());
                    },
                }
            },
            Err(e) => {
                self.say(text::concat("save failed: ", e.as_str()).as_str());
                if let AfterSave::SavedAs { path, side: _ } = next {
                    self.path = path;
                }
            },
        }
    }

    /// The path that typed text names.
    pub fn typed_path(&self, typed: &str) -> (r: String)
        ensures
            r@ == self@.typed_path(typed@),
    {
        paths::expand_tilde(text::trimmed(typed).as_str(), &self.home)
    }

    /// Save under a new path and continue editing that file. Returns false
    /// while waiting for a second Enter to overwrite an existing file.
    pub fn save_as(&mut self, typed: &str, exists: bool) -> (r: bool)
        ensures
            final(self)@ == old(self)@.saving_as(typed@, exists),
            r == !old(self)@.save_as_waits(typed@, exists),
    {
        let target = self.typed_path(typed);
        if target.as_str().unicode_len() == 0 {
            return true;
        }
        let armed = match &self.overwrite_armed {
            Some(p) => paths::paths_equal(p.as_str(), target.as_str()),
            None => false,
        };
        if exists && !paths::paths_equal(target.as_str(), self.path.as_str()) && !armed {
            let msg = text::concat(target.as_str(), " exists — Enter again to overwrite");
            self.overwrite_armed = Some(target);
            self.say(msg.as_str());
            return false;
        }
        self.overwrite_armed = None;
        let side = self.autosave_path();
        let old_path = self.path.clone();
        self.path = target;
        let _ = self.save_notebook(true, None, AfterSave::SavedAs { path: old_path, side });
        true
    }
}

// ---------------------------------------------------------------------------
// Reloading
// ---------------------------------------------------------------------------

impl AppView {
    /// An external-modification check.
    pub open spec fn disk_checked(self, on_disk: Option<u64>) -> AppView {
        if on_disk == self.file.disk_mtime || self.overlay.confirm is Some {
            self
        } else if !self.file.dirty && self.editor is None {
            self.emitting(EffectView::Reload(ReloadCause::Changed(on_disk)))
        } else {
            self.with_confirm(Some(ConfirmView::Reload))
        }
    }

    /// Another notebook in place of this one, with nothing to undo.
    pub open spec fn replaced(self, notebook: NotebookView, selected: int) -> AppView {
        AppView {
            notebook,
            selected,
            undo_stack: Seq::empty(),
            redo_stack: Seq::empty(),
            ..self
        }
    }

    pub open spec fn last_cell(n: NotebookView) -> int {
        if n.cells.len() > 0 {
            n.cells.len() - 1
        } else {
            0
        }
    }
}

impl State {
    /// The file's state in place of the notebook.
    pub open spec fn reloaded(
        self,
        result: Result<NotebookView, Seq<char>>,
        on_disk: Option<u64>,
        cause: ReloadCause,
    ) -> State {
        match result {
            Ok(n) => {
                let last = AppView::last_cell(n);
                let a = self.app.forgotten().replaced(
                    n,
                    if self.app.selected <= last {
                        self.app.selected
                    } else {
                        last
                    },
                );
                State {
                    app: AppView {
                        editor: None,
                        file: FileView {
                            dirty: false,
                            autosave_pending: false,
                            disk_mtime: on_disk,
                            ..a.file
                        },
                        ..a
                    }.said(
                        match cause {
                            ReloadCause::Changed(_) => "file changed on disk — reloaded"@,
                            ReloadCause::Asked => "reloaded from disk"@,
                        },
                    ),
                    ui: self.ui.all_rebuilt(n.cells),
                }
            },
            Err(e) => match cause {
                // don't retry every tick
                ReloadCause::Changed(seen) => self.on(
                    AppView {
                        file: FileView { disk_mtime: seen, ..self.app.file },
                        ..self.app
                    }.said("file changed on disk, reload failed: "@ + e),
                ),
                ReloadCause::Asked => self.said("reload failed: "@ + e),
            },
        }
    }

    /// A recovery copy in place of the notebook.
    pub open spec fn recovered(self, saved: NotebookView) -> State {
        let a = self.app.replaced(saved, 0);
        State {
            app: AppView { file: FileView { dirty: true, ..a.file }, ..a }.said(
                "autosave restored — w writes it to the file"@,
            ),
            ui: self.ui.all_rebuilt(saved.cells),
        }
    }
}

impl App {
    /// External-modification check, run on focus-gain and the periodic tick.
    /// Like nvim autoread: a clean buffer reloads silently; a dirty buffer
    /// (or an open editor, which may hold uncommitted text) prompts.
    pub fn check_disk(&mut self, on_disk: Option<u64>)
        ensures
            final(self)@ == old(self)@.disk_checked(on_disk),
    {
        if on_disk == self.disk_mtime || self.confirm.is_some() {
            return;
        }
        if !self.dirty && self.editor.is_none() {
            self.emit(Effect::Reload(ReloadCause::Changed(on_disk)));
        } else {
            self.confirm = Some(Confirm::Reload);
        }
    }

    fn replace_notebook(&mut self, n: Notebook, selected: usize)
        ensures
            final(self)@ == old(self)@.replaced(n@, selected as int),
    {
        self.notebook = n;
        self.selected = selected;
        let undo: Vec<CellOp> = Vec::new();
        let redo: Vec<CellOp> = Vec::new();
        assert(views(undo@) =~= Seq::<CellOpView>::empty());
        assert(views(redo@) =~= Seq::<CellOpView>::empty());
        self.undo_stack = undo;
        self.redo_stack = redo;
    }

    /// The file was read, or not: replace the in-memory notebook with the
    /// on-disk state.
    pub fn reload(
        &mut self,
        result: Result<Notebook, String>,
        on_disk: Option<u64>,
        cause: ReloadCause,
        rendered: &mut Rendered,
    )
        requires
            state(old(self), old(rendered)).wf(),
        ensures
            state(final(self), final(rendered)) == state(old(self), old(rendered)).reloaded(
                outcome_view(result),
                on_disk,
                cause,
            ),
            state(final(self), final(rendered)).wf(),
    {
        match result {
            Ok(n) => {
                rendered.rebuild_all(&n);
                // in-flight executions point at cells that no longer exist as
                // indexed
                self.forget_executions();
                let len = n.cells.len();
                let last = if len > 0 {
                    len - 1
                } else {
                    0
                };
                let selected = if self.selected <= last {
                    self.selected
                } else {
                    last
                };
                assert(len == n@.cells.len());
                self.replace_notebook(n, selected);
                self.editor = None;
                self.dirty = false;
                self.autosave_pending = false;
                self.disk_mtime = on_disk;
                match cause {
                    ReloadCause::Changed(_) => {
                        self.say("file changed on disk — reloaded");
                    },
                    ReloadCause::Asked => {
                        self.say("reloaded from disk");
                    },
                }
            },
            Err(e) => {
                match cause {
                    ReloadCause::Changed(seen) => {
                        self.disk_mtime = seen;
                        self.say(
                            text::concat(
                                "file changed on disk, reload failed: ",
                                e.as_str(),
                            ).as_str(),
                        );
                    },
                    ReloadCause::Asked => {
                        self.say(text::concat("reload failed: ", e.as_str()).as_str());
                    },
                }
            },
        }
    }

    /// Restore a recovery copy; it stays until the next save.
    pub fn recover(&mut self, saved: Notebook, rendered: &mut Rendered)
        requires
            state(old(self), old(rendered)).wf(),
        ensures
            state(final(self), final(rendered)) == state(old(self), old(rendered)).recovered(
                saved@,
            ),
            state(final(self), final(rendered)).wf(),
    {
        rendered.rebuild_all(&saved);
        self.replace_notebook(saved, 0);
        self.dirty = true;
        self.say("autosave restored — w writes it to the file");
    }
}

/// After "keep mine" a plain save goes ahead: the divergence is accepted.
pub proof fn law_an_accepted_change_is_saved_over(a: AppView, on_disk: Option<u64>)
    ensures
        ({
            let kept = AppView { file: FileView { disk_mtime: on_disk, ..a.file }, ..a };
            &&& kept.disk_checked(on_disk) == kept
            &&& !kept.diverged(on_disk)
        }),
{
}

/// A file that changed is never silently written over: a plain save says so
/// and writes nothing.
pub proof fn law_a_changed_file_is_not_overwritten(
    a: AppView,
    on_disk: Option<u64>,
    next: AfterSaveView,
)
    requires
        a.file.disk_mtime is Some,
        on_disk != a.file.disk_mtime,
    ensures
        a.saving(false, on_disk, next).effects == a.effects,
        a.saving(false, on_disk, next).file == a.file,
{
}

} // verus!
