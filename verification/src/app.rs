//! The state of a session: the notebook being edited, what runs, what is
//! open on the screen, and what the host is to do next.

use vstd::prelude::*;

#[allow(unused_imports)]
use crate::cellops::{fits, CellOpView, Work};
use crate::cellops::CellOp;
use crate::completion::Completion;
#[allow(unused_imports)]
use crate::completion::CompletionView;
use crate::config::Config;
#[allow(unused_imports)]
use crate::config::ConfigView;
use crate::ids::{IdMap, IdSet};
use crate::kernel::{Interrupt, Kernel};
#[allow(unused_imports)]
use crate::kernel::KernelView;
use crate::keys::{KeyEvent, Rect};
use crate::log::Level;
use crate::notebook::{Cell, Notebook};
#[allow(unused_imports)]
use crate::notebook::{CellView, NotebookView};
use crate::nvim::{Backend, NvimMove};
#[allow(unused_imports)]
use crate::nvim::{BackendView, NvimMoveView};
use crate::text;
#[allow(unused_imports)]
use crate::text::{opt_view, views};
use crate::ui::{Rendered, Zoom};
#[allow(unused_imports)]
use crate::ui::{RenderedView, ZoomView};

verus! {

// ---------------------------------------------------------------------------
// Parts
// ---------------------------------------------------------------------------

/// What a rendered line belongs to — built each draw, used for mouse hits.
#[derive(Clone, Copy, Debug, PartialEq, Eq, Structural)]
pub struct Hit {
    pub cell: usize,
    pub kind: HitKind,
}

#[derive(Clone, Copy, Debug, PartialEq, Eq, Structural)]
pub enum HitKind {
    /// Source text: logical source line, and the char column the screen row
    /// starts at (soft-wrapped lines span several rows).
    Source { line: usize, col: usize },
    /// Output row (wheel here scrolls the cell's output viewport).
    Output,
    /// Prompt or separator line.
    Other,
}

/// A pending `input()` request from the kernel, answered from a prompt.
pub struct StdinReq {
    pub prompt: String,
    pub buf: String,
    pub password: bool,
    /// Id of the request.
    pub request: String,
}

#[verifier::ext_equal]
pub struct StdinView {
    pub prompt: Seq<char>,
    pub buf: Seq<char>,
    pub password: bool,
    pub request: Seq<char>,
}

impl View for StdinReq {
    type V = StdinView;

    open spec fn view(&self) -> StdinView {
        StdinView {
            prompt: self.prompt@,
            buf: self.buf@,
            password: self.password,
            request: self.request@,
        }
    }
}

/// What a wheel gesture is latched onto (browser-style scroll latching).
#[derive(Clone, Copy, Debug, PartialEq, Eq, Structural)]
pub enum WheelTarget {
    View,
    Output(usize),
}

/// A yes/no-style question on the status line; the next key answers it.
pub enum Confirm {
    Quit,
    Reload,
    Restart,
    /// An autosave differs from the file (crashed session?): restore it?
    Recover(Notebook, String),
}

pub enum ConfirmView {
    Quit,
    Reload,
    Restart,
    Recover(NotebookView, Seq<char>),
}

impl View for Confirm {
    type V = ConfirmView;

    open spec fn view(&self) -> ConfirmView {
        match *self {
            Confirm::Quit => ConfirmView::Quit,
            Confirm::Reload => ConfirmView::Reload,
            Confirm::Restart => ConfirmView::Restart,
            Confirm::Recover(n, s) => ConfirmView::Recover(n@, s@),
        }
    }
}

impl ConfirmView {
    pub open spec fn question(self) -> Seq<char> {
        match self {
            ConfirmView::Quit => "unsaved changes — s: save & quit · q: discard · else cancel"@,
            ConfirmView::Reload =>
                "file changed on disk — l: load it (discard mine) · any other key: keep mine"@,
            ConfirmView::Restart =>
                "restart kernel? R: restart · a: restart & run all · else cancel"@,
            ConfirmView::Recover(_, summary) => summary
                + " — r: restore it · d: delete it · else keep for now"@,
        }
    }
}

impl Confirm {
    pub fn question(&self) -> (r: String)
        ensures
            r@ == self@.question(),
    {
        match self {
            Confirm::Quit =>
                "unsaved changes — s: save & quit · q: discard · else cancel".to_owned(),
            Confirm::Reload =>
                "file changed on disk — l: load it (discard mine) · any other key: keep mine".to_owned(),
            Confirm::Restart =>
                "restart kernel? R: restart · a: restart & run all · else cancel".to_owned(),
            Confirm::Recover(_, summary) => text::concat(
                summary.as_str(),
                " — r: restore it · d: delete it · else keep for now",
            ),
        }
    }
}

#[derive(Clone, Copy, Debug, PartialEq, Eq, Structural)]
pub enum PromptKind {
    Search,
    SaveAs,
}

/// Scrollable read-only text overlay (Shift+Tab docs).
pub struct Pager {
    pub title: String,
    pub text: String,
    /// First visible line; clamped by the draw.
    pub top: usize,
}

#[verifier::ext_equal]
pub struct PagerView {
    pub title: Seq<char>,
    pub text: Seq<char>,
    pub top: usize,
}

impl View for Pager {
    type V = PagerView;

    open spec fn view(&self) -> PagerView {
        PagerView { title: self.title@, text: self.text@, top: self.top }
    }
}

/// One-line text input on the status line (`/` search, `S` save as).
pub struct Prompt {
    pub kind: PromptKind,
    pub buf: String,
}

#[verifier::ext_equal]
pub struct PromptView {
    pub kind: PromptKind,
    pub buf: Seq<char>,
}

impl View for Prompt {
    type V = PromptView;

    open spec fn view(&self) -> PromptView {
        PromptView { kind: self.kind, buf: self.buf@ }
    }
}

/// Things the main loop must do on our behalf (they need the terminal).
#[derive(Clone, Copy, Debug, PartialEq, Eq, Structural)]
pub enum Action {
    Nothing,
    /// Suspend the TUI and open the selected cell in $EDITOR.
    ExternalEdit,
}

/// What follows a save.
pub enum AfterSave {
    Nothing,
    Quit,
    /// The notebook was saved under a new name; its path and autosave before.
    SavedAs { path: String, side: String },
}

pub enum AfterSaveView {
    Nothing,
    Quit,
    SavedAs { path: Seq<char>, side: Seq<char> },
}

impl View for AfterSave {
    type V = AfterSaveView;

    open spec fn view(&self) -> AfterSaveView {
        match *self {
            AfterSave::Nothing => AfterSaveView::Nothing,
            AfterSave::Quit => AfterSaveView::Quit,
            AfterSave::SavedAs { path, side } => AfterSaveView::SavedAs {
                path: path@,
                side: side@,
            },
        }
    }
}

/// Why the file is read again.
#[derive(Clone, Copy, Debug, PartialEq, Eq, Structural)]
pub enum ReloadCause {
    /// It changed under a clean buffer; the time stamp that was seen.
    Changed(Option<u64>),
    /// The user asked.
    Asked,
}

/// What follows the opening of an nvim buffer.
#[derive(Clone, Copy, Debug, PartialEq, Eq, Structural)]
pub enum AfterOpen {
    Nothing,
    /// Enter insert mode.
    Insert,
    /// Append at the end.
    Append,
    Click { row: usize, col: usize, insert: bool },
}

/// What the host is to do: requests to the kernel, to nvim, to the terminal
/// and to the file system, in order.
pub enum Effect {
    Execute { msg_id: String, code: String },
    ExecuteSilent { msg_id: String, code: String },
    Complete { msg_id: String, code: String, pos: usize },
    Inspect { msg_id: String, code: String, pos: usize },
    ReplyInput { request: String, value: String },
    Interrupt(Interrupt),
    /// Kill the kernel of a launch.
    KillKernel { launch: u64 },
    SpawnKernel { name: String, dir: String, launch: u64 },
    /// Write an escape sequence to the terminal.
    Print(String),
    /// Write the notebook to a file.
    Save { path: String, next: AfterSave },
    /// Read the notebook's file.
    Reload(ReloadCause),
    RemoveFile(String),
    /// Write the notebook's recovery copy.
    Autosave { path: String },
    OpenNvim {
        key: String,
        source: String,
        filetype: String,
        user_config: bool,
        next: AfterOpen,
    },
    /// Feed a key to nvim.
    FeedNvim { keys: String, key: KeyEvent },
    Nvim(NvimMove),
    /// Make a picture for the whole screen.
    Zoom(Zoom),
    /// Write a log record.
    Log { level: Level, target: String, msg: String },
    /// Write a debug record with the time since a request was sent between
    /// two texts.
    LogSince { msg_id: String, target: String, before: String, after: String },
}

pub enum EffectView {
    Execute { msg_id: Seq<char>, code: Seq<char> },
    ExecuteSilent { msg_id: Seq<char>, code: Seq<char> },
    Complete { msg_id: Seq<char>, code: Seq<char>, pos: usize },
    Inspect { msg_id: Seq<char>, code: Seq<char>, pos: usize },
    ReplyInput { request: Seq<char>, value: Seq<char> },
    Interrupt(Interrupt),
    KillKernel { launch: u64 },
    SpawnKernel { name: Seq<char>, dir: Seq<char>, launch: u64 },
    Print(Seq<char>),
    Save { path: Seq<char>, next: AfterSaveView },
    Reload(ReloadCause),
    RemoveFile(Seq<char>),
    Autosave { path: Seq<char> },
    OpenNvim {
        key: Seq<char>,
        source: Seq<char>,
        filetype: Seq<char>,
        user_config: bool,
        next: AfterOpen,
    },
    FeedNvim { keys: Seq<char>, key: KeyEvent },
    Nvim(NvimMoveView),
    Zoom(ZoomView),
    Log { level: Level, target: Seq<char>, msg: Seq<char> },
    LogSince { msg_id: Seq<char>, target: Seq<char>, before: Seq<char>, after: Seq<char> },
}

impl View for Effect {
    type V = EffectView;

    open spec fn view(&self) -> EffectView {
        match *self {
            Effect::Execute { msg_id, code } => EffectView::Execute {
                msg_id: msg_id@,
                code: code@,
            },
            Effect::ExecuteSilent { msg_id, code } => EffectView::ExecuteSilent {
                msg_id: msg_id@,
                code: code@,
            },
            Effect::Complete { msg_id, code, pos } => EffectView::Complete {
                msg_id: msg_id@,
                code: code@,
                pos,
            },
            Effect::Inspect { msg_id, code, pos } => EffectView::Inspect {
                msg_id: msg_id@,
                code: code@,
                pos,
            },
            Effect::ReplyInput { request, value } => EffectView::ReplyInput {
                request: request@,
                value: value@,
            },
            Effect::Interrupt(i) => EffectView::Interrupt(i),
            Effect::KillKernel { launch } => EffectView::KillKernel { launch },
            Effect::SpawnKernel { name, dir, launch } => EffectView::SpawnKernel {
                name: name@,
                dir: dir@,
                launch,
            },
            Effect::Print(s) => EffectView::Print(s@),
            Effect::Save { path, next } => EffectView::Save { path: path@, next: next@ },
            Effect::Reload(c) => EffectView::Reload(c),
            Effect::RemoveFile(p) => EffectView::RemoveFile(p@),
            Effect::Autosave { path } => EffectView::Autosave { path: path@ },
            Effect::OpenNvim { key, source, filetype, user_config, next } => EffectView::OpenNvim {
                key: key@,
                source: source@,
                filetype: filetype@,
                user_config,
                next,
            },
            Effect::FeedNvim { keys, key } => EffectView::FeedNvim { keys: keys@, key },
            Effect::Nvim(m) => EffectView::Nvim(m@),
            Effect::Zoom(z) => EffectView::Zoom(z@),
            Effect::Log { level, target, msg } => EffectView::Log {
                level,
                target: target@,
                msg: msg@,
            },
            Effect::LogSince { msg_id, target, before, after } => EffectView::LogSince {
                msg_id: msg_id@,
                target: target@,
                before: before@,
                after: after@,
            },
        }
    }
}

/// What the host observed before an event: the time in milliseconds, the
/// file's time stamp, whether the target of a save-as exists, and an id for a
/// cell that may be made.
pub struct Moment {
    pub now: u64,
    pub on_disk: Option<u64>,
    pub target_exists: bool,
    pub fresh_id: String,
}

pub struct MomentView {
    pub now: u64,
    pub on_disk: Option<u64>,
    pub target_exists: bool,
    pub fresh_id: Seq<char>,
}

impl View for Moment {
    type V = MomentView;

    open spec fn view(&self) -> MomentView {
        MomentView {
            now: self.now,
            on_disk: self.on_disk,
            target_exists: self.target_exists,
            fresh_id: self.fresh_id@,
        }
    }
}

// ---------------------------------------------------------------------------
// The session
// ---------------------------------------------------------------------------

pub struct App {
    pub notebook: Notebook,
    pub path: String,
    pub selected: usize,
    /// First visible rendered line; adjusted by the draw to keep the selection
    /// visible.
    pub scroll: usize,
    pub should_quit: bool,
    /// One-shot status message.
    pub message: Option<String>,
    pub kernel: Option<Kernel>,
    pub kernel_busy: bool,
    /// In-flight executions: msg_id -> cell index (remapped on cell ops).
    pub running: IdMap<usize>,
    pub dirty: bool,
    /// Some(_) while a cell is being edited.
    pub editor: Option<Backend>,
    /// Line -> cell mapping of the last draw (mouse support).
    pub hit: Vec<Hit>,
    /// Notebook body area of the last draw.
    pub body: Rect,
    /// View was wheel-scrolled: draw must not snap back to the selection.
    pub manual_scroll: bool,
    /// Keybinding cheatsheet overlay is open.
    pub show_help: bool,
    /// Total rendered lines of the last draw (scroll bound).
    pub content_lines: usize,
    /// Time and place of the last click.
    pub last_click: Option<(u64, u16, u16)>,
    /// Pending question; the next key answers it (shown on the status line).
    pub confirm: Option<Confirm>,
    /// First key of a two-key chord (dd).
    pub pending: Option<char>,
    pub yanked: Option<Cell>,
    pub kernel_name: String,
    /// Current kernel launch (Ready/LaunchFailed of older launches are stale).
    pub launch: u64,
    pub kernel_starting: bool,
    /// Cells (by id) run while the kernel was starting; run on Ready.
    pub deferred: Vec<String>,
    /// Multi-cell run in progress: the selection jumps to each cell as it
    /// starts, until the user moves the selection or scrolls.
    pub follow: bool,
    /// clear_output(wait=True) received: clear on that parent's next output.
    pub pending_clear: IdSet,
    /// Executions that got one of their two end signals (shell execute_reply,
    /// iopub idle); the second one finishes them.
    pub half_done: IdSet,
    /// Time stamp of the file as we last saw it on disk.
    pub disk_mtime: Option<u64>,
    /// Changes since the last autosave/save.
    pub autosave_pending: bool,
    /// Executions the kernel has actually started (vs still queued), with
    /// their start time.
    pub started: IdMap<u64>,
    /// Status-line text input, and the committed search query.
    pub prompt: Option<Prompt>,
    pub search: Option<String>,
    /// Save-as target that exists: a second Enter on it overwrites.
    pub overwrite_armed: Option<String>,
    /// Kernel is waiting on `input()`.
    pub stdin_req: Option<StdinReq>,
    pub completion: Option<Completion>,
    /// inspect_request msg_id awaiting its reply.
    pub pending_inspect: Option<String>,
    pub pager: Option<Pager>,
    pub undo_stack: Vec<CellOp>,
    pub redo_stack: Vec<CellOp>,
    /// Numeric count prefix (`5G`, `3j`).
    pub count: Option<usize>,
    /// Last status message sent to the log.
    pub logged_status: Option<String>,
    /// `L` log viewer: Some(rows scrolled up from the newest entry).
    pub logs: Option<usize>,
    /// `D` debug overlay text (also copied to the clipboard).
    pub debug: Option<String>,
    /// `z`: fullscreen image overlay (any key closes).
    pub zoom: Option<Zoom>,
    /// Wheel-gesture latch: ticks in one burst keep their initial target even
    /// as content moves under the pointer.
    pub wheel_latch: Option<(u64, WheelTarget)>,
    pub config: Config,
    /// Where recovery copies are kept.
    pub state_dir: Option<String>,
    /// Working directory.
    pub cwd: String,
    pub home: Option<String>,
    /// Of the program, for reports.
    pub version: String,
    /// What the host is to do.
    pub effects: Vec<Effect>,
}

/// What runs, and what waits to.
pub struct RunView {
    pub kernel: Option<KernelView>,
    pub kernel_busy: bool,
    pub running: Seq<(Seq<char>, usize)>,
    pub started: Seq<(Seq<char>, u64)>,
    pub half_done: Seq<Seq<char>>,
    pub pending_clear: Seq<Seq<char>>,
    pub follow: bool,
    pub deferred: Seq<Seq<char>>,
    pub launch: u64,
    pub kernel_starting: bool,
    pub kernel_name: Seq<char>,
    pub stdin_req: Option<StdinView>,
}

/// What the last draw showed, and where the pointer is on it.
pub struct ScreenView {
    pub scroll: usize,
    pub hit: Seq<Hit>,
    pub body: Rect,
    pub manual_scroll: bool,
    pub content_lines: usize,
    pub last_click: Option<(u64, u16, u16)>,
    pub wheel_latch: Option<(u64, WheelTarget)>,
    pub logged_status: Option<Seq<char>>,
}

/// What is open over the notebook.
pub struct OverlayView {
    pub show_help: bool,
    pub pager: Option<PagerView>,
    pub logs: Option<usize>,
    pub debug: Option<Seq<char>>,
    pub zoom: Option<ZoomView>,
    pub confirm: Option<ConfirmView>,
    pub prompt: Option<PromptView>,
}

/// Keys and text kept from before.
pub struct InputView {
    pub pending: Option<char>,
    pub count: Option<usize>,
    pub search: Option<Seq<char>>,
    pub overwrite_armed: Option<Seq<char>>,
    pub pending_inspect: Option<Seq<char>>,
}

/// The file behind the notebook.
pub struct FileView {
    pub path: Seq<char>,
    pub dirty: bool,
    pub autosave_pending: bool,
    pub disk_mtime: Option<u64>,
    pub state_dir: Option<Seq<char>>,
    pub cwd: Seq<char>,
    pub home: Option<Seq<char>>,
}

pub struct AppView {
    pub notebook: NotebookView,
    pub selected: int,
    pub message: Option<Seq<char>>,
    pub should_quit: bool,
    pub editor: Option<BackendView>,
    pub completion: Option<CompletionView>,
    pub yanked: Option<CellView>,
    pub undo_stack: Seq<CellOpView>,
    pub redo_stack: Seq<CellOpView>,
    pub run: RunView,
    pub screen: ScreenView,
    pub overlay: OverlayView,
    pub input: InputView,
    pub file: FileView,
    pub config: ConfigView,
    pub version: Seq<char>,
    pub effects: Seq<EffectView>,
}

impl View for App {
    type V = AppView;

    open spec fn view(&self) -> AppView {
        AppView {
            notebook: self.notebook@,
            selected: self.selected as int,
            message: opt_view(self.message),
            should_quit: self.should_quit,
            editor: opt_view(self.editor),
            completion: opt_view(self.completion),
            yanked: opt_view(self.yanked),
            undo_stack: views(self.undo_stack@),
            redo_stack: views(self.redo_stack@),
            run: RunView {
                kernel: opt_view(self.kernel),
                kernel_busy: self.kernel_busy,
                running: self.running@,
                started: self.started@,
                half_done: self.half_done@,
                pending_clear: self.pending_clear@,
                follow: self.follow,
                deferred: views(self.deferred@),
                launch: self.launch,
                kernel_starting: self.kernel_starting,
                kernel_name: self.kernel_name@,
                stdin_req: opt_view(self.stdin_req),
            },
            screen: ScreenView {
                scroll: self.scroll,
                hit: self.hit@,
                body: self.body,
                manual_scroll: self.manual_scroll,
                content_lines: self.content_lines,
                last_click: self.last_click,
                wheel_latch: self.wheel_latch,
                logged_status: opt_view(self.logged_status),
            },
            overlay: OverlayView {
                show_help: self.show_help,
                pager: opt_view(self.pager),
                logs: self.logs,
                debug: opt_view(self.debug),
                zoom: opt_view(self.zoom),
                confirm: opt_view(self.confirm),
                prompt: opt_view(self.prompt),
            },
            input: InputView {
                pending: self.pending,
                count: self.count,
                search: opt_view(self.search),
                overwrite_armed: opt_view(self.overwrite_armed),
                pending_inspect: opt_view(self.pending_inspect),
            },
            file: FileView {
                path: self.path@,
                dirty: self.dirty,
                autosave_pending: self.autosave_pending,
                disk_mtime: self.disk_mtime,
                state_dir: opt_view(self.state_dir),
                cwd: self.cwd@,
                home: opt_view(self.home),
            },
            config: self.config@,
            version: self.version@,
            effects: views(self.effects@),
        }
    }
}

/// A session and its rendering.
pub struct State {
    pub app: AppView,
    pub ui: RenderedView,
}

pub open spec fn state(app: &App, rendered: &Rendered) -> State {
    State { app: app@, ui: rendered@ }
}

/// Ops of a stack can be applied one after the other, the last one first, to
/// `n` cells.
pub open spec fn stack_fits(ops: Seq<CellOpView>, n: int) -> bool
    decreases ops.len(),
{
    if ops.len() == 0 {
        true
    } else {
        match fits(ops.last(), n) {
            Some(m) => stack_fits(ops.drop_last(), m),
            None => false,
        }
    }
}

/// What the consistency of a session rests on.
pub struct Frame {
    pub cells: Seq<CellView>,
    pub selected: int,
    pub undo_stack: Seq<CellOpView>,
    pub redo_stack: Seq<CellOpView>,
    pub editor: Option<BackendView>,
    pub completion: Option<CompletionView>,
}

impl Frame {
    pub open spec fn wf(self) -> bool {
        let n = self.cells.len() as int;
        &&& 0 <= self.selected
        &&& self.selected < n || self.selected == 0
        &&& stack_fits(self.undo_stack, n)
        &&& stack_fits(self.redo_stack, n)
        &&& self.editor matches Some(e) ==> e.wf()
        &&& self.completion matches Some(c) ==> c.wf()
    }
}

impl AppView {
    pub open spec fn frame(self) -> Frame {
        Frame {
            cells: self.notebook.cells,
            selected: self.selected,
            undo_stack: self.undo_stack,
            redo_stack: self.redo_stack,
            editor: self.editor,
            completion: self.completion,
        }
    }

    /// The selection is a cell (or the start, where there is none), the
    /// recorded ops fit the cells, and what is open is consistent.
    pub open spec fn wf(self) -> bool {
        self.frame().wf()
    }

    /// The selected cell.
    pub open spec fn current(self) -> Option<CellView> {
        if 0 <= self.selected < self.notebook.cells.len() {
            Some(self.notebook.cells[self.selected])
        } else {
            None
        }
    }

    pub open spec fn said(self, s: Seq<char>) -> AppView {
        AppView { message: Some(s), ..self }
    }

    pub open spec fn emitting(self, e: EffectView) -> AppView {
        AppView { effects: self.effects.push(e), ..self }
    }

    /// With a log record.
    pub open spec fn logged(self, level: Level, target: Seq<char>, msg: Seq<char>) -> AppView {
        self.emitting(EffectView::Log { level, target, msg })
    }

    /// The notebook changed.
    pub open spec fn touched(self) -> AppView {
        AppView {
            file: FileView { dirty: true, autosave_pending: true, ..self.file },
            ..self
        }
    }

    pub open spec fn with_undo(self, undo_stack: Seq<CellOpView>) -> AppView {
        AppView { undo_stack, ..self }
    }

    pub open spec fn with_redo(self, redo_stack: Seq<CellOpView>) -> AppView {
        AppView { redo_stack, ..self }
    }

    pub open spec fn with_editor(self, editor: Option<BackendView>) -> AppView {
        AppView { editor, ..self }
    }

    pub open spec fn with_yanked(self, yanked: Option<CellView>) -> AppView {
        AppView { yanked, ..self }
    }

    pub open spec fn at_cell(self, i: int) -> AppView {
        AppView { selected: i, ..self }
    }
}

impl State {
    /// The session is consistent, and every cell has its rendering.
    pub open spec fn wf(self) -> bool {
        &&& self.app.wf()
        &&& self.ui.wf()
        &&& self.ui.blocks.len() == self.app.notebook.cells.len()
    }

    pub open spec fn on(self, app: AppView) -> State {
        State { app, ..self }
    }

    pub open spec fn said(self, s: Seq<char>) -> State {
        self.on(self.app.said(s))
    }

    /// The part that cell ops work on.
    pub open spec fn work(self) -> Work {
        Work {
            cells: self.app.notebook.cells,
            ui: self.ui,
            running: self.app.run.running,
            selected: self.app.selected,
        }
    }

    pub open spec fn with_work(self, w: Work) -> State {
        State {
            app: AppView {
                notebook: NotebookView { cells: w.cells, ..self.app.notebook },
                run: RunView { running: w.running, ..self.app.run },
                selected: w.selected,
                ..self.app
            },
            ui: w.ui,
        }
    }
}

impl App {
    pub fn say(&mut self, s: &str)
        ensures
            final(self)@ == old(self)@.said(s@),
            final(self)@.frame() == old(self)@.frame(),
    {
        self.message = Some(s.to_owned());
    }

    pub fn emit(&mut self, e: Effect)
        ensures
            final(self)@ == old(self)@.emitting(e@),
            final(self)@.frame() == old(self)@.frame(),
    {
        let ghost e0 = self.effects@;
        self.effects.push(e);
        assert(views(self.effects@) =~= views(e0).push(e@));
    }

    pub fn log(&mut self, level: Level, target: &str, msg: String)
        ensures
            final(self)@ == old(self)@.logged(level, target@, msg@),
            final(self)@.frame() == old(self)@.frame(),
    {
        self.emit(Effect::Log { level, target: target.to_owned(), msg });
    }

    /// The notebook changed.
    pub fn touch(&mut self)
        ensures
            final(self)@ == old(self)@.touched(),
            final(self)@.frame() == old(self)@.frame(),
    {
        self.dirty = true;
        self.autosave_pending = true;
    }

    /// Move the selection.
    pub fn select(&mut self, i: usize)
        ensures
            final(self)@ == old(self)@.at_cell(i as int),
            final(self)@.frame() == (Frame { selected: i as int, ..old(self)@.frame() }),
    {
        self.selected = i;
    }

    pub fn set_redo(&mut self, stack: Vec<CellOp>)
        ensures
            final(self)@ == old(self)@.with_redo(views(stack@)),
            final(self)@.frame() == (Frame { redo_stack: views(stack@), ..old(self)@.frame() }),
    {
        self.redo_stack = stack;
    }

    pub fn set_yanked(&mut self, cell: Option<Cell>)
        ensures
            final(self)@ == old(self)@.with_yanked(opt_view(cell)),
            final(self)@.frame() == old(self)@.frame(),
    {
        self.yanked = cell;
    }

    pub fn set_editor(&mut self, editor: Option<Backend>)
        ensures
            final(self)@ == old(self)@.with_editor(opt_view(editor)),
            final(self)@.frame() == (Frame { editor: opt_view(editor), ..old(self)@.frame() }),
    {
        self.editor = editor;
    }

    /// Close the editor.
    pub fn take_editor(&mut self) -> (r: Option<Backend>)
        ensures
            opt_view(r) == old(self)@.editor,
            final(self)@ == old(self)@.with_editor(None),
            r is None ==> final(self)@ == old(self)@,
            final(self)@.frame() == (Frame { editor: None, ..old(self)@.frame() }),
    {
        self.editor.take()
    }

    /// The text of a cell.
    pub fn source_at(&self, i: usize) -> (r: String)
        requires
            i < self@.notebook.cells.len(),
        ensures
            r@ == self@.notebook.cells[i as int].source,
    {
        self.notebook.cells[i].source.clone()
    }

    /// Hands over what the host is to do.
    pub fn take_effects(&mut self) -> (r: Vec<Effect>)
        ensures
            views(r@) == old(self)@.effects,
            final(self)@ == (AppView { effects: Seq::empty(), ..old(self)@ }),
    {
        let mut out: Vec<Effect> = Vec::new();
        out.append(&mut self.effects);
        assert(views(self.effects@) =~= Seq::<EffectView>::empty());
        assert(views(out@) =~= old(self)@.effects);
        out
    }
}

} // verus!
