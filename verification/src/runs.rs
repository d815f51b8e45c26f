//! Running cells: requests to the kernel, their bookkeeping, and the kernel's
//! own life.

use vstd::prelude::*;

#[allow(unused_imports)]
use crate::app::{state, AppView, EffectView, RunView, State};
use crate::app::{App, Effect};
use crate::ids::{IdMap, IdSet};
#[allow(unused_imports)]
use crate::ids::{value_of, with_id, with_member, without_id, without_member};
use crate::json::Json;
#[allow(unused_imports)]
use crate::json::JsonView;
#[allow(unused_imports)]
use crate::kernel::KernelView;
use crate::notebook::Cell;
#[allow(unused_imports)]
use crate::notebook::{CellView, NotebookView};
use crate::paths;
#[allow(unused_imports)]
use crate::paths::directory_of;
use crate::text;
#[allow(unused_imports)]
use crate::text::{decimal, opt_view, views};
use crate::ui::Rendered;

verus! {

impl AppView {
    /// Without any in-flight execution.
    pub open spec fn forgotten(self) -> AppView {
        AppView {
            run: RunView {
                running: Seq::empty(),
                started: Seq::empty(),
                pending_clear: Seq::empty(),
                half_done: Seq::empty(),
                follow: false,
                ..self.run
            },
            ..self
        }
    }

    pub open spec fn with_kernel(self, kernel: Option<KernelView>) -> AppView {
        AppView { run: RunView { kernel, ..self.run }, ..self }
    }

    /// The kernel was sent one more request.
    pub open spec fn requested(self) -> AppView {
        match self.run.kernel {
            Some(k) => self.with_kernel(Some(k.after_request())),
            None => self,
        }
    }

    /// The id of the next request.
    pub open spec fn next_request(self) -> Seq<char> {
        match self.run.kernel {
            Some(k) => k.next_id(),
            None => Seq::empty(),
        }
    }

    /// Without its kernel, which is killed.
    pub open spec fn kernel_dropped(self) -> AppView {
        match self.run.kernel {
            Some(k) => self.emitting(EffectView::KillKernel { launch: k.launch }).with_kernel(None),
            None => self,
        }
    }

    /// The code cell an execution's messages route to.
    pub open spec fn target(self, parent: Seq<char>) -> Option<int> {
        match value_of(self.run.running, parent) {
            Some(i) => if i < self.notebook.cells.len() && self.notebook.cells[i as int].is_code() {
                Some(i as int)
            } else {
                None
            },
            None => None,
        }
    }

    pub open spec fn with_cell(self, i: int, c: CellView) -> AppView {
        AppView {
            notebook: NotebookView { cells: self.notebook.cells.update(i, c), ..self.notebook },
            ..self
        }
    }

    pub open spec fn following(self, follow: bool) -> AppView {
        AppView { run: RunView { follow, ..self.run }, ..self }
    }

    /// A cell run while the kernel starts, or without one.
    pub open spec fn deferring(self, c: CellView) -> AppView {
        match c.id() {
            Some(id) => if self.run.kernel_starting {
                let deferred = if self.run.deferred.contains(id) {
                    self.run.deferred
                } else {
                    self.run.deferred.push(id)
                };
                AppView { run: RunView { deferred, ..self.run }, ..self }.said(
                    "kernel starting — "@ + decimal(deferred.len() as int) + " cell(s) queued"@,
                )
            } else {
                self.said("no kernel — R to (re)start one"@)
            },
            None => self.said("no kernel — R to (re)start one"@),
        }
    }

    /// A kernel being launched.
    pub open spec fn spawning(self) -> AppView {
        let launch = self.run.launch.wrapping_add(1);
        AppView { run: RunView { launch, kernel_starting: true, ..self.run }, ..self }.said(
            "starting kernel '"@ + self.run.kernel_name + "'..."@,
        ).emitting(
            EffectView::SpawnKernel {
                name: self.run.kernel_name,
                dir: directory_of(self.file.path),
                launch,
            },
        )
    }

    /// The ids of the code cells.
    pub open spec fn code_ids(cells: Seq<CellView>) -> Seq<Seq<char>>
        decreases cells.len(),
    {
        if cells.len() == 0 {
            Seq::empty()
        } else {
            let before = AppView::code_ids(cells.drop_last());
            match cells.last().id() {
                Some(id) => if cells.last().is_code() {
                    before.push(id)
                } else {
                    before
                },
                None => before,
            }
        }
    }

    /// A fresh kernel; `run_all` queues every code cell.
    pub open spec fn restarting(self, run_all: bool) -> AppView {
        let a = self.kernel_dropped().forgotten();
        let b = AppView {
            run: RunView {
                kernel_busy: false,
                stdin_req: None,
                deferred: Seq::empty(),
                ..a.run
            },
            ..a
        }.spawning();
        if run_all {
            AppView {
                run: RunView {
                    deferred: AppView::code_ids(self.notebook.cells),
                    follow: true,
                    ..b.run
                },
                ..b
            }.said("restarting kernel — then run all"@)
        } else {
            b
        }
    }
}

impl State {
    /// A cell replaced and rendered anew.
    pub open spec fn with_cell(self, i: int, c: CellView) -> State {
        State { app: self.app.with_cell(i, c), ui: self.ui.rebuilt_cell(i, c) }
    }

    /// A cell run.
    pub open spec fn ran(self, i: int) -> State {
        let cells = self.app.notebook.cells;
        if !(0 <= i < cells.len()) || !cells[i].is_code() {
            self
        } else if self.app.run.kernel is None {
            self.on(self.app.deferring(cells[i]))
        } else {
            let c = CellView { outputs: Some(Seq::empty()), ..cells[i] };
            let id = self.app.next_request();
            // a fresh run follows its tail, even if the previous output had
            // been scrolled up
            let s = State { ui: self.ui.tailed(i), ..self }.with_cell(i, c);
            let a = s.app.requested().emitting(
                EffectView::Execute { msg_id: id, code: c.source },
            );
            s.on(
                AppView {
                    run: RunView { running: with_id(a.run.running, id, i as usize), ..a.run },
                    ..a
                }.touched(),
            )
        }
    }

    /// Cells run in order.
    pub open spec fn ran_all(self, from: int, to: int) -> State
        decreases to - from,
    {
        if from >= to {
            self
        } else {
            self.ran_all(from, to - 1).ran(to - 1)
        }
    }

    pub open spec fn ran_range(self, from: int, to: int) -> State {
        self.on(self.app.following(to - from > 1)).ran_all(from, to)
    }

    /// One of an execution's two end signals; it is over on the second.
    #[verifier::opaque]
    pub open spec fn end_signalled(self, parent: Seq<char>, now: u64) -> State {
        let run = self.app.run;
        if value_of(run.running, parent) is None {
            // idle of kernel_info etc., or a forgotten execution
            self
        } else if !run.half_done.contains(parent) {
            self.on(
                AppView {
                    run: RunView { half_done: with_member(run.half_done, parent), ..run },
                    ..self.app
                },
            )
        } else {
            let running = without_id(run.running, parent);
            State {
                app: AppView {
                    run: RunView {
                        half_done: without_member(run.half_done, parent),
                        running,
                        started: without_id(run.started, parent),
                        pending_clear: without_member(run.pending_clear, parent),
                        follow: run.follow && running.len() > 0,
                        ..run
                    },
                    ..self.app
                },
                // gutter timing: wall time from execute_input to the end
                ui: match (self.app.target(parent), value_of(run.started, parent)) {
                    (Some(i), Some(t)) => self.ui.timed(i, now.saturating_sub(t)),
                    _ => self.ui,
                },
            }
        }
    }
}

/// Sets a cell's outputs to none.
pub fn clear_cell(cells: &mut Vec<Cell>, i: usize)
    requires
        i < old(cells)@.len(),
    ensures
        views(final(cells)@) == views(old(cells)@).update(
            i as int,
            CellView { outputs: Some(Seq::empty()), ..views(old(cells)@)[i as int] },
        ),
        final(cells)@.len() == old(cells)@.len(),
{
    let ghost c0 = cells@;
    let outputs: Vec<Json> = Vec::new();
    assert(views(outputs@) =~= Seq::<JsonView>::empty());
    cells[i].outputs = Some(outputs);
    assert(views(cells@) =~= views(c0).update(
        i as int,
        CellView { outputs: Some(Seq::empty()), ..views(c0)[i as int] },
    ));
}

impl App {
    /// Drop all in-flight execution bookkeeping (restart, death, reload).
    pub fn forget_executions(&mut self)
        ensures
            final(self)@ == old(self)@.forgotten(),
    {
        self.running = IdMap::new();
        self.started = IdMap::new();
        self.pending_clear = IdSet::new();
        self.half_done = IdSet::new();
        self.follow = false;
    }

    /// Numbers a request to the kernel.
    pub fn request(&mut self) -> (r: String)
        ensures
            r@ == old(self)@.next_request(),
            final(self)@ == old(self)@.requested(),
    {
        match &mut self.kernel {
            Some(k) => k.request_id(),
            None => String::new(),
        }
    }

    /// Let the kernel go, which kills it.
    pub fn drop_kernel(&mut self)
        ensures
            final(self)@ == old(self)@.kernel_dropped(),
    {
        let launch = match &self.kernel {
            Some(k) => Some(k.launch),
            None => None,
        };
        if let Some(launch) = launch {
            self.emit(Effect::KillKernel { launch });
            self.kernel = None;
        }
    }

    /// The code cell an execution's messages route to. Anything else is
    /// dropped: a cell turned markdown mid-run must not gain outputs.
    pub fn target_cell(&self, parent: &str) -> (r: Option<usize>)
        ensures
            match r {
                Some(i) => self@.target(parent@) == Some(i as int),
                None => self@.target(parent@) is None,
            },
    {
        match self.running.get(parent) {
            Some(i) => if i < self.notebook.cells.len() && self.notebook.cells[i].is_code() {
                Some(i)
            } else {
                None
            },
            None => None,
        }
    }

    fn defer(&mut self, id: Option<String>, Ghost(c): Ghost<CellView>)
        requires
            opt_view(id) == c.id(),
        ensures
            final(self)@ == old(self)@.deferring(c),
    {
        match id {
            Some(id) => {
                if self.kernel_starting {
                    self.queue(id);
                } else {
                    self.say("no kernel — R to (re)start one");
                }
            },
            None => {
                self.say("no kernel — R to (re)start one");
            },
        }
    }

    fn queue(&mut self, id: String)
        ensures
            ({
                let run = old(self)@.run;
                let deferred = if run.deferred.contains(id@) {
                    run.deferred
                } else {
                    run.deferred.push(id@)
                };
                final(self)@ == AppView {
                    run: RunView { deferred, ..run },
                    ..old(self)@
                }.said(
                    "kernel starting — "@ + decimal(deferred.len() as int) + " cell(s) queued"@,
                )
            }),
    {
        let ghost d0 = self.deferred@;
        if text::index_of(&self.deferred, id.as_str()).is_none() {
            self.deferred.push(id);
            assert(views(self.deferred@) =~= views(d0).push(id@));
        }
        let msg = text::concat(
            text::concat(
                "kernel starting — ",
                text::usize_string(self.deferred.len()).as_str(),
            ).as_str(),
            " cell(s) queued",
        );
        self.say(msg.as_str());
    }

    /// Run a code cell: its outputs are cleared and its source is sent.
    pub fn run_cell(&mut self, idx: usize, rendered: &mut Rendered)
        requires
            state(old(self), old(rendered)).wf(),
        ensures
            state(final(self), final(rendered)) == state(old(self), old(rendered)).ran(idx as int),
            state(final(self), final(rendered)).wf(),
            final(self)@.notebook.cells.len() == old(self)@.notebook.cells.len(),
    {
        if idx >= self.notebook.cells.len() {
            return;
        }
        let ghost c = self@.notebook.cells[idx as int];
        assert(c == self.notebook.cells@[idx as int]@);
        if !self.notebook.cells[idx].is_code() {
            return;
        }
        if self.kernel.is_none() {
            let id = match self.notebook.cells[idx].id() {
                Some(id) => Some(id.to_owned()),
                None => None,
            };
            self.defer(id, Ghost(c));
            return;
        }
        let code = self.source_at(idx);
        self.send_cell(idx, code, rendered);
    }

    fn send_cell(&mut self, idx: usize, code: String, rendered: &mut Rendered)
        requires
            state(old(self), old(rendered)).wf(),
            idx < old(self)@.notebook.cells.len(),
            old(self)@.notebook.cells[idx as int].is_code(),
            old(self)@.notebook.cells[idx as int].source == code@,
            old(self)@.run.kernel is Some,
        ensures
            state(final(self), final(rendered)) == state(old(self), old(rendered)).ran(idx as int),
            state(final(self), final(rendered)).wf(),
            final(self)@.notebook.cells.len() == old(self)@.notebook.cells.len(),
    {
        let ghost c = CellView {
            outputs: Some(Seq::empty()),
            ..self@.notebook.cells[idx as int]
        };
        clear_cell(&mut self.notebook.cells, idx);
        assert(self@.notebook.cells[idx as int] == c);
        assert(self.notebook.cells@[idx as int]@ == c);
        rendered.follow_tail(idx);
        assert(rendered.blocks@.len() == rendered@.blocks.len());
        rendered.rebuild_cell(idx, &self.notebook.cells[idx]);
        let id = self.request();
        self.emit(Effect::Execute { msg_id: id.clone(), code });
        self.running.insert(id, idx);
        self.touch();
    }

    /// Run cells in order; the selection follows several.
    pub fn run_range(&mut self, from: usize, to: usize, rendered: &mut Rendered)
        requires
            state(old(self), old(rendered)).wf(),
        ensures
            state(final(self), final(rendered)) == state(old(self), old(rendered)).ran_range(
                from as int,
                to as int,
            ),
            state(final(self), final(rendered)).wf(),
    {
        self.follow = to > from && to - from > 1;
        let ghost s = state(self, rendered);
        let mut i: usize = from;
        while i < to
            invariant
                from <= i,
                i <= to || i == from,
                s.ran_all(from as int, i as int) == state(self, rendered),
                state(self, rendered).wf(),
            decreases to - i,
        {
            self.run_cell(i, rendered);
            i += 1;
        }
        assert(to <= from ==> s.ran_all(from as int, to as int) == s);
    }

    /// One of an execution's two end signals arrived; finish on the second.
    pub fn end_signal(&mut self, parent: &str, now: u64, rendered: &mut Rendered)
        requires
            state(old(self), old(rendered)).wf(),
        ensures
            state(final(self), final(rendered)) == state(old(self), old(rendered)).end_signalled(
                parent@,
                now,
            ),
            state(final(self), final(rendered)).wf(),
    {
        proof {
            reveal(State::end_signalled);
        }
        if !self.running.contains_key(parent) {
            return;
        }
        if !self.half_done.contains(parent) {
            let _ = self.half_done.insert(parent.to_owned());
            return;
        }
        let target = self.target_cell(parent);
        let started = self.started.get(parent);
        if let (Some(idx), Some(t)) = (target, started) {
            rendered.set_elapsed(idx, now.saturating_sub(t));
        }
        self.end_execution(parent);
    }

    fn end_execution(&mut self, parent: &str)
        ensures
            ({
                let run = old(self)@.run;
                let running = without_id(run.running, parent@);
                final(self)@ == (AppView {
                    run: RunView {
                        half_done: without_member(run.half_done, parent@),
                        running,
                        started: without_id(run.started, parent@),
                        pending_clear: without_member(run.pending_clear, parent@),
                        follow: run.follow && running.len() > 0,
                        ..run
                    },
                    ..old(self)@
                })
            }),
    {
        let _ = self.half_done.remove(parent);
        self.running.remove(parent);
        self.started.remove(parent);
        let _ = self.pending_clear.remove(parent);
        if self.running.is_empty() {
            self.follow = false;
        }
    }

    /// Start a kernel.
    pub fn spawn_kernel(&mut self)
        ensures
            final(self)@ == old(self)@.spawning(),
    {
        let msg = text::concat(
            text::concat("starting kernel '", self.kernel_name.as_str()).as_str(),
            "'...",
        );
        self.say(msg.as_str());
        self.launch = self.launch.wrapping_add(1);
        self.kernel_starting = true;
        let name = self.kernel_name.clone();
        let dir = paths::directory(self.path.as_str());
        let launch = self.launch;
        self.emit(Effect::SpawnKernel { name, dir, launch });
    }

    /// Kill the kernel and start a fresh one; `run_all` queues every code
    /// cell to run once it is ready.
    pub fn restart_kernel(&mut self, run_all: bool)
        ensures
            final(self)@ == old(self)@.restarting(run_all),
    {
        self.drop_kernel(); // kills the old process
        self.forget_executions();
        self.kernel_busy = false;
        self.stdin_req = None;
        let none: Vec<String> = Vec::new();
        assert(views(none@) =~= Seq::<Seq<char>>::empty());
        self.deferred = none;
        self.spawn_kernel();
        if run_all {
            self.deferred = code_cells(&self.notebook.cells);
            self.follow = true;
            self.say("restarting kernel — then run all");
        }
    }
}

/// The ids of the code cells.
fn code_cells(cells: &Vec<Cell>) -> (r: Vec<String>)
    ensures
        views(r@) == AppView::code_ids(views(cells@)),
{
    let ghost all = views(cells@);
    let mut r: Vec<String> = Vec::new();
    let mut i: usize = 0;
    assert(all.take(0) =~= Seq::<CellView>::empty());
    assert(views(r@) =~= Seq::<Seq<char>>::empty());
    while i < cells.len()
        invariant
            i <= cells@.len(),
            all == views(cells@),
            views(r@) == AppView::code_ids(all.take(i as int)),
        decreases cells@.len() - i,
    {
        let ghost r0 = r@;
        assert(all[i as int] == cells@[i as int]@);
        assert(all.take(i + 1).drop_last() =~= all.take(i as int));
        if cells[i].is_code() {
            if let Some(id) = cells[i].id() {
                r.push(id.to_owned());
                assert(views(r@) =~= views(r0).push(id@));
            }
        }
        i += 1;
    }
    assert(all.take(i as int) =~= all);
    r
}

} // verus!
