//! What the kernel tells, applied to the session.

use vstd::prelude::*;

#[allow(unused_imports)]
use crate::app::{state, AppView, EffectView, RunView, ScreenView, State, StdinView};
use crate::app::{App, Effect, StdinReq};
#[allow(unused_imports)]
use crate::ids::{
    law_removed_is_gone, law_removed_member_is_gone, value_of, with_id, with_member,
    without_member,
};
use crate::json::{Json, Object};
#[allow(unused_imports)]
use crate::json::{lookup, JsonView};
use crate::kernel::{display_id, Event, Kernel};
#[allow(unused_imports)]
use crate::kernel::{display_id_of, same_ignoring_case, EventView, KernelView};
use crate::log::Level;
use crate::notebook::Cell;
#[allow(unused_imports)]
use crate::notebook::{CellView, NotebookView};
use crate::runs;
use crate::text;
#[allow(unused_imports)]
use crate::text::{decimal, views};
use crate::ui::Rendered;

verus! {

// ---------------------------------------------------------------------------
// A kernel that is ready, or is not
// ---------------------------------------------------------------------------

/// What nbformat keeps of a kernel.
pub open spec fn kernelspec(k: KernelView) -> JsonView {
    JsonView::Obj(
        Map::empty().insert("name"@, JsonView::Str(k.name)).insert(
            "display_name"@,
            JsonView::Str(k.display_name),
        ).insert("language"@, JsonView::Str(k.language)),
    )
}

/// Notebook metadata that has no kernelspec yet.
pub open spec fn lacks_kernelspec(n: NotebookView) -> bool {
    match lookup(n.extra, "metadata"@) {
        Some(JsonView::Obj(m)) => !m.contains_key("kernelspec"@),
        Some(_) => false,
        None => true,
    }
}

/// A notebook that never had a kernelspec learns it.
pub open spec fn introduced(n: NotebookView, k: KernelView) -> NotebookView {
    if lacks_kernelspec(n) {
        let m = match lookup(n.extra, "metadata"@) {
            Some(JsonView::Obj(m)) => m,
            _ => Map::empty(),
        };
        NotebookView {
            extra: n.extra.insert(
                "metadata"@,
                JsonView::Obj(m.insert("kernelspec"@, kernelspec(k))),
            ),
            ..n
        }
    } else {
        n
    }
}

/// The first cell with an id, from `i` on.
pub open spec fn cell_with_id(cells: Seq<CellView>, id: Seq<char>, i: int) -> Option<int>
    decreases cells.len() - i,
{
    if i < 0 || i >= cells.len() {
        None
    } else if cells[i].id() == Some(id) {
        Some(i)
    } else {
        cell_with_id(cells, id, i + 1)
    }
}

impl AppView {
    /// IPython completes with jedi (static analysis, slow on big modules)
    /// unless told otherwise.
    pub open spec fn silences_jedi(self, k: KernelView) -> bool {
        same_ignoring_case(k.language, "python"@) && !self.config.jedi
    }

    /// A kernel taken into use.
    pub open spec fn kernel_taken(self, k: KernelView) -> AppView {
        let a = self.kernel_dropped().said(
            if k.name == self.run.kernel_name {
                "kernel '"@ + k.name + "' ready ("@ + k.spec_dir + ")"@
            } else {
                "'"@ + self.run.kernel_name + "' not found — using "@ + k.spec_dir
            },
        );
        let b = AppView {
            notebook: introduced(self.notebook, k),
            run: RunView {
                kernel: Some(k),
                kernel_starting: false,
                deferred: Seq::empty(),
                ..a.run
            },
            ..a
        };
        if self.silences_jedi(k) {
            b.requested().emitting(
                EffectView::ExecuteSilent {
                    msg_id: k.next_id(),
                    code: "%config Completer.use_jedi = False"@,
                },
            )
        } else {
            b
        }
    }

    #[verifier::opaque]
    pub open spec fn launch_failed(self, launch: u64, reason: Seq<char>) -> AppView {
        if launch != self.run.launch {
            self
        } else {
            let dropped = self.run.deferred.len() as int;
            AppView {
                run: RunView { kernel_starting: false, deferred: Seq::empty(), ..self.run },
                ..self
            }.said(
                if dropped > 0 {
                    reason + " — "@ + decimal(dropped) + " queued run(s) dropped"@
                } else {
                    reason
                },
            )
        }
    }

    #[verifier::opaque]
    pub open spec fn input_asked(self, request: Seq<char>, prompt: Seq<char>, password: bool) ->
        AppView {
        AppView {
            run: RunView {
                stdin_req: Some(StdinView { prompt, buf: Seq::empty(), password, request }),
                ..self.run
            },
            ..self
        }
    }

    #[verifier::opaque]
    pub open spec fn kernel_died(self, reason: Seq<char>) -> AppView {
        let a = self.kernel_dropped().forgotten();
        AppView { run: RunView { kernel_busy: false, stdin_req: None, ..a.run }, ..a }.said(
            reason + " — R to restart"@,
        )
    }
}

impl State {
    /// A cell found by its id, run.
    pub open spec fn ran_id(self, id: Seq<char>) -> State {
        match cell_with_id(self.app.notebook.cells, id, 0) {
            Some(i) => self.ran(i),
            None => self,
        }
    }

    pub open spec fn ran_ids(self, ids: Seq<Seq<char>>) -> State
        decreases ids.len(),
    {
        if ids.len() == 0 {
            self
        } else {
            self.ran_ids(ids.drop_last()).ran_id(ids.last())
        }
    }

    /// A launch finished.
    #[verifier::opaque]
    pub open spec fn kernel_ready(self, k: KernelView) -> State {
        if k.launch != self.app.run.launch {
            self.on(
                self.app.logged(
                    Level::Info,
                    "jotter::app"@,
                    "dropping stale kernel from launch "@ + decimal(k.launch as int),
                ).emitting(EffectView::KillKernel { launch: k.launch }),
            )
        } else {
            State {
                app: self.app.kernel_taken(k),
                ui: if lacks_kernelspec(self.app.notebook) {
                    self.ui.in_language(k.language)
                } else {
                    self.ui
                },
            }.ran_ids(self.app.run.deferred)
        }
    }
}

// ---------------------------------------------------------------------------
// Output
// ---------------------------------------------------------------------------

/// An output with new contents, if it has this display id.
pub open spec fn redisplayed(o: JsonView, id: Seq<char>, new: JsonView) -> JsonView {
    if display_id_of(o) == Some(id) {
        o.set("data"@, new.at("data"@)).set("metadata"@, new.at("metadata"@))
    } else {
        o
    }
}

pub open spec fn displays(outputs: Seq<JsonView>, id: Seq<char>) -> bool {
    exists|k: int| 0 <= k < outputs.len() && display_id_of(#[trigger] outputs[k]) == Some(id)
}

/// A cell with every output of a display id renewed.
pub open spec fn redisplayed_cell(c: CellView, id: Seq<char>, new: JsonView) -> CellView {
    match c.outputs {
        Some(v) => CellView {
            outputs: Some(v.map_values(|o: JsonView| redisplayed(o, id, new))),
            ..c
        },
        None => c,
    }
}

impl State {
    /// New contents for every output with a display id, in the cells before
    /// `n`.
    #[verifier::opaque]
    pub open spec fn redisplayed(self, id: Seq<char>, new: JsonView, n: int) -> State
        decreases n,
    {
        if n <= 0 {
            self
        } else {
            let s = self.redisplayed(id, new, n - 1);
            let c = s.app.notebook.cells[n - 1];
            if displays(c.outputs_or_empty(), id) {
                let t = s.with_cell(n - 1, redisplayed_cell(c, id, new));
                t.on(t.app.touched())
            } else {
                s
            }
        }
    }

    /// An output for the cell that sent a request.
    #[verifier::opaque]
    pub open spec fn output_added(self, parent: Seq<char>, output: JsonView) -> State {
        match self.app.target(parent) {
            None => self,
            Some(i) => {
                let c = self.app.notebook.cells[i];
                let run = self.app.run;
                let cleared = if run.pending_clear.contains(parent) {
                    CellView { outputs: Some(Seq::empty()), ..c }
                } else {
                    c
                };
                let s = self.with_cell(i, cleared.with_output(output));
                s.on(
                    AppView {
                        run: RunView {
                            pending_clear: without_member(run.pending_clear, parent),
                            ..run
                        },
                        ..s.app
                    }.touched(),
                )
            },
        }
    }

    #[verifier::opaque]
    pub open spec fn output_cleared(self, parent: Seq<char>, wait: bool) -> State {
        if wait {
            self.on(
                AppView {
                    run: RunView {
                        pending_clear: with_member(self.app.run.pending_clear, parent),
                        ..self.app.run
                    },
                    ..self.app
                },
            )
        } else {
            match self.app.target(parent) {
                None => self,
                Some(i) => {
                    let c = self.app.notebook.cells[i];
                    let s = self.with_cell(i, CellView { outputs: Some(Seq::empty()), ..c });
                    s.on(s.app.touched())
                },
            }
        }
    }

    /// An execution started; a multi-cell run is followed.
    #[verifier::opaque]
    pub open spec fn counted(self, parent: Seq<char>, count: i64, now: u64) -> State {
        match self.app.target(parent) {
            None => self,
            Some(i) => {
                let c = self.app.notebook.cells[i];
                let a = self.app.with_cell(
                    i,
                    CellView {
                        extra: c.extra.insert("execution_count"@, JsonView::Int(count)),
                        ..c
                    },
                ).touched();
                let b = AppView {
                    run: RunView { started: with_id(a.run.started, parent, now), ..a.run },
                    ..a
                };
                self.on(
                    if b.run.follow {
                        AppView {
                            selected: i,
                            screen: ScreenView { manual_scroll: false, ..b.screen },
                            ..b
                        }
                    } else {
                        b
                    },
                )
            },
        }
    }

    #[verifier::opaque]
    pub open spec fn status_shown(self, parent: Seq<char>, busy: bool, now: u64) -> State {
        let s = self.on(
            AppView { run: RunView { kernel_busy: busy, ..self.app.run }, ..self.app },
        );
        if busy {
            s
        } else {
            s.end_signalled(parent, now)
        }
    }

    /// What a kernel event does.
    pub open spec fn informed(self, event: EventView, now: u64) -> State {
        match event {
            EventView::Ready(k) => self.kernel_ready(k),
            EventView::LaunchFailed { launch, reason } => self.on(
                self.app.launch_failed(launch, reason),
            ),
            EventView::UpdateDisplay { display_id, output } => self.redisplayed(
                display_id,
                output,
                self.app.notebook.cells.len() as int,
            ),
            EventView::Complete { parent, matches, start, types } => self.on(
                self.app.completion_replied(parent, matches, start, types),
            ),
            EventView::Inspect { parent, text } => self.on(self.app.inspect_replied(parent, text)),
            EventView::Output { parent, output } => self.output_added(parent, output),
            EventView::Clear { parent, wait } => self.output_cleared(parent, wait),
            EventView::ExecutionCount { parent, count } => self.counted(parent, count, now),
            EventView::Input { request, prompt, password } => self.on(
                self.app.input_asked(request, prompt, password),
            ),
            EventView::Status { parent, busy } => self.status_shown(parent, busy, now),
            EventView::Done { parent } => self.end_signalled(parent, now),
            EventView::Dead(reason) => self.on(self.app.kernel_died(reason)),
            EventView::Info(s) => self.said(s),
        }
    }
}

// ---------------------------------------------------------------------------

fn kernelspec_json(k: &Kernel) -> (r: Json)
    ensures
        r@ == kernelspec(k@),
{
    let mut o = Object::new();
    let _ = o.insert("name", Json::string(k.name.as_str()));
    let _ = o.insert("display_name", Json::string(k.display_name.as_str()));
    let _ = o.insert("language", Json::string(k.language.as_str()));
    Json::Obj(o)
}

fn find_cell(cells: &Vec<Cell>, id: &str) -> (r: Option<usize>)
    ensures
        match r {
            Some(i) => cell_with_id(views(cells@), id@, 0) == Some(i as int) && i < cells@.len(),
            None => cell_with_id(views(cells@), id@, 0) is None,
        },
{
    let ghost all = views(cells@);
    let mut i: usize = 0;
    while i < cells.len()
        invariant
            i <= cells@.len(),
            all == views(cells@),
            cell_with_id(all, id@, 0) == cell_with_id(all, id@, i as int),
        decreases cells@.len() - i,
    {
        assert(all[i as int] == cells@[i as int]@);
        let hit = match cells[i].id() {
            Some(s) => text::same(s, id),
            None => false,
        };
        if hit {
            return Some(i);
        }
        i += 1;
    }
    None
}

/// Renews every output of a display id; whether there was one.
fn redisplay(outputs: &mut Vec<Json>, id: &str, new: &Json) -> (r: bool)
    ensures
        r == displays(views(old(outputs)@), id@),
        views(final(outputs)@) == views(old(outputs)@).map_values(
            |o: JsonView| redisplayed(o, id@, new@),
        ),
{
    let ghost o0 = outputs@;
    let ghost before = views(outputs@);
    let ghost want = before.map_values(|o: JsonView| redisplayed(o, id@, new@));
    let mut hit = false;
    let mut i: usize = 0;
    while i < outputs.len()
        invariant
            i <= outputs@.len(),
            outputs@.len() == o0.len(),
            before == views(o0),
            want == before.map_values(|o: JsonView| redisplayed(o, id@, new@)),
            forall|k: int| 0 <= k < i ==> (#[trigger] outputs@[k])@ == want[k],
            forall|k: int| i <= k < o0.len() ==> #[trigger] outputs@[k] == o0[k],
            hit == (exists|k: int|
                0 <= k < i && display_id_of(#[trigger] before[k]) == Some(id@)),
        decreases outputs@.len() - i,
    {
        assert(before[i as int] == outputs@[i as int]@);
        assert(want[i as int] == redisplayed(before[i as int], id@, new@));
        let same = match display_id(&outputs[i]) {
            Some(d) => text::same(d.as_str(), id),
            None => false,
        };
        if same {
            outputs[i].set("data", new.copy_at("data"));
            outputs[i].set("metadata", new.copy_at("metadata"));
            hit = true;
        }
        i += 1;
    }
    assert(views(outputs@) =~= want);
    hit
}

fn redisplay_cell(cells: &mut Vec<Cell>, i: usize, id: &str, new: &Json) -> (r: bool)
    requires
        i < old(cells)@.len(),
    ensures
        ({
            let c = views(old(cells)@)[i as int];
            &&& r == displays(c.outputs_or_empty(), id@)
            &&& r ==> views(final(cells)@) == views(old(cells)@).update(
                i as int,
                redisplayed_cell(c, id@, new@),
            )
            &&& !r ==> views(final(cells)@) == views(old(cells)@)
        }),
        final(cells)@.len() == old(cells)@.len(),
{
    let ghost c0 = cells@;
    let ghost c = c0[i as int]@;
    assert(views(c0)[i as int] == c);
    let mut outputs = match cells[i].outputs.take() {
        Some(v) => v,
        None => {
            assert(cells@ =~= c0);
            assert(c.outputs_or_empty() =~= Seq::<JsonView>::empty());
            return false;
        },
    };
    let ghost o0 = outputs@;
    let hit = redisplay(&mut outputs, id, new);
    proof {
        if !hit {
            assert(views(outputs@) =~= views(o0)) by {
                assert forall|k: int| 0 <= k < views(o0).len() implies views(outputs@)[k]
                    == views(o0)[k] by {
                    assert(display_id_of(views(o0)[k]) != Some(id@));
                }
            }
        }
    }
    cells[i].outputs = Some(outputs);
    assert(views(cells@) =~= views(c0).update(i as int, cells@[i as int]@));
    assert(!hit ==> views(cells@) =~= views(c0));
    hit
}

fn add_output(cells: &mut Vec<Cell>, i: usize, clear: bool, output: Json)
    requires
        i < old(cells)@.len(),
    ensures
        ({
            let c = views(old(cells)@)[i as int];
            let cleared = if clear {
                CellView { outputs: Some(Seq::empty()), ..c }
            } else {
                c
            };
            views(final(cells)@) == views(old(cells)@).update(
                i as int,
                cleared.with_output(output@),
            )
        }),
        final(cells)@.len() == old(cells)@.len(),
{
    let ghost c0 = cells@;
    assert(views(c0)[i as int] == c0[i as int]@);
    if clear {
        let none: Vec<Json> = Vec::new();
        assert(views(none@) =~= Seq::<JsonView>::empty());
        cells[i].outputs = Some(none);
    }
    cells[i].push_output(output);
    assert(views(cells@) =~= views(c0).update(i as int, cells@[i as int]@));
}

fn count_cell(cells: &mut Vec<Cell>, i: usize, count: i64)
    requires
        i < old(cells)@.len(),
    ensures
        ({
            let c = views(old(cells)@)[i as int];
            views(final(cells)@) == views(old(cells)@).update(
                i as int,
                CellView {
                    extra: c.extra.insert("execution_count"@, JsonView::Int(count)),
                    ..c
                },
            )
        }),
        final(cells)@.len() == old(cells)@.len(),
{
    let ghost c0 = cells@;
    assert(views(c0)[i as int] == c0[i as int]@);
    let _ = cells[i].extra.insert("execution_count", Json::Int(count));
    assert(views(cells@) =~= views(c0).update(i as int, cells@[i as int]@));
}

impl App {
    /// The notebook learns its kernelspec; whether it had none.
    fn introduce(&mut self, k: &Kernel) -> (r: bool)
        ensures
            final(self)@ == (AppView {
                notebook: introduced(old(self)@.notebook, k@),
                ..old(self)@
            }),
            r == lacks_kernelspec(old(self)@.notebook),
    {
        let lacks = match self.notebook.extra.get("metadata") {
            Some(Json::Obj(m)) => !m.contains_key("kernelspec"),
            Some(_) => false,
            None => true,
        };
        if !lacks {
            return false;
        }
        let ghost e0 = self.notebook.extra@;
        let mut meta = match self.notebook.extra.remove("metadata") {
            Some(Json::Obj(m)) => m,
            _ => Object::new(),
        };
        let _ = meta.insert("kernelspec", kernelspec_json(k));
        let _ = self.notebook.extra.insert("metadata", Json::Obj(meta));
        assert(self.notebook.extra@ =~= e0.insert("metadata"@, JsonView::Obj(meta@)));
        true
    }

    fn take_kernel(&mut self, k: Kernel)
        ensures
            ({
                let a = old(self)@.kernel_dropped();
                final(self)@ == (AppView {
                    run: RunView {
                        kernel: Some(k@),
                        kernel_starting: false,
                        deferred: Seq::empty(),
                        ..a.run
                    },
                    ..a
                })
            }),
    {
        self.drop_kernel();
        self.kernel = Some(k);
        self.kernel_starting = false;
        let none: Vec<String> = Vec::new();
        assert(views(none@) =~= Seq::<Seq<char>>::empty());
        self.deferred = none;
    }

    fn greet(&mut self, k: &Kernel)
        ensures
            final(self)@ == old(self)@.said(
                if k@.name == old(self)@.run.kernel_name {
                    "kernel '"@ + k@.name + "' ready ("@ + k@.spec_dir + ")"@
                } else {
                    "'"@ + old(self)@.run.kernel_name + "' not found — using "@ + k@.spec_dir
                },
            ),
    {
        let msg = if text::same(k.name.as_str(), self.kernel_name.as_str()) {
            let mut s = "kernel '".to_owned();
            s.append(k.name.as_str());
            s.append("' ready (");
            s.append(k.spec_dir.as_str());
            s.append(")");
            s
        } else {
            let mut s = "'".to_owned();
            s.append(self.kernel_name.as_str());
            s.append("' not found — using ");
            s.append(k.spec_dir.as_str());
            s
        };
        self.say(msg.as_str());
    }

    /// A launch finished.
    pub fn on_ready(&mut self, k: Kernel, rendered: &mut Rendered)
        requires
            state(old(self), old(rendered)).wf(),
        ensures
            state(final(self), final(rendered)) == state(old(self), old(rendered)).kernel_ready(
                k@,
            ),
            state(final(self), final(rendered)).wf(),
    {
        proof {
            reveal(State::kernel_ready);
        }
        if k.launch != self.launch {
            let msg = text::concat(
                "dropping stale kernel from launch ",
                text::decimal_string(k.launch).as_str(),
            );
            self.log(Level::Info, "jotter::app", msg);
            self.emit(Effect::KillKernel { launch: k.launch });
            return;
        }
        let ids = text::clone_strings(&self.deferred);
        let jedi = k.is_python() && !self.config.jedi;
        self.greet(&k);
        if self.introduce(&k) {
            rendered.set_language(k.language.as_str());
        }
        self.take_kernel(k);
        if jedi {
            let id = self.request();
            self.emit(
                Effect::ExecuteSilent {
                    msg_id: id,
                    code: "%config Completer.use_jedi = False".to_owned(),
                },
            );
        }
        self.run_ids(&ids, rendered);
    }

    fn run_ids(&mut self, ids: &Vec<String>, rendered: &mut Rendered)
        requires
            state(old(self), old(rendered)).wf(),
        ensures
            state(final(self), final(rendered)) == state(old(self), old(rendered)).ran_ids(
                views(ids@),
            ),
            state(final(self), final(rendered)).wf(),
    {
        let ghost s = state(self, rendered);
        let ghost all = views(ids@);
        let mut i: usize = 0;
        assert(all.take(0) =~= Seq::<Seq<char>>::empty());
        while i < ids.len()
            invariant
                i <= ids@.len(),
                all == views(ids@),
                state(self, rendered) == s.ran_ids(all.take(i as int)),
                state(self, rendered).wf(),
            decreases ids@.len() - i,
        {
            assert(all.take(i + 1).drop_last() =~= all.take(i as int));
            assert(all.take(i + 1).last() == ids@[i as int]@);
            if let Some(idx) = find_cell(&self.notebook.cells, ids[i].as_str()) {
                self.run_cell(idx, rendered);
            }
            i += 1;
        }
        assert(all.take(i as int) =~= all);
    }

    fn on_launch_failed(&mut self, launch: u64, reason: String)
        ensures
            final(self)@ == old(self)@.launch_failed(launch, reason@),
            final(self)@.frame() == old(self)@.frame(),
    {
        proof {
            reveal(AppView::launch_failed);
        }
        if launch != self.launch {
            return;
        }
        self.kernel_starting = false;
        let dropped = self.deferred.len();
        let none: Vec<String> = Vec::new();
        assert(views(none@) =~= Seq::<Seq<char>>::empty());
        self.deferred = none;
        if dropped > 0 {
            let mut s = reason;
            s.append(" — ");
            s.append(text::usize_string(dropped).as_str());
            s.append(" queued run(s) dropped");
            self.say(s.as_str());
        } else {
            self.say(reason.as_str());
        }
    }

    fn on_update_display(&mut self, id: &str, output: &Json, rendered: &mut Rendered)
        requires
            state(old(self), old(rendered)).wf(),
        ensures
            state(final(self), final(rendered)) == state(old(self), old(rendered)).redisplayed(
                id@,
                output@,
                old(self)@.notebook.cells.len() as int,
            ),
            state(final(self), final(rendered)).wf(),
    {
        proof {
            reveal_with_fuel(State::redisplayed, 2);
        }
        let ghost s = state(self, rendered);
        let n = self.notebook.cells.len();
        let mut i: usize = 0;
        while i < n
            invariant
                i <= n,
                n == self@.notebook.cells.len(),
                n == s.app.notebook.cells.len(),
                state(self, rendered) == s.redisplayed(id@, output@, i as int),
                state(self, rendered).wf(),
            decreases n - i,
        {
            proof {
                reveal_with_fuel(State::redisplayed, 2);
            }
            self.redisplay_at(i, id, output, rendered);
            i += 1;
        }
    }

    fn redisplay_at(&mut self, i: usize, id: &str, output: &Json, rendered: &mut Rendered)
        requires
            state(old(self), old(rendered)).wf(),
            i < old(self)@.notebook.cells.len(),
        ensures
            ({
                let s = state(old(self), old(rendered));
                let c = s.app.notebook.cells[i as int];
                state(final(self), final(rendered)) == if displays(c.outputs_or_empty(), id@) {
                    let t = s.with_cell(i as int, redisplayed_cell(c, id@, output@));
                    t.on(t.app.touched())
                } else {
                    s
                }
            }),
            state(final(self), final(rendered)).wf(),
            final(self)@.notebook.cells.len() == old(self)@.notebook.cells.len(),
    {
        if redisplay_cell(&mut self.notebook.cells, i, id, output) {
            assert(rendered.blocks@.len() == rendered@.blocks.len());
            assert(self.notebook.cells@[i as int]@ == self@.notebook.cells[i as int]);
            rendered.rebuild_cell(i, &self.notebook.cells[i]);
            self.touch();
        }
    }

    fn on_output(&mut self, parent: &str, output: Json, rendered: &mut Rendered)
        requires
            state(old(self), old(rendered)).wf(),
        ensures
            state(final(self), final(rendered)) == state(old(self), old(rendered)).output_added(
                parent@,
                output@,
            ),
            state(final(self), final(rendered)).wf(),
    {
        proof {
            reveal(State::output_added);
        }
        if let Some(idx) = self.target_cell(parent) {
            let clear = self.pending_clear.remove(parent);
            add_output(&mut self.notebook.cells, idx, clear, output);
            assert(rendered.blocks@.len() == rendered@.blocks.len());
            assert(self.notebook.cells@[idx as int]@ == self@.notebook.cells[idx as int]);
            rendered.rebuild_cell(idx, &self.notebook.cells[idx]);
            self.touch();
        }
    }

    fn on_clear(&mut self, parent: String, wait: bool, rendered: &mut Rendered)
        requires
            state(old(self), old(rendered)).wf(),
        ensures
            state(final(self), final(rendered)) == state(old(self), old(rendered)).output_cleared(
                parent@,
                wait,
            ),
            state(final(self), final(rendered)).wf(),
    {
        proof {
            reveal(State::output_cleared);
        }
        if wait {
            let _ = self.pending_clear.insert(parent);
        } else if let Some(idx) = self.target_cell(parent.as_str()) {
            runs::clear_cell(&mut self.notebook.cells, idx);
            assert(rendered.blocks@.len() == rendered@.blocks.len());
            assert(self.notebook.cells@[idx as int]@ == self@.notebook.cells[idx as int]);
            rendered.rebuild_cell(idx, &self.notebook.cells[idx]);
            self.touch();
        }
    }

    fn on_count(&mut self, parent: String, count: i64, now: u64, rendered: &mut Rendered)
        requires
            state(old(self), old(rendered)).wf(),
        ensures
            state(final(self), final(rendered)) == state(old(self), old(rendered)).counted(
                parent@,
                count,
                now,
            ),
            state(final(self), final(rendered)).wf(),
    {
        proof {
            reveal(State::counted);
        }
        if let Some(idx) = self.target_cell(parent.as_str()) {
            count_cell(&mut self.notebook.cells, idx, count);
            self.touch();
            self.started.insert(parent, now); // no longer queued
            if self.follow {
                self.selected = idx;
                self.manual_scroll = false;
            }
        }
    }

    fn on_dead(&mut self, reason: &str)
        ensures
            final(self)@ == old(self)@.kernel_died(reason@),
            final(self)@.frame() == old(self)@.frame(),
    {
        proof {
            reveal(AppView::kernel_died);
        }
        self.drop_kernel();
        self.forget_executions();
        self.kernel_busy = false;
        self.stdin_req = None;
        self.say(text::concat(reason, " — R to restart").as_str());
    }

    /// Apply what the kernel told at the time `now` (in milliseconds).
    pub fn apply_kernel_event(&mut self, event: Event, now: u64, rendered: &mut Rendered)
        requires
            state(old(self), old(rendered)).wf(),
        ensures
            state(final(self), final(rendered)) == state(old(self), old(rendered)).informed(
                event@,
                now,
            ),
            state(final(self), final(rendered)).wf(),
    {
        match event {
            Event::Ready(k) => {
                self.on_ready(k, rendered);
            },
            Event::LaunchFailed { launch, reason } => {
                self.on_launch_failed(launch, reason);
            },
            Event::UpdateDisplay { display_id, output } => {
                self.on_update_display(display_id.as_str(), &output, rendered);
            },
            Event::Complete { parent, matches, start, types } => {
                self.on_complete_reply(parent.as_str(), matches, start, types);
            },
            Event::Inspect { parent, text } => {
                self.on_inspect_reply(parent.as_str(), text);
            },
            Event::Output { parent, output } => {
                self.on_output(parent.as_str(), output, rendered);
            },
            Event::Clear { parent, wait } => {
                self.on_clear(parent, wait, rendered);
            },
            Event::ExecutionCount { parent, count } => {
                self.on_count(parent, count, now, rendered);
            },
            Event::Input { request, prompt, password } => {
                self.ask_input(request, prompt, password);
            },
            Event::Status { parent, busy } => {
                self.on_status(parent.as_str(), busy, now, rendered);
            },
            Event::Done { parent } => {
                self.end_signal(parent.as_str(), now, rendered);
            },
            Event::Dead(reason) => {
                self.on_dead(reason.as_str());
            },
            Event::Info(s) => {
                self.say(s.as_str());
            },
        }
    }

    fn ask_input(&mut self, request: String, prompt: String, password: bool)
        ensures
            final(self)@ == old(self)@.input_asked(request@, prompt@, password),
            final(self)@.frame() == old(self)@.frame(),
    {
        proof {
            reveal(AppView::input_asked);
        }
        let buf = String::new();
        assert(buf@ =~= Seq::<char>::empty());
        self.stdin_req = Some(StdinReq { prompt, buf, password, request });
    }

    fn on_status(&mut self, parent: &str, busy: bool, now: u64, rendered: &mut Rendered)
        requires
            state(old(self), old(rendered)).wf(),
        ensures
            state(final(self), final(rendered)) == state(old(self), old(rendered)).status_shown(
                parent@,
                busy,
                now,
            ),
            state(final(self), final(rendered)).wf(),
    {
        proof {
            reveal(State::status_shown);
        }
        self.kernel_busy = busy;
        if !busy {
            self.end_signal(parent, now, rendered);
        }
    }
}

// ---------------------------------------------------------------------------
// Laws
// ---------------------------------------------------------------------------

/// An execution ends on its second end signal, the reply and the idle status
/// in either order: after the first it still runs.
pub proof fn law_an_execution_ends_on_the_second_signal(
    s: State,
    parent: Seq<char>,
    t1: u64,
    t2: u64,
)
    requires
        value_of(s.app.run.running, parent) is Some,
        !s.app.run.half_done.contains(parent),
    ensures
        ({
            let done = EventView::Done { parent };
            let idle = EventView::Status { parent, busy: false };
            let a = s.informed(done, t1);
            let b = s.informed(idle, t1);
            &&& a.app.target(parent) == s.app.target(parent)
            &&& b.app.target(parent) == s.app.target(parent)
            &&& value_of(a.app.run.running, parent) is Some
            &&& value_of(b.app.run.running, parent) is Some
            &&& value_of(a.informed(idle, t2).app.run.running, parent) is None
            &&& value_of(b.informed(done, t2).app.run.running, parent) is None
            &&& !a.informed(idle, t2).app.run.half_done.contains(parent)
            &&& !b.informed(done, t2).app.run.half_done.contains(parent)
        }),
{
    reveal(State::end_signalled);
    reveal(State::status_shown);
    let half = with_member(s.app.run.half_done, parent);
    assert(half.last() == parent);
    assert(half.contains(parent));
    law_removed_is_gone(s.app.run.running, parent);
    law_removed_member_is_gone(half, parent);
}

/// The end of a request that is not running changes nothing.
pub proof fn law_other_end_signals_are_ignored(s: State, parent: Seq<char>, now: u64)
    requires
        value_of(s.app.run.running, parent) is None,
    ensures
        s.informed(EventView::Done { parent }, now) == s,
{
    reveal(State::end_signalled);
}

/// A cell that is not a code cell (any more) gets nothing from the kernel.
pub proof fn law_only_code_cells_receive_output(
    s: State,
    parent: Seq<char>,
    i: usize,
    output: JsonView,
    count: i64,
    now: u64,
)
    requires
        value_of(s.app.run.running, parent) == Some(i),
        i < s.app.notebook.cells.len(),
        !s.app.notebook.cells[i as int].is_code(),
    ensures
        s.informed(EventView::Output { parent, output }, now) == s,
        s.informed(EventView::ExecutionCount { parent, count }, now) == s,
        s.informed(EventView::Clear { parent, wait: false }, now) == s,
{
    reveal(State::output_added);
    reveal(State::counted);
    reveal(State::output_cleared);
}

/// An output lands in the cell that sent the request, and in no other.
pub proof fn law_output_lands_in_its_cell(
    s: State,
    parent: Seq<char>,
    output: JsonView,
    now: u64,
    j: int,
)
    requires
        s.app.target(parent) is Some,
        0 <= j < s.app.notebook.cells.len(),
        !s.app.run.pending_clear.contains(parent),
    ensures
        ({
            let i = s.app.target(parent)->Some_0;
            let cells = s.informed(EventView::Output { parent, output }, now).app.notebook.cells;
            &&& j == i ==> cells[j] == s.app.notebook.cells[j].with_output(output)
            &&& j != i ==> cells[j] == s.app.notebook.cells[j]
        }),
{
    reveal(State::output_added);
}

/// A clear that waits takes effect with the next output: only that is left.
pub proof fn law_a_waiting_clear_happens_with_the_next_output(
    s: State,
    parent: Seq<char>,
    output: JsonView,
    now: u64,
)
    requires
        s.app.target(parent) is Some,
    ensures
        ({
            let i = s.app.target(parent)->Some_0;
            let waiting = s.informed(EventView::Clear { parent, wait: true }, now);
            let after = waiting.informed(EventView::Output { parent, output }, now);
            &&& waiting.app.notebook.cells[i] == s.app.notebook.cells[i]
            &&& after.app.notebook.cells[i] == CellView {
                outputs: Some(Seq::empty()),
                ..s.app.notebook.cells[i]
            }.with_output(output)
        }),
{
    reveal(State::output_added);
    reveal(State::output_cleared);
    let p = with_member(s.app.run.pending_clear, parent);
    if !s.app.run.pending_clear.contains(parent) {
        assert(p.last() == parent);
    }
    assert(p.contains(parent));
}

/// The end of a launch other than the current one changes nothing of the
/// session.
pub proof fn law_stale_launches_are_ignored(s: State, launch: u64, reason: Seq<char>, now: u64)
    requires
        launch != s.app.run.launch,
    ensures
        s.informed(EventView::LaunchFailed { launch, reason }, now) == s,
{
    reveal(AppView::launch_failed);
}

/// While a multi-cell run is followed, the selection jumps to each cell as it
/// starts; without it the selection stays.
pub proof fn law_the_selection_follows_a_run(s: State, parent: Seq<char>, count: i64, now: u64)
    requires
        s.app.target(parent) is Some,
    ensures
        s.informed(EventView::ExecutionCount { parent, count }, now).app.selected == (
        if s.app.run.follow {
            s.app.target(parent)->Some_0
        } else {
            s.app.selected
        }),
{
    reveal(State::counted);
}

/// A cell run twice while the kernel starts is queued once.
pub proof fn law_a_deferred_run_is_queued_once(s: State, i: int)
    requires
        0 <= i < s.app.notebook.cells.len(),
        s.app.notebook.cells[i].is_code(),
        s.app.notebook.cells[i].id() is Some,
        s.app.run.kernel is None,
        s.app.run.kernel_starting,
    ensures
        s.ran(i).app.run.deferred.contains(s.app.notebook.cells[i].id()->Some_0),
        s.ran(i).ran(i).app.run.deferred == s.ran(i).app.run.deferred,
{
    let id = s.app.notebook.cells[i].id()->Some_0;
    let d = s.app.run.deferred;
    if !d.contains(id) {
        assert(d.push(id).last() == id);
        assert(d.push(id).contains(id));
    }
}

/// Every output of a display id shows the new contents, in every cell.
pub proof fn law_display_updates_reach_every_output(
    s: State,
    id: Seq<char>,
    new: JsonView,
    now: u64,
    i: int,
)
    requires
        0 <= i < s.app.notebook.cells.len(),
    ensures
        s.informed(
            EventView::UpdateDisplay { display_id: id, output: new },
            now,
        ).app.notebook.cells[i] == redisplayed_cell(s.app.notebook.cells[i], id, new),
{
    lemma_redisplayed(s, id, new, s.app.notebook.cells.len() as int, i);
}

proof fn lemma_redisplayed(s: State, id: Seq<char>, new: JsonView, n: int, i: int)
    requires
        0 <= n <= s.app.notebook.cells.len(),
        0 <= i < s.app.notebook.cells.len(),
    ensures
        s.redisplayed(id, new, n).app.notebook.cells.len() == s.app.notebook.cells.len(),
        s.redisplayed(id, new, n).app.notebook.cells[i] == if i < n {
            redisplayed_cell(s.app.notebook.cells[i], id, new)
        } else {
            s.app.notebook.cells[i]
        },
    decreases n,
{
    reveal_with_fuel(State::redisplayed, 2);
    if n > 0 {
        lemma_redisplayed(s, id, new, n - 1, i);
        lemma_redisplayed(s, id, new, n - 1, n - 1);
        let c = s.app.notebook.cells[n - 1];
        if !displays(c.outputs_or_empty(), id) {
            if let Some(v) = c.outputs {
                assert(v.map_values(|o: JsonView| redisplayed(o, id, new)) =~= v) by {
                    assert forall|k: int| 0 <= k < v.len() implies redisplayed(
                        #[trigger] v[k],
                        id,
                        new,
                    ) == v[k] by {
                        assert(display_id_of(c.outputs_or_empty()[k]) != Some(id));
                    }
                }
            }
            assert(redisplayed_cell(c, id, new) == c);
        }
    }
}

} // verus!
