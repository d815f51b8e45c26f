//! What the kernel's messages do to the session.

#[allow(unused_imports)]
use vstd::prelude::*;

#[allow(unused_imports)]
use crate::app::{AppView, EffectView, State, StdinView};
#[allow(unused_imports)]
use crate::events::{cell_with_id, introduced};
#[allow(unused_imports)]
use crate::ids::{law_put_then_get, value_of};
#[allow(unused_imports)]
use crate::json::{lookup, JsonView};
#[allow(unused_imports)]
use crate::kernel::{EventView, Interrupt, KernelView};
#[allow(unused_imports)]
use crate::notebook::{CellView, NotebookView};
#[allow(unused_imports)]
use crate::run_keys::{codes, lemma_ran, same_code, sent};

verus! {

/// Only cell `i` differs.
pub open spec fn only_cell(s: State, t: State, i: int) -> bool {
    &&& t.app.notebook.cells.len() == s.app.notebook.cells.len()
    &&& forall|k: int|
        0 <= k < s.app.notebook.cells.len() && k != i ==> #[trigger] t.app.notebook.cells[k]
            == s.app.notebook.cells[k]
    &&& t.app.notebook.extra == s.app.notebook.extra
}

/// An execution's number is put into its cell, and nothing else of it
/// changes; where a run is followed, the cell is selected.
pub proof fn law_executions_are_numbered(s: State, parent: Seq<char>, count: i64, now: u64)
    requires
        s.app.target(parent) is Some,
    ensures
        ({
            let t = s.informed(EventView::ExecutionCount { parent, count }, now);
            let i = s.app.target(parent)->Some_0;
            let (c, d) = (s.app.notebook.cells[i], t.app.notebook.cells[i]);
            &&& only_cell(s, t, i)
            &&& d.source == c.source && d.outputs == c.outputs && d.cell_type == c.cell_type
            &&& lookup(d.extra, "execution_count"@) == Some(JsonView::Int(count))
            &&& d.extra.remove("execution_count"@) == c.extra.remove("execution_count"@)
            &&& t.app.file.dirty
            &&& t.app.selected == (if s.app.run.follow {
                i
            } else {
                s.app.selected
            })
            &&& value_of(t.app.run.started, parent) == Some(now)
            &&& t.app.effects == s.app.effects
        }),
{
    reveal(State::counted);
    law_put_then_get(s.app.run.started, parent, now, parent);
    let t = s.informed(EventView::ExecutionCount { parent, count }, now);
    let i = s.app.target(parent)->Some_0;
    let c = s.app.notebook.cells[i];
    assert(t.app.notebook.cells[i].extra.remove("execution_count"@) =~= c.extra.remove(
        "execution_count"@,
    ));
}

/// A clear that does not wait leaves the cell without outputs.
pub proof fn law_a_clear_empties_the_cell(s: State, parent: Seq<char>, now: u64)
    requires
        s.app.target(parent) is Some,
    ensures
        ({
            let t = s.informed(EventView::Clear { parent, wait: false }, now);
            let i = s.app.target(parent)->Some_0;
            &&& only_cell(s, t, i)
            &&& t.app.notebook.cells[i] == (CellView {
                outputs: Some(Seq::empty()),
                ..s.app.notebook.cells[i]
            })
            &&& t.app.file.dirty
        }),
        s.informed(EventView::Clear { parent, wait: true }, now).app.notebook == s.app.notebook,
{
    reveal(State::output_cleared);
}

/// The kernel asks for input: the answer starts empty, and the question, its
/// secrecy and where to reply are kept. A notice is shown. Whether it is busy
/// is known.
pub proof fn law_the_kernel_is_heard(
    s: State,
    request: Seq<char>,
    text: Seq<char>,
    flag: bool,
    now: u64,
)
    ensures
        ({
            let t = s.informed(EventView::Input { request, prompt: text, password: flag }, now);
            &&& t.app.run.stdin_req == Some(
                StdinView { prompt: text, buf: Seq::empty(), password: flag, request },
            )
            &&& t.app.notebook == s.app.notebook
            &&& t.app.effects == s.app.effects
        }),
        s.informed(EventView::Info(text), now) == s.on(
            AppView { message: Some(text), ..s.app },
        ),
        s.informed(EventView::Status { parent: request, busy: flag }, now).app.run.kernel_busy
            == flag,
        s.informed(EventView::Status { parent: request, busy: flag }, now).app.notebook
            == s.app.notebook,
{
    reveal(AppView::input_asked);
    reveal(State::status_shown);
    reveal(State::end_signalled);
}

/// A dead kernel is let go: nothing runs any more, nothing is asked, and the
/// reason is shown. The notebook stays.
pub proof fn law_a_dead_kernel_is_let_go(s: State, reason: Seq<char>, now: u64)
    ensures
        ({
            let t = s.informed(EventView::Dead(reason), now);
            &&& t.app.run.kernel is None
            &&& t.app.run.running.len() == 0
            &&& t.app.run.stdin_req is None
            &&& !t.app.run.kernel_busy
            &&& t.app.notebook == s.app.notebook
            &&& t.app.message matches Some(m) && reason.len() <= m.len() && m.take(
                reason.len() as int,
            ) == reason
        }),
{
    reveal(AppView::kernel_died);
    let t = s.informed(EventView::Dead(reason), now);
    assert(t.app.message->Some_0.take(reason.len() as int) =~= reason);
}

/// What is run is what is answered: output that comes for the request of a run
/// cell goes to that cell.
pub proof fn law_a_run_gets_its_output(s: State, i: int)
    requires
        s.app.run.kernel is Some,
        0 <= i < s.app.notebook.cells.len() <= usize::MAX,
        s.app.notebook.cells[i].cell_type == "code"@,
    ensures
        ({
            let t = s.ran(i);
            t.app.effects.last() matches EffectView::Execute { msg_id, .. } && t.app.target(msg_id)
                == Some(i)
        }),
{
    lemma_ran(s, i);
    let id = s.app.next_request();
    law_put_then_get(s.app.run.running, id, i as usize, id);
}

proof fn lemma_ran_ids(s: State, ids: Seq<Seq<char>>)
    requires
        s.app.run.kernel is Some,
    ensures
        ({
            let t = s.ran_ids(ids);
            &&& t.app.run.kernel is Some
            &&& same_code(s.app.notebook.cells, t.app.notebook.cells)
            &&& s.app.effects.len() <= t.app.effects.len()
            &&& t.app.effects.take(s.app.effects.len() as int) == s.app.effects
            &&& sent(t.app.effects.skip(s.app.effects.len() as int)) == code_of(
                s.app.notebook.cells,
                ids,
            )
        }),
    decreases ids.len(),
{
    let n = s.app.effects.len() as int;
    let cells = s.app.notebook.cells;
    if ids.len() == 0 {
        assert(s.app.effects.take(n) =~= s.app.effects);
        assert(s.app.effects.skip(n) =~= Seq::<EffectView>::empty());
    } else {
        lemma_ran_ids(s, ids.drop_last());
        let b = s.ran_ids(ids.drop_last());
        let t = s.ran_ids(ids);
        lemma_found_alike(cells, b.app.notebook.cells, ids.last(), 0);
        match cell_with_id(cells, ids.last(), 0) {
            None => {},
            Some(i) => {
                lemma_ran(b, i);
                assert(b.app.notebook.cells[i].cell_type == cells[i].cell_type);
                let e = t.app.effects;
                if cells[i].cell_type == "code"@ {
                    assert(e.take(n) =~= b.app.effects.take(n));
                    assert(e.skip(n).drop_last() =~= b.app.effects.skip(n));
                    assert(e.skip(n).last() == e.last());
                }
            },
        }
    }
}

proof fn lemma_found_alike(a: Seq<CellView>, b: Seq<CellView>, id: Seq<char>, i: int)
    requires
        same_code(a, b),
    ensures
        cell_with_id(a, id, i) == cell_with_id(b, id, i),
        cell_with_id(a, id, i) matches Some(k) ==> 0 <= k < a.len() && a[k].id() == Some(id),
    decreases a.len() - i,
{
    if 0 <= i < a.len() {
        assert(a[i].extra == b[i].extra);
        lemma_found_alike(a, b, id, i + 1);
    }
}

/// The sources of the code cells with these ids, in the order of the ids.
pub open spec fn code_of(cells: Seq<CellView>, ids: Seq<Seq<char>>) -> Seq<Seq<char>>
    decreases ids.len(),
{
    if ids.len() == 0 {
        Seq::empty()
    } else {
        let before = code_of(cells, ids.drop_last());
        match cell_with_id(cells, ids.last(), 0) {
            Some(i) => if cells[i].cell_type == "code"@ {
                before.push(cells[i].source)
            } else {
                before
            },
            None => before,
        }
    }
}

/// A kernel that is ready is taken into use, and what waited for it is run, in
/// the order in which it was asked for.
pub proof fn law_a_ready_kernel_runs_what_waited(s: State, k: KernelView, now: u64)
    requires
        k.launch == s.app.run.launch,
        s.app.run.kernel is None,
    ensures
        ({
            let t = s.informed(EventView::Ready(k), now);
            &&& t.app.run.kernel is Some
            &&& same_code(s.app.notebook.cells, t.app.notebook.cells)
            &&& sent(t.app.effects.skip(s.app.effects.len() as int)) == code_of(
                s.app.notebook.cells,
                s.app.run.deferred,
            )
        }),
{
    reveal(State::kernel_ready);
    let r = State {
        app: s.app.kernel_taken(k),
        ui: if crate::events::lacks_kernelspec(s.app.notebook) {
            s.ui.in_language(k.language)
        } else {
            s.ui
        },
    };
    lemma_ran_ids(r, s.app.run.deferred);
    let t = r.ran_ids(s.app.run.deferred);
    let (n, m) = (s.app.effects.len() as int, r.app.effects.len() as int);
    let e = t.app.effects;
    assert(r.app.notebook.cells == s.app.notebook.cells);
    if m == n + 1 {
        assert(e.skip(n) =~= seq![e[n]] + e.skip(m));
        assert(e.take(m)[n] == e[n]);
        lemma_sent_first(e[n], e.skip(m));
    }
}

proof fn lemma_sent_first(e: EffectView, rest: Seq<EffectView>)
    requires
        !(e is Execute),
    ensures
        sent(seq![e] + rest) == sent(rest),
    decreases rest.len(),
{
    let all = seq![e] + rest;
    if rest.len() == 0 {
        assert(all.drop_last() =~= rest);
        assert(all.last() == e);
    } else {
        lemma_sent_first(e, rest.drop_last());
        assert(all.drop_last() =~= seq![e] + rest.drop_last());
        assert(all.last() == rest.last());
    }
}

/// An execution that ends has its time shown at its cell: from its start to
/// its second end signal.
pub proof fn law_the_time_taken_is_shown(s: State, parent: Seq<char>, start: u64, now: u64)
    requires
        s.app.target(parent) is Some,
        s.app.run.half_done.contains(parent),
        value_of(s.app.run.started, parent) == Some(start),
        start <= now,
        s.app.target(parent)->Some_0 < s.ui.blocks.len(),
    ensures
        ({
            let t = s.informed(EventView::Done { parent }, now);
            let i = s.app.target(parent)->Some_0;
            &&& t.ui.blocks.len() == s.ui.blocks.len()
            &&& t.ui.blocks[i].elapsed == Some((now - start) as u64)
            &&& t.ui.blocks[i].lines == s.ui.blocks[i].lines
            &&& forall|k: int|
                0 <= k < s.ui.blocks.len() && k != i ==> #[trigger] t.ui.blocks[k]
                    == s.ui.blocks[k]
            &&& t.app.notebook == s.app.notebook
        }),
{
    reveal(State::end_signalled);
}

// ---------------------------------------------------------------------------
// Interrupts, restarts and kernelspecs
// ---------------------------------------------------------------------------

/// A kernel is interrupted by a message where its kernelspec says so, else by
/// a signal to its process.
pub proof fn law_kernels_are_interrupted(k: KernelView, pid: u32)
    ensures
        k.interrupt_via_message ==> k.interrupt() == Interrupt::Message,
        !k.interrupt_via_message && k.pid == Some(pid) ==> k.interrupt() == Interrupt::Signal(pid),
        !k.interrupt_via_message && k.pid is None ==> k.interrupt() == Interrupt::Nothing,
{
}

/// A restart ends the kernel that is there and asks for a new one of the same
/// name; what ran is forgotten.
pub proof fn law_a_restart_replaces_the_kernel(a: AppView, run_all: bool)
    ensures
        ({
            let b = a.restarting(run_all);
            let n = a.effects.len() as int;
            &&& b.effects.last() matches EffectView::SpawnKernel { name, launch, .. } && name
                == a.run.kernel_name && launch == b.run.launch
            &&& b.run.launch == a.run.launch.wrapping_add(1)
            &&& a.run.kernel matches Some(k) ==> b.effects.len() == n + 2 && b.effects[n]
                == (EffectView::KillKernel { launch: k.launch })
            &&& a.run.kernel is None ==> b.effects.len() == n + 1
            &&& b.effects.take(n) == a.effects
            &&& b.run.kernel is None
            &&& b.run.running.len() == 0
            &&& b.notebook == a.notebook
        }),
{
    let n = a.effects.len() as int;
    assert(a.restarting(run_all).effects.take(n) =~= a.effects);
}

/// Each cell has an id of its own.
pub open spec fn all_identified(cells: Seq<CellView>) -> bool {
    &&& forall|i: int| 0 <= i < cells.len() ==> (#[trigger] cells[i]).id() is Some
    &&& forall|i: int, j: int|
        0 <= i < j < cells.len() ==> (#[trigger] cells[i]).id() != (#[trigger] cells[j]).id()
}

proof fn lemma_found(cells: Seq<CellView>, k: int, i: int)
    requires
        all_identified(cells),
        0 <= i <= k < cells.len(),
    ensures
        cell_with_id(cells, cells[k].id()->Some_0, i) == Some(k),
    decreases k - i,
{
    assert(cells[k].id() is Some);
    if i < k {
        assert(cells[i].id() != cells[k].id());
        lemma_found(cells, k, i + 1);
    }
}

proof fn lemma_all_code(cells: Seq<CellView>, n: int)
    requires
        all_identified(cells),
        0 <= n <= cells.len(),
    ensures
        code_of(cells, AppView::code_ids(cells.take(n))) == codes(cells.take(n)),
    decreases n,
{
    let t = cells.take(n);
    if n > 0 {
        lemma_all_code(cells, n - 1);
        assert(t.drop_last() =~= cells.take(n - 1));
        assert(t.last() == cells[n - 1]);
        assert(cells[n - 1].id() is Some);
        let before = AppView::code_ids(cells.take(n - 1));
        let id = cells[n - 1].id()->Some_0;
        lemma_found(cells, n - 1, 0);
        assert(before.push(id).drop_last() =~= before);
    }
}

/// Restarting with all cells to run has every code cell wait, in order: a
/// kernel that is then ready runs them all, in order, and nothing else.
pub proof fn law_restart_and_run_all(cells: Seq<CellView>)
    requires
        all_identified(cells),
    ensures
        code_of(cells, AppView::code_ids(cells)) == codes(cells),
{
    lemma_all_code(cells, cells.len() as int);
    assert(cells.take(cells.len() as int) =~= cells);
}

/// A notebook that names no kernel gets the name of the one that it runs with;
/// one that does keeps it. The cells stay.
pub proof fn law_notebooks_name_their_kernel(
    n: NotebookView,
    k: KernelView,
    m: Map<Seq<char>, JsonView>,
)
    ensures
        introduced(n, k).cells == n.cells,
        lookup(n.extra, "metadata"@) == Some(JsonView::Obj(m)) && m.contains_key("kernelspec"@)
            ==> introduced(n, k) == n,
        lookup(n.extra, "metadata"@) == Some(JsonView::Obj(m)) && !m.contains_key("kernelspec"@) ==> {
            &&& lookup(introduced(n, k).extra, "metadata"@) matches Some(JsonView::Obj(w)) && {
                &&& w.remove("kernelspec"@) == m
                &&& lookup(w, "kernelspec"@) matches Some(s) && s.get("name"@) == Some(
                    JsonView::Str(k.name),
                ) && s.get("language"@) == Some(JsonView::Str(k.language)) && s.get(
                    "display_name"@,
                ) == Some(JsonView::Str(k.display_name))
            }
        },
{
    reveal_strlit("name");
    reveal_strlit("display_name");
    reveal_strlit("language");
    assert("name"@.len() == 4 && "display_name"@.len() == 12 && "language"@.len() == 8);
    if lookup(n.extra, "metadata"@) == Some(JsonView::Obj(m)) && !m.contains_key("kernelspec"@) {
        let w = m.insert("kernelspec"@, crate::events::kernelspec(k));
        assert(w.remove("kernelspec"@) =~= m);
    }
}

} // verus!
