//! What the keys that change cells do to them.

#[allow(unused_imports)]
use vstd::prelude::*;

#[allow(unused_imports)]
use crate::app::{EffectView, MomentView, State};
#[allow(unused_imports)]
use crate::cellops::{op_cells, op_cells_all, CellOpView, Work};
#[allow(unused_imports)]
use crate::edits::{both, clearable, clearing, clearings, lemma_clearings_fit, merged_source};
#[allow(unused_imports)]
use crate::json::{lookup, JsonView};
#[allow(unused_imports)]
use crate::keys::{no_modifiers, KeyEvent};
#[allow(unused_imports)]
use crate::notebook::CellView;
#[allow(unused_imports)]
use crate::pictures::clipboard_sequence;

#[allow(unused_imports)]
use crate::bindings::{after, at_notebook, lemma_chord, lemma_groups, lemma_plain, plain, prepared};

verus! {

/// Cells with `c` put in at `at`, the others in their order.
pub open spec fn put_in(a: Seq<CellView>, b: Seq<CellView>, at: int, c: CellView) -> bool {
    &&& b.len() == a.len() + 1
    &&& 0 <= at <= a.len()
    &&& b[at] == c
    &&& forall|k: int| 0 <= k < at ==> #[trigger] b[k] == a[k]
    &&& forall|k: int| at < k < b.len() ==> #[trigger] b[k] == a[k - 1]
}

/// What every change of the cells does: it can be undone, and it is to be saved.
pub open spec fn recorded(s: State, t: State) -> bool {
    &&& t.app.file.dirty
    &&& t.app.file.autosave_pending
    &&& t.app.undo_stack.len() > 0
    &&& t.app.redo_stack.len() == 0
    &&& t.app.effects == s.app.effects
}

pub(crate) proof fn lemma_applied(s: State, op: CellOpView)
    requires
        !(op is Batch),
    ensures
        s.recorded(op).app.notebook.cells == op_cells(op, s.app.notebook.cells),
        s.recorded(op).app.effects == s.app.effects,
        s.recorded(op).app.file.dirty,
        s.recorded(op).app.file.autosave_pending,
        s.recorded(op).app.undo_stack.len() > 0,
        s.recorded(op).app.redo_stack.len() == 0,
        s.recorded(op).app.yanked == s.app.yanked,
        s.recorded(op).app.selected == s.work().done(op).selected,
        s.recorded(op).app.editor == s.app.editor,
{
    reveal(State::recorded);
    reveal(State::applied);
}

/// `a` puts a new, empty code cell below the selected one and selects it, `b`
/// one above it.
pub proof fn law_new_cells(s: State, m: MomentView)
    requires
        at_notebook(s),
    ensures
        ({
            let t = after(s, plain('a'), m);
            let at = t.app.selected;
            &&& put_in(s.app.notebook.cells, t.app.notebook.cells, at, t.app.notebook.cells[at])
            &&& at == (if s.app.notebook.cells.len() > 0 {
                s.app.selected + 1
            } else {
                0
            })
            &&& t.app.notebook.cells[at].cell_type == "code"@
            &&& t.app.notebook.cells[at].source.len() == 0
            &&& t.app.notebook.cells[at].extra["id"@] == JsonView::Str(m.fresh_id)
            &&& recorded(s, t)
        }),
        ({
            let t = after(s, plain('b'), m);
            let at = s.app.selected;
            &&& put_in(s.app.notebook.cells, t.app.notebook.cells, at, t.app.notebook.cells[at])
            &&& t.app.selected == at
            &&& t.app.notebook.cells[at].cell_type == "code"@
            &&& t.app.notebook.cells[at].source.len() == 0
            &&& t.app.notebook.cells[at].extra["id"@] == JsonView::Str(m.fresh_id)
            &&& recorded(s, t)
        }),
{
    lemma_plain(s, 'a', m);
    lemma_groups(prepared(s), 'a', no_modifiers(), s.app.input.count, m);
    lemma_plain(s, 'b', m);
    lemma_groups(prepared(s), 'b', no_modifiers(), s.app.input.count, m);
    reveal(State::cell_key);
    let n = s.app.notebook.cells.len() as int;
    let at = s.app.selected;
    let c = CellView::new_code(m.fresh_id);
    let ready = prepared(s);
    lemma_applied(
        ready,
        CellOpView::Insert(
            if at + 1 <= n {
                at + 1
            } else {
                n
            },
            c,
        ),
    );
    lemma_applied(
        ready,
        CellOpView::Insert(
            if at <= n {
                at
            } else {
                n
            },
            c,
        ),
    );
}

/// `dd` removes the selected cell and keeps it for pasting; the cell that moves
/// up is selected, or the last one. `p` puts a copy of what was kept below the
/// selected cell, under a fresh id, and selects it.
pub proof fn law_cells_are_cut_and_pasted(s: State, m: MomentView)
    requires
        at_notebook(s),
    ensures
        s.app.notebook.cells.len() > 0 ==> ({
            let first = after(s, plain('d'), m);
            let t = after(first, plain('d'), m);
            let at = s.app.selected;
            &&& first.app.notebook == s.app.notebook
            &&& put_in(t.app.notebook.cells, s.app.notebook.cells, at, s.app.notebook.cells[at])
            &&& t.app.yanked == Some(s.app.notebook.cells[at])
            &&& t.app.selected == (if at + 1 < s.app.notebook.cells.len() {
                at
            } else if at > 0 {
                at - 1
            } else {
                0
            })
            &&& recorded(s, t)
        }),
        s.app.yanked matches Some(c) ==> ({
            let t = after(s, plain('p'), m);
            let at = t.app.selected;
            &&& put_in(s.app.notebook.cells, t.app.notebook.cells, at, t.app.notebook.cells[at])
            &&& at == (if s.app.notebook.cells.len() > 0 {
                s.app.selected + 1
            } else {
                0
            })
            &&& t.app.notebook.cells[at].source == c.source
            &&& t.app.notebook.cells[at].cell_type == c.cell_type
            &&& t.app.notebook.cells[at].outputs == c.outputs
            &&& t.app.notebook.cells[at].extra["id"@] == JsonView::Str(m.fresh_id)
            &&& t.app.yanked == s.app.yanked
            &&& recorded(s, t)
        }),
{
    lemma_plain(s, 'd', m);
    lemma_groups(prepared(s), 'd', no_modifiers(), s.app.input.count, m);
    lemma_plain(s, 'p', m);
    lemma_groups(prepared(s), 'p', no_modifiers(), s.app.input.count, m);
    reveal(State::moving_key);
    reveal(State::chord_key);
    reveal(State::cell_key);
    let n = s.app.notebook.cells.len() as int;
    let at = s.app.selected;
    let ready = prepared(s);
    if n > 0 {
        let f = after(s, plain('d'), m);
        lemma_chord(f, 'd', plain('d'), m);
        let g = prepared(f);
        assert(g.app.current() == Some(s.app.notebook.cells[at]));
        lemma_applied(g.on(g.app.with_yanked(g.app.current())), CellOpView::Remove(at));
    }
    if let Some(c) = s.app.yanked {
        lemma_applied(
            ready,
            CellOpView::Insert(
                if at + 1 <= n {
                    at + 1
                } else {
                    n
                },
                c.with_id(m.fresh_id),
            ),
        );
    }
}

/// `yy` keeps the selected cell for pasting and puts its source on the
/// clipboard; the notebook stays.
pub proof fn law_yy_keeps_the_cell(s: State, m: MomentView)
    requires
        at_notebook(s),
        s.app.notebook.cells.len() > 0,
    ensures
        ({
            let t = after(after(s, plain('y'), m), plain('y'), m);
            let c = s.app.notebook.cells[s.app.selected];
            &&& t.app.yanked == Some(c)
            &&& t.app.notebook == s.app.notebook
            &&& t.app.selected == s.app.selected
            &&& t.app.effects == s.app.effects.push(
                EffectView::Print(clipboard_sequence(c.source)),
            )
            &&& t.app.file == s.app.file
        }),
{
    lemma_plain(s, 'y', m);
    lemma_groups(prepared(s), 'y', no_modifiers(), s.app.input.count, m);
    reveal(State::moving_key);
    reveal(State::chord_key);
    lemma_chord(after(s, plain('y'), m), 'y', plain('y'), m);
}

/// `J` swaps the selected cell with the one below, `K` with the one above; the
/// selection goes with it. At the end of the notebook nothing changes.
pub proof fn law_cells_are_moved(s: State, key: KeyEvent, m: MomentView)
    requires
        at_notebook(s),
        key == plain('J') || key == plain('K'),
    ensures
        ({
            let t = after(s, key, m);
            let (a, cells) = (s.app.selected, s.app.notebook.cells);
            let b = if key == plain('J') {
                a + 1
            } else {
                a - 1
            };
            if 0 <= b < cells.len() {
                &&& t.app.notebook.cells.len() == cells.len()
                &&& t.app.notebook.cells[a] == cells[b]
                &&& t.app.notebook.cells[b] == cells[a]
                &&& forall|k: int|
                    0 <= k < cells.len() && k != a && k != b ==> #[trigger] t.app.notebook.cells[k]
                        == cells[k]
                &&& t.app.selected == b
                &&& recorded(s, t)
            } else {
                t.app.notebook == s.app.notebook && t.app.selected == a && t.app.effects
                    == s.app.effects
            }
        }),
{
    lemma_plain(s, 'J', m);
    lemma_groups(prepared(s), 'J', no_modifiers(), s.app.input.count, m);
    lemma_plain(s, 'K', m);
    lemma_groups(prepared(s), 'K', no_modifiers(), s.app.input.count, m);
    reveal(State::cell_key);
    let a = s.app.selected;
    let ready = prepared(s);
    lemma_applied(ready, CellOpView::Swap(a, a + 1));
    lemma_applied(ready, CellOpView::Swap(a, a - 1));
}

/// `m` turns a code cell into markdown, markdown into raw LaTeX, and anything
/// else into code. The source stays; only code cells have outputs.
pub proof fn law_types_go_round(s: State, m: MomentView)
    requires
        at_notebook(s),
        s.app.notebook.cells.len() > 0,
    ensures
        ({
            let t = after(s, plain('m'), m);
            let at = s.app.selected;
            let (c, d) = (s.app.notebook.cells[at], t.app.notebook.cells[at]);
            &&& d.source == c.source
            &&& c.cell_type == "code"@ ==> d.cell_type == "markdown"@ && d.outputs is None
            &&& c.cell_type == "markdown"@ ==> d.cell_type == "raw"@ && (d.extra["metadata"@]
                matches JsonView::Obj(o) && o["format"@] == JsonView::Str("text/latex"@))
            &&& c.cell_type != "code"@ && c.cell_type != "markdown"@ ==> d.cell_type == "code"@
                && d.outputs == Some(Seq::<JsonView>::empty())
            &&& t.app.notebook.cells.len() == s.app.notebook.cells.len()
            &&& forall|k: int|
                0 <= k < s.app.notebook.cells.len() && k != at
                    ==> #[trigger] t.app.notebook.cells[k] == s.app.notebook.cells[k]
            &&& t.app.selected == at
            &&& recorded(s, t)
        }),
{
    lemma_plain(s, 'm', m);
    lemma_groups(prepared(s), 'm', no_modifiers(), s.app.input.count, m);
    reveal(State::cell_key);
    reveal_strlit("code");
    reveal_strlit("markdown");
    reveal_strlit("raw");
    let at = s.app.selected;
    let ready = prepared(s);
    let c = s.app.notebook.cells[at];
    let r = ready.said("raw latex cell"@);
    assert(ready.app.current() == Some(c));
    lemma_applied(ready, CellOpView::SetCell(at, crate::edits::next_type(c)));
    lemma_applied(r, CellOpView::SetCell(at, crate::edits::next_type(c)));
}

pub(crate) proof fn lemma_pair(s: State, a: CellOpView, b: CellOpView)
    requires
        !(a is Batch),
        !(b is Batch),
    ensures
        s.recorded(both(a, b)).app.notebook.cells == op_cells(
            b,
            op_cells(a, s.app.notebook.cells),
        ),
        s.recorded(both(a, b)).app.effects == s.app.effects,
        s.recorded(both(a, b)).app.file.dirty,
        s.recorded(both(a, b)).app.file.autosave_pending,
        s.recorded(both(a, b)).app.undo_stack.len() > 0,
        s.recorded(both(a, b)).app.redo_stack.len() == 0,
        s.recorded(both(a, b)).app.selected == s.work().done(a).done(b).selected,
        s.recorded(both(a, b)).app.editor == s.app.editor,
{
    reveal(State::recorded);
    reveal(State::applied);
    reveal(both);
    reveal_with_fuel(Work::done_all, 3);
    let ops = seq![a, b];
    assert(ops.drop_last() =~= seq![a]);
    assert(seq![a].drop_last() =~= Seq::<CellOpView>::empty());
    assert(s.work().done_all(seq![a].drop_last()) == s.work());
    assert(s.work().done_all(seq![a]) == s.work().done(a));
    assert(s.work().done_all(ops) == s.work().done(a).done(b));
    assert(s.work().done(both(a, b)) == s.work().done(a).done(b));
}

/// `M` takes the text of the cell below into the selected one, on a line of its
/// own, and removes that cell; what is above and below stays.
pub proof fn law_cells_are_merged(s: State, m: MomentView)
    requires
        at_notebook(s),
        s.app.selected + 1 < s.app.notebook.cells.len(),
    ensures
        ({
            let t = after(s, plain('M'), m);
            let at = s.app.selected;
            let cells = s.app.notebook.cells;
            let (x, y) = (cells[at].source, cells[at + 1].source);
            let d = t.app.notebook.cells;
            &&& d.len() == cells.len() - 1
            &&& d[at] == (CellView { source: d[at].source, ..cells[at] })
            &&& x.len() > 0 && y.len() > 0 ==> d[at].source == x + seq!['\n'] + y
            &&& x.len() == 0 ==> d[at].source == y
            &&& y.len() == 0 ==> d[at].source == x
            &&& forall|k: int| 0 <= k < at ==> #[trigger] d[k] == cells[k]
            &&& forall|k: int| at < k < d.len() ==> #[trigger] d[k] == cells[k + 1]
            &&& t.app.selected == at
            &&& recorded(s, t)
        }),
{
    lemma_plain(s, 'M', m);
    lemma_groups(prepared(s), 'M', no_modifiers(), s.app.input.count, m);
    reveal(State::cell_key);
    let at = s.app.selected;
    let cells = s.app.notebook.cells;
    let ready = prepared(s);
    lemma_pair(
        ready,
        CellOpView::SetSource(at, merged_source(cells[at].source, cells[at + 1].source)),
        CellOpView::Remove(at + 1),
    );
    assert(cells[at].source + Seq::<char>::empty() =~= cells[at].source);
}

/// A cell with neither outputs nor an execution count.
pub open spec fn is_clear(c: CellView) -> bool {
    &&& c.outputs matches Some(o) && o.len() == 0
    &&& lookup(c.extra, "execution_count"@) == Some(JsonView::Null)
}

proof fn lemma_clearings_cells(cells: Seq<CellView>, from: int, to: int)
    requires
        0 <= from <= to <= cells.len(),
    ensures
        ({
            let d = op_cells_all(clearings(cells, from, to), cells);
            &&& d.len() == cells.len()
            &&& forall|k: int|
                0 <= k < cells.len() && !(from <= k < to) ==> #[trigger] d[k] == cells[k]
            &&& forall|k: int|
                from <= k < to ==> (#[trigger] d[k]).source == cells[k].source && d[k].cell_type
                    == cells[k].cell_type && (d[k] == cells[k] || is_clear(d[k]))
            &&& forall|k: int|
                from <= k < to && cells[k].cell_type == "code"@ && (cells[k].outputs matches Some(o)
                    && o.len() > 0) ==> is_clear(#[trigger] d[k])
        }),
    decreases to - from,
{
    if from < to {
        lemma_clearings_cells(cells, from, to - 1);
        let before = clearings(cells, from, to - 1);
        let op = clearing(to - 1);
        assert(before.push(op).drop_last() =~= before);
        assert(before.push(op).last() == op);
        let e = op_cells_all(before, cells);
        let d = op_cells_all(clearings(cells, from, to), cells);
        if clearable(cells[to - 1]) {
            assert(d == op_cells(op, e));
            assert(e[to - 1] == cells[to - 1]);
            assert(is_clear(d[to - 1]));
        } else {
            assert(d == e);
        }
    }
}

proof fn lemma_cleared(s: State, from: int, to: int)
    requires
        0 <= from <= to <= s.app.notebook.cells.len(),
        s.wf(),
    ensures
        ({
            let t = s.outputs_cleared(from, to);
            let (cells, d) = (s.app.notebook.cells, t.app.notebook.cells);
            &&& d.len() == cells.len()
            &&& t.app.selected == s.app.selected
            &&& t.app.effects == s.app.effects
            &&& forall|k: int|
                0 <= k < cells.len() && !(from <= k < to) ==> #[trigger] d[k] == cells[k]
            &&& forall|k: int|
                from <= k < to ==> (#[trigger] d[k]).source == cells[k].source && d[k].cell_type
                    == cells[k].cell_type && (d[k] == cells[k] || is_clear(d[k]))
            &&& forall|k: int|
                from <= k < to && cells[k].cell_type == "code"@ && (cells[k].outputs matches Some(o)
                    && o.len() > 0) ==> is_clear(#[trigger] d[k])
        }),
{
    let cells = s.app.notebook.cells;
    let ops = clearings(cells, from, to);
    lemma_clearings_cells(cells, from, to);
    if ops.len() == 0 {
        assert(op_cells_all(ops, cells) == cells);
    } else {
        reveal(State::recorded);
        reveal(State::applied);
        lemma_clearings_fit(cells, from, to);
        crate::cellops::law_ops_keep_cells_and_blocks_in_step(s.work(), CellOpView::Batch(ops));
    }
}

/// `c` clears the outputs and the count of the selected cell, `C` those of every
/// code cell; sources, types and the other cells stay.
pub proof fn law_outputs_are_cleared(s: State, m: MomentView)
    requires
        at_notebook(s),
        s.app.notebook.cells.len() > 0,
    ensures
        ({
            let cells = s.app.notebook.cells;
            let at = s.app.selected;
            let d = after(s, plain('c'), m).app.notebook.cells;
            let e = after(s, plain('C'), m).app.notebook.cells;
            &&& d.len() == cells.len() && e.len() == cells.len()
            &&& forall|k: int| 0 <= k < cells.len() && k != at ==> #[trigger] d[k] == cells[k]
            &&& d[at].source == cells[at].source
            &&& cells[at].cell_type == "code"@ && (cells[at].outputs matches Some(o) && o.len()
                > 0) ==> is_clear(d[at])
            &&& forall|k: int|
                0 <= k < cells.len() ==> (#[trigger] e[k]).source == cells[k].source
                    && e[k].cell_type == cells[k].cell_type && (e[k] == cells[k] || is_clear(e[k]))
            &&& forall|k: int|
                0 <= k < cells.len() && cells[k].cell_type == "code"@ && (cells[k].outputs
                    matches Some(o) && o.len() > 0) ==> is_clear(#[trigger] e[k])
        }),
{
    lemma_plain(s, 'c', m);
    lemma_groups(prepared(s), 'c', no_modifiers(), s.app.input.count, m);
    lemma_plain(s, 'C', m);
    lemma_groups(prepared(s), 'C', no_modifiers(), s.app.input.count, m);
    reveal(State::cell_key);
    let ready = prepared(s);
    lemma_cleared(ready, s.app.selected, s.app.selected + 1);
    lemma_cleared(ready, 0, s.app.notebook.cells.len() as int);
}

} // verus!
