//! Notebook-level cell edits (insert/delete/move/split/merge/clear/type) as
//! self-inverting `CellOp`s: applying one gives back its inverse, so the same
//! ops drive edits, undo, and redo.

use vstd::prelude::*;

use crate::ids::IdMap;
#[allow(unused_imports)]
use crate::ids::{after_insertion, after_removal, after_swap, swapped_index};
use crate::json::Json;
#[allow(unused_imports)]
use crate::json::{lookup, JsonView};
use crate::notebook::Cell;
#[allow(unused_imports)]
use crate::notebook::{outputs_view, CellView};
use crate::ui::Rendered;
#[allow(unused_imports)]
use crate::ui::{BlockView, RenderedView};
#[allow(unused_imports)]
use crate::text::{opt_view, views};

verus! {

/// A notebook-level cell edit.
pub enum CellOp {
    Remove(usize),
    Insert(usize, Cell),
    /// Swap two cells; the selection follows the selected cell.
    Swap(usize, usize),
    /// Source only, so outputs that arrived since (a re-run) survive undo.
    SetSource(usize, String),
    /// Outputs + execution_count (clear outputs).
    SetOutputs(usize, Option<Vec<Json>>, Option<Json>),
    SetCell(usize, Cell),
    /// Applied in order as one undo step (split, merge, clear all).
    Batch(Vec<CellOp>),
}

pub enum CellOpView {
    Remove(int),
    Insert(int, CellView),
    Swap(int, int),
    SetSource(int, Seq<char>),
    SetOutputs(int, Option<Seq<JsonView>>, Option<JsonView>),
    SetCell(int, CellView),
    Batch(Seq<CellOpView>),
}

pub open spec fn op_view(op: CellOp) -> CellOpView
    decreases op,
{
    match op {
        CellOp::Remove(at) => CellOpView::Remove(at as int),
        CellOp::Insert(at, c) => CellOpView::Insert(at as int, c@),
        CellOp::Swap(a, b) => CellOpView::Swap(a as int, b as int),
        CellOp::SetSource(at, s) => CellOpView::SetSource(at as int, s@),
        CellOp::SetOutputs(at, o, n) => CellOpView::SetOutputs(
            at as int,
            outputs_view(o),
            opt_view(n),
        ),
        CellOp::SetCell(at, c) => CellOpView::SetCell(at as int, c@),
        CellOp::Batch(ops) => CellOpView::Batch(op_views(ops@)),
    }
}

pub open spec fn op_views(ops: Seq<CellOp>) -> Seq<CellOpView>
    decreases ops,
{
    Seq::new(
        ops.len(),
        |i: int|
            if 0 <= i < ops.len() {
                op_view(ops[i])
            } else {
                CellOpView::Remove(0)
            },
    )
}

impl View for CellOp {
    type V = CellOpView;

    open spec fn view(&self) -> CellOpView {
        op_view(*self)
    }
}

/// The model of a list of ops is that of its elements.
pub proof fn lemma_op_views(ops: Seq<CellOp>)
    ensures
        op_views(ops) == views(ops),
{
    assert(op_views(ops) =~= views(ops));
}

/// Undo/redo depth.
pub const UNDO_CAP: usize = 100;

// ---------------------------------------------------------------------------
// Cells
// ---------------------------------------------------------------------------

/// Number of cells after an op on `n` cells, if its positions fit.
pub open spec fn fits(op: CellOpView, n: int) -> Option<int>
    decreases op,
{
    match op {
        CellOpView::Remove(at) => if 0 <= at < n {
            Some(n - 1)
        } else {
            None
        },
        CellOpView::Insert(at, _) => if 0 <= at <= n {
            Some(n + 1)
        } else {
            None
        },
        CellOpView::Swap(a, b) => if 0 <= a < n && 0 <= b < n {
            Some(n)
        } else {
            None
        },
        CellOpView::SetSource(at, _) => if 0 <= at < n {
            Some(n)
        } else {
            None
        },
        CellOpView::SetOutputs(at, _, _) => if 0 <= at < n {
            Some(n)
        } else {
            None
        },
        CellOpView::SetCell(at, _) => if 0 <= at < n {
            Some(n)
        } else {
            None
        },
        CellOpView::Batch(ops) => fits_all(ops, n),
    }
}

pub open spec fn fits_all(ops: Seq<CellOpView>, n: int) -> Option<int>
    decreases ops,
{
    if ops.len() == 0 {
        Some(n)
    } else {
        match fits_all(ops.drop_last(), n) {
            Some(m) => fits(ops.last(), m),
            None => None,
        }
    }
}

/// A cell with other outputs and execution count.
pub open spec fn with_outputs(
    c: CellView,
    outputs: Option<Seq<JsonView>>,
    count: Option<JsonView>,
) -> CellView {
    CellView {
        outputs,
        extra: match count {
            Some(n) => c.extra.insert("execution_count"@, n),
            None => c.extra.remove("execution_count"@),
        },
        ..c
    }
}

/// The cells after an op.
pub open spec fn op_cells(op: CellOpView, cells: Seq<CellView>) -> Seq<CellView>
    decreases op,
{
    match op {
        CellOpView::Remove(at) => cells.remove(at),
        CellOpView::Insert(at, c) => cells.insert(at, c),
        CellOpView::Swap(a, b) => cells.update(a, cells[b]).update(b, cells[a]),
        CellOpView::SetSource(at, s) => cells.update(at, CellView { source: s, ..cells[at] }),
        CellOpView::SetOutputs(at, o, n) => cells.update(at, with_outputs(cells[at], o, n)),
        CellOpView::SetCell(at, c) => cells.update(at, c),
        CellOpView::Batch(ops) => op_cells_all(ops, cells),
    }
}

pub open spec fn op_cells_all(ops: Seq<CellOpView>, cells: Seq<CellView>) -> Seq<CellView>
    decreases ops,
{
    if ops.len() == 0 {
        cells
    } else {
        op_cells(ops.last(), op_cells_all(ops.drop_last(), cells))
    }
}

/// The op that reverts an op on these cells.
pub open spec fn inverse(op: CellOpView, cells: Seq<CellView>) -> CellOpView
    decreases op,
{
    match op {
        CellOpView::Remove(at) => CellOpView::Insert(at, cells[at]),
        CellOpView::Insert(at, c) => CellOpView::Remove(at),
        CellOpView::Swap(a, b) => CellOpView::Swap(a, b),
        CellOpView::SetSource(at, s) => CellOpView::SetSource(at, cells[at].source),
        CellOpView::SetOutputs(at, o, n) => CellOpView::SetOutputs(
            at,
            cells[at].outputs,
            lookup(cells[at].extra, "execution_count"@),
        ),
        CellOpView::SetCell(at, c) => CellOpView::SetCell(at, cells[at]),
        CellOpView::Batch(ops) => CellOpView::Batch(inverses(ops, cells)),
    }
}

/// The inverses of ops applied in turn, last one first.
pub open spec fn inverses(ops: Seq<CellOpView>, cells: Seq<CellView>) -> Seq<CellOpView>
    decreases ops,
{
    if ops.len() == 0 {
        Seq::empty()
    } else {
        seq![inverse(ops.last(), op_cells_all(ops.drop_last(), cells))] + inverses(
            ops.drop_last(),
            cells,
        )
    }
}

pub proof fn lemma_op_len(op: CellOpView, cells: Seq<CellView>)
    requires
        fits(op, cells.len() as int) is Some,
    ensures
        op_cells(op, cells).len() == fits(op, cells.len() as int)->Some_0,
    decreases op,
{
    if let CellOpView::Batch(ops) = op {
        lemma_ops_len(ops, cells);
    }
}

proof fn lemma_ops_len(ops: Seq<CellOpView>, cells: Seq<CellView>)
    requires
        fits_all(ops, cells.len() as int) is Some,
    ensures
        op_cells_all(ops, cells).len() == fits_all(ops, cells.len() as int)->Some_0,
    decreases ops,
{
    if ops.len() > 0 {
        lemma_ops_len(ops.drop_last(), cells);
        lemma_op_len(ops.last(), op_cells_all(ops.drop_last(), cells));
    }
}

/// Ops applied one list after the other.
proof fn lemma_ops_concat(a: Seq<CellOpView>, b: Seq<CellOpView>, cells: Seq<CellView>)
    ensures
        op_cells_all(a + b, cells) == op_cells_all(b, op_cells_all(a, cells)),
    decreases b.len(),
{
    if b.len() == 0 {
        assert(a + b =~= a);
    } else {
        assert((a + b).drop_last() =~= a + b.drop_last());
        lemma_ops_concat(a, b.drop_last(), cells);
    }
}

proof fn lemma_fits_concat(a: Seq<CellOpView>, b: Seq<CellOpView>, n: int)
    requires
        fits_all(a, n) is Some,
    ensures
        fits_all(a + b, n) == fits_all(b, fits_all(a, n)->Some_0),
    decreases b.len(),
{
    if b.len() == 0 {
        assert(a + b =~= a);
    } else {
        assert((a + b).drop_last() =~= a + b.drop_last());
        lemma_fits_concat(a, b.drop_last(), n);
    }
}

/// Undo: the inverse of an op fits what the op made, and restores the cells.
pub proof fn law_inverse_restores_the_cells(op: CellOpView, cells: Seq<CellView>)
    requires
        fits(op, cells.len() as int) is Some,
    ensures
        fits(inverse(op, cells), op_cells(op, cells).len() as int) == Some(cells.len() as int),
        op_cells(inverse(op, cells), op_cells(op, cells)) == cells,
    decreases op,
{
    lemma_op_len(op, cells);
    match op {
        CellOpView::Remove(at) => {
            assert(cells.remove(at).insert(at, cells[at]) =~= cells);
        },
        CellOpView::Insert(at, c) => {
            assert(cells.insert(at, c).remove(at) =~= cells);
        },
        CellOpView::Swap(a, b) => {
            let s = op_cells(op, cells);
            assert(s.update(a, s[b]).update(b, s[a]) =~= cells);
        },
        CellOpView::SetSource(at, s) => {
            assert(op_cells(inverse(op, cells), op_cells(op, cells)) =~= cells);
        },
        CellOpView::SetOutputs(at, o, n) => {
            let c = cells[at];
            let d = with_outputs(c, o, n);
            let back = with_outputs(d, c.outputs, lookup(c.extra, "execution_count"@));
            assert(back.extra =~= c.extra);
            assert(back =~= c);
            assert(op_cells(inverse(op, cells), op_cells(op, cells)) =~= cells);
        },
        CellOpView::SetCell(at, c) => {
            assert(op_cells(inverse(op, cells), op_cells(op, cells)) =~= cells);
        },
        CellOpView::Batch(ops) => {
            law_inverses_restore_the_cells(ops, cells);
        },
    }
}

/// Undo of several ops: their inverses, last one first, restore the cells.
pub proof fn law_inverses_restore_the_cells(ops: Seq<CellOpView>, cells: Seq<CellView>)
    requires
        fits_all(ops, cells.len() as int) is Some,
    ensures
        fits_all(inverses(ops, cells), op_cells_all(ops, cells).len() as int) == Some(
            cells.len() as int,
        ),
        op_cells_all(inverses(ops, cells), op_cells_all(ops, cells)) == cells,
    decreases ops,
{
    if ops.len() > 0 {
        let d = ops.drop_last();
        let mid = op_cells_all(d, cells);
        let done = op_cells_all(ops, cells);
        lemma_ops_len(d, cells);
        lemma_ops_len(ops, cells);
        law_inverses_restore_the_cells(d, cells);
        law_inverse_restores_the_cells(ops.last(), mid);
        let inv = inverse(ops.last(), mid);
        let one = seq![inv];
        assert(one.drop_last() =~= Seq::empty());
        assert(op_cells_all(one.drop_last(), done) == done);
        assert(fits_all(one.drop_last(), done.len() as int) == Some(done.len() as int));
        assert(op_cells_all(one, done) == mid);
        assert(fits_all(one, done.len() as int) == Some(mid.len() as int));
        lemma_ops_concat(one, inverses(d, cells), done);
        lemma_fits_concat(one, inverses(d, cells), done.len() as int);
    }
}

// ---------------------------------------------------------------------------
// Cells with what hangs on them
// ---------------------------------------------------------------------------

/// The cells, their rendering, the executions that point at them and the
/// selection.
#[verifier::ext_equal]
pub struct Work {
    pub cells: Seq<CellView>,
    pub ui: RenderedView,
    pub running: Seq<(Seq<char>, usize)>,
    pub selected: int,
}

pub open spec fn less_one(n: int) -> int {
    if n > 0 {
        n - 1
    } else {
        0
    }
}

impl Work {
    pub open spec fn wf(self) -> bool {
        self.ui.wf() && self.ui.blocks.len() == self.cells.len()
    }

    /// The selection is a cell, or the start where there is none.
    pub open spec fn at_a_cell(self) -> bool {
        self.selected == 0 || 0 <= self.selected < self.cells.len()
    }

    /// With an op applied.
    pub open spec fn done(self, op: CellOpView) -> Work
        decreases op,
    {
        let cells = op_cells(op, self.cells);
        match op {
            CellOpView::Remove(at) => Work {
                cells,
                ui: self.ui.removed(at),
                running: after_removal(self.running, at),
                selected: if at <= less_one(cells.len() as int) {
                    at
                } else {
                    less_one(cells.len() as int)
                },
            },
            CellOpView::Insert(at, c) => Work {
                cells,
                ui: self.ui.inserted(at, c),
                running: after_insertion(self.running, at),
                selected: at,
            },
            CellOpView::Swap(a, b) => Work {
                cells,
                ui: self.ui.swapped(a, b),
                running: after_swap(self.running, a, b),
                selected: swapped_index(self.selected, a, b),
            },
            CellOpView::SetSource(at, s) => Work {
                cells,
                ui: self.ui.rebuilt_cell(at, cells[at]),
                selected: at,
                ..self
            },
            CellOpView::SetOutputs(at, o, n) => Work {
                cells,
                ui: self.ui.rebuilt_cell(at, cells[at]).untimed(at),
                selected: at,
                ..self
            },
            CellOpView::SetCell(at, c) => Work {
                cells,
                ui: self.ui.rebuilt_cell(at, cells[at]),
                selected: at,
                ..self
            },
            CellOpView::Batch(ops) => self.done_all(ops),
        }
    }

    pub open spec fn done_all(self, ops: Seq<CellOpView>) -> Work
        decreases ops,
    {
        if ops.len() == 0 {
            self
        } else {
            self.done_all(ops.drop_last()).done(ops.last())
        }
    }
}

impl RenderedView {
    /// Without the execution time of a cell.
    pub open spec fn untimed(self, i: int) -> RenderedView {
        self.with_blocks(self.blocks.update(i, BlockView { elapsed: None, ..self.blocks[i] }))
    }
}

/// Applying an op changes the cells as the op says, and keeps one rendered
/// block for each cell.
pub proof fn law_ops_keep_cells_and_blocks_in_step(w: Work, op: CellOpView)
    requires
        w.ui.blocks.len() == w.cells.len(),
        fits(op, w.cells.len() as int) is Some,
    ensures
        w.done(op).cells == op_cells(op, w.cells),
        w.done(op).ui.blocks.len() == w.done(op).cells.len(),
    decreases op,
{
    lemma_op_len(op, w.cells);
    if let CellOpView::Batch(ops) = op {
        lemma_ops_in_step(w, ops);
    }
}

proof fn lemma_ops_in_step(w: Work, ops: Seq<CellOpView>)
    requires
        w.ui.blocks.len() == w.cells.len(),
        fits_all(ops, w.cells.len() as int) is Some,
    ensures
        w.done_all(ops).cells == op_cells_all(ops, w.cells),
        w.done_all(ops).ui.blocks.len() == w.done_all(ops).cells.len(),
    decreases ops,
{
    if ops.len() > 0 {
        let d = ops.drop_last();
        lemma_ops_len(d, w.cells);
        lemma_ops_in_step(w, d);
        law_ops_keep_cells_and_blocks_in_step(w.done_all(d), ops.last());
    }
}

/// An op leaves the selection on a cell.
pub proof fn law_selection_stays_on_a_cell(w: Work, op: CellOpView)
    requires
        w.ui.blocks.len() == w.cells.len(),
        fits(op, w.cells.len() as int) is Some,
        w.at_a_cell(),
    ensures
        w.done(op).at_a_cell(),
    decreases op,
{
    law_ops_keep_cells_and_blocks_in_step(w, op);
    lemma_op_len(op, w.cells);
    if let CellOpView::Batch(ops) = op {
        lemma_selection_stays(w, ops);
    }
}

proof fn lemma_selection_stays(w: Work, ops: Seq<CellOpView>)
    requires
        w.ui.blocks.len() == w.cells.len(),
        fits_all(ops, w.cells.len() as int) is Some,
        w.at_a_cell(),
    ensures
        w.done_all(ops).at_a_cell(),
    decreases ops,
{
    if ops.len() > 0 {
        let d = ops.drop_last();
        lemma_ops_len(d, w.cells);
        lemma_ops_in_step(w, d);
        lemma_selection_stays(w, d);
        law_selection_stays_on_a_cell(w.done_all(d), ops.last());
    }
}

pub open spec fn work_of(
    cells: &Vec<Cell>,
    rendered: &Rendered,
    running: &IdMap<usize>,
    selected: usize,
) -> Work {
    Work {
        cells: views(cells@),
        ui: rendered@,
        running: running@,
        selected: selected as int,
    }
}

fn swap_cells_in(v: &mut Vec<Cell>, a: usize, b: usize)
    requires
        a < old(v)@.len(),
        b < old(v)@.len(),
    ensures
        final(v)@ == old(v)@.update(a as int, old(v)@[b as int]).update(b as int, old(v)@[a as int]),
{
    if a == b {
        assert(v@ =~= v@.update(a as int, v@[b as int]).update(b as int, v@[a as int]));
        return;
    }
    let (lo, hi) = if a < b {
        (a, b)
    } else {
        (b, a)
    };
    let ghost v0 = v@;
    let y = v.remove(hi);
    let x = v.remove(lo);
    v.insert(lo, y);
    v.insert(hi, x);
    assert(v@ =~= v0.update(a as int, v0[b as int]).update(b as int, v0[a as int]));
}

proof fn lemma_fits_prefix(ops: Seq<CellOpView>, k: int, n: int)
    requires
        0 <= k <= ops.len(),
        fits_all(ops, n) is Some,
    ensures
        fits_all(ops.take(k), n) is Some,
    decreases ops.len(),
{
    if k == ops.len() {
        assert(ops.take(k) =~= ops);
    } else {
        assert(ops.drop_last().take(k) =~= ops.take(k));
        lemma_fits_prefix(ops.drop_last(), k, n);
    }
}

/// The ops, last one first.
fn reversed(ops: Vec<CellOp>) -> (r: Vec<CellOp>)
    ensures
        r@ == ops@.reverse(),
{
    let ghost all = ops@;
    let mut ops = ops;
    let mut r: Vec<CellOp> = Vec::new();
    while ops.len() > 0
        invariant
            ops@.len() + r@.len() == all.len(),
            ops@ == all.take(ops@.len() as int),
            forall|k: int| 0 <= k < r@.len() ==> #[trigger] r@[k] == all[all.len() - 1 - k],
        decreases ops@.len(),
    {
        let ghost o0 = ops@;
        if let Some(o) = ops.pop() {
            assert(o0[o0.len() - 1] == all[o0.len() - 1]);
            r.push(o);
        }
    }
    assert(r@ =~= all.reverse());
    r
}

/// Perform one cell op (model, render cache, running map, selection) and
/// return the op that reverts it.
pub fn apply(
    cells: &mut Vec<Cell>,
    rendered: &mut Rendered,
    running: &mut IdMap<usize>,
    selected: &mut usize,
    op: CellOp,
) -> (r: CellOp)
    requires
        work_of(old(cells), old(rendered), old(running), *old(selected)).wf(),
        fits(op@, old(cells)@.len() as int) is Some,
    ensures
        ({
            let w = work_of(old(cells), old(rendered), old(running), *old(selected));
            &&& work_of(final(cells), final(rendered), final(running), *final(selected)) == w.done(
                op@,
            )
            &&& r@ == inverse(op@, w.cells)
            &&& w.done(op@).wf()
        }),
        final(cells)@.len() == fits(op@, old(cells)@.len() as int)->Some_0,
    decreases op,
{
    let ghost w = work_of(cells, rendered, running, *selected);
    let ghost cs = w.cells;
    let ghost c0 = cells@;
    assert(cs.len() == cells@.len());
    assert(rendered@.blocks.len() == rendered.blocks@.len());
    match op {
        CellOp::Remove(at) => {
            let cell = cells.remove(at);
            assert(views(cells@) =~= cs.remove(at as int));
            rendered.remove_cell(at);
            running.remap_removal(at);
            let last = if cells.len() > 0 {
                cells.len() - 1
            } else {
                0
            };
            *selected = if at <= last {
                at
            } else {
                last
            };
            CellOp::Insert(at, cell)
        },
        CellOp::Insert(at, cell) => {
            rendered.insert_cell(at, &cell);
            cells.insert(at, cell);
            assert(views(cells@) =~= cs.insert(at as int, cell@));
            running.remap_insertion(at);
            *selected = at;
            CellOp::Remove(at)
        },
        CellOp::Swap(a, b) => {
            swap_cells_in(cells, a, b);
            assert(views(cells@) =~= cs.update(a as int, cs[b as int]).update(
                b as int,
                cs[a as int],
            ));
            rendered.swap_cells(a, b);
            running.remap_swap(a, b);
            let s = *selected;
            *selected = if s == a {
                b
            } else if s == b {
                a
            } else {
                s
            };
            CellOp::Swap(a, b)
        },
        CellOp::SetSource(at, source) => {
            let before = cells[at].source.clone();
            cells[at].source = source;
            assert(views(cells@) =~= cs.update(
                at as int,
                CellView { source: source@, ..cs[at as int] },
            ));
            rendered.rebuild_cell(at, &cells[at]);
            *selected = at;
            CellOp::SetSource(at, before)
        },
        CellOp::SetOutputs(at, outputs, count) => {
            let ghost ov = outputs_view(outputs);
            let ghost nv = opt_view(count);
            let mut cell = cells[at].duplicate();
            let old_outputs = cell.outputs;
            cell.outputs = outputs;
            let old_count = match count {
                Some(c) => cell.extra.insert("execution_count", c),
                None => cell.extra.remove("execution_count"),
            };
            assert(cell@ =~= with_outputs(cs[at as int], ov, nv));
            cells.set(at, cell);
            assert(views(cells@) =~= cs.update(at as int, with_outputs(cs[at as int], ov, nv)));
            rendered.rebuild_cell(at, &cells[at]);
            let ghost ui1 = rendered@;
            rendered.blocks[at].elapsed = None;
            assert(rendered@ =~= ui1.untimed(at as int));
            *selected = at;
            CellOp::SetOutputs(at, old_outputs, old_count)
        },
        CellOp::SetCell(at, cell) => {
            let before = cells[at].duplicate();
            cells.set(at, cell);
            assert(views(cells@) =~= cs.update(at as int, cell@));
            rendered.rebuild_cell(at, &cells[at]);
            *selected = at;
            CellOp::SetCell(at, before)
        },
        CellOp::Batch(ops) => {
            let ghost all = ops@;
            let ghost vs = views(ops@);
            proof {
                lemma_op_views(ops@);
                assert(op->Batch_0 == ops);
            }
            let ghost n = c0.len() as int;
            let rev = reversed(ops);
            let mut rev = rev;
            let mut inv: Vec<CellOp> = Vec::new();
            let ghost mut i: int = 0;
            assert(views(inv@).reverse() =~= inverses(vs.take(0), cs));
            while rev.len() > 0
                invariant
                    0 <= i <= all.len(),
                    i + rev@.len() == all.len(),
                    op is Batch,
                    op->Batch_0 == ops,
                    all == ops@,
                    vs == views(all),
                    cs.len() == n,
                    w.cells == cs,
                    w.wf(),
                    fits_all(vs, n) is Some,
                    fits_all(vs.take(i), n) is Some,
                    forall|k: int|
                        0 <= k < rev@.len() ==> #[trigger] rev@[k] == all[all.len() - 1 - k],
                    work_of(cells, rendered, running, *selected) == w.done_all(vs.take(i)),
                    w.done_all(vs.take(i)).wf(),
                    cells@.len() == fits_all(vs.take(i), n)->Some_0,
                    views(inv@).reverse() == inverses(vs.take(i), cs),
                decreases rev@.len(),
            {
                let ghost r0 = rev@;
                let ghost inv0 = inv@;
                match rev.pop() {
                    Some(o) => {
                        proof {
                            assert(r0[r0.len() - 1] == all[i]);
                            assert(o == all[i]);
                            assert(vs[i] == o@);
                            assert(vs.take(i + 1).drop_last() =~= vs.take(i));
                            assert(vs.take(i + 1).last() == o@);
                            lemma_fits_prefix(vs, i + 1, n);
                            assert(decreases_to!(op => op->Batch_0));
                            assert(decreases_to!(op->Batch_0@ => all[i]));
                            lemma_ops_in_step(w, vs.take(i));
                        }
                        let x = apply(cells, rendered, running, selected, o);
                        inv.push(x);
                        proof {
                            assert(views(inv@) =~= views(inv0).push(x@));
                            assert(views(inv@).reverse() =~= seq![x@] + views(inv0).reverse());
                            i = i + 1;
                        }
                    },
                    None => {},
                }
            }
            assert(vs.take(i) =~= vs);
            let out = reversed(inv);
            proof {
                lemma_op_views(out@);
                assert(views(out@) =~= views(inv@).reverse());
            }
            CellOp::Batch(out)
        },
    }
}

} // verus!
