//! Edits of the notebook: recorded cell ops, undo and redo, and the editor's
//! text going into its cell.

use vstd::prelude::*;

use crate::app::App;
#[allow(unused_imports)]
use crate::app::{stack_fits, state, Frame, AppView, EffectView, State};
use crate::app::Effect;
use crate::cellops;
#[allow(unused_imports)]
use crate::cellops::{
    fits, fits_all, inverse, law_inverse_restores_the_cells, law_ops_keep_cells_and_blocks_in_step,
    law_selection_stays_on_a_cell, lemma_op_views, op_cells, op_cells_all, CellOpView,
};
use crate::cellops::{CellOp, UNDO_CAP};
use crate::completion;
#[allow(unused_imports)]
use crate::completion::text_before;
use crate::json::{Json, Object};
#[allow(unused_imports)]
use crate::json::{lookup, JsonView};
use crate::notebook::Cell;
#[allow(unused_imports)]
use crate::notebook::CellView;
use crate::pictures;
#[allow(unused_imports)]
use crate::pictures::clipboard_sequence;
use crate::text;
#[allow(unused_imports)]
use crate::text::{after, decimal, first, opt_view, views};
use crate::ui::Rendered;

verus! {

// ---------------------------------------------------------------------------
// Recording, undo, redo
// ---------------------------------------------------------------------------

/// A stack with one more op, without the oldest beyond `UNDO_CAP`.
pub open spec fn capped_push(stack: Seq<CellOpView>, op: CellOpView) -> Seq<CellOpView> {
    let s = stack.push(op);
    if s.len() > UNDO_CAP {
        s.remove(0)
    } else {
        s
    }
}

proof fn lemma_fits_without_oldest(stack: Seq<CellOpView>, n: int)
    requires
        stack.len() > 0,
        stack_fits(stack, n),
    ensures
        stack_fits(stack.remove(0), n),
    decreases stack.len(),
{
    if stack.len() > 1 {
        let m = fits(stack.last(), n)->Some_0;
        lemma_fits_without_oldest(stack.drop_last(), m);
        assert(stack.remove(0).drop_last() =~= stack.drop_last().remove(0));
        assert(stack.remove(0).last() == stack.last());
    }
}

proof fn lemma_push_fits(stack: Seq<CellOpView>, op: CellOpView, n: int)
    requires
        fits(op, n) is Some,
        stack_fits(stack, fits(op, n)->Some_0),
    ensures
        stack_fits(capped_push(stack, op), n),
{
    let s = stack.push(op);
    assert(s.drop_last() =~= stack);
    assert(stack_fits(s, n));
    if s.len() > UNDO_CAP {
        lemma_fits_without_oldest(s, n);
    }
}

/// Push onto an undo/redo stack, dropping the oldest beyond UNDO_CAP.
pub fn push_capped(stack: &mut Vec<CellOp>, op: CellOp)
    ensures
        views(final(stack)@) == capped_push(views(old(stack)@), op@),
{
    let ghost s0 = stack@;
    stack.push(op);
    assert(views(stack@) =~= views(s0).push(op@));
    if stack.len() > UNDO_CAP {
        let ghost s1 = stack@;
        let _ = stack.remove(0);
        assert(views(stack@) =~= views(s1).remove(0));
    }
}

impl State {
    /// With an op applied.
    #[verifier::opaque]
    pub open spec fn applied(self, op: CellOpView) -> State {
        self.with_work(self.work().done(op))
    }

    pub open spec fn inverse(self, op: CellOpView) -> CellOpView {
        inverse(op, self.app.notebook.cells)
    }

    /// An op as a new undo step.
    #[verifier::opaque]
    pub open spec fn recorded(self, op: CellOpView) -> State {
        let s = self.applied(op);
        s.on(
            s.app.with_undo(capped_push(self.app.undo_stack, self.inverse(op))).with_redo(
                Seq::empty(),
            ).touched(),
        )
    }

    #[verifier::opaque]
    pub open spec fn undone(self) -> State {
        if self.app.undo_stack.len() == 0 {
            self.said("nothing to undo"@)
        } else {
            let op = self.app.undo_stack.last();
            let s = self.on(self.app.with_undo(self.app.undo_stack.drop_last())).applied(op);
            s.on(
                s.app.with_redo(
                    capped_push(self.app.redo_stack, self.inverse(op)),
                ).touched().said("undone (Ctrl+r redoes)"@),
            )
        }
    }

    #[verifier::opaque]
    pub open spec fn redone(self) -> State {
        if self.app.redo_stack.len() == 0 {
            self.said("nothing to redo"@)
        } else {
            let op = self.app.redo_stack.last();
            let s = self.on(self.app.with_redo(self.app.redo_stack.drop_last())).applied(op);
            s.on(
                s.app.with_undo(
                    capped_push(self.app.undo_stack, self.inverse(op)),
                ).touched().said("redone"@),
            )
        }
    }
}

/// An op that fits leaves a consistent session when its inverse is kept.
proof fn lemma_applied(s: State, op: CellOpView)
    requires
        s.ui.blocks.len() == s.app.notebook.cells.len(),
        s.work().at_a_cell(),
        fits(op, s.app.notebook.cells.len() as int) is Some,
    ensures
        s.applied(op).app.notebook.cells == op_cells(op, s.app.notebook.cells),
        s.applied(op).app.notebook.cells.len() == fits(
            op,
            s.app.notebook.cells.len() as int,
        )->Some_0,
        fits(s.inverse(op), s.applied(op).app.notebook.cells.len() as int) == Some(
            s.app.notebook.cells.len() as int,
        ),
        s.applied(op).ui.blocks.len() == s.applied(op).app.notebook.cells.len(),
        s.applied(op).work().at_a_cell(),
        s.applied(op).app.frame() == (Frame {
            cells: s.applied(op).app.notebook.cells,
            selected: s.applied(op).app.selected,
            ..s.app.frame()
        }),
{
    reveal(State::applied);
    let w = s.work();
    assert(w.at_a_cell());
    law_ops_keep_cells_and_blocks_in_step(w, op);
    law_selection_stays_on_a_cell(w, op);
    law_inverse_restores_the_cells(op, w.cells);
    cellops::lemma_op_len(op, w.cells);
}

impl App {
    /// Perform one cell op (model, render cache, running map, selection) and
    /// return the op that reverts it.
    pub fn apply(&mut self, op: CellOp, rendered: &mut Rendered) -> (r: CellOp)
        requires
            state(old(self), old(rendered)).work().wf(),
            fits(op@, old(self)@.notebook.cells.len() as int) is Some,
        ensures
            state(final(self), final(rendered)) == state(old(self), old(rendered)).applied(op@),
            r@ == state(old(self), old(rendered)).inverse(op@),
            final(rendered)@.wf(),
    {
        proof {
            reveal(State::applied);
        }
        cellops::apply(
            &mut self.notebook.cells,
            rendered,
            &mut self.running,
            &mut self.selected,
            op,
        )
    }

    /// Perform `op` as a new undo step (clears redo).
    pub fn record(&mut self, op: CellOp, rendered: &mut Rendered)
        requires
            state(old(self), old(rendered)).wf(),
            fits(op@, old(self)@.notebook.cells.len() as int) is Some,
        ensures
            state(final(self), final(rendered)) == state(old(self), old(rendered)).recorded(op@),
            state(final(self), final(rendered)).wf(),
            final(self)@.notebook.cells.len() == fits(
                op@,
                old(self)@.notebook.cells.len() as int,
            )->Some_0,
            final(self)@.editor == old(self)@.editor,
    {
        let ghost s = state(self, rendered);
        let ghost n = self@.notebook.cells.len() as int;
        proof {
            reveal(State::recorded);
            lemma_applied(s, op@);
            lemma_push_fits(s.app.undo_stack, s.inverse(op@), fits(op@, n)->Some_0);
        }
        let inverse = self.apply(op, rendered);
        self.push_undo(inverse);
        let none: Vec<CellOp> = Vec::new();
        assert(views(none@) =~= Seq::<CellOpView>::empty());
        self.set_redo(none);
        self.touch();
    }

    fn push_undo(&mut self, op: CellOp)
        ensures
            final(self)@ == old(self)@.with_undo(capped_push(old(self)@.undo_stack, op@)),
            final(self)@.frame() == (Frame {
                undo_stack: capped_push(old(self)@.undo_stack, op@),
                ..old(self)@.frame()
            }),
    {
        push_capped(&mut self.undo_stack, op);
    }

    fn push_redo(&mut self, op: CellOp)
        ensures
            final(self)@ == old(self)@.with_redo(capped_push(old(self)@.redo_stack, op@)),
            final(self)@.frame() == (Frame {
                redo_stack: capped_push(old(self)@.redo_stack, op@),
                ..old(self)@.frame()
            }),
    {
        push_capped(&mut self.redo_stack, op);
    }

    fn pop_undo(&mut self) -> (r: Option<CellOp>)
        ensures
            match r {
                Some(op) => {
                    &&& old(self)@.undo_stack.len() > 0
                    &&& op@ == old(self)@.undo_stack.last()
                    &&& final(self)@ == old(self)@.with_undo(old(self)@.undo_stack.drop_last())
                    &&& final(self)@.frame() == (Frame {
                        undo_stack: old(self)@.undo_stack.drop_last(),
                        ..old(self)@.frame()
                    })
                },
                None => old(self)@.undo_stack.len() == 0 && final(self)@ == old(self)@,
            },
    {
        let ghost u0 = self.undo_stack@;
        let r = self.undo_stack.pop();
        if r.is_some() {
            assert(views(self.undo_stack@) =~= views(u0).drop_last());
        }
        r
    }

    fn pop_redo(&mut self) -> (r: Option<CellOp>)
        ensures
            match r {
                Some(op) => {
                    &&& old(self)@.redo_stack.len() > 0
                    &&& op@ == old(self)@.redo_stack.last()
                    &&& final(self)@ == old(self)@.with_redo(old(self)@.redo_stack.drop_last())
                    &&& final(self)@.frame() == (Frame {
                        redo_stack: old(self)@.redo_stack.drop_last(),
                        ..old(self)@.frame()
                    })
                },
                None => old(self)@.redo_stack.len() == 0 && final(self)@ == old(self)@,
            },
    {
        let ghost u0 = self.redo_stack@;
        let r = self.redo_stack.pop();
        if r.is_some() {
            assert(views(self.redo_stack@) =~= views(u0).drop_last());
        }
        r
    }

    pub fn undo(&mut self, rendered: &mut Rendered)
        requires
            state(old(self), old(rendered)).wf(),
        ensures
            state(final(self), final(rendered)) == state(old(self), old(rendered)).undone(),
            state(final(self), final(rendered)).wf(),
    {
        let ghost s = state(self, rendered);
        proof {
            reveal(State::undone);
        }
        match self.pop_undo() {
            None => {
                self.say("nothing to undo");
            },
            Some(op) => {
                proof {
                    let n = s.app.notebook.cells.len() as int;
                    lemma_applied(state(self, rendered), op@);
                    lemma_push_fits(s.app.redo_stack, s.inverse(op@), fits(op@, n)->Some_0);
                }
                let inverse = self.apply(op, rendered);
                self.push_redo(inverse);
                self.touch();
                self.say("undone (Ctrl+r redoes)");
            },
        }
    }

    pub fn redo(&mut self, rendered: &mut Rendered)
        requires
            state(old(self), old(rendered)).wf(),
        ensures
            state(final(self), final(rendered)) == state(old(self), old(rendered)).redone(),
            state(final(self), final(rendered)).wf(),
    {
        let ghost s = state(self, rendered);
        proof {
            reveal(State::redone);
        }
        match self.pop_redo() {
            None => {
                self.say("nothing to redo");
            },
            Some(op) => {
                proof {
                    let n = s.app.notebook.cells.len() as int;
                    lemma_applied(state(self, rendered), op@);
                    lemma_push_fits(s.app.undo_stack, s.inverse(op@), fits(op@, n)->Some_0);
                }
                let inverse = self.apply(op, rendered);
                self.push_undo(inverse);
                self.touch();
                self.say("redone");
            },
        }
    }
}

/// Undo takes back a recorded op, and redo brings it back: the cells are those
/// before the op, and those after it.
pub proof fn law_undo_and_redo_restore_the_cells(s: State, op: CellOpView)
    requires
        s.wf(),
        fits(op, s.app.notebook.cells.len() as int) is Some,
    ensures
        s.recorded(op).undone().app.notebook.cells == s.app.notebook.cells,
        s.recorded(op).undone().redone().app.notebook.cells
            == s.recorded(op).app.notebook.cells,
{
    reveal(State::recorded);
    reveal(State::undone);
    reveal(State::redone);
    reveal(State::applied);

    let n = s.app.notebook.cells.len() as int;
    lemma_applied(s, op);
    lemma_push_fits(s.app.undo_stack, s.inverse(op), fits(op, n)->Some_0);
    let r = s.recorded(op);
    let cells = s.app.notebook.cells;
    let inv = s.inverse(op);
    assert(r.app.undo_stack.last() == inv);
    law_inverse_restores_the_cells(op, cells);
    law_ops_keep_cells_and_blocks_in_step(r.work(), inv);
    let u = r.undone();
    assert(u.app.notebook.cells == cells);
    let back = inverse(inv, r.app.notebook.cells);
    assert(r.inverse(inv) == back);
    assert(u.app.redo_stack.last() == back);
    law_inverse_restores_the_cells(inv, r.app.notebook.cells);
    law_ops_keep_cells_and_blocks_in_step(u.work(), back);
}

/// A new op leaves nothing to redo.
pub proof fn law_a_new_op_clears_redo(s: State, op: CellOpView)
    ensures
        s.recorded(op).redone() == s.recorded(op).said("nothing to redo"@),
{
    reveal(State::recorded);
    reveal(State::redone);

}

/// Every recorded op is unsaved work, and the next autosave writes it.
pub proof fn law_every_op_reaches_the_autosave(s: State, op: CellOpView)
    ensures
        s.recorded(op).app.file.dirty,
        s.recorded(op).app.autosaving().effects == s.recorded(op).app.effects.push(
            EffectView::Autosave { path: s.recorded(op).app.autosave_path() },
        ),
{
    reveal(State::recorded);
}

// ---------------------------------------------------------------------------
// Edits
// ---------------------------------------------------------------------------

/// A code cell with outputs or a count to clear.
pub open spec fn clearable(c: CellView) -> bool {
    c.is_code() && (c.outputs_or_empty().len() > 0 || c.execution_count() is Some)
}

/// The op that clears a cell's outputs.
pub open spec fn clearing(i: int) -> CellOpView {
    CellOpView::SetOutputs(i, Some(Seq::empty()), Some(JsonView::Null))
}

/// The ops that clear the cells of a range.
pub open spec fn clearings(cells: Seq<CellView>, from: int, to: int) -> Seq<CellOpView>
    decreases to - from,
{
    if from >= to {
        Seq::empty()
    } else {
        let before = clearings(cells, from, to - 1);
        if 0 <= to - 1 < cells.len() && clearable(cells[to - 1]) {
            before.push(clearing(to - 1))
        } else {
            before
        }
    }
}

pub(crate) proof fn lemma_clearings_fit(cells: Seq<CellView>, from: int, to: int)
    requires
        0 <= from <= to,
    ensures
        fits_all(clearings(cells, from, to), cells.len() as int) == Some(cells.len() as int),
    decreases to - from,
{
    if from < to {
        lemma_clearings_fit(cells, from, to - 1);
        let before = clearings(cells, from, to - 1);
        assert(before.push(clearing(to - 1)).drop_last() =~= before);
        assert(0 <= to - 1 < cells.len() ==> fits(clearing(to - 1), cells.len() as int) == Some(
            cells.len() as int,
        ));
    }
}

/// Two ops as one.
#[verifier::opaque]
pub open spec fn both(a: CellOpView, b: CellOpView) -> CellOpView {
    CellOpView::Batch(seq![a, b])
}

proof fn lemma_pair_fits(a: CellOpView, b: CellOpView, n: int)
    ensures
        fits(CellOpView::Batch(seq![a, b]), n) == match fits(a, n) {
            Some(m) => fits(b, m),
            None => None,
        },
{
    assert(seq![a, b].drop_last() =~= seq![a]);
    assert(seq![a].drop_last() =~= Seq::<CellOpView>::empty());
    reveal_with_fuel(fits_all, 3);
    assert(fits_all(seq![a], n) == fits(a, n));
}

/// Two ops as one.
fn pair(a: CellOp, b: CellOp) -> (r: CellOp)
    ensures
        r@ == CellOpView::Batch(seq![a@, b@]),
{
    let mut ops: Vec<CellOp> = Vec::new();
    ops.push(a);
    ops.push(b);
    proof {
        lemma_op_views(ops@);
        assert(views(ops@) =~= seq![a@, b@]);
    }
    CellOp::Batch(ops)
}

/// Without one line break at the end.
pub open spec fn less_final_newline(s: Seq<char>) -> Seq<char> {
    if s.len() > 0 && s.last() == '\n' {
        s.drop_last()
    } else {
        s
    }
}

/// Without one line break at the start.
pub open spec fn less_first_newline(s: Seq<char>) -> Seq<char> {
    if s.len() > 0 && s[0] == '\n' {
        s.skip(1)
    } else {
        s
    }
}

fn without_final_newline(s: String) -> (r: String)
    ensures
        r@ == less_final_newline(s@),
{
    let v = text::chars_of(s.as_str());
    let n = v.len();
    if n > 0 && v[n - 1] == '\n' {
        let r = text::string_between(&v, 0, n - 1);
        assert(r@ =~= s@.drop_last());
        r
    } else {
        s
    }
}

fn without_first_newline(s: String) -> (r: String)
    ensures
        r@ == less_first_newline(s@),
{
    let v = text::chars_of(s.as_str());
    let n = v.len();
    if n > 0 && v[0] == '\n' {
        let r = text::string_between(&v, 1, n);
        assert(r@ =~= s@.skip(1));
        r
    } else {
        s
    }
}

/// The new cell of a split: same type, no outputs, an id of its own.
pub open spec fn second_half(c: CellView, source: Seq<char>, id: Seq<char>) -> CellView {
    let extra = c.extra.insert("id"@, JsonView::Str(id)).remove("attachments"@);
    if c.is_code() {
        CellView {
            source,
            outputs: Some(Seq::empty()),
            extra: extra.insert("execution_count"@, JsonView::Null),
            ..c
        }
    } else {
        CellView { source, extra, ..c }
    }
}

/// The text of two cells put together.
pub open spec fn merged_source(a: Seq<char>, b: Seq<char>) -> Seq<char> {
    if b.len() == 0 {
        a
    } else if a.len() == 0 {
        b
    } else {
        a + seq!['\n'] + b
    }
}

/// The metadata of a cell, as far as it is an object.
pub open spec fn metadata_of(c: CellView) -> Map<Seq<char>, JsonView> {
    match lookup(c.extra, "metadata"@) {
        Some(JsonView::Obj(m)) => m,
        _ => Map::empty(),
    }
}

pub open spec fn with_metadata(c: CellView, m: Map<Seq<char>, JsonView>) -> CellView {
    CellView { extra: c.extra.insert("metadata"@, JsonView::Obj(m)), ..c }
}

/// Metadata that cannot hold a key.
pub open spec fn bad_metadata(c: CellView) -> bool {
    match lookup(c.extra, "metadata"@) {
        Some(JsonView::Obj(_)) => false,
        Some(_) => true,
        None => false,
    }
}

/// The next type of a cell: code, markdown, raw (rendered as latex), code.
pub open spec fn next_type(c: CellView) -> CellView {
    if c.is_code() {
        CellView {
            cell_type: "markdown"@,
            outputs: None,
            extra: c.extra.remove("execution_count"@),
            ..c
        }
    } else if c.cell_type == "markdown"@ {
        CellView {
            cell_type: "raw"@,
            ..with_metadata(
                c,
                metadata_of(c).insert("format"@, JsonView::Str("text/latex"@)),
            )
        }
    } else {
        let d = with_metadata(c, metadata_of(c).remove("format"@));
        CellView {
            cell_type: "code"@,
            outputs: Some(Seq::empty()),
            extra: d.extra.insert("execution_count"@, JsonView::Null),
            ..d
        }
    }
}

impl State {
    /// A new cell at a position, or at the end where that is beyond it.
    pub open spec fn cell_inserted(self, at: int, c: CellView) -> State {
        let n = self.app.notebook.cells.len() as int;
        self.recorded(
            CellOpView::Insert(
                if at <= n {
                    at
                } else {
                    n
                },
                c,
            ),
        )
    }

    pub open spec fn cell_deleted(self) -> State {
        if self.app.notebook.cells.len() == 0 {
            self
        } else {
            self.on(self.app.with_yanked(self.app.current())).recorded(
                CellOpView::Remove(self.app.selected),
            ).said("cell deleted (p pastes it back)"@)
        }
    }

    pub open spec fn cell_moved(self, delta: int) -> State {
        let b = self.app.selected + delta;
        if b < 0 || b >= self.app.notebook.cells.len() {
            self
        } else {
            self.recorded(CellOpView::Swap(self.app.selected, b))
        }
    }

    /// New text for the selected cell.
    pub open spec fn sourced(self, source: Seq<char>) -> State {
        match self.app.current() {
            Some(c) => if c.source != source {
                self.recorded(CellOpView::SetSource(self.app.selected, source))
            } else {
                self
            },
            None => self,
        }
    }

    pub open spec fn editor_closed(self) -> State {
        self.on(self.app.with_editor(None))
    }

    /// The editor closed, its text in the cell.
    pub open spec fn committed(self) -> State {
        match self.app.editor {
            None => self,
            Some(e) => self.editor_closed().sourced(e.source()),
        }
    }

    /// The cell being edited split at the cursor.
    pub open spec fn split(self, id: Seq<char>) -> State {
        match self.app.editor {
            None => self,
            Some(e) => {
                let s = self.editor_closed();
                let at = s.app.selected;
                let source = e.source();
                let offset = text_before(source, e.row(), e.col()).len() as int;
                match s.app.current() {
                    None => s,
                    Some(c) => s.recorded(
                        both(
                            CellOpView::SetSource(at, less_final_newline(first(source, offset))),
                            CellOpView::Insert(
                                at + 1,
                                second_half(c, less_first_newline(after(source, offset)), id),
                            ),
                        ),
                    ).said("cell split (u undoes)"@),
                }
            },
        }
    }

    pub open spec fn merged(self) -> State {
        let at = self.app.selected;
        let cells = self.app.notebook.cells;
        if at + 1 >= cells.len() {
            self.said("no cell below to merge"@)
        } else {
            let s = self.recorded(
                both(
                    CellOpView::SetSource(
                        at,
                        merged_source(cells[at].source, cells[at + 1].source),
                    ),
                    CellOpView::Remove(at + 1),
                ),
            );
            s.on(s.app.at_cell(at)).said("merged with the cell below (u undoes)"@)
        }
    }

    pub open spec fn outputs_cleared(self, from: int, to: int) -> State {
        let ops = clearings(self.app.notebook.cells, from, to);
        if ops.len() == 0 {
            self.said("no outputs to clear"@)
        } else {
            let s = self.recorded(CellOpView::Batch(ops));
            s.on(s.app.at_cell(self.app.selected)).said(
                "cleared "@ + decimal(ops.len() as int) + " cell output(s) (u undoes)"@,
            )
        }
    }

    pub open spec fn retyped(self) -> State {
        match self.app.current() {
            None => self,
            Some(c) => {
                let s = if c.cell_type == "markdown"@ {
                    self.said("raw latex cell"@)
                } else {
                    self
                };
                s.recorded(CellOpView::SetCell(self.app.selected, next_type(c)))
            },
        }
    }
}

impl AppView {
    /// The selected cell in the paste register, its source on the clipboard.
    pub open spec fn yanking(self) -> AppView {
        match self.current() {
            None => self,
            Some(c) => self.emitting(
                EffectView::Print(clipboard_sequence(c.source)),
            ).with_yanked(Some(c)).said("cell yanked (p pastes) · source on the clipboard"@),
        }
    }
}

impl App {
    /// Two ops as one undo step.
    fn record_pair(&mut self, a: CellOp, b: CellOp, rendered: &mut Rendered)
        requires
            state(old(self), old(rendered)).wf(),
            fits(a@, old(self)@.notebook.cells.len() as int) is Some,
            fits(b@, fits(a@, old(self)@.notebook.cells.len() as int)->Some_0) is Some,
        ensures
            state(final(self), final(rendered)) == state(old(self), old(rendered)).recorded(
                both(a@, b@),
            ),
            state(final(self), final(rendered)).wf(),
            final(self)@.notebook.cells.len() == fits(
                b@,
                fits(a@, old(self)@.notebook.cells.len() as int)->Some_0,
            )->Some_0,
    {
        proof {
            reveal(both);
            lemma_pair_fits(a@, b@, self@.notebook.cells.len() as int);
        }
        let op = pair(a, b);
        self.record(op, rendered);
    }

    /// A new cell at a position, or at the end where that is beyond it.
    pub fn insert_cell_value(&mut self, at: usize, cell: Cell, rendered: &mut Rendered)
        requires
            state(old(self), old(rendered)).wf(),
        ensures
            state(final(self), final(rendered)) == state(old(self), old(rendered)).cell_inserted(
                at as int,
                cell@,
            ),
            state(final(self), final(rendered)).wf(),
    {
        let n = self.notebook.cells.len();
        let at = if at <= n {
            at
        } else {
            n
        };
        self.record(CellOp::Insert(at, cell), rendered);
    }

    /// A new code cell.
    pub fn insert_cell(&mut self, at: usize, id: &str, rendered: &mut Rendered)
        requires
            state(old(self), old(rendered)).wf(),
        ensures
            state(final(self), final(rendered)) == state(old(self), old(rendered)).cell_inserted(
                at as int,
                CellView::new_code(id@),
            ),
            state(final(self), final(rendered)).wf(),
    {
        self.insert_cell_value(at, Cell::new_code(id), rendered);
    }

    /// A copy of the selected cell.
    pub fn current_cell(&self) -> (r: Option<Cell>)
        ensures
            opt_view(r) == self@.current(),
    {
        if self.selected < self.notebook.cells.len() {
            Some(self.notebook.cells[self.selected].duplicate())
        } else {
            None
        }
    }

    pub fn delete_cell(&mut self, rendered: &mut Rendered)
        requires
            state(old(self), old(rendered)).wf(),
        ensures
            state(final(self), final(rendered)) == state(old(self), old(rendered)).cell_deleted(),
            state(final(self), final(rendered)).wf(),
    {
        if self.notebook.cells.len() == 0 {
            return;
        }
        let cell = self.current_cell();
        self.set_yanked(cell);
        let at = self.selected;
        self.record(CellOp::Remove(at), rendered);
        self.say("cell deleted (p pastes it back)");
    }

    /// Move the selected cell down or up.
    pub fn move_cell(&mut self, down: bool, rendered: &mut Rendered)
        requires
            state(old(self), old(rendered)).wf(),
        ensures
            state(final(self), final(rendered)) == state(old(self), old(rendered)).cell_moved(
                if down {
                    1int
                } else {
                    -1
                },
            ),
            state(final(self), final(rendered)).wf(),
    {
        let a = self.selected;
        let n = self.notebook.cells.len();
        if down {
            if n > 0 && a < n - 1 {
                self.record(CellOp::Swap(a, a + 1), rendered);
            }
        } else if a > 0 {
            self.record(CellOp::Swap(a, a - 1), rendered);
        }
    }

    /// Write `source` into the selected cell (undo-tracked, re-rendered);
    /// editor state untouched.
    pub fn update_cell_source(&mut self, source: String, rendered: &mut Rendered)
        requires
            state(old(self), old(rendered)).wf(),
        ensures
            state(final(self), final(rendered)) == state(old(self), old(rendered)).sourced(
                source@,
            ),
            state(final(self), final(rendered)).wf(),
            final(self)@.editor == old(self)@.editor,
            final(self)@.notebook.cells.len() == old(self)@.notebook.cells.len(),
    {
        let at = self.selected;
        if at >= self.notebook.cells.len() {
            return;
        }
        assert(self@.current() == Some(self.notebook.cells@[at as int]@));
        if !text::same(source.as_str(), self.notebook.cells[at].source.as_str()) {
            self.record(CellOp::SetSource(at, source), rendered);
        }
    }

    /// Close the editor and write its text into the cell.
    pub fn commit_editor(&mut self, rendered: &mut Rendered)
        requires
            state(old(self), old(rendered)).wf(),
        ensures
            state(final(self), final(rendered)) == state(old(self), old(rendered)).committed(),
            state(final(self), final(rendered)).wf(),
            final(self)@.editor is None,
            final(self)@.notebook.cells.len() == old(self)@.notebook.cells.len(),
    {
        match self.take_editor() {
            None => {},
            Some(editor) => {
                let source = editor.source();
                self.update_cell_source(source, rendered);
            },
        }
    }

    /// Called after $EDITOR closed; applies the edited source. Editors write a
    /// trailing newline; cell sources don't carry one.
    pub fn apply_external_edit(&mut self, source: String, rendered: &mut Rendered)
        requires
            state(old(self), old(rendered)).wf(),
        ensures
            state(final(self), final(rendered)) == state(old(self), old(rendered)).sourced(
                less_final_newline(source@),
            ),
            state(final(self), final(rendered)).wf(),
    {
        self.update_cell_source(without_final_newline(source), rendered);
    }

    /// Split the cell being edited at the editor cursor: text before stays,
    /// text after becomes a new cell below (same type, no outputs).
    pub fn split_cell(&mut self, id: &str, rendered: &mut Rendered)
        requires
            state(old(self), old(rendered)).wf(),
        ensures
            state(final(self), final(rendered)) == state(old(self), old(rendered)).split(id@),
            state(final(self), final(rendered)).wf(),
    {
        match self.take_editor() {
            None => {},
            Some(editor) => {
                let pos = editor.cursor();
                let source = editor.source();
                let at = self.selected;
                if at >= self.notebook.cells.len() {
                    return;
                }
                assert(self@.current() == Some(self.notebook.cells@[at as int]@));
                let offset = completion::char_offset(source.as_str(), pos);
                let before = without_final_newline(text::take(source.as_str(), offset));
                let after = without_first_newline(text::skip(source.as_str(), offset));
                let second = split_off(&self.notebook.cells[at], after, id);
                self.record_pair(
                    CellOp::SetSource(at, before),
                    CellOp::Insert(at + 1, second),
                    rendered,
                );
                self.say("cell split (u undoes)");
            },
        }
    }

    /// `M`: append the next cell's source to this one and remove it. The
    /// first cell keeps its type and outputs.
    pub fn merge_below(&mut self, rendered: &mut Rendered)
        requires
            state(old(self), old(rendered)).wf(),
        ensures
            state(final(self), final(rendered)) == state(old(self), old(rendered)).merged(),
            state(final(self), final(rendered)).wf(),
    {
        let at = self.selected;
        let n = self.notebook.cells.len();
        if n == 0 || at >= n - 1 {
            self.say("no cell below to merge");
            return;
        }
        let merged = merge_sources(self.source_at(at), self.source_at(at + 1));
        self.record_pair(CellOp::SetSource(at, merged), CellOp::Remove(at + 1), rendered);
        self.select(at);
        self.say("merged with the cell below (u undoes)");
    }

    /// `c`/`C`: clear outputs + execution counts of the code cells in a range.
    pub fn clear_outputs(&mut self, from: usize, to: usize, rendered: &mut Rendered)
        requires
            state(old(self), old(rendered)).wf(),
        ensures
            state(final(self), final(rendered)) == state(old(self), old(rendered)).outputs_cleared(
                from as int,
                to as int,
            ),
            state(final(self), final(rendered)).wf(),
    {
        let selected = self.selected;
        let ops = clearing_ops(&self.notebook.cells, from, to);
        if ops.len() == 0 {
            self.say("no outputs to clear");
            return;
        }
        let n = ops.len();
        proof {
            lemma_op_views(ops@);
            lemma_clearings_fit(self@.notebook.cells, from as int, to as int);
        }
        self.record(CellOp::Batch(ops), rendered);
        self.select(selected);
        let msg = text::concat(
            text::concat("cleared ", text::usize_string(n).as_str()).as_str(),
            " cell output(s) (u undoes)",
        );
        self.say(msg.as_str());
    }

    /// Cycle cell type: code -> markdown -> raw (rendered as latex) -> code.
    pub fn toggle_type(&mut self, rendered: &mut Rendered)
        requires
            state(old(self), old(rendered)).wf(),
            old(self)@.current() matches Some(c) ==> c.is_code() || !bad_metadata(c),
        ensures
            state(final(self), final(rendered)) == state(old(self), old(rendered)).retyped(),
            state(final(self), final(rendered)).wf(),
    {
        match self.current_cell() {
            None => {},
            Some(cell) => {
                if text::same(cell.cell_type.as_str(), "markdown") {
                    self.say("raw latex cell");
                }
                let at = self.selected;
                self.record(CellOp::SetCell(at, retype(cell)), rendered);
            },
        }
    }

    /// `yy`: the cell into the paste register (`p`) and its source onto the
    /// system clipboard via OSC 52.
    pub fn yank_cell(&mut self)
        ensures
            final(self)@ == old(self)@.yanking(),
    {
        match self.current_cell() {
            None => {},
            Some(cell) => {
                self.emit(Effect::Print(pictures::osc52(cell.source.as_str())));
                self.set_yanked(Some(cell));
                self.say("cell yanked (p pastes) · source on the clipboard");
            },
        }
    }
}

fn merge_sources(a: String, b: String) -> (r: String)
    ensures
        r@ == merged_source(a@, b@),
{
    if b.as_str().unicode_len() == 0 {
        a
    } else if a.as_str().unicode_len() == 0 {
        b
    } else {
        proof {
            reveal_strlit("\n");
            assert("\n"@ =~= seq!['\n']);
        }
        text::concat(text::concat(a.as_str(), "\n").as_str(), b.as_str())
    }
}

fn split_off(cell: &Cell, source: String, id: &str) -> (r: Cell)
    ensures
        r@ == second_half(cell@, source@, id@),
{
    let mut second = cell.duplicate();
    second.source = source;
    let _ = second.extra.insert("id", Json::string(id));
    let _ = second.extra.remove("attachments");
    if second.is_code() {
        let outputs: Vec<Json> = Vec::new();
        assert(views(outputs@) =~= Seq::<JsonView>::empty());
        second.outputs = Some(outputs);
        let _ = second.extra.insert("execution_count", Json::Null);
    }
    second
}

fn clearing_ops(cells: &Vec<Cell>, from: usize, to: usize) -> (r: Vec<CellOp>)
    ensures
        views(r@) == clearings(views(cells@), from as int, to as int),
{
    let ghost all = views(cells@);
    let mut r: Vec<CellOp> = Vec::new();
    let mut i: usize = from;
    assert(views(r@) =~= Seq::<CellOpView>::empty());
    assert(from >= to ==> clearings(all, from as int, to as int) =~= views(r@));
    while i < to
        invariant
            from <= i,
            i <= to || i == from,
            all == views(cells@),
            views(r@) == clearings(all, from as int, i as int),
        decreases to - i,
    {
        if i < cells.len() {
            let c = &cells[i];
            assert(all[i as int] == c@);
            let some = match &c.outputs {
                Some(v) => v.len() > 0,
                None => false,
            };
            if c.is_code() && (some || c.execution_count().is_some()) {
                let ghost r0 = r@;
                let outputs: Vec<Json> = Vec::new();
                assert(views(outputs@) =~= Seq::<JsonView>::empty());
                let op = CellOp::SetOutputs(i, Some(outputs), Some(Json::Null));
                assert(op@ == clearing(i as int));
                r.push(op);
                assert(views(r@) =~= views(r0).push(op@));
            }
        }
        i += 1;
    }
    r
}

/// The metadata of a cell, taken out of it.
fn take_metadata(cell: &mut Cell) -> (r: Object)
    requires
        !bad_metadata(old(cell)@),
    ensures
        r@ == metadata_of(old(cell)@),
        final(cell)@ == (CellView {
            extra: old(cell)@.extra.remove("metadata"@),
            ..old(cell)@
        }),
{
    match cell.extra.remove("metadata") {
        Some(Json::Obj(m)) => m,
        _ => Object::new(),
    }
}

fn retype(cell: Cell) -> (r: Cell)
    requires
        cell@.is_code() || !bad_metadata(cell@),
    ensures
        r@ == next_type(cell@),
{
    let mut cell = cell;
    if cell.is_code() {
        cell.cell_type = "markdown".to_owned();
        cell.outputs = None;
        let _ = cell.extra.remove("execution_count");
    } else if text::same(cell.cell_type.as_str(), "markdown") {
        let ghost e0 = cell@.extra;
        cell.cell_type = "raw".to_owned();
        let mut meta = take_metadata(&mut cell);
        let _ = meta.insert("format", Json::string("text/latex"));
        let _ = cell.extra.insert("metadata", Json::Obj(meta));
        assert(cell@.extra =~= e0.insert("metadata"@, JsonView::Obj(meta@)));
    } else {
        let ghost e0 = cell@.extra;
        cell.cell_type = "code".to_owned();
        let mut meta = take_metadata(&mut cell);
        let _ = meta.remove("format");
        let _ = cell.extra.insert("metadata", Json::Obj(meta));
        assert(cell@.extra =~= e0.insert("metadata"@, JsonView::Obj(meta@)));
        let outputs: Vec<Json> = Vec::new();
        assert(views(outputs@) =~= Seq::<JsonView>::empty());
        cell.outputs = Some(outputs);
        let _ = cell.extra.insert("execution_count", Json::Null);
    }
    cell
}

/// The cells after two ops.
proof fn lemma_pair_cells(a: CellOpView, b: CellOpView, cells: Seq<CellView>)
    ensures
        op_cells(both(a, b), cells) == op_cells(b, op_cells(a, cells)),
{
    reveal(both);
    let ops = seq![a, b];
    assert(ops.drop_last() =~= seq![a]);
    assert(seq![a].drop_last() =~= Seq::<CellOpView>::empty());
    assert(op_cells_all(Seq::empty(), cells) == cells);
    assert(op_cells_all(seq![a], cells) == op_cells(a, cells));
    assert(op_cells_all(ops, cells) == op_cells(b, op_cells(a, cells)));
    reveal_with_fuel(op_cells, 2);
    assert(op_cells(CellOpView::Batch(ops), cells) == op_cells_all(ops, cells));
}

/// Where the cursor stands at the start of a line between two texts, merging
/// brings back what a split took apart: the cell has the edited text again,
/// and no other cell changed.
pub proof fn law_merging_reverts_a_split(s: State, id: Seq<char>)
    requires
        s.wf(),
        s.app.current() is Some,
        s.app.editor matches Some(e) && ({
            let offset = text_before(e.source(), e.row(), e.col()).len() as int;
            &&& 1 < offset < e.source().len()
            &&& e.source()[offset - 1] == '\n'
            &&& e.source()[offset] != '\n'
        }),
    ensures
        ({
            let at = s.app.selected;
            let split = s.split(id);
            let cells = s.app.notebook.cells;
            split.on(split.app.at_cell(at)).merged().app.notebook.cells == cells.update(
                at,
                CellView { source: s.app.editor->Some_0.source(), ..cells[at] },
            )
        }),
{
    reveal(State::recorded);
    reveal(both);
    let e = s.app.editor->Some_0;
    let source = e.source();
    let offset = text_before(source, e.row(), e.col()).len() as int;
    let at = s.app.selected;
    let c = s.app.current()->Some_0;
    let cells = s.app.notebook.cells;
    let n = cells.len() as int;
    let a = less_final_newline(first(source, offset));
    let b = less_first_newline(after(source, offset));
    assert(a =~= source.take(offset - 1));
    assert(b =~= source.skip(offset));
    assert(a + seq!['\n'] + b =~= source);
    let closed = s.editor_closed();
    let ops = (CellOpView::SetSource(at, a), CellOpView::Insert(at + 1, second_half(c, b, id)));
    lemma_pair_fits(ops.0, ops.1, n);
    assert(fits(ops.0, n) == Some(n));
    assert(fits(ops.1, n) == Some(n + 1));
    lemma_applied(closed, both(ops.0, ops.1));
    lemma_pair_cells(ops.0, ops.1, cells);
    let split = s.split(id);
    let two = cells.update(at, CellView { source: a, ..cells[at] }).insert(
        at + 1,
        second_half(c, b, id),
    );
    assert(split.app.notebook.cells == two);
    let there = split.on(split.app.at_cell(at));
    assert(there.app.notebook.cells == two);
    assert(two[at].source == a);
    assert(two[at + 1].source == b);
    assert(merged_source(a, b) == source);
    let back = (CellOpView::SetSource(at, source), CellOpView::Remove(at + 1));
    lemma_pair_fits(back.0, back.1, n + 1);
    assert(fits(back.0, n + 1) == Some(n + 1));
    assert(fits(back.1, n + 1) == Some(n));
    lemma_applied(there, both(back.0, back.1));
    lemma_pair_cells(back.0, back.1, two);
    let end = two.update(at, CellView { source, ..two[at] }).remove(at + 1);
    assert(there.merged().app.notebook.cells == end);
    assert(end =~= cells.update(at, CellView { source, ..cells[at] }));
}

// ---------------------------------------------------------------------------
// Editing outside
// ---------------------------------------------------------------------------

/// What came of editing a cell in another program.
pub enum Edited {
    /// The file's text.
    Text(String),
    /// The file cannot be read back.
    Unreadable(String),
    /// The program failed with this status.
    Status(String),
    /// It could not be run.
    Unstarted(String),
}

pub enum EditedView {
    Text(Seq<char>),
    Unreadable(Seq<char>),
    Status(Seq<char>),
    Unstarted(Seq<char>),
}

impl View for Edited {
    type V = EditedView;

    open spec fn view(&self) -> EditedView {
        match *self {
            Edited::Text(s) => EditedView::Text(s@),
            Edited::Unreadable(e) => EditedView::Unreadable(e@),
            Edited::Status(s) => EditedView::Status(s@),
            Edited::Unstarted(e) => EditedView::Unstarted(e@),
        }
    }
}

/// The program that a cell is edited in.
pub fn editor_command(visual: Option<String>, editor: Option<String>) -> (r: String)
    ensures
        r@ == match (opt_view(visual), opt_view(editor)) {
            (Some(v), _) => v,
            (None, Some(e)) => e,
            (None, None) => "vi"@,
        },
{
    match (visual, editor) {
        (Some(v), _) => v,
        (None, Some(e)) => e,
        (None, None) => "vi".to_owned(),
    }
}

impl State {
    /// The session after a cell was edited in another program.
    pub open spec fn edited_outside(self, command: Seq<char>, result: EditedView) -> State {
        match result {
            EditedView::Text(s) => self.sourced(less_final_newline(s)),
            EditedView::Unreadable(e) => State {
                app: self.app.said("read-back failed: "@ + e),
                ..self
            },
            EditedView::Status(s) => State {
                app: self.app.said(command + " exited with "@ + s),
                ..self
            },
            EditedView::Unstarted(e) => State {
                app: self.app.said(command + " failed: "@ + e),
                ..self
            },
        }
    }
}

impl App {
    /// Take what came of editing the selected cell in another program.
    pub fn edited_outside(&mut self, command: &str, result: Edited, rendered: &mut Rendered)
        requires
            state(old(self), old(rendered)).wf(),
        ensures
            state(final(self), final(rendered)) == state(
                old(self),
                old(rendered),
            ).edited_outside(command@, result@),
            state(final(self), final(rendered)).wf(),
    {
        let said = match result {
            Edited::Text(s) => {
                self.apply_external_edit(s, rendered);
                return;
            },
            Edited::Unreadable(e) => text::concat("read-back failed: ", e.as_str()),
            Edited::Status(s) => text::concat(
                text::concat(command, " exited with ").as_str(),
                s.as_str(),
            ),
            Edited::Unstarted(e) => text::concat(
                text::concat(command, " failed: ").as_str(),
                e.as_str(),
            ),
        };
        self.say(said.as_str());
    }
}

} // verus!
