//! What `u` takes back, what Ctrl+r brings back, and what reading the file
//! again leaves.

#[allow(unused_imports)]
use vstd::prelude::*;

#[allow(unused_imports)]
use crate::app::{
    Action, AppView, ConfirmView, EffectView, MomentView, PagerView, ReloadCause, State,
};
#[allow(unused_imports)]
use crate::bindings::{
    after, at_notebook, lemma_chord, lemma_groups, lemma_plain, lemma_reaches, open_notebook, plain,
    prepared,
};
#[allow(unused_imports)]
use crate::cell_keys::lemma_applied;
#[allow(unused_imports)]
use crate::cellops::{fits, inverse, law_inverse_restores_the_cells, op_cells, CellOpView};
#[allow(unused_imports)]
use crate::completion::CompletionView;
#[allow(unused_imports)]
use crate::edits::{next_type, EditedView};
#[allow(unused_imports)]
use crate::editor::EditorView;
#[allow(unused_imports)]
use crate::keys::{no_modifiers, KeyCode, KeyEvent};
#[allow(unused_imports)]
use crate::notebook::{CellView, NotebookView};
#[allow(unused_imports)]
use crate::nvim::BackendView;
#[allow(unused_imports)]
use crate::text::lemma_join_split;

verus! {

// ---------------------------------------------------------------------------
// Undo
// ---------------------------------------------------------------------------

proof fn lemma_undone(t: State)
    requires
        t.app.undo_stack.len() > 0,
        !(t.app.undo_stack.last() is Batch),
    ensures
        t.undone().app.notebook.cells == op_cells(
            t.app.undo_stack.last(),
            t.app.notebook.cells,
        ),
        t.undone().app.redo_stack.len() > 0,
        t.undone().app.redo_stack.last() == inverse(
            t.app.undo_stack.last(),
            t.app.notebook.cells,
        ),
        t.undone().app.input == t.app.input,
        t.undone().app.overlay == t.app.overlay,
        t.undone().app.editor == t.app.editor,
        t.undone().app.run.stdin_req == t.app.run.stdin_req,
{
    reveal(State::undone);
    reveal(State::applied);
}

proof fn lemma_redone(t: State)
    requires
        t.app.redo_stack.len() > 0,
        !(t.app.redo_stack.last() is Batch),
    ensures
        t.redone().app.notebook.cells == op_cells(
            t.app.redo_stack.last(),
            t.app.notebook.cells,
        ),
{
    reveal(State::redone);
    reveal(State::applied);
}

proof fn lemma_recorded_last(s: State, op: CellOpView)
    ensures
        s.recorded(op).app.undo_stack.last() == inverse(op, s.app.notebook.cells),
        s.recorded(op).app.undo_stack.len() > 0,
        s.recorded(op).app.input == s.app.input,
        s.recorded(op).app.overlay == s.app.overlay,
        s.recorded(op).app.run.stdin_req == s.app.run.stdin_req,
{
    reveal(State::recorded);
    reveal(State::applied);
}

pub open spec fn ctrl_r() -> KeyEvent {
    KeyEvent {
        code: KeyCode::Char('r'),
        modifiers: crate::keys::KeyModifiers { control: true, ..no_modifiers() },
    }
}

/// `t` is `s` after one change `op` of its cells, and the notebook still has
/// the keys.
pub open spec fn changed_by(s: State, t: State, op: CellOpView) -> bool {
    &&& open_notebook(t)
    &&& t.app.input.pending is None
    &&& t.app.notebook.cells == op_cells(op, s.app.notebook.cells)
    &&& t.app.undo_stack.len() > 0
    &&& t.app.undo_stack.last() == inverse(op, s.app.notebook.cells)
}

proof fn lemma_taken_back(s: State, t: State, op: CellOpView, m: MomentView)
    requires
        changed_by(s, t, op),
        !(op is Batch),
        fits(op, s.app.notebook.cells.len() as int) is Some,
    ensures
        after(t, plain('u'), m).app.notebook.cells == s.app.notebook.cells,
        after(after(t, plain('u'), m), ctrl_r(), m).app.notebook.cells == t.app.notebook.cells,
{
    let cells = s.app.notebook.cells;
    law_inverse_restores_the_cells(op, cells);
    lemma_plain(t, 'u', m);
    lemma_groups(prepared(t), 'u', no_modifiers(), t.app.input.count, m);
    reveal(State::cell_key);
    lemma_undone(prepared(t));
    let u = after(t, plain('u'), m);
    lemma_reaches(u, ctrl_r(), m);
    lemma_groups(prepared(u), 'r', ctrl_r().modifiers, u.app.input.count, m);
    lemma_redone(prepared(u));
    let inv = inverse(op, cells);
    law_inverse_restores_the_cells(inv, t.app.notebook.cells);
}

/// `u` after `a`, `b`, `p` or `m` takes the change back: the cells are what
/// they were; Ctrl+r then brings it back.
pub proof fn law_u_takes_a_change_back(s: State, c: char, m: MomentView)
    requires
        at_notebook(s),
        c == 'a' || c == 'b' || (c == 'p' && s.app.yanked is Some) || (c == 'm'
            && s.app.notebook.cells.len() > 0),
    ensures
        ({
            let t = after(s, plain(c), m);
            let u = after(t, plain('u'), m);
            &&& u.app.notebook.cells == s.app.notebook.cells
            &&& after(u, ctrl_r(), m).app.notebook.cells == t.app.notebook.cells
        }),
{
    let n = s.app.notebook.cells.len() as int;
    let at = s.app.selected;
    let r = prepared(s);
    lemma_plain(s, c, m);
    lemma_groups(r, c, no_modifiers(), s.app.input.count, m);
    reveal(State::cell_key);
    let below = if at + 1 <= n {
        at + 1
    } else {
        n
    };
    let op = if c == 'a' {
        CellOpView::Insert(below, CellView::new_code(m.fresh_id))
    } else if c == 'b' {
        CellOpView::Insert(at, CellView::new_code(m.fresh_id))
    } else if c == 'p' {
        CellOpView::Insert(below, s.app.yanked->Some_0.with_id(m.fresh_id))
    } else {
        CellOpView::SetCell(at, next_type(s.app.notebook.cells[at]))
    };
    lemma_applied(r, op);
    lemma_recorded_last(r, op);
    if c == 'm' {
        assert(r.app.current() == Some(s.app.notebook.cells[at]));
        let v = r.said("raw latex cell"@);
        lemma_applied(v, op);
        lemma_recorded_last(v, op);
    }
    lemma_taken_back(s, after(s, plain(c), m), op, m);
}

/// `u` after `dd` brings the deleted cell back to its place.
pub proof fn law_u_brings_a_cell_back(s: State, m: MomentView)
    requires
        at_notebook(s),
        s.app.notebook.cells.len() > 0,
    ensures
        after(after(after(s, plain('d'), m), plain('d'), m), plain('u'), m).app.notebook.cells
            == s.app.notebook.cells,
{
    lemma_plain(s, 'd', m);
    lemma_groups(prepared(s), 'd', no_modifiers(), s.app.input.count, m);
    reveal(State::moving_key);
    reveal(State::chord_key);
    let f = after(s, plain('d'), m);
    lemma_chord(f, 'd', plain('d'), m);
    let g = prepared(f);
    let op = CellOpView::Remove(s.app.selected);
    let h = g.on(g.app.with_yanked(g.app.current()));
    lemma_applied(h, op);
    lemma_recorded_last(h, op);
    lemma_taken_back(s, after(f, plain('d'), m), op, m);
}

// ---------------------------------------------------------------------------
// The file
// ---------------------------------------------------------------------------

/// A file that changed on disk is read again where nothing would be lost, and
/// otherwise asked about; one that did not is left alone.
pub proof fn law_a_changed_file_is_noticed(a: AppView, on_disk: Option<u64>)
    ensures
        on_disk == a.file.disk_mtime ==> a.disk_checked(on_disk) == a,
        on_disk != a.file.disk_mtime && a.overlay.confirm is None && !a.file.dirty && a.editor is None
            ==> a.disk_checked(on_disk).effects == a.effects.push(
            EffectView::Reload(ReloadCause::Changed(on_disk)),
        ),
        on_disk != a.file.disk_mtime && a.overlay.confirm is None && (a.file.dirty || a.editor
            is Some) ==> a.disk_checked(on_disk).overlay.confirm == Some(ConfirmView::Reload)
            && a.disk_checked(on_disk).effects == a.effects,
        a.disk_checked(on_disk).notebook == a.notebook,
{
}

/// Reading the file again shows what it holds, with nothing unsaved and
/// nothing to undo; where it cannot be read, the notebook stays.
pub proof fn law_a_reload_shows_the_file(
    s: State,
    n: NotebookView,
    on_disk: Option<u64>,
    cause: ReloadCause,
    error: Seq<char>,
)
    ensures
        ({
            let t = s.reloaded(Ok(n), on_disk, cause);
            &&& t.app.notebook == n
            &&& !t.app.file.dirty
            &&& !t.app.file.autosave_pending
            &&& t.app.file.disk_mtime == on_disk
            &&& t.app.undo_stack.len() == 0
            &&& t.app.redo_stack.len() == 0
            &&& t.app.editor is None
            &&& t.app.run.running.len() == 0
            &&& t.app.effects == s.app.effects
            &&& s.app.selected < n.cells.len() ==> t.app.selected == s.app.selected
            &&& s.app.selected >= n.cells.len() && n.cells.len() > 0 ==> t.app.selected
                == n.cells.len() - 1
            &&& t.ui.blocks.len() == n.cells.len()
        }),
        s.reloaded(Err(error), on_disk, cause).app.notebook == s.app.notebook,
        s.reloaded(Err(error), on_disk, cause).app.file.dirty == s.app.file.dirty,
{
}

/// A recovery copy takes the place of the notebook, unsaved.
pub proof fn law_a_recovered_copy_is_unsaved(s: State, saved: NotebookView)
    ensures
        s.recovered(saved).app.notebook == saved,
        s.recovered(saved).app.file.dirty,
        s.recovered(saved).app.selected == 0,
        s.recovered(saved).app.undo_stack.len() == 0,
        s.recovered(saved).ui.blocks.len() == saved.cells.len(),
{
}

// ---------------------------------------------------------------------------
// Completion and docs
// ---------------------------------------------------------------------------

/// A completion is asked for with the text being edited and the place of the
/// cursor; documentation likewise.
pub proof fn law_the_kernel_is_asked(a: AppView, source: Seq<char>, offset: usize, explicit: bool)
    requires
        a.run.kernel is Some,
    ensures
        ({
            let b = a.completion_requested(source, offset, explicit);
            let n = a.effects.len() as int;
            &&& b.effects.len() > n
            &&& b.effects.take(n) == a.effects
            &&& b.effects[n] matches EffectView::Complete { msg_id, code, pos } && code == source
                && pos == offset && (b.completion matches Some(c) && c.request == msg_id && c.source
                == source && c.at == offset && c.explicit == explicit)
        }),
        ({
            let b = a.docs_requested(source, offset);
            &&& b.effects.len() == a.effects.len() + 1
            &&& b.effects.last() matches EffectView::Inspect { msg_id, code, pos } && code == source
                && pos == offset && b.input.pending_inspect == Some(msg_id)
        }),
{
    let n = a.effects.len() as int;
    assert(a.completion_requested(source, offset, explicit).effects.take(n) =~= a.effects);
}

/// Documentation that was asked for is shown from its start; a reply that was
/// not asked for changes nothing.
pub proof fn law_docs_are_shown(a: AppView, parent: Seq<char>, text: Seq<char>)
    requires
        a.completion is None,
    ensures
        a.input.pending_inspect == Some(parent) && crate::text::trim(text).len() > 0
            ==> a.inspect_replied(parent, Some(text)).overlay.pager == Some(
            PagerView { title: "docs"@, text, top: 0 },
        ),
        a.input.pending_inspect != Some(parent) ==> a.inspect_replied(parent, Some(text)) == a,
        a.input.pending_inspect == Some(parent) ==> a.inspect_replied(parent, None).overlay
            == a.overlay,
{
    reveal(AppView::inspect_replied);
}

/// A single candidate of a completion that was asked for by key is put in at
/// once; several are shown and change nothing yet.
pub proof fn law_a_single_candidate_is_put_in(a: AppView, c: CompletionView, e: EditorView)
    requires
        a.completion == Some(c),
        a.editor == Some(BackendView::Builtin(e)),
        c.start <= c.end <= e.source().len(),
    ensures
        c.items.len() == 1 ==> {
            let b = a.reply_shown(true);
            &&& b.completion is None
            &&& b.editor matches Some(BackendView::Builtin(f)) && f.source() == e.source().take(
                c.start as int,
            ) + c.items[0].text + e.source().skip(c.end as int)
        },
        c.items.len() != 1 ==> a.reply_shown(true).editor == a.editor && a.reply_shown(
            true,
        ).completion == a.completion,
        a.reply_shown(false).editor == a.editor,
        a.reply_shown(false).completion == a.completion,
{
    if c.items.len() == 1 {
        let src = e.source();
        let head = crate::text::first(src, c.start as int) + c.items[0].text;
        let tail = crate::text::after(src, c.end as int);
        lemma_join_split(head + tail, '\n');
        assert(head =~= src.take(c.start as int) + c.items[0].text);
        assert(tail =~= src.skip(c.end as int));
    }
}

// ---------------------------------------------------------------------------
// Another program
// ---------------------------------------------------------------------------

/// `E` hands the selected cell to another program; nothing changes before it
/// is done.
pub proof fn law_e_edits_outside(s: State, m: MomentView)
    requires
        at_notebook(s),
    ensures
        s.keyed(plain('E'), m).1 == Action::ExternalEdit,
        after(s, plain('E'), m).app.notebook == s.app.notebook,
        after(s, plain('E'), m).app.effects == s.app.effects,
        s.keyed(plain('j'), m).1 == Action::Nothing,
{
    lemma_plain(s, 'E', m);
    lemma_plain(s, 'j', m);
    reveal(State::char_key);
}

/// Text edited in another program comes into the selected cell, without the
/// line break that editors put at its end; where that failed, the cell stays.
pub proof fn law_edited_text_comes_back(
    s: State,
    command: Seq<char>,
    text: Seq<char>,
    error: Seq<char>,
)
    requires
        0 <= s.app.selected < s.app.notebook.cells.len(),
        text.len() > 0 ==> text.last() != '\n',
    ensures
        ({
            let t = s.edited_outside(command, EditedView::Text(text.push('\n')));
            let u = s.edited_outside(command, EditedView::Text(text));
            let (cells, at) = (s.app.notebook.cells, s.app.selected);
            &&& t.app.notebook.cells.len() == cells.len()
            &&& t.app.notebook.cells[at] == (CellView { source: text, ..cells[at] })
            &&& u.app.notebook.cells == t.app.notebook.cells
            &&& forall|k: int|
                0 <= k < cells.len() && k != at ==> #[trigger] t.app.notebook.cells[k] == cells[k]
        }),
        s.edited_outside(command, EditedView::Unreadable(error)).app.notebook == s.app.notebook,
        s.edited_outside(command, EditedView::Status(error)).app.notebook == s.app.notebook,
        s.edited_outside(command, EditedView::Unstarted(error)).app.notebook == s.app.notebook,
{
    let at = s.app.selected;
    assert(text.push('\n').drop_last() =~= text);
    assert(s.app.current() == Some(s.app.notebook.cells[at]));
    lemma_applied(s, CellOpView::SetSource(at, text));
}

} // verus!
