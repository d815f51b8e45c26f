//! What opening a cell's editor, leaving it and splitting there do.

#[allow(unused_imports)]
use vstd::prelude::*;

#[allow(unused_imports)]
use crate::app::{AfterOpen, AppView, EffectView, MomentView, State};
#[allow(unused_imports)]
use crate::bindings::{after, at_notebook, lemma_groups, lemma_reaches, plain, prepared};
#[allow(unused_imports)]
use crate::cell_keys::{lemma_applied, lemma_pair};
#[allow(unused_imports)]
use crate::cellops::CellOpView;
#[allow(unused_imports)]
use crate::completion::text_before;
#[allow(unused_imports)]
use crate::edits::{less_final_newline, less_first_newline, second_half};
#[allow(unused_imports)]
use crate::editor::{EditorView, Mode, Outcome};
#[allow(unused_imports)]
use crate::json::JsonView;
#[allow(unused_imports)]
use crate::keys::{no_modifiers, KeyCode, KeyEvent};
#[allow(unused_imports)]
use crate::notebook::CellView;
#[allow(unused_imports)]
use crate::nvim::BackendView;
#[allow(unused_imports)]
use crate::run_keys::lemma_ran;
#[allow(unused_imports)]
use crate::text::{first, lemma_join_split};

verus! {

/// Enter, `i` and `A` open the builtin editor on the text of the selected
/// cell: at its start, at its start to type, or at its end to type. Nothing
/// else changes.
pub proof fn law_editors_open_on_the_cell(s: State, key: KeyEvent, m: MomentView)
    requires
        at_notebook(s),
        s.app.notebook.cells.len() > 0,
        s.app.config.editor != "nvim"@,
        key == plain('i') || key == plain('A') || key == (KeyEvent {
            code: KeyCode::Enter,
            modifiers: no_modifiers(),
        }),
    ensures
        ({
            let t = after(s, key, m);
            let text = s.app.notebook.cells[s.app.selected].source;
            &&& t.app.notebook == s.app.notebook
            &&& t.app.selected == s.app.selected
            &&& t.app.effects == s.app.effects
            &&& t.app.editor matches Some(BackendView::Builtin(e)) && {
                &&& e.source() == text
                &&& key == plain('A') ==> e.mode == Mode::Insert && e.row == e.lines.len() - 1
                    && e.col == e.lines.last().len()
                &&& key == plain('i') ==> e.mode == Mode::Insert && e.row == 0 && e.col == 0
                &&& key.code == KeyCode::Enter ==> e.mode == Mode::Normal && e.row == 0 && e.col
                    == 0
            }
        }),
{
    lemma_reaches(s, key, m);
    if let KeyCode::Char(c) = key.code {
        lemma_groups(prepared(s), c, key.modifiers, s.app.input.count, m);
    }
    reveal(State::enter_key);
    let text = s.app.notebook.cells[s.app.selected].source;
    lemma_join_split(text, '\n');
    assert(prepared(s).app.current() == Some(s.app.notebook.cells[s.app.selected]));
}

/// With nvim, the host is asked to open it on the text of the selected cell.
pub proof fn law_nvim_is_opened_on_the_cell(s: State, key: KeyEvent, m: MomentView)
    requires
        at_notebook(s),
        s.app.notebook.cells.len() > 0,
        s.app.config.editor == "nvim"@,
        key == plain('i') || key == plain('A') || key == (KeyEvent {
            code: KeyCode::Enter,
            modifiers: no_modifiers(),
        }),
    ensures
        ({
            let t = after(s, key, m);
            let cell = s.app.notebook.cells[s.app.selected];
            &&& t.app.notebook == s.app.notebook
            &&& t.app.editor is None
            &&& t.app.effects.len() == s.app.effects.len() + 1
            &&& t.app.effects.drop_last() == s.app.effects
            &&& t.app.effects.last() matches EffectView::OpenNvim { source, next, .. } && source
                == cell.source && next == (if key == plain('i') {
                AfterOpen::Insert
            } else if key == plain('A') {
                AfterOpen::Append
            } else {
                AfterOpen::Nothing
            })
        }),
{
    lemma_reaches(s, key, m);
    if let KeyCode::Char(c) = key.code {
        lemma_groups(prepared(s), c, key.modifiers, s.app.input.count, m);
    }
    reveal(State::enter_key);
    assert(prepared(s).app.current() == Some(s.app.notebook.cells[s.app.selected]));
    assert(after(s, key, m).app.effects.drop_last() =~= s.app.effects);
}

/// The builtin editor `e` is open, and keys go to it.
pub open spec fn in_editor(s: State, e: EditorView) -> bool {
    &&& s.wf()
    &&& s.app.overlay.logs is None
    &&& s.app.overlay.pager is None
    &&& !s.app.overlay.show_help
    &&& s.app.overlay.debug is None
    &&& s.app.overlay.zoom is None
    &&& s.app.run.stdin_req is None
    &&& s.app.overlay.prompt is None
    &&& s.app.overlay.confirm is None
    &&& s.app.editor == Some(BackendView::Builtin(e))
    &&& s.app.completion is None
    &&& s.app.notebook.cells.len() > 0
}

/// The session as a key in the editor finds it.
pub open spec fn unsaid(s: State) -> State {
    s.on(
        AppView {
            message: None,
            screen: crate::app::ScreenView { manual_scroll: false, ..s.app.screen },
            ..s.app
        },
    )
}

proof fn lemma_in_editor(s: State, e: EditorView, key: KeyEvent, m: MomentView)
    requires
        in_editor(s, e),
    ensures
        s.inner_key(key, m).0 == unsaid(s).edited(key, m.fresh_id),
{
    reveal(State::inner_key);
}

/// What an editor key leads to, where neither completion nor splitting takes
/// it.
proof fn lemma_edited(s: State, e: EditorView, key: KeyEvent, id: Seq<char>)
    requires
        s.app.editor == Some(BackendView::Builtin(e)),
        s.app.completion is None,
        key.code != KeyCode::Tab,
        key.code != KeyCode::BackTab,
        !State::splits(key),
        !s.forgot_editing(key),
    ensures
        ({
            let t = s.on(s.app.with_editor(Some(BackendView::Builtin(e.keyed(key))))).settled(
                e.outcome(key),
            );
            s.edited(key, id) == (if t.app.editor is None {
                t
            } else {
                t.on(t.app.after_key(key))
            })
        }),
{
    reveal(State::edited);
    reveal(State::edit_key);
    assert(s.app.completion_key(key) == (s.app, false));
    assert(s.on(s.app) == s);
}

proof fn lemma_settled(s: State, e: EditorView, outcome: Outcome)
    requires
        s.app.editor == Some(BackendView::Builtin(e)),
    ensures
        s.settled(outcome) == s.concluded(outcome),
{
    reveal(State::settled);
    reveal(State::editor_heard);
}

pub(crate) proof fn lemma_committed(s: State, e: EditorView)
    requires
        s.app.editor == Some(BackendView::Builtin(e)),
        0 <= s.app.selected < s.app.notebook.cells.len(),
    ensures
        ({
            let t = s.committed();
            let (cells, at) = (s.app.notebook.cells, s.app.selected);
            &&& t.app.editor is None
            &&& t.app.notebook.cells.len() == cells.len()
            &&& t.app.notebook.cells[at].source == e.source()
            &&& t.app.notebook.cells[at].cell_type == cells[at].cell_type
            &&& t.app.notebook.cells[at].outputs == cells[at].outputs
            &&& t.app.notebook.cells[at].extra == cells[at].extra
            &&& forall|k: int|
                0 <= k < cells.len() && k != at ==> #[trigger] t.app.notebook.cells[k] == cells[k]
            &&& t.app.selected == at
            &&& t.app.effects == s.app.effects
            &&& t.app.run.kernel == s.app.run.kernel
            &&& t.app.completion == s.app.completion
            &&& cells[at].source != e.source() ==> t.app.file.dirty && t.app.undo_stack.len() > 0
        }),
{
    let c = s.editor_closed();
    let op = CellOpView::SetSource(s.app.selected, e.source());
    lemma_applied(c, op);
    assert(c.app.current() == Some(s.app.notebook.cells[s.app.selected]));
    reveal(State::recorded);
    reveal(State::applied);
}

/// Esc in normal mode closes the editor and puts its text into the cell. Every
/// other cell, and everything else of this one, stays.
pub proof fn law_leaving_puts_the_text_into_the_cell(
    s: State,
    e: EditorView,
    key: KeyEvent,
    m: MomentView,
)
    requires
        in_editor(s, e),
        e.mode == Mode::Normal,
        e.pending is None,
        key.code == KeyCode::Esc,
    ensures
        ({
            let t = after(s, key, m);
            let (cells, at) = (s.app.notebook.cells, s.app.selected);
            &&& t.app.editor is None
            &&& t.app.notebook.cells.len() == cells.len()
            &&& t.app.notebook.cells[at] == (CellView { source: e.source(), ..cells[at] })
            &&& forall|k: int|
                0 <= k < cells.len() && k != at ==> #[trigger] t.app.notebook.cells[k] == cells[k]
            &&& t.app.selected == at
            &&& t.app.effects == s.app.effects
            &&& cells[at].source != e.source() ==> t.app.file.dirty && t.app.undo_stack.len() > 0
        }),
{
    lemma_in_editor(s, e, key, m);
    let u = unsaid(s);
    lemma_edited(u, e, key, m.fresh_id);
    assert(e.keyed(key).lines == e.lines && e.outcome(key) == Outcome::Exit);
    let f = e.keyed(key);
    let v = u.on(u.app.with_editor(Some(BackendView::Builtin(f))));
    lemma_settled(v, f, Outcome::Exit);
    reveal(State::concluded);
    lemma_committed(v, f);
}

/// Shift+Enter and Ctrl+Enter in the editor put its text into the cell, close
/// it and run the new text; Shift+Enter goes on to the next cell.
pub proof fn law_running_from_the_editor(s: State, e: EditorView, key: KeyEvent, m: MomentView)
    requires
        in_editor(s, e),
        key.code == KeyCode::Enter,
        key.modifiers.shift || key.modifiers.control,
        s.app.run.kernel is Some,
    ensures
        ({
            let t = after(s, key, m);
            let (cells, at) = (s.app.notebook.cells, s.app.selected);
            &&& t.app.editor is None
            &&& t.app.notebook.cells.len() == cells.len()
            &&& t.app.notebook.cells[at].source == e.source()
            &&& forall|k: int|
                0 <= k < cells.len() && k != at ==> #[trigger] t.app.notebook.cells[k] == cells[k]
            &&& cells[at].cell_type == "code"@ ==> t.app.effects.len() == s.app.effects.len() + 1
                && t.app.effects.drop_last() == s.app.effects && (
            t.app.effects.last() matches EffectView::Execute { code, .. } && code == e.source())
            &&& cells[at].cell_type != "code"@ ==> t.app.effects == s.app.effects
            &&& t.app.selected == (if key.modifiers.shift && at + 1 < cells.len() {
                at + 1
            } else {
                at
            })
        }),
{
    lemma_in_editor(s, e, key, m);
    let u = unsaid(s);
    lemma_edited(u, e, key, m.fresh_id);
    let o = e.outcome(key);
    assert(o == Outcome::Run { advance: key.modifiers.shift });
    assert(e.keyed(key).lines == e.lines);
    let f = e.keyed(key);
    let v = u.on(u.app.with_editor(Some(BackendView::Builtin(f))));
    lemma_settled(v, f, o);
    reveal(State::concluded);
    lemma_committed(v, f);
    lemma_ran(v.committed(), s.app.selected);
}

proof fn lemma_splits(s: State, e: EditorView, key: KeyEvent, id: Seq<char>)
    requires
        s.app.editor == Some(BackendView::Builtin(e)),
        s.app.completion is None,
        State::splits(key),
        s.split(id).app.editor is None,
    ensures
        s.edited(key, id) == s.split(id),
{
    reveal(State::edited);
    reveal(State::edit_key);
    assert(s.app.completion_key(key) == (s.app, false));
    assert(s.on(s.app) == s);
}

proof fn lemma_split(s: State, e: EditorView, id: Seq<char>)
    requires
        s.app.editor == Some(BackendView::Builtin(e)),
        0 <= s.app.selected < s.app.notebook.cells.len(),
        e.row >= 0,
        e.col >= 0,
    ensures
        ({
            let t = s.split(id);
            let (cells, at) = (s.app.notebook.cells, s.app.selected);
            let d = t.app.notebook.cells;
            let head = text_before(e.source(), e.row, e.col);
            let tail = e.source().skip(head.len() as int);
            &&& t.app.editor is None
            &&& d.len() == cells.len() + 1
            &&& d[at].cell_type == cells[at].cell_type
            &&& d[at + 1].cell_type == cells[at].cell_type
            &&& d[at].outputs == cells[at].outputs
            &&& d[at + 1].extra["id"@] == JsonView::Str(id)
            &&& d[at].source == head || d[at].source + seq!['\n'] == head
            &&& d[at + 1].source == tail || seq!['\n'] + d[at + 1].source == tail
            &&& head + tail == e.source()
            &&& forall|k: int| 0 <= k < at ==> #[trigger] d[k] == cells[k]
            &&& forall|k: int| at + 1 < k < d.len() ==> #[trigger] d[k] == cells[k - 1]
        }),
{
    let src = e.source();
    let head = text_before(src, e.row, e.col);
    crate::completion::law_offsets_cut_the_text(src, e.row, e.col);
    assert(first(src, head.len() as int) =~= head);
    let tail = src.skip(head.len() as int);
    assert(crate::text::after(src, head.len() as int) =~= tail);
    assert(head + tail =~= src);
    let v = s.editor_closed();
    let at = s.app.selected;
    let c = s.app.notebook.cells[at];
    assert(v.app.current() == Some(c));
    let a = CellOpView::SetSource(at, less_final_newline(head));
    let b = CellOpView::Insert(at + 1, second_half(c, less_first_newline(tail), id));
    lemma_pair(v, a, b);
    assert(less_final_newline(head) == head || less_final_newline(head) + seq!['\n'] =~= head);
    assert(less_first_newline(tail) == tail || seq!['\n'] + less_first_newline(tail) =~= tail);
    lemma_half(c, less_first_newline(tail), id);
}

proof fn lemma_half(c: CellView, source: Seq<char>, id: Seq<char>)
    ensures
        second_half(c, source, id).source == source,
        second_half(c, source, id).cell_type == c.cell_type,
        second_half(c, source, id).extra["id"@] == JsonView::Str(id),
{
    reveal_strlit("id");
    reveal_strlit("attachments");
    reveal_strlit("execution_count");
    assert("id"@.len() == 2);
    assert("attachments"@.len() == 11);
    assert("execution_count"@.len() == 15);
}

/// Ctrl+\ closes the editor and splits the cell at the cursor: what stands
/// before it stays, what follows goes to a new cell of the same type below,
/// each without the line break at the cut. No character is lost.
pub proof fn law_splitting_keeps_every_character(
    s: State,
    e: EditorView,
    key: KeyEvent,
    m: MomentView,
)
    requires
        in_editor(s, e),
        e.wf(),
        State::splits(key),
    ensures
        ({
            let t = after(s, key, m);
            let (cells, at) = (s.app.notebook.cells, s.app.selected);
            let d = t.app.notebook.cells;
            let head = text_before(e.source(), e.row, e.col);
            let tail = e.source().skip(head.len() as int);
            &&& t.app.editor is None
            &&& d.len() == cells.len() + 1
            &&& d[at].cell_type == cells[at].cell_type
            &&& d[at + 1].cell_type == cells[at].cell_type
            &&& d[at].outputs == cells[at].outputs
            &&& d[at + 1].extra["id"@] == JsonView::Str(m.fresh_id)
            &&& d[at].source == head || d[at].source + seq!['\n'] == head
            &&& d[at + 1].source == tail || seq!['\n'] + d[at + 1].source == tail
            &&& head + tail == e.source()
            &&& forall|k: int| 0 <= k < at ==> #[trigger] d[k] == cells[k]
            &&& forall|k: int| at + 1 < k < d.len() ==> #[trigger] d[k] == cells[k - 1]
        }),
{
    lemma_in_editor(s, e, key, m);
    let u = unsaid(s);
    lemma_split(u, e, m.fresh_id);
    lemma_splits(u, e, key, m.fresh_id);
}

/// A key that goes on editing changes the editor alone: the notebook, the file
/// and what is asked of the host stay.
pub proof fn law_typing_leaves_the_notebook(s: State, e: EditorView, key: KeyEvent, m: MomentView)
    requires
        in_editor(s, e),
        e.outcome(key) == Outcome::Continue,
        key.code != KeyCode::Tab,
        key.code != KeyCode::BackTab,
        key.code != KeyCode::Char('.'),
        !State::splits(key),
        !(key == plain('q') && e.mode == Mode::Normal),
    ensures
        ({
            let t = after(s, key, m);
            &&& t.app.editor == Some(BackendView::Builtin(e.keyed(key)))
            &&& t.app.notebook == s.app.notebook
            &&& t.app.effects == s.app.effects
            &&& t.app.file == s.app.file
            &&& t.app.selected == s.app.selected
        }),
{
    lemma_in_editor(s, e, key, m);
    let u = unsaid(s);
    lemma_edited(u, e, key, m.fresh_id);
    let f = e.keyed(key);
    let v = u.on(u.app.with_editor(Some(BackendView::Builtin(f))));
    lemma_settled(v, f, Outcome::Continue);
    reveal(State::concluded);
    assert(!v.app.dot_asks(key));
}

} // verus!
