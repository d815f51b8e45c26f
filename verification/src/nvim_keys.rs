//! What an nvim that edits a cell does to the cell.

#[allow(unused_imports)]
use vstd::prelude::*;

#[allow(unused_imports)]
use crate::app::{EffectView, State};
#[allow(unused_imports)]
use crate::cell_keys::lemma_applied;
#[allow(unused_imports)]
use crate::cellops::CellOpView;
#[allow(unused_imports)]
use crate::keys::{KeyCode, KeyEvent};
#[allow(unused_imports)]
use crate::notebook::CellView;
#[allow(unused_imports)]
use crate::nvim::{key_notation, BackendView, NvimView};

verus! {

/// Only the selected cell's text may differ, and it is `text`.
pub open spec fn took(s: State, t: State, text: Seq<char>) -> bool {
    let (cells, at) = (s.app.notebook.cells, s.app.selected);
    &&& t.app.notebook.cells.len() == cells.len()
    &&& t.app.notebook.cells[at] == (CellView { source: text, ..cells[at] })
    &&& forall|k: int|
        0 <= k < cells.len() && k != at ==> #[trigger] t.app.notebook.cells[k] == cells[k]
    &&& t.app.selected == at
    &&& t.app.effects == s.app.effects
}

proof fn lemma_sourced(s: State, text: Seq<char>)
    requires
        0 <= s.app.selected < s.app.notebook.cells.len(),
    ensures
        took(s, s.sourced(text), text),
        s.sourced(text).app.editor == s.app.editor,
        s.sourced(text).app.run.kernel == s.app.run.kernel,
        s.sourced(text).app.completion == s.app.completion,
{
    assert(s.app.current() == Some(s.app.notebook.cells[s.app.selected]));
    lemma_applied(s, CellOpView::SetSource(s.app.selected, text));
    reveal(State::recorded);
    reveal(State::applied);
}

proof fn lemma_heard(s: State, v: NvimView)
    requires
        s.app.editor == Some(BackendView::Nvim(v)),
        0 <= s.app.selected < s.app.notebook.cells.len(),
    ensures
        ({
            let t = s.editor_heard();
            &&& t.app.editor matches Some(BackendView::Nvim(w)) && w.lines == v.lines
                && w.quit_requested == v.quit_requested && !w.write_requested
            &&& v.write_requested ==> took(s, t, v.source())
            &&& !v.write_requested ==> t.app.notebook == s.app.notebook && t.app.selected
                == s.app.selected && t.app.effects == s.app.effects
            &&& t.app.run.kernel == s.app.run.kernel
            &&& t.app.completion == s.app.completion
        }),
{
    reveal(State::editor_heard);
    let e = BackendView::Nvim(v);
    let a = s.on(s.app.with_editor(Some(e.unnoticed())));
    let b = match e.notice() {
        Some(n) => a.said(n),
        None => a,
    };
    let c = b.on(b.app.with_editor(Some(e.unnoticed().write_taken())));
    lemma_sourced(c, v.source());
}

proof fn lemma_committed_nvim(s: State, v: NvimView)
    requires
        s.app.editor == Some(BackendView::Nvim(v)),
        0 <= s.app.selected < s.app.notebook.cells.len(),
    ensures
        took(s, s.committed(), v.source()),
        s.committed().app.editor is None,
        s.committed().app.run.kernel == s.app.run.kernel,
{
    lemma_sourced(s.editor_closed(), v.source());
}

/// Leaving nvim with its text, as with `:wq`, puts the text into the cell;
/// leaving without, as with `:q!`, leaves the cell as it was; writing, as with
/// `:w`, puts the text in and goes on editing; any other answer leaves the cell
/// alone.
pub proof fn law_nvim_writes_and_quits(s: State, v: NvimView, key: KeyEvent)
    requires
        0 <= s.app.selected < s.app.notebook.cells.len(),
        s.app.completion is None,
        key.code != KeyCode::Char('.'),
    ensures
        ({
            let t = s.nvim_fed(v, None, key);
            &&& v.quit_requested == 1 ==> took(s, t, v.source()) && t.app.editor is None
            &&& v.quit_requested == 2 && !v.write_requested ==> t.app.notebook == s.app.notebook
                && t.app.editor is None
            &&& v.quit_requested == 0 && v.write_requested ==> took(s, t, v.source())
                && t.app.editor is Some
            &&& v.quit_requested == 0 && !v.write_requested ==> t.app.notebook == s.app.notebook && (
            t.app.editor matches Some(BackendView::Nvim(w)) && w.lines == v.lines)
        }),
{
    reveal(State::nvim_fed);
    reveal(State::settled);
    reveal(State::concluded);
    let r = s.on(s.app.with_editor(Some(BackendView::Nvim(v))));
    lemma_heard(r, v);
    let h = r.editor_heard();
    let e = h.app.editor->Some_0;
    let q = h.on(h.app.with_editor(Some(e.quit_taken())));
    let w = (match e.quit_taken() {
        BackendView::Nvim(w) => w,
        _ => v,
    });
    assert(w.source() == v.source());
    lemma_committed_nvim(q, w);
}

/// A key in nvim is sent to it in its own notation, and changes nothing here
/// before nvim answers; Esc in its normal mode leaves the cell, its text taken.
pub proof fn law_keys_go_to_nvim(s: State, v: NvimView, key: KeyEvent, id: Seq<char>)
    requires
        0 <= s.app.selected < s.app.notebook.cells.len(),
        s.app.editor == Some(BackendView::Nvim(v)),
        s.app.completion is None,
        key.code != KeyCode::Tab,
        key.code != KeyCode::BackTab,
        !State::splits(key),
    ensures
        key.code matches KeyCode::Char(c) ==> {
            let t = s.edited(key, id);
            &&& t.app.notebook == s.app.notebook
            &&& t.app.editor == s.app.editor
            &&& t.app.effects.len() == s.app.effects.len() + 1
            &&& t.app.effects.last() matches EffectView::FeedNvim { keys, key: k } && k == key
                && key_notation(key) == Some(keys)
        },
        key.code == KeyCode::Esc && v.mode == "n"@ && v.quit_requested == 0 ==> took(
            s,
            s.edited(key, id),
            v.source(),
        ) && s.edited(key, id).app.editor is None,
{
    reveal(State::edited);
    reveal(State::edit_key);
    assert(s.app.completion_key(key) == (s.app, false));
    assert(s.on(s.app) == s);
    if key.code == KeyCode::Esc && v.mode == "n"@ && v.quit_requested == 0 {
        reveal(State::settled);
        reveal(State::concluded);
        let r = s.on(s.app.with_editor(Some(BackendView::Nvim(v))));
        lemma_heard(r, v);
        let h = r.editor_heard();
        let e = h.app.editor->Some_0;
        let q = h.on(h.app.with_editor(Some(e.quit_taken())));
        let w = (match e.quit_taken() {
            BackendView::Nvim(w) => w,
            _ => v,
        });
        assert(w.source() == v.source());
        lemma_committed_nvim(q, w);
    }
}

} // verus!
