//! What the notebook's keys are for: what they select, change, send and open.

#[allow(unused_imports)]
use vstd::prelude::*;

#[allow(unused_imports)]
use crate::app::{AfterOpen, AppView, MomentView, State};
#[allow(unused_imports)]
use crate::keys::{no_modifiers, KeyCode, KeyEvent, KeyModifiers};
#[allow(unused_imports)]
use crate::commands::step_of;
#[allow(unused_imports)]
use crate::text::is_ascii_digit;

verus! {

/// Keys reach the notebook, and no chord is begun.
pub open spec fn at_notebook(s: State) -> bool {
    &&& s.wf()
    &&& open_notebook(s)
    &&& s.app.input.pending is None
}

/// Nothing stands between the keys and the notebook.
pub open spec fn open_notebook(s: State) -> bool {
    &&& s.app.overlay.logs is None
    &&& s.app.overlay.pager is None
    &&& !s.app.overlay.show_help
    &&& s.app.overlay.debug is None
    &&& s.app.overlay.zoom is None
    &&& s.app.run.stdin_req is None
    &&& s.app.overlay.prompt is None
    &&& s.app.overlay.confirm is None
    &&& s.app.editor is None
}

/// A key without modifiers.
pub open spec fn plain(c: char) -> KeyEvent {
    KeyEvent { code: KeyCode::Char(c), modifiers: no_modifiers() }
}

/// The session after a key.
pub open spec fn after(s: State, key: KeyEvent, m: MomentView) -> State {
    s.keyed(key, m).0
}

/// The cells, what runs, what is asked of the host and the file are as before.
pub open spec fn only_selected(s: State, t: State) -> bool {
    &&& t.app.notebook == s.app.notebook
    &&& t.ui == s.ui
    &&& t.app.effects == s.app.effects
    &&& t.app.file == s.app.file
    &&& t.app.undo_stack == s.app.undo_stack
    &&& t.app.redo_stack == s.app.redo_stack
    &&& t.app.run.running == s.app.run.running
    &&& t.app.editor == s.app.editor
    &&& t.app.yanked == s.app.yanked
}

/// The session as a key of the notebook finds it.
pub open spec fn prepared(s: State) -> State {
    s.on(
        AppView {
            message: None,
            screen: crate::app::ScreenView { manual_scroll: false, ..s.app.screen },
            ..s.app
        },
    ).unprefixed()
}

pub(crate) proof fn lemma_reaches(s: State, key: KeyEvent, m: MomentView)
    requires
        open_notebook(s),
        s.app.input.pending is None,
    ensures
        key.code matches KeyCode::Char(c) ==> !is_ascii_digit(c) ==> s.inner_key(key, m)
            == prepared(s).char_key(c, key.modifiers, s.app.input.count, m),
        key.code == KeyCode::Down ==> s.inner_key(key, m).0 == prepared(s).moved_down(
            step_of(s.app.input.count),
        ),
        key.code == KeyCode::Up ==> s.inner_key(key, m).0 == prepared(s).moved_up(
            step_of(s.app.input.count),
        ),
        key.code == KeyCode::Enter ==> s.inner_key(key, m).0 == prepared(s).enter_key(
            key.modifiers,
        ),
{
    reveal(State::inner_key);
    reveal(State::notebook_key);
}

/// A key that ends a chord.
pub(crate) proof fn lemma_chord(s: State, first: char, key: KeyEvent, m: MomentView)
    requires
        s.app.input.pending == Some(first),
        open_notebook(s),
    ensures
        s.inner_key(key, m).0 == prepared(s).chord_key(first, key.code),
{
    reveal(State::inner_key);
    reveal(State::notebook_key);
}

pub(crate) proof fn lemma_groups(s: State, c: char, mods: KeyModifiers, count: Option<usize>, m: MomentView)
    ensures
        c == 'j' || c == 'k' || c == 'g' || c == 'G' || c == 'n' || c == 'N' || c == 'd' || c
            == 'y' ==> s.char_key(c, mods, count, m).0 == s.moving_key(c, count),
        c == 'q' || c == 'w' || c == 'W' || c == 'S' || c == '/' || c == '?' || c == 'L'
            ==> s.char_key(c, mods, count, m).0 == s.file_key(c, m.on_disk),
        c == 'u' || c == 'C' || c == 'M' || c == 'a' || c == 'b' || c == 'p' || c == 'J' || c
            == 'K' || c == 'm' ==> s.char_key(c, mods, count, m).0 == s.cell_key(c, m.fresh_id),
        c == 'X' || c == ' ' || c == '<' || c == '>' || c == 'R' ==> s.char_key(
            c,
            mods,
            count,
            m,
        ).0 == s.run_key(c),
        c == 'o' || c == '[' || c == ']' || c == 'D' || c == 'z' || c == 'Z' ==> s.char_key(
            c,
            mods,
            count,
            m,
        ).0 == s.look_key(c),
        c == 'r' ==> s.char_key(c, mods, count, m).0 == (if mods.control {
            s.redone()
        } else {
            s.ran(s.app.selected).advanced()
        }),
        c == 'c' && mods == no_modifiers() ==> s.char_key(c, mods, count, m).0
            == s.outputs_cleared(s.app.selected, s.app.selected + 1),
        c == 'c' && mods.control ==> s.char_key(c, mods, count, m).0 == s.on(
            s.app.interrupting(),
        ),
        c == 'i' ==> s.char_key(c, mods, count, m).0 == s.on(s.app.opening(AfterOpen::Insert)),
        c == 'A' ==> s.char_key(c, mods, count, m).0 == s.on(s.app.opening(AfterOpen::Append)),
{
    reveal(State::char_key);
}

pub(crate) proof fn lemma_plain(s: State, c: char, m: MomentView)
    requires
        open_notebook(s),
        s.app.input.pending is None,
        !is_ascii_digit(c),
    ensures
        s.inner_key(plain(c), m) == prepared(s).char_key(
            c,
            no_modifiers(),
            s.app.input.count,
            m,
        ),
{
    lemma_reaches(s, plain(c), m);
}


/// How often a counted key acts: once, or as its count says.
pub open spec fn counted(s: State) -> int {
    match s.app.input.count {
        Some(c) => if c > 1 {
            c as int
        } else {
            1
        },
        None => 1,
    }
}

/// `j` and the down arrow select the next cell, `k` and the up arrow the one
/// before; a count selects that many further; neither leaves the notebook.
pub proof fn law_j_and_k_select(s: State, key: KeyEvent, m: MomentView)
    requires
        at_notebook(s),
    ensures
        key == plain('j') || key.code == KeyCode::Down ==> ({
            let t = after(s, key, m);
            let n = s.app.notebook.cells.len() as int;
            let times = counted(s);
            &&& only_selected(s, t)
            &&& (t.app.input.count is None)
            &&& t.app.selected == (if s.app.selected + times < n {
                s.app.selected + times
            } else if n > 0 {
                n - 1
            } else {
                0
            })
        }),
        key == plain('k') || key.code == KeyCode::Up ==> ({
            let t = after(s, key, m);
            let times = counted(s);
            &&& only_selected(s, t)
            &&& (t.app.input.count is None)
            &&& t.app.selected == (if s.app.selected > times {
                s.app.selected - times
            } else {
                0
            })
        }),
{
    lemma_reaches(s, key, m);
    if let KeyCode::Char(c) = key.code {
        lemma_groups(prepared(s), c, key.modifiers, s.app.input.count, m);
    }
    reveal(State::moving_key);
}

/// `g` selects the first cell, `G` the last one, or the one that a count names,
/// from 1 on.
pub proof fn law_g_selects_by_number(s: State, m: MomentView)
    requires
        at_notebook(s),
        s.app.notebook.cells.len() > 0,
    ensures
        only_selected(s, after(s, plain('g'), m)),
        after(s, plain('g'), m).app.selected == 0,
        only_selected(s, after(s, plain('G'), m)),
        s.app.input.count is None ==> after(s, plain('G'), m).app.selected
            == s.app.notebook.cells.len() - 1,
        s.app.input.count matches Some(c) ==> c >= 1 ==> after(s, plain('G'), m).app.selected
            == (if c <= s.app.notebook.cells.len() {
            c - 1
        } else {
            s.app.notebook.cells.len() - 1
        }),
{
    lemma_plain(s, 'g', m);
    lemma_groups(prepared(s), 'g', no_modifiers(), s.app.input.count, m);
    lemma_plain(s, 'G', m);
    lemma_groups(prepared(s), 'G', no_modifiers(), s.app.input.count, m);
    reveal(State::moving_key);
}

/// Digits make a count, decimal digit by decimal digit, and change nothing else.
pub proof fn law_digits_count(s: State, d: char, m: MomentView)
    requires
        at_notebook(s),
        '0' <= d && d <= '9',
    ensures
        only_selected(s, after(s, plain(d), m)),
        after(s, plain(d), m).app.selected == s.app.selected,
        ({
            let before = match s.app.input.count {
                Some(c) => c as int,
                None => 0,
            };
            before * 10 + (d as int - '0' as int) <= usize::MAX ==> after(
                s,
                plain(d),
                m,
            ).app.input.count == Some((before * 10 + (d as int - '0' as int)) as usize)
        }),
{
    reveal(State::inner_key);
    reveal(State::notebook_key);
}

} // verus!
