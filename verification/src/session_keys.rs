//! What the keys of questions, prompts, input requests and overlays do.

#[allow(unused_imports)]
use vstd::prelude::*;

#[allow(unused_imports)]
use crate::app::{
    AfterSaveView, AppView, ConfirmView, EffectView, MomentView, PagerView, PromptKind, PromptView,
    ReloadCause, State, StdinView,
};
#[allow(unused_imports)]
use crate::bindings::{after, at_notebook, lemma_groups, lemma_plain, plain, prepared};
#[allow(unused_imports)]
use crate::input::{lowered, match_from};
#[allow(unused_imports)]
use crate::keys::{no_modifiers, KeyCode, KeyEvent};
#[allow(unused_imports)]
use crate::text::{has_infix, unicode_lowercase};

verus! {

pub open spec fn pressed(code: KeyCode) -> KeyEvent {
    KeyEvent { code, modifiers: no_modifiers() }
}

/// No overlay takes the keys.
pub open spec fn uncovered(s: State) -> bool {
    &&& s.app.overlay.logs is None
    &&& s.app.overlay.pager is None
    &&& !s.app.overlay.show_help
    &&& s.app.overlay.debug is None
    &&& s.app.overlay.zoom is None
}

/// The notebook, its file, what runs and the editor are as before.
pub open spec fn same_work(s: State, t: State) -> bool {
    &&& t.ui == s.ui
    &&& t.app.notebook == s.app.notebook
    &&& t.app.selected == s.app.selected
    &&& t.app.file == s.app.file
    &&& t.app.editor == s.app.editor
    &&& t.app.undo_stack == s.app.undo_stack
    &&& t.app.run.kernel == s.app.run.kernel
    &&& t.app.run.running == s.app.run.running
    &&& t.app.should_quit == s.app.should_quit
}

/// Besides, nothing is asked of the host.
pub open spec fn quiet(s: State, t: State) -> bool {
    same_work(s, t) && t.app.effects == s.app.effects
}

// ---------------------------------------------------------------------------
// input()
// ---------------------------------------------------------------------------

/// The kernel waits for an answer.
pub open spec fn asked(s: State, req: StdinView) -> bool {
    uncovered(s) && s.app.run.stdin_req == Some(req)
}

/// While the kernel waits for input: a character is added to the answer, with
/// Backspace the last one goes, Enter sends the answer, Esc an empty one, and
/// Ctrl+c interrupts the kernel.
pub proof fn law_answers_to_input(s: State, req: StdinView, key: KeyEvent, m: MomentView)
    requires
        asked(s, req),
    ensures
        ({
            let t = after(s, key, m);
            &&& same_work(s, t)
            &&& key.code matches KeyCode::Char(c) ==> !(c == 'c' && key.modifiers.control) ==> quiet(
                s,
                t,
            ) && t.app.run.stdin_req == Some(StdinView { buf: req.buf.push(c), ..req })
            &&& key.code == KeyCode::Backspace && req.buf.len() > 0 ==> quiet(s, t)
                && t.app.run.stdin_req == Some(StdinView { buf: req.buf.drop_last(), ..req })
            &&& key.code == KeyCode::Backspace && req.buf.len() == 0 ==> quiet(s, t)
                && t.app.run.stdin_req == Some(req)
            &&& key.code == KeyCode::Enter && s.app.run.kernel is Some ==> t.app.run.stdin_req
                is None && t.app.effects == s.app.effects.push(
                EffectView::ReplyInput { request: req.request, value: req.buf },
            )
            &&& key.code == KeyCode::Esc && s.app.run.kernel is Some ==> t.app.run.stdin_req
                is None && t.app.effects == s.app.effects.push(
                EffectView::ReplyInput { request: req.request, value: Seq::empty() },
            )
            &&& key.code == KeyCode::Char('c') && key.modifiers.control ==> t.app.run.stdin_req
                is None && (s.app.run.kernel matches Some(k) ==> t.app.effects
                == s.app.effects.push(EffectView::Interrupt(k.interrupt())))
        }),
{
    reveal(State::inner_key);
    reveal(AppView::stdin_key);
}

/// The session after a text is typed.
pub open spec fn typed(s: State, text: Seq<char>, m: MomentView) -> State
    decreases text.len(),
{
    if text.len() == 0 {
        s
    } else {
        after(typed(s, text.drop_last(), m), plain(text.last()), m)
    }
}

proof fn lemma_typed(s: State, req: StdinView, text: Seq<char>, m: MomentView)
    requires
        asked(s, req),
    ensures
        asked(typed(s, text, m), StdinView { buf: req.buf + text, ..req }),
        quiet(s, typed(s, text, m)),
    decreases text.len(),
{
    if text.len() == 0 {
        assert(req.buf + text =~= req.buf);
    } else {
        lemma_typed(s, req, text.drop_last(), m);
        let t = typed(s, text.drop_last(), m);
        let r = StdinView { buf: req.buf + text.drop_last(), ..req };
        law_answers_to_input(t, r, plain(text.last()), m);
        assert(r.buf.push(text.last()) =~= req.buf + text);
        lemma_still_uncovered(t, r, plain(text.last()), m);
    }
}

proof fn lemma_still_uncovered(s: State, req: StdinView, key: KeyEvent, m: MomentView)
    requires
        asked(s, req),
    ensures
        uncovered(after(s, key, m)),
{
    reveal(State::inner_key);
    reveal(AppView::stdin_key);
}

/// What is typed while the kernel waits for input, and no more, is what Enter
/// sends to it.
pub proof fn law_what_is_typed_is_sent(s: State, req: StdinView, text: Seq<char>, m: MomentView)
    requires
        asked(s, req),
        req.buf.len() == 0,
        s.app.run.kernel is Some,
    ensures
        ({
            let t = after(typed(s, text, m), pressed(KeyCode::Enter), m);
            &&& t.app.effects == s.app.effects.push(
                EffectView::ReplyInput { request: req.request, value: text },
            )
            &&& t.app.run.stdin_req is None
            &&& same_work(s, t)
        }),
{
    lemma_typed(s, req, text, m);
    let r = StdinView { buf: req.buf + text, ..req };
    assert(req.buf + text =~= text);
    law_answers_to_input(typed(s, text, m), r, pressed(KeyCode::Enter), m);
}

// ---------------------------------------------------------------------------
// Prompts
// ---------------------------------------------------------------------------

/// A prompt is open on the status line.
pub open spec fn prompting(s: State, p: PromptView) -> bool {
    uncovered(s) && s.app.run.stdin_req is None && s.app.overlay.prompt == Some(p)
}

/// `/` asks what to search for, `S` under which path to save, which starts as
/// the present one.
pub proof fn law_prompts_open(s: State, m: MomentView)
    requires
        at_notebook(s),
    ensures
        quiet(s, after(s, plain('/'), m)),
        after(s, plain('/'), m).app.overlay.prompt == Some(
            PromptView { kind: PromptKind::Search, buf: Seq::empty() },
        ),
        quiet(s, after(s, plain('S'), m)),
        after(s, plain('S'), m).app.overlay.prompt == Some(
            PromptView { kind: PromptKind::SaveAs, buf: s.app.file.path },
        ),
        quiet(s, after(s, plain('?'), m)),
        after(s, plain('?'), m).app.overlay.show_help,
        quiet(s, after(s, plain('L'), m)),
        after(s, plain('L'), m).app.overlay.logs == Some(0usize),
{
    lemma_plain(s, '/', m);
    lemma_groups(prepared(s), '/', no_modifiers(), s.app.input.count, m);
    lemma_plain(s, 'S', m);
    lemma_groups(prepared(s), 'S', no_modifiers(), s.app.input.count, m);
    lemma_plain(s, '?', m);
    lemma_groups(prepared(s), '?', no_modifiers(), s.app.input.count, m);
    lemma_plain(s, 'L', m);
    lemma_groups(prepared(s), 'L', no_modifiers(), s.app.input.count, m);
    reveal(State::file_key);
}

/// In a prompt, a character is added, with Backspace the last one goes, and
/// Esc closes it with nothing done.
pub proof fn law_prompts_take_text(s: State, p: PromptView, key: KeyEvent, m: MomentView)
    requires
        prompting(s, p),
    ensures
        ({
            let t = after(s, key, m);
            &&& key.code matches KeyCode::Char(c) ==> quiet(s, t) && t.app.overlay.prompt == Some(
                PromptView { buf: p.buf.push(c), ..p },
            )
            &&& key.code == KeyCode::Backspace && p.buf.len() > 0 ==> quiet(s, t)
                && t.app.overlay.prompt == Some(PromptView { buf: p.buf.drop_last(), ..p })
            &&& key.code == KeyCode::Esc ==> quiet(s, t) && t.app.overlay.prompt is None
                && t.app.input.search == s.app.input.search
        }),
{
    reveal(State::inner_key);
    reveal(AppView::prompt_key);
}

/// Enter in the search prompt keeps the text for `n` and `N` and goes to the
/// next cell that has it, letter case aside.
pub proof fn law_a_search_is_entered(s: State, p: PromptView, m: MomentView)
    requires
        prompting(s, p),
        p.kind == PromptKind::Search,
        p.buf.len() > 0,
    ensures
        ({
            let t = after(s, pressed(KeyCode::Enter), m);
            &&& t.app.overlay.prompt is None
            &&& t.app.input.search == Some(p.buf)
            &&& t.app.notebook == s.app.notebook
            &&& t.app.effects == s.app.effects
            &&& t.app.selected == (match match_from(
                s.app.notebook.cells.map_values(
                    |c: crate::notebook::CellView| unicode_lowercase(c.source),
                ),
                unicode_lowercase(p.buf),
                s.app.selected,
                1,
                1,
            ) {
                Some(i) => i,
                None => s.app.selected,
            })
        }),
{
    reveal(State::inner_key);
    reveal(AppView::prompt_key);
    assert(lowered(s.app.notebook.cells) =~= s.app.notebook.cells.map_values(
        |c: crate::notebook::CellView| unicode_lowercase(c.source),
    ));
}

/// `n` repeats a search forwards, `N` backwards.
pub proof fn law_n_searches_on(s: State, q: Seq<char>, m: MomentView)
    requires
        at_notebook(s),
        s.app.input.search == Some(q),
    ensures
        ({
            let t = after(s, plain('n'), m);
            &&& t.app.notebook == s.app.notebook
            &&& t.app.effects == s.app.effects
            &&& t.app.selected == (match match_from(
                lowered(s.app.notebook.cells),
                unicode_lowercase(q),
                s.app.selected,
                1,
                1,
            ) {
                Some(i) => i,
                None => s.app.selected,
            })
        }),
        ({
            let t = after(s, plain('N'), m);
            &&& t.app.notebook == s.app.notebook
            &&& t.app.effects == s.app.effects
            &&& t.app.selected == (match match_from(
                lowered(s.app.notebook.cells),
                unicode_lowercase(q),
                s.app.selected,
                -1,
                1,
            ) {
                Some(i) => i,
                None => s.app.selected,
            })
        }),
{
    lemma_plain(s, 'n', m);
    lemma_groups(prepared(s), 'n', no_modifiers(), s.app.input.count, m);
    lemma_plain(s, 'N', m);
    lemma_groups(prepared(s), 'N', no_modifiers(), s.app.input.count, m);
    reveal(State::moving_key);
}

proof fn lemma_nearest(texts: Seq<Seq<char>>, q: Seq<char>, from: int, dir: int, step: int) -> (t:
    int)
    requires
        texts.len() > 0,
        match_from(texts, q, from, dir, step) is Some,
    ensures
        step <= t <= texts.len(),
        match_from(texts, q, from, dir, step) == Some((from + dir * t) % (texts.len() as int)),
        has_infix(texts[(from + dir * t) % (texts.len() as int)], q),
        forall|u: int|
            step <= u < t ==> !has_infix(
                texts[#[trigger] ((from + dir * u) % (texts.len() as int))],
                q,
            ),
    decreases texts.len() + 1 - step,
{
    let i = (from + dir * step) % (texts.len() as int);
    if has_infix(texts[i], q) {
        step
    } else {
        lemma_nearest(texts, q, from, dir, step + 1)
    }
}

/// A search forwards stops at the nearest text with the query: the first one
/// behind where it starts, else the first of all.
pub proof fn law_a_search_stops_at_the_nearest(texts: Seq<Seq<char>>, q: Seq<char>, from: int)
    requires
        0 <= from < texts.len(),
    ensures
        match_from(texts, q, from, 1, 1) matches Some(i) ==> {
            &&& 0 <= i < texts.len()
            &&& has_infix(texts[i], q)
            &&& from < i ==> forall|k: int| from < k < i ==> !has_infix(#[trigger] texts[k], q)
            &&& i <= from ==> forall|k: int|
                from < k < texts.len() || 0 <= k < i ==> !has_infix(#[trigger] texts[k], q)
        },
        match_from(texts, q, from, -1, 1) matches Some(i) ==> {
            &&& 0 <= i < texts.len()
            &&& has_infix(texts[i], q)
            &&& i < from ==> forall|k: int| i < k < from ==> !has_infix(#[trigger] texts[k], q)
            &&& from <= i ==> forall|k: int|
                0 <= k < from || i < k < texts.len() ==> !has_infix(#[trigger] texts[k], q)
        },
{
    let n = texts.len() as int;
    if let Some(i) = match_from(texts, q, from, 1, 1) {
        let t = lemma_nearest(texts, q, from, 1, 1);
        lemma_round(from + t, n);
        assert forall|k: int|
            (from < i && from < k < i) || (i <= from && (from < k < n || 0 <= k
                < i)) implies !has_infix(#[trigger] texts[k], q) by {
            let u = if k > from {
                k - from
            } else {
                k + n - from
            };
            lemma_round(from + u, n);
            assert((from + 1 * u) % n == k);
        }
    }
    if let Some(i) = match_from(texts, q, from, -1, 1) {
        let t = lemma_nearest(texts, q, from, -1, 1);
        lemma_round(from - t, n);
        assert forall|k: int|
            (i < from && i < k < from) || (from <= i && (0 <= k < from || i < k
                < n)) implies !has_infix(#[trigger] texts[k], q) by {
            let u = if k < from {
                from - k
            } else {
                from + n - k
            };
            lemma_round(from - u, n);
            assert((from + (-1) * u) % n == k);
        }
    }
}

proof fn lemma_round(x: int, n: int)
    requires
        n > 0,
        -n <= x < 2 * n,
    ensures
        x % n == (if x < 0 {
            x + n
        } else if x < n {
            x
        } else {
            x - n
        }),
{
    if x < 0 {
        vstd::arithmetic::div_mod::lemma_fundamental_div_mod_converse(x, n, -1, x + n);
    } else if x < n {
        vstd::arithmetic::div_mod::lemma_fundamental_div_mod_converse(x, n, 0, x);
    } else {
        vstd::arithmetic::div_mod::lemma_fundamental_div_mod_converse(x, n, 1, x - n);
    }
}

// ---------------------------------------------------------------------------
// Files
// ---------------------------------------------------------------------------

/// `w` saves the notebook to its path, unless the file changed meanwhile; `W`
/// in any case. `q` quits where nothing is unsaved.
pub proof fn law_file_keys(s: State, m: MomentView)
    requires
        at_notebook(s),
    ensures
        ({
            let t = after(s, plain('w'), m);
            &&& same_work(s, t)
            &&& s.app.file.disk_mtime is None || s.app.file.disk_mtime == m.on_disk ==> t.app.effects
                == s.app.effects.push(
                EffectView::Save { path: s.app.file.path, next: AfterSaveView::Nothing },
            )
            &&& s.app.file.disk_mtime is Some && s.app.file.disk_mtime != m.on_disk
                ==> t.app.effects == s.app.effects
        }),
        same_work(s, after(s, plain('W'), m)),
        after(s, plain('W'), m).app.effects == s.app.effects.push(
            EffectView::Save { path: s.app.file.path, next: AfterSaveView::Nothing },
        ),
        !s.app.file.dirty ==> after(s, plain('q'), m).app.should_quit,
        s.app.file.dirty ==> after(s, plain('q'), m).app.overlay.confirm == Some(ConfirmView::Quit)
            && quiet(s, after(s, plain('q'), m)),
{
    lemma_plain(s, 'w', m);
    lemma_groups(prepared(s), 'w', no_modifiers(), s.app.input.count, m);
    lemma_plain(s, 'W', m);
    lemma_groups(prepared(s), 'W', no_modifiers(), s.app.input.count, m);
    lemma_plain(s, 'q', m);
    lemma_groups(prepared(s), 'q', no_modifiers(), s.app.input.count, m);
    reveal(State::file_key);
}

/// A save that went well leaves nothing unsaved and takes the recovery copy
/// away; one that failed leaves everything as it was.
pub proof fn law_saving_settles_the_file(
    a: AppView,
    on_disk: Option<u64>,
    next: AfterSaveView,
    error: Seq<char>,
)
    ensures
        ({
            let b = a.save_done(Ok(()), on_disk, next);
            &&& !b.file.dirty
            &&& !b.file.autosave_pending
            &&& b.file.disk_mtime == on_disk
            &&& b.file.path == a.file.path
            &&& b.notebook == a.notebook
            &&& b.effects.len() > a.effects.len()
            &&& b.effects[a.effects.len() as int] == EffectView::RemoveFile(a.autosave_path())
            &&& b.should_quit == (a.should_quit || next == AfterSaveView::Quit)
        }),
        ({
            let b = a.save_done(Err(error), on_disk, next);
            &&& b.file.dirty == a.file.dirty
            &&& b.file.disk_mtime == a.file.disk_mtime
            &&& b.notebook == a.notebook
            &&& b.effects == a.effects
            &&& b.should_quit == a.should_quit
            &&& next matches AfterSaveView::SavedAs { path, .. } ==> b.file.path == path
            &&& !(next is SavedAs) ==> b.file.path == a.file.path
        }),
        a.file.autosave_pending ==> a.autosaving().effects == a.effects.push(
            EffectView::Autosave { path: a.autosave_path() },
        ),
        !a.file.autosave_pending ==> a.autosaving() == a,
        !a.autosave_done(Ok(())).file.autosave_pending,
        a.autosave_done(Err(error)).file == a.file,
{
}

/// Enter in the save-as prompt saves under the path typed, which is the
/// notebook's from then on; over a file that exists only when asked twice.
pub proof fn law_saving_under_another_path(s: State, p: PromptView, m: MomentView)
    requires
        prompting(s, p),
        p.kind == PromptKind::SaveAs,
    ensures
        ({
            let t = after(s, pressed(KeyCode::Enter), m);
            let target = s.app.typed_path(p.buf);
            &&& t.app.notebook == s.app.notebook
            &&& target.len() > 0 && !m.target_exists ==> t.app.file.path == target
                && t.app.overlay.prompt is None && t.app.effects.len() == s.app.effects.len() + 1
                && (t.app.effects.last() matches EffectView::Save { path, .. } && path == target)
            &&& target.len() > 0 && m.target_exists && !crate::paths::same_path(
                target,
                s.app.file.path,
            ) && s.app.input.overwrite_armed is None ==> t.app.file == s.app.file && t.app.effects
                == s.app.effects && t.app.input.overwrite_armed == Some(target)
                && t.app.overlay.prompt == Some(p)
            &&& target.len() == 0 ==> t.app.file == s.app.file && t.app.effects == s.app.effects
        }),
{
    reveal(State::inner_key);
    reveal(AppView::prompt_key);
}

// ---------------------------------------------------------------------------
// Questions
// ---------------------------------------------------------------------------

/// A question is open.
pub open spec fn questioned(s: State, c: ConfirmView) -> bool {
    &&& uncovered(s)
    &&& s.app.run.stdin_req is None
    &&& s.app.overlay.prompt is None
    &&& s.app.overlay.confirm == Some(c)
}

/// Asked whether to quit with unsaved changes: `q` quits without saving, `s`
/// and `w` save and then quit, any other key stays. The question is closed.
pub proof fn law_answers_to_quit(s: State, key: KeyEvent, m: MomentView)
    requires
        questioned(s, ConfirmView::Quit),
    ensures
        ({
            let t = after(s, key, m);
            let saves = key.code == KeyCode::Char('s') || key.code == KeyCode::Char('w');
            &&& t.app.overlay.confirm is None
            &&& t.app.notebook == s.app.notebook
            &&& key.code == KeyCode::Char('q') ==> t.app.should_quit && t.app.effects
                == s.app.effects
            &&& saves && (s.app.file.disk_mtime is None || s.app.file.disk_mtime == m.on_disk)
                ==> t.app.should_quit == s.app.should_quit && t.app.effects == s.app.effects.push(
                EffectView::Save { path: s.app.file.path, next: AfterSaveView::Quit },
            )
            &&& key.code != KeyCode::Char('q') && !saves ==> quiet(s, t)
        }),
{
    reveal(State::inner_key);
    reveal(State::answered);
}

/// Asked about a file that changed on disk: `l` loads it; any other key keeps
/// this notebook, and a save then overwrites the file.
pub proof fn law_answers_to_reload(s: State, key: KeyEvent, m: MomentView)
    requires
        questioned(s, ConfirmView::Reload),
    ensures
        ({
            let t = after(s, key, m);
            &&& t.app.overlay.confirm is None
            &&& t.app.notebook == s.app.notebook
            &&& key.code == KeyCode::Char('l') ==> t.app.effects == s.app.effects.push(
                EffectView::Reload(ReloadCause::Asked),
            )
            &&& key.code != KeyCode::Char('l') ==> t.app.effects == s.app.effects
                && t.app.file.disk_mtime == m.on_disk && t.app.file.path == s.app.file.path
        }),
{
    reveal(State::inner_key);
    reveal(State::answered);
}

/// Asked whether to restart the kernel: `R` restarts it, `a` restarts it and
/// has every code cell run, any other key keeps it.
pub proof fn law_answers_to_restart(s: State, key: KeyEvent, m: MomentView)
    requires
        questioned(s, ConfirmView::Restart),
    ensures
        ({
            let t = after(s, key, m);
            let goes = key.code == KeyCode::Char('R') || key.code == KeyCode::Char('a');
            &&& t.app.overlay.confirm is None
            &&& t.app.notebook == s.app.notebook
            &&& !goes ==> quiet(s, t)
            &&& goes ==> t.app.run.kernel is None && t.app.run.kernel_starting
                && t.app.run.stdin_req is None && t.app.effects.len() > s.app.effects.len()
            &&& key.code == KeyCode::Char('R') ==> t.app.run.deferred.len() == 0
            &&& key.code == KeyCode::Char('a') ==> t.app.run.deferred == AppView::code_ids(
                s.app.notebook.cells,
            )
        }),
{
    reveal(State::inner_key);
    reveal(State::answered);
}

// ---------------------------------------------------------------------------
// Overlays
// ---------------------------------------------------------------------------

pub open spec fn less(a: int, b: int) -> int {
    if a > b {
        a - b
    } else {
        0
    }
}

pub open spec fn more(a: int, b: int) -> int {
    if a + b <= usize::MAX {
        a + b
    } else {
        usize::MAX as int
    }
}

/// Half of what the body shows, and at least a line.
pub open spec fn half(s: State) -> int {
    if s.app.screen.body.height >= 2 {
        s.app.screen.body.height as int / 2
    } else {
        1
    }
}

/// The open log goes up to older entries with `k`, Up, PageUp, Ctrl+u and `g`,
/// and down to newer ones with `j`, Down, PageDown, Ctrl+d and `G`; Esc and `q`
/// close it.
pub proof fn law_the_log_scrolls(s: State, up: usize, key: KeyEvent, m: MomentView)
    requires
        s.app.overlay.logs == Some(up),
    ensures
        ({
            let t = after(s, key, m);
            let (plain_key, ctrl) = (key.modifiers == no_modifiers(), key.modifiers.control);
            let logs = t.app.overlay.logs;
            &&& quiet(s, t)
            &&& key.code == KeyCode::Up || key == plain('k') ==> (logs matches Some(n) && n == more(
                up as int,
                1,
            ))
            &&& key.code == KeyCode::Down || key == plain('j') ==> (logs matches Some(n) && n == less(
                up as int,
                1,
            ))
            &&& key.code == KeyCode::PageUp || (key.code == KeyCode::Char('u') && ctrl) ==> (
            logs matches Some(n) && n == more(up as int, half(s)))
            &&& key.code == KeyCode::PageDown || (key.code == KeyCode::Char('d') && ctrl) ==> (
            logs matches Some(n) && n == less(up as int, half(s)))
            &&& key.code == KeyCode::Home || key == plain('g') ==> logs == Some(usize::MAX)
            &&& key.code == KeyCode::End || key == plain('G') ==> logs == Some(0usize)
            &&& key.code == KeyCode::Esc || key == plain('q') ==> logs is None
        }),
{
    reveal(State::inner_key);
    reveal(AppView::log_key);
}

/// The open pager goes down with `j`, Down, PageDown, Ctrl+d, Space and `G`,
/// and up with `k`, Up, PageUp, Ctrl+u and `g`; Esc and `q` close it. Its text
/// stays.
pub proof fn law_the_pager_scrolls(s: State, p: PagerView, key: KeyEvent, m: MomentView)
    requires
        s.app.overlay.logs is None,
        s.app.overlay.pager == Some(p),
    ensures
        ({
            let t = after(s, key, m);
            let ctrl = key.modifiers.control;
            let pager = t.app.overlay.pager;
            &&& quiet(s, t)
            &&& pager matches Some(n) ==> n == (PagerView { top: n.top, ..p })
            &&& key.code == KeyCode::Down || key == plain('j') ==> (pager matches Some(n) && n.top
                == more(p.top as int, 1))
            &&& key.code == KeyCode::Up || key == plain('k') ==> (pager matches Some(n) && n.top
                == less(p.top as int, 1))
            &&& key.code == KeyCode::PageDown || (key.code == KeyCode::Char('d') && ctrl) || key
                == plain(' ') ==> (pager matches Some(n) && n.top == more(p.top as int, half(s)))
            &&& key.code == KeyCode::PageUp || (key.code == KeyCode::Char('u') && ctrl) ==> (
            pager matches Some(n) && n.top == less(p.top as int, half(s)))
            &&& key.code == KeyCode::Home || key == plain('g') ==> (pager matches Some(n) && n.top
                == 0)
            &&& key.code == KeyCode::End || key == plain('G') ==> (pager matches Some(n) && n.top
                == usize::MAX)
            &&& key.code == KeyCode::Esc || key == plain('q') ==> pager is None
        }),
{
    reveal(State::inner_key);
    reveal(AppView::pager_key);
}

/// Any key closes the help, the debug report and the zoomed picture, and does
/// nothing else.
pub proof fn law_any_key_uncovers(s: State, key: KeyEvent, m: MomentView)
    requires
        s.app.overlay.logs is None,
        s.app.overlay.pager is None,
        s.app.overlay.show_help || s.app.overlay.debug is Some || s.app.overlay.zoom is Some,
    ensures
        quiet(s, after(s, key, m)),
        uncovered(after(s, key, m)),
{
    reveal(State::inner_key);
    reveal(AppView::uncovered);
}

} // verus!
