//! What the keys of the completion popup highlight and accept.

#[allow(unused_imports)]
use vstd::prelude::*;

#[allow(unused_imports)]
use crate::app::{AppView, EffectView, MomentView, State};
#[allow(unused_imports)]
use crate::assist::lookups;
#[allow(unused_imports)]
use crate::completion::CompletionView;
#[allow(unused_imports)]
use crate::editor::EditorView;
#[allow(unused_imports)]
use crate::keys::{no_modifiers, KeyCode, KeyEvent};
#[allow(unused_imports)]
use crate::nvim::{BackendView, NvimMoveView};
#[allow(unused_imports)]
use crate::text::lemma_join_split;

verus! {

pub open spec fn enter() -> KeyEvent {
    KeyEvent { code: KeyCode::Enter, modifiers: no_modifiers() }
}

pub open spec fn down() -> KeyEvent {
    KeyEvent { code: KeyCode::Down, modifiers: no_modifiers() }
}

/// The popup is open on candidates, with row `k` highlighted.
pub open spec fn open_at(a: AppView, k: int) -> bool {
    &&& a.completion matches Some(c) && 0 <= k < c.items.len() && c.sel == k && c.items.len()
        <= usize::MAX
}

/// `b` shows the candidates of `a`, over the same text.
pub open spec fn same_popup(a: AppView, b: AppView) -> bool {
    &&& a.editor == b.editor
    &&& a.notebook == b.notebook
    &&& a.completion is Some && b.completion is Some
    &&& b.completion->Some_0.items.len() == a.completion->Some_0.items.len()
    &&& forall|i: int|
        0 <= i < a.completion->Some_0.items.len() ==> (#[trigger] b.completion->Some_0.items[i]).text
            == a.completion->Some_0.items[i].text
    &&& b.completion->Some_0.start == a.completion->Some_0.start
    &&& b.completion->Some_0.end == a.completion->Some_0.end
}

proof fn lemma_looked_up(a: AppView, asks: Seq<(Seq<char>, Seq<char>, usize)>)
    requires
        a.completion is Some,
    ensures
        same_popup(a, a.looked_up(asks)),
        a.looked_up(asks).completion->Some_0.sel == a.completion->Some_0.sel,
    decreases asks.len(),
{
    if asks.len() > 0 {
        lemma_looked_up(a, asks.drop_last());
    }
}

proof fn lemma_resolving(a: AppView)
    requires
        a.completion is Some,
    ensures
        same_popup(a, a.resolving()),
        a.resolving().completion->Some_0.sel == a.completion->Some_0.sel,
{
    if let (Some(c), Some(e)) = (a.completion, a.editor) {
        if a.run.kernel is Some {
            let asks = lookups(c, e.source(), c.visible().0, c.visible().1);
            lemma_looked_up(a, asks);
            lemma_logged_looked_up(a, asks);
        }
    }
}

proof fn lemma_logged_looked_up(a: AppView, asks: Seq<(Seq<char>, Seq<char>, usize)>)
    requires
        a.completion is Some,
    ensures
        forall|level: crate::log::Level, target: Seq<char>, text: Seq<char>|
            same_popup(a, #[trigger] a.logged(level, target, text).looked_up(asks)) && a.logged(
                level,
                target,
                text,
            ).looked_up(asks).completion->Some_0.sel == a.completion->Some_0.sel,
{
    assert forall|level: crate::log::Level, target: Seq<char>, text: Seq<char>|
        same_popup(a, #[trigger] a.logged(level, target, text).looked_up(asks)) && a.logged(
            level,
            target,
            text,
        ).looked_up(asks).completion->Some_0.sel == a.completion->Some_0.sel by {
        lemma_looked_up(a.logged(level, target, text), asks);
    }
}

/// Down, Tab and Ctrl+n highlight the next candidate, Up and Ctrl+p the one
/// before, round the ends; the text and the candidates stay.
pub proof fn law_the_highlight_goes_round(a: AppView, k: int, key: KeyEvent)
    requires
        open_at(a, k),
    ensures
        ({
            let n = a.completion->Some_0.items.len() as int;
            let (b, taken) = a.completion_key(key);
            &&& key.code == KeyCode::Down || key.code == KeyCode::Tab || (key.code
                == KeyCode::Char('n') && key.modifiers.control) ==> taken && same_popup(a, b)
                && open_at(
                b,
                if k + 1 < n {
                    k + 1
                } else {
                    0
                },
            )
            &&& key.code == KeyCode::Up || (key.code == KeyCode::Char('p')
                && key.modifiers.control) ==> taken && same_popup(a, b) && open_at(
                b,
                if k > 0 {
                    k - 1
                } else {
                    n - 1
                },
            )
        }),
{
    let c = a.completion->Some_0;
    let n = c.items.len() as int;
    assert((k + 1) % n == if k + 1 < n {
        k + 1
    } else {
        0
    }) by (nonlinear_arith)
        requires
            0 <= k < n,
    ;
    assert((k + n - 1) % n == if k > 0 {
        k - 1
    } else {
        n - 1
    }) by (nonlinear_arith)
        requires
            0 <= k < n,
    ;
    lemma_resolving(
        a.with_completion(Some(CompletionView { sel: ((c.sel + 1) % n) as usize, ..c })),
    );
    lemma_resolving(
        a.with_completion(Some(CompletionView { sel: ((c.sel + n - 1) % n) as usize, ..c })),
    );
}

/// The popup after Down, `n` times.
pub open spec fn downs(a: AppView, n: int) -> AppView
    decreases n,
{
    if n <= 0 {
        a
    } else {
        downs(a, n - 1).completion_key(down()).0
    }
}

proof fn lemma_downs(a: AppView, n: int)
    requires
        open_at(a, 0),
        0 <= n < a.completion->Some_0.items.len(),
    ensures
        same_popup(a, downs(a, n)),
        open_at(downs(a, n), n),
    decreases n,
{
    if n > 0 {
        lemma_downs(a, n - 1);
        law_the_highlight_goes_round(downs(a, n - 1), n - 1, down());
    }
}

/// Enter puts the highlighted candidate, whichever it is, in place of what was
/// typed of it: the text before and after stays, the popup closes, and the
/// cursor stands behind it.
pub proof fn law_enter_accepts_the_highlighted(a: AppView, k: int, e: EditorView)
    requires
        open_at(a, k),
        a.editor == Some(BackendView::Builtin(e)),
        a.completion->Some_0.start <= a.completion->Some_0.end <= e.source().len(),
    ensures
        ({
            let c = a.completion->Some_0;
            let (b, taken) = a.completion_key(enter());
            &&& taken
            &&& b.completion is None
            &&& b.effects == a.effects
            &&& b.notebook == a.notebook
            &&& b.editor matches Some(BackendView::Builtin(f)) && f.source() == e.source().take(
                c.start as int,
            ) + c.items[k].text + e.source().skip(c.end as int) && f.mode == e.mode
        }),
{
    let c = a.completion->Some_0;
    let src = e.source();
    let head = crate::text::first(src, c.start as int) + c.items[k].text;
    let tail = crate::text::after(src, c.end as int);
    lemma_join_split(head + tail, '\n');
    assert(head =~= src.take(c.start as int) + c.items[k].text);
    assert(tail =~= src.skip(c.end as int));
}

/// Going down `k` rows from the first and pressing Enter puts candidate `k`
/// in.
pub proof fn law_the_row_gone_to_is_accepted(a: AppView, k: int, e: EditorView)
    requires
        open_at(a, 0),
        0 <= k < a.completion->Some_0.items.len(),
        a.editor == Some(BackendView::Builtin(e)),
        a.completion->Some_0.start <= a.completion->Some_0.end <= e.source().len(),
    ensures
        ({
            let c = a.completion->Some_0;
            let b = downs(a, k).completion_key(enter()).0;
            &&& b.completion is None
            &&& b.editor matches Some(BackendView::Builtin(f)) && f.source() == e.source().take(
                c.start as int,
            ) + c.items[k].text + e.source().skip(c.end as int)
        }),
{
    lemma_downs(a, k);
    law_enter_accepts_the_highlighted(downs(a, k), k, e);
}

/// With nvim, the same replacement is asked of it, and nothing else.
pub proof fn law_nvim_is_told_the_highlighted(a: AppView, k: int, v: crate::nvim::NvimView)
    requires
        open_at(a, k),
        a.editor == Some(BackendView::Nvim(v)),
    ensures
        ({
            let c = a.completion->Some_0;
            let (b, taken) = a.completion_key(enter());
            &&& taken
            &&& b.completion is None
            &&& b.effects.len() == a.effects.len() + 1
            &&& b.effects.drop_last() == a.effects
            &&& b.effects.last() matches EffectView::Nvim(
                NvimMoveView::Replace { text, from, .. },
            ) && text == c.items[k].text && from == crate::nvim::byte_position(
                v.lines,
                c.start as int,
            )
        }),
{
    let b = a.completion_key(enter()).0;
    assert(b.effects.drop_last() =~= a.effects);
}

/// Esc closes an open popup and does nothing else.
pub proof fn law_esc_closes_the_popup(a: AppView, k: int, key: KeyEvent)
    requires
        open_at(a, k),
        key.code == KeyCode::Esc,
    ensures
        a.completion_key(key) == (AppView { completion: None, ..a }, true),
{
}

/// In the open editor, Enter on an open popup changes the text as above, and
/// leaves the editor open and the notebook as it was.
pub proof fn law_enter_in_the_editor_accepts(s: State, k: int, e: EditorView, m: MomentView)
    requires
        open_at(s.app, k),
        s.app.editor == Some(BackendView::Builtin(e)),
        s.app.completion->Some_0.start <= s.app.completion->Some_0.end <= e.source().len(),
        s.app.overlay.logs is None,
        s.app.overlay.pager is None,
        !s.app.overlay.show_help,
        s.app.overlay.debug is None,
        s.app.overlay.zoom is None,
        s.app.run.stdin_req is None,
        s.app.overlay.prompt is None,
        s.app.overlay.confirm is None,
    ensures
        ({
            let c = s.app.completion->Some_0;
            let t = s.keyed(enter(), m).0;
            &&& t.app.notebook == s.app.notebook
            &&& t.app.completion is None
            &&& t.app.selected == s.app.selected
            &&& t.app.editor matches Some(BackendView::Builtin(f)) && f.source() == e.source().take(
                c.start as int,
            ) + c.items[k].text + e.source().skip(c.end as int)
        }),
{
    reveal(State::inner_key);
    reveal(State::edited);
    reveal(State::edit_key);
    let r = s.on(
        AppView {
            message: None,
            screen: crate::app::ScreenView { manual_scroll: false, ..s.app.screen },
            ..s.app
        },
    );
    law_enter_accepts_the_highlighted(r.app, k, e);
    assert(s.inner_key(enter(), m).0 == r.edited(enter(), m.fresh_id));
    let b = r.app.completion_key(enter()).0;
    assert(r.edit_key(enter(), m.fresh_id) == (r.on(b), false));
    assert(!b.dot_asks(enter()));
}

} // verus!
