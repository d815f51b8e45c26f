//! What the keys that run cells send to the kernel.

#[allow(unused_imports)]
use vstd::prelude::*;

#[allow(unused_imports)]
use crate::app::{EffectView, MomentView, State};
#[allow(unused_imports)]
use crate::json::JsonView;
#[allow(unused_imports)]
use crate::keys::{no_modifiers, KeyCode, KeyEvent};
#[allow(unused_imports)]
use crate::notebook::CellView;

#[allow(unused_imports)]
use crate::bindings::{after, at_notebook, lemma_groups, lemma_plain, lemma_reaches, plain, prepared};

verus! {

/// The code that effects send to the kernel, in order.
pub open spec fn sent(effects: Seq<EffectView>) -> Seq<Seq<char>>
    decreases effects.len(),
{
    if effects.len() == 0 {
        Seq::empty()
    } else {
        match effects.last() {
            EffectView::Execute { code, .. } => sent(effects.drop_last()).push(code),
            _ => sent(effects.drop_last()),
        }
    }
}

/// The sources of the code cells, in order.
pub open spec fn codes(cells: Seq<CellView>) -> Seq<Seq<char>>
    decreases cells.len(),
{
    if cells.len() == 0 {
        Seq::empty()
    } else if cells.last().cell_type == "code"@ {
        codes(cells.drop_last()).push(cells.last().source)
    } else {
        codes(cells.drop_last())
    }
}

/// What `t` asks of the host beyond `s` is to run this code, in this order.
pub open spec fn sends(s: State, t: State, code: Seq<Seq<char>>) -> bool {
    &&& s.app.effects.len() <= t.app.effects.len()
    &&& t.app.effects.take(s.app.effects.len() as int) == s.app.effects
    &&& sent(t.app.effects.skip(s.app.effects.len() as int)) == code
    &&& t.app.effects.len() == s.app.effects.len() + code.len()
}

/// Cells keep their types, sources and ids; outputs may change.
pub open spec fn same_code(a: Seq<CellView>, b: Seq<CellView>) -> bool {
    &&& a.len() == b.len()
    &&& forall|i: int|
        0 <= i < a.len() ==> (#[trigger] a[i]).cell_type == b[i].cell_type && a[i].source
            == b[i].source && a[i].extra == b[i].extra
}

pub(crate) proof fn lemma_ran(s: State, i: int)
    requires
        s.app.run.kernel is Some,
        0 <= i < s.app.notebook.cells.len(),
    ensures
        ({
            let t = s.ran(i);
            let c = s.app.notebook.cells[i];
            &&& t.app.run.kernel is Some
            &&& same_code(s.app.notebook.cells, t.app.notebook.cells)
            &&& t.app.selected == s.app.selected
            &&& c.cell_type == "code"@ ==> t.app.effects.len() == s.app.effects.len() + 1
                && t.app.effects.drop_last() == s.app.effects
                && (t.app.effects.last() matches EffectView::Execute { code, .. } && code
                == c.source) && t.app.notebook.cells[i].outputs == Some(Seq::<JsonView>::empty())
            &&& c.cell_type != "code"@ ==> t == s
            &&& forall|k: int|
                0 <= k < s.app.notebook.cells.len() && k != i
                    ==> #[trigger] t.app.notebook.cells[k] == s.app.notebook.cells[k]
        }),
{
    let t = s.ran(i);
    if s.app.notebook.cells[i].cell_type == "code"@ {
        assert(t.app.effects.drop_last() =~= s.app.effects);
    }
}

proof fn lemma_ran_all(s: State, from: int, to: int)
    requires
        s.app.run.kernel is Some,
        0 <= from <= to <= s.app.notebook.cells.len(),
    ensures
        ({
            let t = s.ran_all(from, to);
            &&& t.app.run.kernel is Some
            &&& same_code(s.app.notebook.cells, t.app.notebook.cells)
            &&& t.app.selected == s.app.selected
            &&& sends(s, t, codes(s.app.notebook.cells.subrange(from, to)))
        }),
    decreases to - from,
{
    let cells = s.app.notebook.cells;
    let n = s.app.effects.len() as int;
    if from >= to {
        assert(cells.subrange(from, to) =~= Seq::<CellView>::empty());
        assert(s.app.effects.take(n) =~= s.app.effects);
        assert(s.app.effects.skip(n) =~= Seq::<EffectView>::empty());
    } else {
        lemma_ran_all(s, from, to - 1);
        let b = s.ran_all(from, to - 1);
        lemma_ran(b, to - 1);
        let t = b.ran(to - 1);
        let part = cells.subrange(from, to);
        assert(part.drop_last() =~= cells.subrange(from, to - 1));
        assert(part.last() == cells[to - 1]);
        assert(b.app.notebook.cells[to - 1].cell_type == cells[to - 1].cell_type);
        if cells[to - 1].cell_type == "code"@ {
            let e = t.app.effects;
            assert(e.take(n) =~= b.app.effects.take(n));
            assert(e.skip(n).drop_last() =~= b.app.effects.skip(n));
            assert(e.skip(n).last() == e.last());
        }
    }
}

/// `<` runs the code cells above the selected one, in order, and no other; `>`
/// the selected one and those below it; `X` all of them.
pub proof fn law_ranges_are_run(s: State, m: MomentView)
    requires
        at_notebook(s),
        s.app.run.kernel is Some,
    ensures
        ({
            let cells = s.app.notebook.cells;
            let at = s.app.selected;
            &&& sends(s, after(s, plain('<'), m), codes(cells.take(at)))
            &&& cells.len() > 0 ==> sends(s, after(s, plain('>'), m), codes(cells.skip(at)))
            &&& sends(s, after(s, plain('X'), m), codes(cells))
            &&& after(s, plain('<'), m).app.selected == at
            &&& after(s, plain('>'), m).app.selected == at
            &&& after(s, plain('X'), m).app.selected == at
        }),
{
    lemma_plain(s, '<', m);
    lemma_groups(prepared(s), '<', no_modifiers(), s.app.input.count, m);
    lemma_plain(s, '>', m);
    lemma_groups(prepared(s), '>', no_modifiers(), s.app.input.count, m);
    lemma_plain(s, 'X', m);
    lemma_groups(prepared(s), 'X', no_modifiers(), s.app.input.count, m);
    reveal(State::run_key);
    let cells = s.app.notebook.cells;
    let (at, n) = (s.app.selected, cells.len() as int);
    let ready = prepared(s);
    let a = ready.on(ready.app.following(at > 1));
    lemma_ran_all(a, 0, if n > 0 {
        at
    } else {
        0
    });
    let b = ready.on(ready.app.following(n - at > 1));
    if n > 0 {
        lemma_ran_all(b, at, n);
    }
    let c = ready.on(ready.app.following(n > 1));
    lemma_ran_all(c, 0, n);
    assert(cells.subrange(0, at) =~= cells.take(at));
    assert(cells.subrange(at, n) =~= cells.skip(at));
    assert(cells.subrange(0, n) =~= cells);
}

/// Space, Ctrl+Enter, `r` and Shift+Enter run the selected cell alone; the last
/// two go on to the next cell. Its old outputs are gone.
pub proof fn law_one_cell_is_run(s: State, key: KeyEvent, m: MomentView)
    requires
        at_notebook(s),
        s.app.run.kernel is Some,
        0 <= s.app.selected < s.app.notebook.cells.len(),
        key == plain(' ') || key == plain('r') || key.code == KeyCode::Enter && (
        key.modifiers.control || key.modifiers.shift),
    ensures
        ({
            let t = after(s, key, m);
            let cells = s.app.notebook.cells;
            let at = s.app.selected;
            let goes_on = key == plain('r') || key.code == KeyCode::Enter && key.modifiers.shift;
            &&& sends(s, t, codes(seq![cells[at]]))
            &&& cells[at].cell_type == "code"@ ==> t.app.notebook.cells[at].outputs == Some(
                Seq::<JsonView>::empty(),
            )
            &&& forall|k: int|
                0 <= k < cells.len() && k != at ==> #[trigger] t.app.notebook.cells[k] == cells[k]
            &&& t.app.selected == (if goes_on && at + 1 < cells.len() {
                at + 1
            } else {
                at
            })
        }),
{
    lemma_reaches(s, key, m);
    if let KeyCode::Char(c) = key.code {
        lemma_groups(prepared(s), c, key.modifiers, s.app.input.count, m);
    }
    reveal(State::run_key);
    reveal(State::enter_key);
    let cells = s.app.notebook.cells;
    let at = s.app.selected;
    let ready = prepared(s);
    lemma_ran(ready, at);
    let t = after(s, key, m);
    let n = s.app.effects.len() as int;
    let one = seq![cells[at]];
    assert(one.drop_last() =~= Seq::<CellView>::empty());
    assert(codes(one.drop_last()) =~= Seq::<Seq<char>>::empty());
    if cells[at].cell_type == "code"@ {
        let e = t.app.effects;
        assert(e.take(n) =~= s.app.effects);
        assert(e.skip(n).drop_last() =~= Seq::<EffectView>::empty());
        assert(sent(e.skip(n).drop_last()) =~= Seq::<Seq<char>>::empty());
        assert(e.skip(n).last() == e.last());
        assert(sent(e.skip(n)) =~= codes(one));
    } else {
        assert(t.app.effects.take(n) =~= s.app.effects);
        assert(t.app.effects.skip(n) =~= Seq::<EffectView>::empty());
        assert(codes(one) =~= Seq::<Seq<char>>::empty());
    }
}

/// Ctrl+c interrupts the kernel, as its kernelspec says; nothing else happens.
pub proof fn law_ctrl_c_interrupts(s: State, key: KeyEvent, m: MomentView)
    requires
        at_notebook(s),
        key.code == KeyCode::Char('c'),
        key.modifiers.control,
    ensures
        ({
            let t = after(s, key, m);
            &&& t.app.notebook == s.app.notebook
            &&& t.app.selected == s.app.selected
            &&& t.app.run.kernel == s.app.run.kernel
            &&& s.app.run.kernel is None ==> t.app.effects == s.app.effects
            &&& s.app.run.kernel matches Some(k) ==> t.app.effects == s.app.effects.push(
                EffectView::Interrupt(k.interrupt()),
            )
        }),
{
    lemma_reaches(s, key, m);
    lemma_groups(prepared(s), 'c', key.modifiers, s.app.input.count, m);
}

} // verus!
