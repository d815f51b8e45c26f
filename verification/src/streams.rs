//! What a cell's written text becomes, and how executions keep to their cells.

#[allow(unused_imports)]
use vstd::prelude::*;

#[allow(unused_imports)]
use crate::cellops::{CellOpView, Work};
#[allow(unused_imports)]
use crate::ids::{after_insertion, after_removal, after_swap, swapped_index, value_of};
#[allow(unused_imports)]
use crate::json::JsonView;
#[allow(unused_imports)]
use crate::notebook::{
    appended, collapsed, multiline, overwrite, overwrite_all, shown_line, shown_lines, stream_name,
    CellView, MAX_STREAM_LINES,
};
#[allow(unused_imports)]
use crate::strings::{lemma_one_piece, lemma_split_at};
#[allow(unused_imports)]
use crate::text::{lemma_join_split, matches_at, split_on};

verus! {

// ---------------------------------------------------------------------------
// Written text
// ---------------------------------------------------------------------------

proof fn lemma_overwrite_one(a: Seq<char>)
    ensures
        overwrite_all(seq![a]) == a,
{
    let none = Seq::<char>::empty();
    assert(seq![a].drop_last() =~= Seq::<Seq<char>>::empty());
    assert(overwrite_all(seq![a].drop_last()) == none);
    assert(overwrite(none, a) =~= a);
}

/// A line without returns is shown as it is. After a return what follows is
/// written over the start of the line; what it does not reach stays.
pub proof fn law_a_return_overwrites(a: Seq<char>, b: Seq<char>)
    requires
        !a.contains('\r'),
        !b.contains('\r'),
        b.len() > 0,
    ensures
        shown_line(a) == a,
        shown_line(a + seq!['\r'] + b) == (if b.len() < a.len() {
            b + a.skip(b.len() as int)
        } else {
            b
        }),
        shown_line(a + seq!['\r']) == a + seq!['\r'],
{
    lemma_one_piece(a, '\r');
    lemma_one_piece(b, '\r');
    lemma_overwrite_one(a);
    if a.len() > 0 {
        assert(a.contains(a[a.len() - 1]));
    }
    assert(b.contains(b[b.len() - 1]));
    let s = a + seq!['\r'] + b;
    lemma_split_at(a, '\r', b);
    let two = seq![a] + seq![b];
    assert(two.drop_last() =~= seq![a]);
    assert(two.last() == b);
    assert(s.last() == b.last());
    assert(shown_line(s) == overwrite(a, b));
    if b.len() < a.len() {
        assert(overwrite(a, b) =~= b + a.skip(b.len() as int));
    } else {
        assert(overwrite(a, b) =~= b);
    }
    let none = Seq::<char>::empty();
    lemma_split_at(a, '\r', none);
    let r = a + seq!['\r'] + none;
    assert(r =~= a + seq!['\r']);
    assert(split_on(none, '\r') =~= seq![none]);
    let with_end = seq![a] + seq![none];
    assert(with_end.drop_last() =~= seq![a]);
    assert(overwrite(a, none) =~= a);
    assert(a.push('\r') =~= a + seq!['\r']);
}

/// Text without returns is kept as it is written.
pub proof fn law_plain_text_is_kept(s: Seq<char>)
    requires
        !s.contains('\r'),
    ensures
        collapsed(s) == s,
{
    let from = seq!['\r', '\n'];
    assert forall|i: int| 0 <= i < s.len() implies !#[trigger] matches_at(s, from, i) by {
        if matches_at(s, from, i) {
            assert(s.subrange(i, i + 2)[0] == s[i]);
            assert(s.contains(s[i]));
        }
    }
    crate::strings::law_replacing_changes_occurrences_only(s, from, seq!['\n'], s.len() as int);
    let p = split_on(s, '\n');
    assert forall|k: int| 0 <= k < p.len() implies shown_line(#[trigger] p[k]) == p[k] by {
        lemma_no_return(s, k);
        lemma_one_piece(p[k], '\r');
        lemma_overwrite_one(p[k]);
        if p[k].len() > 0 {
            assert(p[k].contains(p[k][p[k].len() - 1]));
        }
    }
    assert(shown_lines(p) =~= p);
    lemma_join_split(s, '\n');
}

proof fn lemma_no_return(s: Seq<char>, k: int)
    requires
        !s.contains('\r'),
        0 <= k < split_on(s, '\n').len(),
    ensures
        !split_on(s, '\n')[k].contains('\r'),
    decreases s.len(),
{
    if s.len() > 0 {
        let d = s.drop_last();
        assert(!d.contains('\r')) by {
            if d.contains('\r') {
                let i = choose|i: int| 0 <= i < d.len() && d[i] == '\r';
                assert(s[i] == '\r');
            }
        }
        assert(s.contains(s[s.len() - 1]));
        let h = split_on(d, '\n');
        crate::text::lemma_split_nonempty(d, '\n');
        let w = split_on(s, '\n')[k];
        if s.last() == '\n' {
            if k < h.len() {
                lemma_no_return(d, k);
            } else {
                assert(w =~= Seq::<char>::empty());
            }
        } else if k < h.len() - 1 {
            lemma_no_return(d, k);
        } else {
            lemma_no_return(d, h.len() - 1);
            if w.contains('\r') {
                let i = choose|i: int| 0 <= i < w.len() && w[i] == '\r';
                if i < h.last().len() {
                    assert(h.last()[i] == '\r');
                }
            }
        }
    } else {
        assert(split_on(s, '\n')[k] =~= Seq::<char>::empty());
    }
}

/// `o` is text of the stream `name`.
pub open spec fn writes(o: JsonView, name: Seq<char>, t: Seq<char>) -> bool {
    &&& o.get("output_type"@) == Some(JsonView::Str("stream"@))
    &&& o.get("name"@) == Some(JsonView::Str(name))
    &&& o.get("text"@) == Some(JsonView::Str(t))
}

/// What a cell writes to a stream bit by bit stands there as one text, every
/// character in order, as long as nothing is overwritten and it is not too
/// long; text of another stream stands apart.
pub proof fn law_written_text_is_joined(
    outputs: Seq<JsonView>,
    o: JsonView,
    name: Seq<char>,
    other: Seq<char>,
    before: Seq<char>,
    t: Seq<char>,
)
    requires
        writes(o, name, t),
        outputs.len() > 0,
        !before.contains('\r'),
        !t.contains('\r'),
        split_on(before + t, '\n').len() <= MAX_STREAM_LINES,
        split_on(t, '\n').len() <= MAX_STREAM_LINES,
    ensures
        writes(outputs.last(), name, before) ==> {
            let r = appended(outputs, o);
            &&& r.len() == outputs.len()
            &&& r.drop_last() == outputs.drop_last()
            &&& writes(r.last(), name, before + t)
        },
        writes(outputs.last(), other, before) && other != name ==> {
            let r = appended(outputs, o);
            &&& r.len() == outputs.len() + 1
            &&& r.drop_last() == outputs
            &&& writes(r.last(), name, t)
        },
{
    lemma_members();
    let whole = before + t;
    assert(!whole.contains('\r')) by {
        if whole.contains('\r') {
            let i = choose|i: int| 0 <= i < whole.len() && whole[i] == '\r';
            if i < before.len() {
                assert(before[i] == '\r');
            } else {
                assert(t[i - before.len()] == '\r');
            }
        }
    }
    law_plain_text_is_kept(whole);
    law_plain_text_is_kept(t);
    let none = Seq::<char>::empty();
    assert(none + t =~= t);
    assert(multiline(o.at("text"@)) == t);
    let r = appended(outputs, o);
    if writes(outputs.last(), name, before) {
        assert(stream_name(outputs.last()) == Some(name));
        assert(r.drop_last() =~= outputs.drop_last());
    } else if writes(outputs.last(), other, before) && other != name {
        assert(stream_name(outputs.last()) == Some(other));
        assert(r.drop_last() =~= outputs);
    }
}

proof fn lemma_members()
    ensures
        "text"@ != "name"@,
        "text"@ != "output_type"@,
        "name"@ != "output_type"@,
{
    reveal_strlit("text");
    reveal_strlit("name");
    reveal_strlit("output_type");
    assert("text"@[0] == 't');
    assert("name"@[0] == 'n');
    assert("output_type"@[0] == 'o');
}

// ---------------------------------------------------------------------------
// Executions and their cells
// ---------------------------------------------------------------------------

proof fn lemma_mapped(
    m: Seq<(Seq<char>, usize)>,
    n: Seq<(Seq<char>, usize)>,
    id: Seq<char>,
    f: spec_fn(usize) -> usize,
)
    requires
        m.len() == n.len(),
        forall|i: int| 0 <= i < m.len() ==> #[trigger] n[i] == (m[i].0, f(m[i].1)),
    ensures
        value_of(n, id) == (match value_of(m, id) {
            Some(v) => Some(f(v)),
            None => None,
        }),
    decreases m.len(),
{
    if m.len() > 0 {
        assert(n[0] == (m[0].0, f(m[0].1)));
        if m[0].0 != id {
            let (a, b) = (m.skip(1), n.skip(1));
            assert forall|i: int| 0 <= i < a.len() implies #[trigger] b[i] == (
                a[i].0,
                f(a[i].1),
            ) by {
                assert(n[i + 1] == (m[i + 1].0, f(m[i + 1].1)));
            }
            lemma_mapped(a, b, id, f);
        }
    }
}

/// Each request is there once.
pub open spec fn distinct(m: Seq<(Seq<char>, usize)>) -> bool {
    forall|i: int, j: int| 0 <= i < j < m.len() ==> (#[trigger] m[i]).0 != (#[trigger] m[j]).0
}

proof fn lemma_value(m: Seq<(Seq<char>, usize)>, id: Seq<char>, k: int)
    requires
        distinct(m),
        0 <= k < m.len(),
        m[k].0 == id,
    ensures
        value_of(m, id) == Some(m[k].1),
    decreases m.len(),
{
    if k > 0 {
        assert(m[0].0 != m[k].0);
        assert(distinct(m.skip(1))) by {
            assert forall|i: int, j: int| 0 <= i < j < m.skip(1).len() implies (
            #[trigger] m.skip(1)[i]).0 != (#[trigger] m.skip(1)[j]).0 by {
                assert(m[i + 1].0 != m[j + 1].0);
            }
        }
        lemma_value(m.skip(1), id, k - 1);
    }
}

proof fn lemma_absent(m: Seq<(Seq<char>, usize)>, id: Seq<char>)
    requires
        forall|i: int| 0 <= i < m.len() ==> (#[trigger] m[i]).0 != id,
    ensures
        value_of(m, id) is None,
    decreases m.len(),
{
    if m.len() > 0 {
        assert(m[0].0 != id);
        assert forall|i: int| 0 <= i < m.skip(1).len() implies (#[trigger] m.skip(1)[i]).0
            != id by {
            assert(m[i + 1].0 != id);
        }
        lemma_absent(m.skip(1), id);
    }
}

proof fn lemma_removed(m: Seq<(Seq<char>, usize)>, at: int, k: int)
    requires
        distinct(m),
        at >= 0,
        0 <= k < m.len(),
    ensures
        ({
            let r = after_removal(m, at);
            &&& distinct(r)
            &&& m[k].1 != at ==> exists|j: int|
                0 <= j < r.len() && #[trigger] r[j] == (
                    m[k].0,
                    if m[k].1 > at {
                        (m[k].1 - 1) as usize
                    } else {
                        m[k].1
                    },
                )
            &&& m[k].1 == at ==> forall|j: int| 0 <= j < r.len() ==> (#[trigger] r[j]).0 != m[k].0
            &&& forall|j: int|
                0 <= j < r.len() ==> exists|i: int|
                    0 <= i < m.len() && #[trigger] m[i].0 == (#[trigger] r[j]).0 && m[i].1 != at
        }),
    decreases m.len(),
{
    let d = m.drop_last();
    let r = after_removal(m, at);
    let b = after_removal(d, at);
    let (id, v) = m.last();
    assert(distinct(d)) by {
        assert forall|i: int, j: int| 0 <= i < j < d.len() implies (#[trigger] d[i]).0 != (
        #[trigger] d[j]).0 by {
            assert(m[i].0 != m[j].0);
        }
    }
    if d.len() == 0 {
        assert(b =~= Seq::<(Seq<char>, usize)>::empty());
        if v != at {
            assert(r.len() == 1);
            assert(m[0].0 == r[0].0);
        }
        if m[k].1 != at {
            assert(r[0].0 == m[k].0);
        }
    } else {
        lemma_removed(d, at, if k < d.len() {
            k
        } else {
            0
        });
        assert forall|j: int| 0 <= j < b.len() implies (#[trigger] b[j]).0 != id by {
            let i = choose|i: int| 0 <= i < d.len() && #[trigger] d[i].0 == b[j].0 && d[i].1 != at;
            assert(m[i].0 != m[m.len() - 1].0);
        }
        assert forall|j: int| 0 <= j < r.len() implies exists|i: int|
            0 <= i < m.len() && #[trigger] m[i].0 == (#[trigger] r[j]).0 && m[i].1 != at by {
            if j < b.len() {
                assert(r[j] == b[j]);
                let i = choose|i: int|
                    0 <= i < d.len() && #[trigger] d[i].0 == b[j].0 && d[i].1 != at;
                assert(m[i].0 == r[j].0 && m[i].1 != at);
            } else {
                assert(m[m.len() - 1].0 == r[j].0);
            }
        }
        if m[k].1 != at {
            if k < d.len() {
                let want = (
                    m[k].0,
                    if m[k].1 > at {
                        (m[k].1 - 1) as usize
                    } else {
                        m[k].1
                    },
                );
                let j = choose|j: int| 0 <= j < b.len() && #[trigger] b[j] == want;
                assert(r[j] == want);
            } else {
                let j = r.len() - 1;
                assert(r[j].0 == m[k].0);
            }
        } else {
            assert forall|j: int| 0 <= j < r.len() implies (#[trigger] r[j]).0 != m[k].0 by {
                if j < b.len() {
                    assert(r[j] == b[j]);
                } else {
                    assert(m[k].0 != m[m.len() - 1].0);
                }
            }
        }
    }
}

/// An execution keeps to its cell when cells are put in, taken out or moved;
/// when its cell is taken out, it belongs to none.
pub proof fn law_executions_keep_to_their_cells(
    w: Work,
    id: Seq<char>,
    i: usize,
    c: CellView,
    a: int,
    b: int,
)
    requires
        distinct(w.running),
        value_of(w.running, id) == Some(i),
        i < w.cells.len() < usize::MAX,
        0 <= a < w.cells.len(),
        0 <= b < w.cells.len(),
    ensures
        ({
            let put = w.done(CellOpView::Insert(a, c));
            &&& value_of(put.running, id) matches Some(j) && j < put.cells.len()
                && put.cells[j as int] == w.cells[i as int]
            &&& put.cells[a] == c
        }),
        ({
            let moved = w.done(CellOpView::Swap(a, b));
            value_of(moved.running, id) matches Some(j) && j < moved.cells.len()
                && moved.cells[j as int] == w.cells[i as int]
        }),
        ({
            let cut = w.done(CellOpView::Remove(a));
            &&& i != a ==> (value_of(cut.running, id) matches Some(j) && j < cut.cells.len()
                && cut.cells[j as int] == w.cells[i as int])
            &&& i == a ==> value_of(cut.running, id) is None
        }),
{
    let m = w.running;
    let up = |v: usize|
        if v >= a {
            crate::ids::next_of(v)
        } else {
            v
        };
    assert forall|k: int| 0 <= k < m.len() implies #[trigger] after_insertion(m, a)[k] == (
        m[k].0,
        up(m[k].1),
    ) by {}
    lemma_mapped(m, after_insertion(m, a), id, up);
    let across = |v: usize| swapped_index(v as int, a, b) as usize;
    assert forall|k: int| 0 <= k < m.len() implies #[trigger] after_swap(m, a, b)[k] == (
        m[k].0,
        across(m[k].1),
    ) by {}
    lemma_mapped(m, after_swap(m, a, b), id, across);
    lemma_where(m, id);
    let k = choose|k: int| 0 <= k < m.len() && #[trigger] m[k] == (id, i);
    lemma_removed(m, a, k);
    let r = after_removal(m, a);
    if i != a {
        let want = (
            id,
            if i > a {
                (i - 1) as usize
            } else {
                i
            },
        );
        let j = choose|j: int| 0 <= j < r.len() && #[trigger] r[j] == want;
        lemma_value(r, id, j);
    } else {
        lemma_absent(r, id);
    }
}

proof fn lemma_where(m: Seq<(Seq<char>, usize)>, id: Seq<char>)
    requires
        value_of(m, id) is Some,
    ensures
        exists|k: int| 0 <= k < m.len() && #[trigger] m[k] == (id, value_of(m, id)->Some_0),
    decreases m.len(),
{
    if m[0].0 == id {
        assert(m[0] == (id, value_of(m, id)->Some_0));
    } else {
        lemma_where(m.skip(1), id);
        let k = choose|k: int|
            0 <= k < m.skip(1).len() && #[trigger] m.skip(1)[k] == (
                id,
                value_of(m.skip(1), id)->Some_0,
            );
        assert(m[k + 1] == (id, value_of(m, id)->Some_0));
    }
}

} // verus!
