//! Small tables keyed by message ids.

use vstd::prelude::*;

use crate::text;
#[allow(unused_imports)]
use crate::text::views;

verus! {

/// Values by id, in the order in which the ids came.
pub struct IdMap<V> {
    pub entries: Vec<(String, V)>,
}

pub open spec fn entry_views<V>(v: Seq<(String, V)>) -> Seq<(Seq<char>, V)> {
    v.map_values(|e: (String, V)| (e.0@, e.1))
}

impl<V> View for IdMap<V> {
    type V = Seq<(Seq<char>, V)>;

    open spec fn view(&self) -> Seq<(Seq<char>, V)> {
        entry_views(self.entries@)
    }
}

/// The value of an id.
pub open spec fn value_of<V>(m: Seq<(Seq<char>, V)>, k: Seq<char>) -> Option<V>
    decreases m.len(),
{
    if m.len() == 0 {
        None
    } else if m[0].0 == k {
        Some(m[0].1)
    } else {
        value_of(m.skip(1), k)
    }
}

/// With `k` set to `v`: in its place where it is there, else at the end.
pub open spec fn with_id<V>(m: Seq<(Seq<char>, V)>, k: Seq<char>, v: V) -> Seq<(Seq<char>, V)> {
    if value_of(m, k) is Some {
        m.map_values(
            |e: (Seq<char>, V)|
                if e.0 == k {
                    (k, v)
                } else {
                    e
                },
        )
    } else {
        m.push((k, v))
    }
}

/// Without `k`.
pub open spec fn without_id<V>(m: Seq<(Seq<char>, V)>, k: Seq<char>) -> Seq<(Seq<char>, V)>
    decreases m.len(),
{
    if m.len() == 0 {
        Seq::empty()
    } else if m.last().0 == k {
        without_id(m.drop_last(), k)
    } else {
        without_id(m.drop_last(), k).push(m.last())
    }
}

impl<V: Copy> IdMap<V> {
    pub fn new() -> (r: IdMap<V>)
        ensures
            r@ == Seq::<(Seq<char>, V)>::empty(),
    {
        let entries: Vec<(String, V)> = Vec::new();
        assert(entry_views(entries@) =~= Seq::empty());
        IdMap { entries }
    }

    pub fn len(&self) -> (r: usize)
        ensures
            r == self@.len(),
    {
        self.entries.len()
    }

    /// The entry at a position.
    pub fn entry(&self, i: usize) -> (r: (String, V))
        requires
            i < self@.len(),
        ensures
            (r.0@, r.1) == self@[i as int],
    {
        (self.entries[i].0.clone(), self.entries[i].1)
    }

    pub fn is_empty(&self) -> (r: bool)
        ensures
            r == (self@.len() == 0),
    {
        self.entries.len() == 0
    }

    pub fn get(&self, key: &str) -> (r: Option<V>)
        ensures
            r == value_of(self@, key@),
    {
        let ghost all = self@;
        let mut i: usize = 0;
        assert(all.skip(0) =~= all);
        while i < self.entries.len()
            invariant
                i <= self.entries@.len(),
                all == entry_views(self.entries@),
                value_of(all, key@) == value_of(all.skip(i as int), key@),
            decreases self.entries@.len() - i,
        {
            assert(all.skip(i as int)[0] == (self.entries@[i as int].0@, self.entries@[i as int].1));
            assert(all.skip(i as int).skip(1) =~= all.skip(i + 1));
            if text::same(self.entries[i].0.as_str(), key) {
                return Some(self.entries[i].1);
            }
            i += 1;
        }
        None
    }

    pub fn contains_key(&self, key: &str) -> (r: bool)
        ensures
            r == value_of(self@, key@) is Some,
    {
        self.get(key).is_some()
    }

    pub fn insert(&mut self, key: String, value: V)
        ensures
            final(self)@ == with_id(old(self)@, key@, value),
    {
        let ghost all = self@;
        if self.get(key.as_str()).is_none() {
            let ghost e0 = self.entries@;
            self.entries.push((key, value));
            assert(entry_views(self.entries@) =~= entry_views(e0).push((key@, value)));
            return;
        }
        let ghost want = with_id(all, key@, value);
        let mut i: usize = 0;
        while i < self.entries.len()
            invariant
                i <= self.entries@.len(),
                self.entries@.len() == all.len(),
                want.len() == all.len(),
                want == all.map_values(
                    |e: (Seq<char>, V)|
                        if e.0 == key@ {
                            (key@, value)
                        } else {
                            e
                        },
                ),
                forall|k: int| 0 <= k < i ==> #[trigger] self@[k] == want[k],
                forall|k: int| i <= k < all.len() ==> #[trigger] self@[k] == all[k],
            decreases self.entries@.len() - i,
        {
            let ghost s0 = self@;
            assert(s0[i as int] == (self.entries@[i as int].0@, self.entries@[i as int].1));
            if text::same(self.entries[i].0.as_str(), key.as_str()) {
                self.entries.set(i, (key.clone(), value));
                assert(self@ =~= s0.update(i as int, (key@, value)));
            }
            i += 1;
        }
        assert(self@ =~= want);
    }

    pub fn remove(&mut self, key: &str)
        ensures
            final(self)@ == without_id(old(self)@, key@),
    {
        let ghost all = self@;
        let mut out: Vec<(String, V)> = Vec::new();
        let mut i: usize = 0;
        assert(entry_views(out@) =~= without_id(all.take(0), key@));
        while i < self.entries.len()
            invariant
                i <= self.entries@.len(),
                *self == *old(self),
                all == entry_views(self.entries@),
                entry_views(out@) == without_id(all.take(i as int), key@),
            decreases self.entries@.len() - i,
        {
            let ghost o0 = out@;
            assert(all.take(i + 1).drop_last() =~= all.take(i as int));
            assert(all.take(i + 1).last() == (
                self.entries@[i as int].0@,
                self.entries@[i as int].1,
            ));
            if !text::same(self.entries[i].0.as_str(), key) {
                let e = (self.entries[i].0.clone(), self.entries[i].1);
                out.push(e);
                assert(entry_views(out@) =~= entry_views(o0).push((e.0@, e.1)));
            }
            i += 1;
        }
        assert(all.take(i as int) =~= all);
        self.entries = out;
    }

    pub fn clear(&mut self)
        ensures
            final(self)@ == Seq::<(Seq<char>, V)>::empty(),
    {
        let none: Vec<(String, V)> = Vec::new();
        self.entries = none;
        assert(self@ =~= Seq::empty());
    }
}

/// What was put in is found, and nothing else changes.
pub proof fn law_put_then_get<V>(m: Seq<(Seq<char>, V)>, k: Seq<char>, v: V, other: Seq<char>)
    ensures
        value_of(with_id(m, k, v), k) == Some(v),
        other != k ==> value_of(with_id(m, k, v), other) == value_of(m, other),
    decreases m.len(),
{
    let w = with_id(m, k, v);
    if m.len() == 0 {
        assert(w =~= seq![(k, v)]);
        assert(w.skip(1) =~= Seq::empty());
        assert(value_of(w.skip(1), other) is None);
    } else {
        law_put_then_get(m.skip(1), k, v, other);
        if m[0].0 == k {
            assert(w[0] == (k, v));
            if value_of(m.skip(1), k) is Some {
                assert(w.skip(1) =~= with_id(m.skip(1), k, v));
            } else {
                lemma_absent(m.skip(1), k);
                assert(w.skip(1) =~= m.skip(1)) by {
                    assert forall|i: int| 0 <= i < m.len() - 1 implies w.skip(1)[i] == m.skip(1)[
                        i] by {
                        assert(m.skip(1)[i].0 != k);
                    }
                }
            }
        } else {
            assert(w[0] == m[0]);
            assert(w.skip(1) =~= with_id(m.skip(1), k, v));
        }
    }
}

proof fn lemma_absent<V>(m: Seq<(Seq<char>, V)>, k: Seq<char>)
    requires
        value_of(m, k) is None,
    ensures
        forall|i: int| 0 <= i < m.len() ==> (#[trigger] m[i]).0 != k,
    decreases m.len(),
{
    if m.len() > 0 {
        lemma_absent(m.skip(1), k);
        assert forall|i: int| 0 <= i < m.len() implies (#[trigger] m[i]).0 != k by {
            if i > 0 {
                assert(m.skip(1)[i - 1] == m[i]);
            }
        }
    }
}

/// A removed id is gone.
pub proof fn law_removed_is_gone<V>(m: Seq<(Seq<char>, V)>, k: Seq<char>)
    ensures
        value_of(without_id(m, k), k) is None,
{
    lemma_without(m, k);
    lemma_none_has(without_id(m, k), k);
}

proof fn lemma_without<V>(m: Seq<(Seq<char>, V)>, k: Seq<char>)
    ensures
        forall|i: int| 0 <= i < without_id(m, k).len() ==> (#[trigger] without_id(m, k)[i]).0 != k,
    decreases m.len(),
{
    if m.len() > 0 {
        lemma_without(m.drop_last(), k);
        let r = without_id(m.drop_last(), k);
        let w = without_id(m, k);
        assert forall|i: int| 0 <= i < w.len() implies (#[trigger] w[i]).0 != k by {
            if i < r.len() {
                assert(w[i] == r[i]);
            }
        }
    }
}

proof fn lemma_none_has<V>(m: Seq<(Seq<char>, V)>, k: Seq<char>)
    requires
        forall|i: int| 0 <= i < m.len() ==> (#[trigger] m[i]).0 != k,
    ensures
        value_of(m, k) is None,
    decreases m.len(),
{
    if m.len() > 0 {
        assert(m[0].0 != k);
        assert forall|i: int| 0 <= i < m.skip(1).len() implies (#[trigger] m.skip(1)[i]).0 != k by {
            assert(m[i + 1].0 != k);
        }
        lemma_none_has(m.skip(1), k);
    }
}

// ---------------------------------------------------------------------------
// Cell numbers by id
// ---------------------------------------------------------------------------

/// The cells of running executions after cell `at` left: its own executions
/// are forgotten, those of later cells move up.
pub open spec fn after_removal(m: Seq<(Seq<char>, usize)>, at: int) -> Seq<(Seq<char>, usize)>
    decreases m.len(),
{
    if m.len() == 0 {
        Seq::empty()
    } else {
        let before = after_removal(m.drop_last(), at);
        let (k, v) = m.last();
        if v == at {
            before
        } else if v > at {
            before.push((k, (v - 1) as usize))
        } else {
            before.push((k, v))
        }
    }
}

/// The cells of running executions after a cell was inserted at `at`.
pub open spec fn after_insertion(m: Seq<(Seq<char>, usize)>, at: int) -> Seq<(Seq<char>, usize)> {
    m.map_values(
        |e: (Seq<char>, usize)|
            if e.1 >= at {
                (e.0, next_of(e.1))
            } else {
                e
            },
    )
}

/// `i` after cells `a` and `b` changed places.
pub open spec fn swapped_index(i: int, a: int, b: int) -> int {
    if i == a {
        b
    } else if i == b {
        a
    } else {
        i
    }
}

pub open spec fn after_swap(m: Seq<(Seq<char>, usize)>, a: int, b: int) -> Seq<
    (Seq<char>, usize),
> {
    m.map_values(
        |e: (Seq<char>, usize)| (e.0, swapped_index(e.1 as int, a, b) as usize),
    )
}

impl IdMap<usize> {
    pub fn remap_removal(&mut self, at: usize)
        ensures
            final(self)@ == after_removal(old(self)@, at as int),
    {
        let ghost all = self@;
        let mut out: Vec<(String, usize)> = Vec::new();
        let mut i: usize = 0;
        assert(entry_views(out@) =~= after_removal(all.take(0), at as int));
        while i < self.entries.len()
            invariant
                i <= self.entries@.len(),
                *self == *old(self),
                all == entry_views(self.entries@),
                entry_views(out@) == after_removal(all.take(i as int), at as int),
            decreases self.entries@.len() - i,
        {
            let ghost o0 = out@;
            assert(all.take(i + 1).drop_last() =~= all.take(i as int));
            assert(all.take(i + 1).last() == (
                self.entries@[i as int].0@,
                self.entries@[i as int].1,
            ));
            let v = self.entries[i].1;
            if v != at {
                let w = if v > at {
                    v - 1
                } else {
                    v
                };
                let e = (self.entries[i].0.clone(), w);
                out.push(e);
                assert(entry_views(out@) =~= entry_views(o0).push((e.0@, e.1)));
            }
            i += 1;
        }
        assert(all.take(i as int) =~= all);
        self.entries = out;
    }

    pub fn remap_insertion(&mut self, at: usize)
        ensures
            final(self)@ == after_insertion(old(self)@, at as int),
    {
        let ghost want = after_insertion(self@, at as int);
        let mut out: Vec<(String, usize)> = Vec::new();
        let mut i: usize = 0;
        while i < self.entries.len()
            invariant
                i <= self.entries@.len(),
                *self == *old(self),
                want == after_insertion(self@, at as int),
                out@.len() == i,
                forall|k: int| 0 <= k < i ==> (out@[k].0@, out@[k].1) == #[trigger] want[k],
            decreases self.entries@.len() - i,
        {
            let v = self.entries[i].1;
            let w = if v >= at {
                next_index(v)
            } else {
                v
            };
            assert(self@[i as int] == (self.entries@[i as int].0@, v));
            out.push((self.entries[i].0.clone(), w));
            i += 1;
        }
        assert(entry_views(out@) =~= want);
        self.entries = out;
    }

    pub fn remap_swap(&mut self, a: usize, b: usize)
        ensures
            final(self)@ == after_swap(old(self)@, a as int, b as int),
    {
        let ghost want = after_swap(self@, a as int, b as int);
        let mut out: Vec<(String, usize)> = Vec::new();
        let mut i: usize = 0;
        while i < self.entries.len()
            invariant
                i <= self.entries@.len(),
                *self == *old(self),
                want == after_swap(self@, a as int, b as int),
                out@.len() == i,
                forall|k: int| 0 <= k < i ==> (out@[k].0@, out@[k].1) == #[trigger] want[k],
            decreases self.entries@.len() - i,
        {
            let v = self.entries[i].1;
            let w = if v == a {
                b
            } else if v == b {
                a
            } else {
                v
            };
            assert(self@[i as int] == (self.entries@[i as int].0@, v));
            out.push((self.entries[i].0.clone(), w));
            i += 1;
        }
        assert(entry_views(out@) =~= want);
        self.entries = out;
    }
}

/// The index after `i`, as far as there is one.
pub open spec fn next_of(i: usize) -> usize {
    if i < usize::MAX {
        (i + 1) as usize
    } else {
        i
    }
}

fn next_index(i: usize) -> (r: usize)
    ensures
        r == next_of(i),
{
    i.saturating_add(1)
}

/// Inserting a cell and taking it out again leaves executions where they
/// were.
pub proof fn law_removal_reverts_insertion(m: Seq<(Seq<char>, usize)>, at: int)
    requires
        0 <= at,
        forall|i: int| 0 <= i < m.len() ==> (#[trigger] m[i]).1 < usize::MAX,
    ensures
        after_removal(after_insertion(m, at), at) == m,
    decreases m.len(),
{
    let w = after_insertion(m, at);
    if m.len() > 0 {
        let d = m.drop_last();
        assert forall|i: int| 0 <= i < d.len() implies (#[trigger] d[i]).1 < usize::MAX by {
            assert(m[i].1 < usize::MAX);
        }
        law_removal_reverts_insertion(d, at);
        assert(w.drop_last() =~= after_insertion(d, at));
        assert(m[m.len() - 1].1 < usize::MAX);
        assert(after_removal(w, at) =~= m);
    } else {
        assert(w =~= m);
    }
}

// ---------------------------------------------------------------------------
// Sets
// ---------------------------------------------------------------------------

/// A set of ids.
pub struct IdSet {
    pub ids: Vec<String>,
}

impl View for IdSet {
    type V = Seq<Seq<char>>;

    open spec fn view(&self) -> Seq<Seq<char>> {
        views(self.ids@)
    }
}

/// With `k`.
pub open spec fn with_member(s: Seq<Seq<char>>, k: Seq<char>) -> Seq<Seq<char>> {
    if s.contains(k) {
        s
    } else {
        s.push(k)
    }
}

/// Without `k`.
pub open spec fn without_member(s: Seq<Seq<char>>, k: Seq<char>) -> Seq<Seq<char>>
    decreases s.len(),
{
    if s.len() == 0 {
        Seq::empty()
    } else if s.last() == k {
        without_member(s.drop_last(), k)
    } else {
        without_member(s.drop_last(), k).push(s.last())
    }
}

impl IdSet {
    pub fn new() -> (r: IdSet)
        ensures
            r@ == Seq::<Seq<char>>::empty(),
    {
        let ids: Vec<String> = Vec::new();
        assert(views(ids@) =~= Seq::empty());
        IdSet { ids }
    }

    pub fn contains(&self, key: &str) -> (r: bool)
        ensures
            r == self@.contains(key@),
    {
        let mut i: usize = 0;
        while i < self.ids.len()
            invariant
                i <= self.ids@.len(),
                forall|k: int| 0 <= k < i ==> (#[trigger] self@[k]) != key@,
            decreases self.ids@.len() - i,
        {
            if text::same(self.ids[i].as_str(), key) {
                assert(self@[i as int] == key@);
                return true;
            }
            i += 1;
        }
        false
    }

    /// Whether the id was not there before.
    pub fn insert(&mut self, key: String) -> (r: bool)
        ensures
            final(self)@ == with_member(old(self)@, key@),
            r == !old(self)@.contains(key@),
    {
        if self.contains(key.as_str()) {
            return false;
        }
        let ghost s0 = self.ids@;
        self.ids.push(key);
        assert(views(self.ids@) =~= views(s0).push(key@));
        true
    }

    /// Whether the id was there.
    pub fn remove(&mut self, key: &str) -> (r: bool)
        ensures
            final(self)@ == without_member(old(self)@, key@),
            r == old(self)@.contains(key@),
    {
        let r = self.contains(key);
        let ghost all = self@;
        let mut out: Vec<String> = Vec::new();
        let mut i: usize = 0;
        assert(views(out@) =~= without_member(all.take(0), key@));
        while i < self.ids.len()
            invariant
                i <= self.ids@.len(),
                *self == *old(self),
                all == views(self.ids@),
                views(out@) == without_member(all.take(i as int), key@),
            decreases self.ids@.len() - i,
        {
            let ghost o0 = out@;
            assert(all.take(i + 1).drop_last() =~= all.take(i as int));
            assert(all.take(i + 1).last() == self.ids@[i as int]@);
            if !text::same(self.ids[i].as_str(), key) {
                let s = self.ids[i].clone();
                out.push(s);
                assert(views(out@) =~= views(o0).push(s@));
            }
            i += 1;
        }
        assert(all.take(i as int) =~= all);
        self.ids = out;
        r
    }

    pub fn clear(&mut self)
        ensures
            final(self)@ == Seq::<Seq<char>>::empty(),
    {
        let none: Vec<String> = Vec::new();
        self.ids = none;
        assert(self@ =~= Seq::empty());
    }

    pub fn is_empty(&self) -> (r: bool)
        ensures
            r == (self@.len() == 0),
    {
        self.ids.len() == 0
    }
}

/// A removed member is gone.
pub proof fn law_removed_member_is_gone(s: Seq<Seq<char>>, k: Seq<char>)
    ensures
        !without_member(s, k).contains(k),
    decreases s.len(),
{
    if s.len() > 0 {
        law_removed_member_is_gone(s.drop_last(), k);
        let r = without_member(s.drop_last(), k);
        if s.last() != k {
            if r.push(s.last()).contains(k) {
                let i = r.push(s.last()).index_of(k);
                assert(r[i] == k);
            }
        }
    }
}

} // verus!
