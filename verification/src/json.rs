//! JSON values: what a notebook file is made of.

use vstd::prelude::*;

use crate::text;
#[allow(unused_imports)]
use crate::text::views;

verus! {

/// A JSON value.
pub enum Json {
    Null,
    Bool(bool),
    Int(i64),
    /// A number that is no `i64`, as it is written.
    Num(String),
    Str(String),
    Arr(Vec<Json>),
    Obj(Object),
}

/// A JSON object. Where a key occurs twice, its last entry counts.
pub struct Object {
    pub entries: Vec<(String, Json)>,
}

/// Model of a `Json`.
pub enum JsonView {
    Null,
    Bool(bool),
    Int(i64),
    Num(Seq<char>),
    Str(Seq<char>),
    Arr(Seq<JsonView>),
    Obj(Map<Seq<char>, JsonView>),
}

pub open spec fn json_view(j: Json) -> JsonView
    decreases j,
{
    match j {
        Json::Null => JsonView::Null,
        Json::Bool(b) => JsonView::Bool(b),
        Json::Int(i) => JsonView::Int(i),
        Json::Num(s) => JsonView::Num(s@),
        Json::Str(s) => JsonView::Str(s@),
        Json::Arr(v) => JsonView::Arr(array_view(v@)),
        Json::Obj(o) => JsonView::Obj(entries_view(o.entries@)),
    }
}

pub open spec fn array_view(v: Seq<Json>) -> Seq<JsonView>
    decreases v,
{
    Seq::new(
        v.len(),
        |i: int|
            if 0 <= i < v.len() {
                json_view(v[i])
            } else {
                JsonView::Null
            },
    )
}

pub open spec fn entries_view(v: Seq<(String, Json)>) -> Map<Seq<char>, JsonView>
    decreases v,
{
    if v.len() == 0 {
        Map::empty()
    } else {
        entries_view(v.drop_last()).insert(v.last().0@, json_view(v.last().1))
    }
}

impl View for Json {
    type V = JsonView;

    open spec fn view(&self) -> JsonView {
        json_view(*self)
    }
}

impl View for Object {
    type V = Map<Seq<char>, JsonView>;

    open spec fn view(&self) -> Map<Seq<char>, JsonView> {
        entries_view(self.entries@)
    }
}

/// The model of an array is that of its elements.
pub broadcast proof fn lemma_array_view(v: Seq<Json>)
    ensures
        #[trigger] array_view(v) == views(v),
{
    assert(array_view(v) =~= views(v));
}

/// What `m` holds under `k`.
pub open spec fn lookup(m: Map<Seq<char>, JsonView>, k: Seq<char>) -> Option<JsonView> {
    if m.contains_key(k) {
        Some(m[k])
    } else {
        None
    }
}

impl JsonView {
    /// The member `k` of an object, `Null` where there is none.
    pub open spec fn at(self, k: Seq<char>) -> JsonView {
        match self.get(k) {
            Some(v) => v,
            None => JsonView::Null,
        }
    }

    /// The member `k` of an object.
    pub open spec fn get(self, k: Seq<char>) -> Option<JsonView> {
        match self {
            JsonView::Obj(m) => lookup(m, k),
            _ => None,
        }
    }

    pub open spec fn as_str(self) -> Option<Seq<char>> {
        match self {
            JsonView::Str(s) => Some(s),
            _ => None,
        }
    }

    pub open spec fn as_i64(self) -> Option<i64> {
        match self {
            JsonView::Int(i) => Some(i),
            _ => None,
        }
    }

    /// The object with member `k` set to `v`.
    pub open spec fn set(self, k: Seq<char>, v: JsonView) -> JsonView {
        match self {
            JsonView::Obj(m) => JsonView::Obj(m.insert(k, v)),
            _ => self,
        }
    }
}

/// A key that no entry has is not in the model.
proof fn lemma_absent(v: Seq<(String, Json)>, k: Seq<char>)
    requires
        forall|i: int| 0 <= i < v.len() ==> (#[trigger] v[i]).0@ != k,
    ensures
        !entries_view(v).contains_key(k),
    decreases v.len(),
{
    if v.len() > 0 {
        assert(v.last().0@ != k);
        assert forall|i: int| 0 <= i < v.drop_last().len() implies (#[trigger] v.drop_last()[i]).0@
            != k by {
            assert(v[i].0@ != k);
        }
        lemma_absent(v.drop_last(), k);
    }
}

/// The last entry of a key is its value.
proof fn lemma_last_entry(v: Seq<(String, Json)>, i: int)
    requires
        0 <= i < v.len(),
        forall|j: int| i < j < v.len() ==> (#[trigger] v[j]).0@ != v[i].0@,
    ensures
        entries_view(v).contains_key(v[i].0@),
        entries_view(v)[v[i].0@] == json_view(v[i].1),
    decreases v.len(),
{
    if i < v.len() - 1 {
        let d = v.drop_last();
        assert(d[i] == v[i]);
        assert forall|j: int| i < j < d.len() implies (#[trigger] d[j]).0@ != d[i].0@ by {
            assert(v[j].0@ != v[i].0@);
        }
        lemma_last_entry(d, i);
        assert(v[v.len() - 1].0@ != v[i].0@);
    }
}

/// Taking out the first entry of a key changes nothing for other keys, and
/// for this one only if no later entry has it.
proof fn lemma_take_out(v: Seq<(String, Json)>, j: int)
    requires
        0 <= j < v.len(),
        forall|i: int| 0 <= i < j ==> (#[trigger] v[i]).0@ != v[j].0@,
    ensures
        entries_view(v).contains_key(v[j].0@),
        entries_view(v.remove(j)).remove(v[j].0@) == entries_view(v).remove(v[j].0@),
        entries_view(v.remove(j)).contains_key(v[j].0@) ==> entries_view(v.remove(j))[v[j].0@]
            == entries_view(v)[v[j].0@],
        !entries_view(v.remove(j)).contains_key(v[j].0@) ==> entries_view(v)[v[j].0@] == json_view(
            v[j].1,
        ),
    decreases v.len(),
{
    let k = v[j].0@;
    if j == v.len() - 1 {
        assert(v.remove(j) =~= v.drop_last());
        assert forall|i: int| 0 <= i < v.drop_last().len() implies (#[trigger] v.drop_last()[i]).0@
            != k by {
            assert(v[i].0@ != k);
        }
        lemma_absent(v.drop_last(), k);
        assert(entries_view(v).remove(k) =~= entries_view(v.drop_last()).remove(k));
    } else {
        let d = v.drop_last();
        assert(d[j] == v[j]);
        assert forall|i: int| 0 <= i < j implies (#[trigger] d[i]).0@ != d[j].0@ by {
            assert(v[i].0@ != v[j].0@);
        }
        lemma_take_out(d, j);
        assert(v.remove(j).drop_last() =~= d.remove(j));
        assert(v.remove(j).last() == v.last());
        let l = v.last().0@;
        let x = json_view(v.last().1);
        assert(entries_view(v.remove(j)) == entries_view(d.remove(j)).insert(l, x));
        assert(entries_view(v) == entries_view(d).insert(l, x));
        assert(entries_view(v.remove(j)).remove(k) =~= entries_view(v).remove(k)) by {
            let a = entries_view(d.remove(j)).remove(k);
            let b = entries_view(d).remove(k);
            assert(a == b);
            assert forall|q: Seq<char>|
                entries_view(v.remove(j)).remove(k).contains_key(q) == entries_view(v).remove(
                    k,
                ).contains_key(q) by {
                assert(a.contains_key(q) == b.contains_key(q));
            }
            assert forall|q: Seq<char>|
                #![auto]
                entries_view(v).remove(k).contains_key(q) implies entries_view(v.remove(j)).remove(
                k,
            )[q] == entries_view(v).remove(k)[q] by {
                assert(a.contains_key(q) == b.contains_key(q));
                if q != l {
                    assert(a[q] == b[q]);
                }
            }
        }
    }
}

impl Object {
    pub fn new() -> (r: Self)
        ensures
            r@ == Map::<Seq<char>, JsonView>::empty(),
    {
        Object { entries: Vec::new() }
    }

    /// Position of the entry that counts for `key`.
    fn find(&self, key: &str) -> (r: Option<usize>)
        ensures
            match r {
                Some(i) => i < self.entries@.len() && self.entries@[i as int].0@ == key@
                    && self@.contains_key(key@) && self@[key@] == json_view(
                    self.entries@[i as int].1,
                ),
                None => !self@.contains_key(key@),
            },
    {
        let mut i: usize = self.entries.len();
        while i > 0
            invariant
                i <= self.entries@.len(),
                forall|j: int| i <= j < self.entries@.len() ==> (#[trigger] self.entries@[j]).0@ != key@,
            decreases i,
        {
            i -= 1;
            if text::same(self.entries[i].0.as_str(), key) {
                proof {
                    lemma_last_entry(self.entries@, i as int);
                }
                return Some(i);
            }
        }
        proof {
            lemma_absent(self.entries@, key@);
        }
        None
    }

    pub fn get(&self, key: &str) -> (r: Option<&Json>)
        ensures
            match r {
                Some(v) => lookup(self@, key@) == Some(v@),
                None => lookup(self@, key@) is None,
            },
    {
        match self.find(key) {
            Some(i) => Some(&self.entries[i].1),
            None => None,
        }
    }

    pub fn contains_key(&self, key: &str) -> (r: bool)
        ensures
            r == self@.contains_key(key@),
    {
        self.find(key).is_some()
    }

    /// Takes `key` out; returns what it held.
    pub fn remove(&mut self, key: &str) -> (r: Option<Json>)
        ensures
            text::opt_view(r) == lookup(old(self)@, key@),
            final(self)@ == old(self)@.remove(key@),
    {
        let mut found: Option<Json> = None;
        let mut i: usize = 0;
        let ghost k = key@;
        while i < self.entries.len()
            invariant
                i <= self.entries@.len(),
                k == key@,
                forall|j: int| 0 <= j < i ==> (#[trigger] self.entries@[j]).0@ != k,
                entries_view(self.entries@).remove(k) == old(self)@.remove(k),
                lookup(old(self)@, k) == (if entries_view(self.entries@).contains_key(k) {
                    Some(entries_view(self.entries@)[k])
                } else {
                    text::opt_view(found)
                }),
            decreases self.entries@.len() - i,
        {
            if text::same(self.entries[i].0.as_str(), key) {
                proof {
                    lemma_take_out(self.entries@, i as int);
                }
                let (_, v) = self.entries.remove(i);
                found = Some(v);
            } else {
                i += 1;
            }
        }
        proof {
            lemma_absent(self.entries@, k);
            assert(entries_view(self.entries@).remove(k) =~= entries_view(self.entries@));
        }
        found
    }

    /// Sets `key` to `value`; returns what it held.
    pub fn insert(&mut self, key: &str, value: Json) -> (r: Option<Json>)
        ensures
            text::opt_view(r) == lookup(old(self)@, key@),
            final(self)@ == old(self)@.insert(key@, value@),
    {
        let old_value = self.remove(key);
        let ghost e = self.entries@;
        self.entries.push((key.to_owned(), value));
        assert(self.entries@.drop_last() =~= e);
        assert(self@ =~= old(self)@.insert(key@, value@));
        old_value
    }

    /// A copy.
    pub fn duplicate(&self) -> (r: Object)
        ensures
            r@ == self@,
        decreases self,
    {
        let mut out: Vec<(String, Json)> = Vec::new();
        let mut i: usize = 0;
        while i < self.entries.len()
            invariant
                i <= self.entries@.len(),
                entries_view(out@) == entries_view(self.entries@.take(i as int)),
            decreases self.entries@.len() - i,
        {
            let ghost o0 = out@;
            assert(decreases_to!(self.entries@ => self.entries@[i as int]));
            assert(decreases_to!(self.entries@[i as int] => self.entries@[i as int].1));
            let v = self.entries[i].1.duplicate();
            out.push((self.entries[i].0.clone(), v));
            i += 1;
            assert(out@.drop_last() =~= o0);
            assert(self.entries@.take(i as int).drop_last() =~= self.entries@.take(i - 1));
        }
        assert(self.entries@.take(self.entries@.len() as int) =~= self.entries@);
        Object { entries: out }
    }

    /// Whether two objects have the same members.
    pub fn equal(&self, other: &Object) -> (r: bool)
        ensures
            r == (self@ == other@),
        decreases self,
    {
        let mut i: usize = 0;
        while i < self.entries.len()
            invariant
                i <= self.entries@.len(),
                forall|j: int|
                    0 <= j < i ==> lookup(self@, (#[trigger] self.entries@[j]).0@) == lookup(
                        other@,
                        self.entries@[j].0@,
                    ),
            decreases self.entries@.len() - i,
        {
            let key = self.entries[i].0.as_str();
            let a = self.find(key);
            let b = other.find(key);
            proof {
                lemma_present(self.entries@, i as int);
            }
            match (a, b) {
                (Some(m), Some(n)) => {
                    assert(decreases_to!(self.entries@ => self.entries@[m as int]));
                    assert(decreases_to!(self.entries@[m as int] => self.entries@[m as int].1));
                    if !self.entries[m].1.equal(&other.entries[n].1) {
                        assert(lookup(self@, key@) != lookup(other@, key@));
                        return false;
                    }
                },
                _ => {
                    assert(lookup(self@, key@) != lookup(other@, key@));
                    return false;
                },
            }
            i += 1;
        }
        let mut i: usize = 0;
        while i < other.entries.len()
            invariant
                i <= other.entries@.len(),
                forall|j: int|
                    0 <= j < i ==> self@.contains_key((#[trigger] other.entries@[j]).0@),
            decreases other.entries@.len() - i,
        {
            if self.find(other.entries[i].0.as_str()).is_none() {
                proof {
                    lemma_present(other.entries@, i as int);
                    assert(other@.contains_key(other.entries@[i as int].0@));
                    assert(!self@.contains_key(other.entries@[i as int].0@));
                }
                return false;
            }
            i += 1;
        }
        proof {
            assert forall|k: Seq<char>| self@.contains_key(k) == other@.contains_key(k) by {
                if self@.contains_key(k) {
                    lemma_key_has_entry(self.entries@, k);
                    let j = choose|j: int|
                        0 <= j < self.entries@.len() && (#[trigger] self.entries@[j]).0@ == k;
                    assert(lookup(self@, self.entries@[j].0@) == lookup(other@, k));
                }
                if other@.contains_key(k) {
                    lemma_key_has_entry(other.entries@, k);
                    let j = choose|j: int|
                        0 <= j < other.entries@.len() && (#[trigger] other.entries@[j]).0@ == k;
                    assert(self@.contains_key(other.entries@[j].0@));
                }
            }
            assert forall|k: Seq<char>| self@.contains_key(k) implies self@[k] == other@[k] by {
                lemma_key_has_entry(self.entries@, k);
                let j = choose|j: int|
                    0 <= j < self.entries@.len() && (#[trigger] self.entries@[j]).0@ == k;
                assert(lookup(self@, self.entries@[j].0@) == lookup(other@, k));
            }
            assert(self@ =~= other@);
        }
        true
    }
}

/// The key of an entry is in the model.
proof fn lemma_present(v: Seq<(String, Json)>, i: int)
    requires
        0 <= i < v.len(),
    ensures
        entries_view(v).contains_key(v[i].0@),
    decreases v.len(),
{
    if i < v.len() - 1 {
        assert(v.drop_last()[i] == v[i]);
        lemma_present(v.drop_last(), i);
    }
}

/// A key of the model has an entry.
proof fn lemma_key_has_entry(v: Seq<(String, Json)>, k: Seq<char>)
    requires
        entries_view(v).contains_key(k),
    ensures
        exists|i: int| 0 <= i < v.len() && (#[trigger] v[i]).0@ == k,
    decreases v.len(),
{
    if v.last().0@ == k {
        assert(v[v.len() - 1].0@ == k);
    } else {
        lemma_key_has_entry(v.drop_last(), k);
        let i = choose|i: int|
            0 <= i < v.drop_last().len() && (#[trigger] v.drop_last()[i]).0@ == k;
        assert(v[i].0@ == k);
    }
}

impl Json {
    pub fn string(s: &str) -> (r: Json)
        ensures
            r@ == JsonView::Str(s@),
    {
        Json::Str(s.to_owned())
    }

    /// The member `key` of an object.
    pub fn get(&self, key: &str) -> (r: Option<&Json>)
        ensures
            match r {
                Some(v) => self@.get(key@) == Some(v@),
                None => self@.get(key@) is None,
            },
    {
        match self {
            Json::Obj(o) => o.get(key),
            _ => None,
        }
    }

    pub fn as_str(&self) -> (r: Option<&str>)
        ensures
            match r {
                Some(s) => self@.as_str() == Some(s@),
                None => self@.as_str() is None,
            },
    {
        match self {
            Json::Str(s) => Some(s.as_str()),
            _ => None,
        }
    }

    pub fn as_i64(&self) -> (r: Option<i64>)
        ensures
            r == self@.as_i64(),
    {
        match self {
            Json::Int(i) => Some(*i),
            _ => None,
        }
    }

    /// The string that member `key` holds.
    pub fn str_at(&self, key: &str) -> (r: Option<&str>)
        ensures
            match r {
                Some(s) => self@.at(key@).as_str() == Some(s@),
                None => self@.at(key@).as_str() is None,
            },
    {
        match self.get(key) {
            Some(v) => v.as_str(),
            None => None,
        }
    }

    /// Whether member `key` is the string `value`.
    pub fn str_is(&self, key: &str, value: &str) -> (r: bool)
        ensures
            r == (self@.at(key@).as_str() == Some(value@)),
    {
        match self.str_at(key) {
            Some(s) => text::same(s, value),
            None => false,
        }
    }

    /// A copy of member `key`; `Null` where there is none.
    pub fn copy_at(&self, key: &str) -> (r: Json)
        ensures
            r@ == self@.at(key@),
    {
        match self.get(key) {
            Some(v) => v.duplicate(),
            None => Json::Null,
        }
    }

    /// Sets member `key` of an object.
    pub fn set(&mut self, key: &str, value: Json)
        ensures
            final(self)@ == old(self)@.set(key@, value@),
    {
        if let Json::Obj(o) = self {
            let _ = o.insert(key, value);
        }
    }

    /// A copy.
    pub fn duplicate(&self) -> (r: Json)
        ensures
            r@ == self@,
        decreases self,
    {
        match self {
            Json::Null => Json::Null,
            Json::Bool(b) => Json::Bool(*b),
            Json::Int(i) => Json::Int(*i),
            Json::Num(s) => Json::Num(s.clone()),
            Json::Str(s) => Json::Str(s.clone()),
            Json::Arr(v) => {
                let mut out: Vec<Json> = Vec::new();
                let mut i: usize = 0;
                while i < v.len()
                    invariant
                        i <= v@.len(),
                        *self is Arr,
                        self->Arr_0 == *v,
                        out@.len() == i,
                        forall|k: int| 0 <= k < i ==> json_view(#[trigger] out@[k]) == json_view(v@[k]),
                    decreases v@.len() - i,
                {
                    assert(decreases_to!(self->Arr_0@ => v@[i as int]));
                    out.push(v[i].duplicate());
                    i += 1;
                }
                assert(array_view(out@) =~= array_view(v@));
                Json::Arr(out)
            },
            Json::Obj(o) => Json::Obj(o.duplicate()),
        }
    }

    /// Whether two values are the same.
    pub fn equal(&self, other: &Json) -> (r: bool)
        ensures
            r == (self@ == other@),
        decreases self,
    {
        match (self, other) {
            (Json::Null, Json::Null) => true,
            (Json::Bool(a), Json::Bool(b)) => *a == *b,
            (Json::Int(a), Json::Int(b)) => *a == *b,
            (Json::Num(a), Json::Num(b)) => text::same(a.as_str(), b.as_str()),
            (Json::Str(a), Json::Str(b)) => text::same(a.as_str(), b.as_str()),
            (Json::Arr(a), Json::Arr(b)) => {
                if a.len() != b.len() {
                    assert(array_view(a@).len() != array_view(b@).len());
                    return false;
                }
                let mut i: usize = 0;
                while i < a.len()
                    invariant
                        i <= a@.len(),
                        a@.len() == b@.len(),
                        *self is Arr,
                        self->Arr_0 == *a,
                        *other is Arr,
                        other->Arr_0 == *b,
                        forall|k: int| 0 <= k < i ==> array_view(a@)[k] == array_view(b@)[k],
                    decreases a@.len() - i,
                {
                    assert(decreases_to!(self->Arr_0@ => a@[i as int]));
                    if !a[i].equal(&b[i]) {
                        assert(array_view(a@)[i as int] != array_view(b@)[i as int]);
                        return false;
                    }
                    i += 1;
                }
                assert(array_view(a@) =~= array_view(b@));
                true
            },
            (Json::Obj(a), Json::Obj(b)) => a.equal(b),
            _ => false,
        }
    }
}

/// Copies a list of values.
pub fn duplicate_all(v: &Vec<Json>) -> (r: Vec<Json>)
    ensures
        views(r@) == views(v@),
{
    let mut out: Vec<Json> = Vec::new();
    let mut i: usize = 0;
    while i < v.len()
        invariant
            i <= v@.len(),
            views(out@) == views(v@.take(i as int)),
        decreases v@.len() - i,
    {
        let ghost o0 = out@;
        let x = v[i].duplicate();
        out.push(x);
        assert(views(out@) =~= views(o0).push(x@));
        i += 1;
        assert(views(v@.take(i as int)) =~= views(v@.take(i - 1)).push(v@[i - 1]@));
    }
    assert(v@.take(v@.len() as int) =~= v@);
    out
}

// ---------------------------------------------------------------------------
// Keys in order
// ---------------------------------------------------------------------------

/// Lexicographic order by code points.
pub open spec fn lex_less(a: Seq<char>, b: Seq<char>) -> bool
    decreases a.len(),
{
    if b.len() == 0 {
        false
    } else if a.len() == 0 {
        true
    } else if a[0] != b[0] {
        a[0] < b[0]
    } else {
        lex_less(a.skip(1), b.skip(1))
    }
}

pub open spec fn ascending(ks: Seq<Seq<char>>) -> bool {
    forall|i: int, j: int| 0 <= i < j < ks.len() ==> lex_less(#[trigger] ks[i], #[trigger] ks[j])
}

pub open spec fn are_keys_of(ks: Seq<Seq<char>>, m: Map<Seq<char>, JsonView>) -> bool {
    forall|k: Seq<char>| ks.contains(k) <==> #[trigger] m.contains_key(k)
}

/// The keys of an object in ascending order.
pub open spec fn keys_in_order(m: Map<Seq<char>, JsonView>) -> Seq<Seq<char>> {
    choose|ks: Seq<Seq<char>>| ascending(ks) && are_keys_of(ks, m)
}

proof fn lemma_lex_total(a: Seq<char>, b: Seq<char>)
    ensures
        !lex_less(a, a),
        lex_less(a, b) ==> !lex_less(b, a),
        a == b || lex_less(a, b) || lex_less(b, a),
    decreases a.len() + b.len(),
{
    if a.len() > 0 {
        if b.len() > 0 && a[0] == b[0] {
            lemma_lex_total(a.skip(1), b.skip(1));
            if a.skip(1) == b.skip(1) {
                assert(a =~= seq![a[0]] + a.skip(1));
                assert(b =~= seq![b[0]] + b.skip(1));
            }
        }
        lemma_lex_irreflexive(a);
    } else {
        if b.len() == 0 {
            assert(a =~= b);
        }
    }
}

proof fn lemma_lex_irreflexive(a: Seq<char>)
    ensures
        !lex_less(a, a),
    decreases a.len(),
{
    if a.len() > 0 {
        lemma_lex_irreflexive(a.skip(1));
    }
}

proof fn lemma_lex_transitive(a: Seq<char>, b: Seq<char>, c: Seq<char>)
    requires
        lex_less(a, b),
        lex_less(b, c),
    ensures
        lex_less(a, c),
    decreases a.len(),
{
    if a.len() > 0 && a[0] == b[0] && b[0] == c[0] {
        lemma_lex_transitive(a.skip(1), b.skip(1), c.skip(1));
    }
}

/// There is one way to put the keys of an object in order.
pub proof fn lemma_order_unique(a: Seq<Seq<char>>, b: Seq<Seq<char>>)
    requires
        ascending(a),
        ascending(b),
        forall|k: Seq<char>| #[trigger] a.contains(k) == b.contains(k),
    ensures
        a == b,
    decreases a.len(),
{
    if a.len() == 0 {
        if b.len() > 0 {
            assert(b.contains(b[0]));
            assert(a.contains(b[0]));
        }
        assert(a =~= b);
    } else {
        let x = a.last();
        assert(a[a.len() - 1] == x);
        assert(a.contains(x));
        assert(b.contains(x));
        let y = b.last();
        assert(b[b.len() - 1] == y);
        assert(b.contains(y));
        assert(a.contains(y));
        if x != y {
            let i = a.index_of(y);
            let j = b.index_of(x);
            assert(a[i] == y && b[j] == x);
            assert(lex_less(a[i], a[a.len() - 1]));
            assert(lex_less(b[j], b[b.len() - 1]));
            lemma_lex_total(x, y);
        }
        let c = a.drop_last();
        let d = b.drop_last();
        assert forall|i: int, j: int| 0 <= i < j < c.len() implies lex_less(
            #[trigger] c[i],
            #[trigger] c[j],
        ) by {
            assert(lex_less(a[i], a[j]));
        }
        assert forall|i: int, j: int| 0 <= i < j < d.len() implies lex_less(
            #[trigger] d[i],
            #[trigger] d[j],
        ) by {
            assert(lex_less(b[i], b[j]));
        }
        assert forall|k: Seq<char>| #[trigger] c.contains(k) == d.contains(k) by {
            lemma_drop_last_contains(a, k);
            lemma_drop_last_contains(b, k);
        }
        lemma_order_unique(c, d);
        assert(a =~= c.push(x));
        assert(b =~= d.push(y));
    }
}

proof fn lemma_drop_last_contains(a: Seq<Seq<char>>, k: Seq<char>)
    requires
        ascending(a),
        a.len() > 0,
    ensures
        a.drop_last().contains(k) == (a.contains(k) && k != a.last()),
{
    if a.drop_last().contains(k) {
        let i = a.drop_last().index_of(k);
        assert(a[i] == k);
        assert(lex_less(a[i], a[a.len() - 1]));
        lemma_lex_irreflexive(k);
    }
    if a.contains(k) && k != a.last() {
        let i = a.index_of(k);
        assert(a.drop_last()[i] == k);
    }
}

fn less(a: &str, b: &str) -> (r: bool)
    ensures
        r == lex_less(a@, b@),
{
    let x = text::chars_of(a);
    let y = text::chars_of(b);
    let mut i: usize = 0;
    assert(a@.skip(0) =~= a@);
    assert(b@.skip(0) =~= b@);
    while i < x.len() && i < y.len() && x[i] == y[i]
        invariant
            i <= x@.len(),
            i <= y@.len(),
            x@ == a@,
            y@ == b@,
            lex_less(a@, b@) == lex_less(x@.skip(i as int), y@.skip(i as int)),
        decreases x@.len() - i,
    {
        assert(x@.skip(i as int).skip(1) =~= x@.skip(i + 1));
        assert(y@.skip(i as int).skip(1) =~= y@.skip(i + 1));
        i += 1;
    }
    if i >= y.len() {
        false
    } else if i >= x.len() {
        true
    } else {
        x[i] < y[i]
    }
}

/// Puts `key` in its place among ascending keys, unless it is there.
fn insert_in_order(ks: &mut Vec<String>, key: &str)
    requires
        ascending(views(old(ks)@)),
    ensures
        ascending(views(final(ks)@)),
        forall|k: Seq<char>| #[trigger]
            views(final(ks)@).contains(k) == (k == key@ || views(old(ks)@).contains(k)),
{
    let ghost v = views(ks@);
    let mut p: usize = 0;
    while p < ks.len() && less(ks[p].as_str(), key)
        invariant
            p <= ks@.len(),
            v == views(ks@),
            *ks == *old(ks),
            forall|i: int| 0 <= i < p ==> lex_less(#[trigger] v[i], key@),
        decreases ks@.len() - p,
    {
        p += 1;
    }
    if p < ks.len() && text::same(ks[p].as_str(), key) {
        assert(v[p as int] == key@);
        assert(v.contains(key@));
        return;
    }
    proof {
        assert forall|i: int| p <= i < v.len() implies lex_less(key@, #[trigger] v[i]) by {
            assert(v[p as int] == ks@[p as int]@);
            lemma_lex_total(v[p as int], key@);
            if i > p {
                assert(lex_less(v[p as int], v[i]));
                lemma_lex_transitive(key@, v[p as int], v[i]);
            }
        }
    }
    ks.insert(p, key.to_owned());
    proof {
        let w = views(ks@);
        assert(w =~= v.insert(p as int, key@));
        assert forall|i: int, j: int| 0 <= i < j < w.len() implies lex_less(
            #[trigger] w[i],
            #[trigger] w[j],
        ) by {
            let a = if i < p { i } else { i - 1 };
            let b = if j < p { j } else { j - 1 };
            if i != p {
                assert(w[i] == v[a]);
            }
            if j != p {
                assert(w[j] == v[b]);
            }
        }
        assert forall|k: Seq<char>| #[trigger] w.contains(k) == (k == key@ || v.contains(k)) by {
            if v.contains(k) {
                let i = v.index_of(k);
                if i < p {
                    assert(w[i] == k);
                } else {
                    assert(w[i + 1] == k);
                }
            }
            if k == key@ {
                assert(w[p as int] == k);
            }
            if w.contains(k) && k != key@ {
                let i = w.index_of(k);
                if i < p {
                    assert(v[i] == k);
                } else {
                    assert(v[i - 1] == k);
                }
            }
        }
    }
}

impl Object {
    /// The keys, in ascending order.
    pub fn keys(&self) -> (r: Vec<String>)
        ensures
            views(r@) == keys_in_order(self@),
            ascending(views(r@)),
            are_keys_of(views(r@), self@),
    {
        let mut r: Vec<String> = Vec::new();
        let mut i: usize = 0;
        let ghost all = self.entries@;
        assert(views(r@) =~= Seq::<Seq<char>>::empty());
        while i < self.entries.len()
            invariant
                i <= self.entries@.len(),
                all == self.entries@,
                ascending(views(r@)),
                are_keys_of(views(r@), entries_view(all.take(i as int))),
            decreases self.entries@.len() - i,
        {
            let ghost before = views(r@);
            insert_in_order(&mut r, self.entries[i].0.as_str());
            i += 1;
            proof {
                assert(all.take(i as int).drop_last() =~= all.take(i - 1));
                let m0 = entries_view(all.take(i - 1));
                let m = entries_view(all.take(i as int));
                assert forall|k: Seq<char>| views(r@).contains(k) <==> #[trigger] m.contains_key(
                    k,
                ) by {
                    assert(m0.contains_key(k) <==> before.contains(k));
                }
            }
        }
        assert(all.take(i as int) =~= all);
        proof {
            let ks = views(r@);
            let c = keys_in_order(self@);
            assert(ascending(ks) && are_keys_of(ks, self@));
            assert(ascending(c) && are_keys_of(c, self@));
            assert forall|k: Seq<char>| #[trigger] ks.contains(k) == c.contains(k) by {
                assert(ks.contains(k) <==> self@.contains_key(k));
                assert(c.contains(k) <==> self@.contains_key(k));
            }
            lemma_order_unique(ks, c);
        }
        r
    }
}

} // verus!
