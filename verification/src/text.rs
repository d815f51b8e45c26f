//! Text as sequences of characters: splitting, joining, trimming, searching
//! and replacing, each over a `Seq<char>` model.

use vstd::prelude::*;

verus! {

// ---------------------------------------------------------------------------
// Character classes
// ---------------------------------------------------------------------------

/// What `char::is_whitespace` answers.
pub uninterp spec fn unicode_whitespace(c: char) -> bool;

/// What `char::is_alphanumeric` answers.
pub uninterp spec fn unicode_alphanumeric(c: char) -> bool;

/// What `str::to_lowercase` returns.
pub uninterp spec fn unicode_lowercase(s: Seq<char>) -> Seq<char>;

pub open spec fn is_ascii_digit(c: char) -> bool {
    '0' <= c && c <= '9'
}

pub open spec fn is_ascii_upper(c: char) -> bool {
    'A' <= c && c <= 'Z'
}

pub open spec fn is_ascii_lower(c: char) -> bool {
    'a' <= c && c <= 'z'
}

pub open spec fn is_ascii_alpha(c: char) -> bool {
    is_ascii_upper(c) || is_ascii_lower(c)
}

/// `char::is_whitespace`: the Unicode `White_Space` property. Among the ASCII
/// characters those are the space and U+0009 to U+000D.
pub assume_specification[ char::is_whitespace ](c: char) -> (r: bool)
    ensures
        r == unicode_whitespace(c),
        (c as u32) < 128 ==> r == (c == ' ' || (9 <= (c as u32) && (c as u32) <= 13)),
;

/// `char::is_alphanumeric`: the Unicode alphabetic or numeric property. Among
/// the ASCII characters those are the letters and the digits.
pub assume_specification[ char::is_alphanumeric ](c: char) -> (r: bool)
    ensures
        r == unicode_alphanumeric(c),
        (c as u32) < 128 ==> r == (is_ascii_alpha(c) || is_ascii_digit(c)),
;

/// `str::to_lowercase`: the Unicode lowercase mapping of the whole string.
pub assume_specification[ str::to_lowercase ](s: &str) -> (r: String)
    ensures
        r@ == unicode_lowercase(s@),
;

/// `String::push`: appends one character.
pub assume_specification[ String::push ](s: &mut String, c: char)
    ensures
        final(s)@ == old(s)@.push(c),
;

// ---------------------------------------------------------------------------
// Strings and character vectors
// ---------------------------------------------------------------------------

/// The characters of `s`.
pub fn chars_of(s: &str) -> (r: Vec<char>)
    ensures
        r@ == s@,
{
    let mut v: Vec<char> = Vec::new();
    for c in it: s.chars()
        invariant
            v@ == s@.take(it.index() as int),
            it.seq() == s@,
    {
        v.push(c);
        assert(s@.take(it.index() + 1) == s@.take(it.index() as int).push(s@[it.index() as int]));
    }
    assert(s@.take(s@.len() as int) == s@);
    v
}

/// The string made of the characters `v`.
pub fn string_of(v: &Vec<char>) -> (r: String)
    ensures
        r@ == v@,
{
    string_between(v, 0, v.len())
}

/// The string made of the characters `v[from..to]`.
pub fn string_between(v: &Vec<char>, from: usize, to: usize) -> (r: String)
    requires
        from <= to <= v@.len(),
    ensures
        r@ == v@.subrange(from as int, to as int),
{
    let mut s = String::new();
    let mut i: usize = from;
    while i < to
        invariant
            from <= i <= to <= v@.len(),
            s@ == v@.subrange(from as int, i as int),
        decreases to - i,
    {
        s.push(v[i]);
        i += 1;
        assert(v@.subrange(from as int, i as int) == v@.subrange(from as int, i - 1).push(
            v@[i - 1],
        ));
    }
    s
}

/// Whether two strings hold the same characters.
pub fn same(a: &str, b: &str) -> (r: bool)
    ensures
        r == (a@ == b@),
{
    let x = chars_of(a);
    let y = chars_of(b);
    if x.len() != y.len() {
        return false;
    }
    let mut i: usize = 0;
    while i < x.len()
        invariant
            i <= x.len(),
            x.len() == y.len(),
            x@ == a@,
            y@ == b@,
            forall|k: int| 0 <= k < i ==> x@[k] == y@[k],
        decreases x.len() - i,
    {
        if x[i] != y[i] {
            assert(a@[i as int] != b@[i as int]);
            return false;
        }
        i += 1;
    }
    assert(a@ =~= b@);
    true
}

/// The first `n` characters, or all of them.
pub fn take(s: &str, n: usize) -> (r: String)
    ensures
        r@ == first(s@, n as int),
{
    let len = s.unicode_len();
    if n <= len {
        s.substring_char(0, n).to_owned()
    } else {
        assert(s@.subrange(0, s@.len() as int) == s@);
        s.to_owned()
    }
}

/// What is left after the first `n` characters.
pub fn skip(s: &str, n: usize) -> (r: String)
    ensures
        r@ == after(s@, n as int),
{
    let len = s.unicode_len();
    if n <= len {
        s.substring_char(n, len).to_owned()
    } else {
        String::new()
    }
}

/// The first `n` elements, or all of them.
pub open spec fn first<T>(s: Seq<T>, n: int) -> Seq<T> {
    if n <= s.len() {
        s.take(n)
    } else {
        s
    }
}

/// What is left after the first `n` elements.
pub open spec fn after<T>(s: Seq<T>, n: int) -> Seq<T> {
    if n <= s.len() {
        s.skip(n)
    } else {
        Seq::empty()
    }
}

/// `a` followed by `b`.
pub fn concat(a: &str, b: &str) -> (r: String)
    ensures
        r@ == a@ + b@,
{
    let mut s = a.to_owned();
    s.append(b);
    s
}

/// `s` with `c` put in before position `at`.
pub fn insert_char(s: &str, at: usize, c: char) -> (r: String)
    requires
        at <= s@.len(),
    ensures
        r@ == s@.insert(at as int, c),
{
    let len = s.unicode_len();
    let mut r = s.substring_char(0, at).to_owned();
    r.push(c);
    r.append(s.substring_char(at, len));
    assert(r@ =~= s@.insert(at as int, c));
    r
}

/// `s` without its character at position `at`.
pub fn remove_char(s: &str, at: usize) -> (r: String)
    requires
        at < s@.len(),
    ensures
        r@ == s@.remove(at as int),
{
    let len = s.unicode_len();
    let mut r = s.substring_char(0, at).to_owned();
    r.append(s.substring_char(at + 1, len));
    assert(r@ =~= s@.remove(at as int));
    r
}

/// `n` copies of `c`.
pub open spec fn repeated(c: char, n: nat) -> Seq<char> {
    Seq::new(n, |i: int| c)
}

/// A string of `n` copies of `c`.
pub fn repeat_char(c: char, n: usize) -> (r: String)
    ensures
        r@ == repeated(c, n as nat),
{
    let mut s = String::new();
    let mut i: usize = 0;
    while i < n
        invariant
            i <= n,
            s@ == repeated(c, i as nat),
        decreases n - i,
    {
        s.push(c);
        i += 1;
        assert(s@ =~= repeated(c, i as nat));
    }
    s
}

// ---------------------------------------------------------------------------
// Views of collections
// ---------------------------------------------------------------------------

/// The views of the elements.
pub open spec fn views<T: View>(s: Seq<T>) -> Seq<T::V> {
    s.map_values(|x: T| x@)
}

/// The view of an optional value.
pub open spec fn opt_view<T: View>(o: Option<T>) -> Option<T::V> {
    match o {
        Some(x) => Some(x@),
        None => None,
    }
}

/// Copies a list of strings.
pub fn clone_strings(v: &Vec<String>) -> (r: Vec<String>)
    ensures
        r@ == v@,
        views(r@) == views(v@),
{
    let mut out: Vec<String> = Vec::new();
    let mut i: usize = 0;
    while i < v.len()
        invariant
            i <= v.len(),
            out@ == v@.take(i as int),
        decreases v.len() - i,
    {
        out.push(v[i].clone());
        i += 1;
        assert(v@.take(i as int) == v@.take(i - 1).push(v@[i - 1]));
    }
    assert(v@.take(v@.len() as int) == v@);
    out
}

/// Copies an optional string.
pub fn clone_opt(o: &Option<String>) -> (r: Option<String>)
    ensures
        r == *o,
        opt_view(r) == opt_view(*o),
{
    match o {
        Some(s) => Some(s.clone()),
        None => None,
    }
}

/// Whether an optional string is `s`.
pub fn opt_same(o: &Option<String>, s: &str) -> (r: bool)
    ensures
        r == (opt_view(*o) == Some(s@)),
{
    match o {
        Some(x) => same(x.as_str(), s),
        None => false,
    }
}

/// Whether two lists hold the same strings.
pub fn same_strings(a: &Vec<String>, b: &Vec<String>) -> (r: bool)
    ensures
        r == (views(a@) == views(b@)),
{
    if a.len() != b.len() {
        assert(views(a@).len() != views(b@).len());
        return false;
    }
    let mut i: usize = 0;
    while i < a.len()
        invariant
            i <= a@.len(),
            a@.len() == b@.len(),
            forall|k: int| 0 <= k < i ==> views(a@)[k] == views(b@)[k],
        decreases a@.len() - i,
    {
        if !same(a[i].as_str(), b[i].as_str()) {
            assert(views(a@)[i as int] == a@[i as int]@);
            assert(views(b@)[i as int] == b@[i as int]@);
            return false;
        }
        i += 1;
    }
    assert(views(a@) =~= views(b@));
    true
}

/// Position of the first entry of `v` that is `s`.
pub fn index_of(v: &Vec<String>, s: &str) -> (r: Option<usize>)
    ensures
        match r {
            Some(i) => i < v@.len() && views(v@)[i as int] == s@ && forall|k: int|
                0 <= k < i ==> views(v@)[k] != s@,
            None => forall|k: int| 0 <= k < v@.len() ==> views(v@)[k] != s@,
        },
        r is Some == views(v@).contains(s@),
{
    let mut i: usize = 0;
    while i < v.len()
        invariant
            i <= v.len(),
            forall|k: int| 0 <= k < i ==> views(v@)[k] != s@,
        decreases v.len() - i,
    {
        if same(v[i].as_str(), s) {
            assert(views(v@)[i as int] == s@);
            return Some(i);
        }
        i += 1;
    }
    None
}

// ---------------------------------------------------------------------------
// Splitting and joining
// ---------------------------------------------------------------------------

/// The pieces of `s` between the occurrences of `sep`: one more than there
/// are occurrences.
pub open spec fn split_on(s: Seq<char>, sep: char) -> Seq<Seq<char>>
    decreases s.len(),
{
    if s.len() == 0 {
        seq![Seq::<char>::empty()]
    } else {
        let head = split_on(s.drop_last(), sep);
        if s.last() == sep {
            head.push(Seq::<char>::empty())
        } else {
            head.drop_last().push(head.last().push(s.last()))
        }
    }
}

/// The parts with `sep` between each two of them.
pub open spec fn join(parts: Seq<Seq<char>>, sep: Seq<char>) -> Seq<char>
    decreases parts.len(),
{
    if parts.len() == 0 {
        Seq::<char>::empty()
    } else if parts.len() == 1 {
        parts[0]
    } else {
        join(parts.drop_last(), sep) + sep + parts.last()
    }
}

/// Splitting always gives at least one piece.
pub proof fn lemma_split_nonempty(s: Seq<char>, sep: char)
    ensures
        split_on(s, sep).len() >= 1,
    decreases s.len(),
{
    if s.len() > 0 {
        lemma_split_nonempty(s.drop_last(), sep);
    }
}

/// Joining what a split gave, with the separator, gives the text back.
pub proof fn lemma_join_split(s: Seq<char>, sep: char)
    ensures
        join(split_on(s, sep), seq![sep]) == s,
    decreases s.len(),
{
    if s.len() > 0 {
        let h = s.drop_last();
        let head = split_on(h, sep);
        lemma_split_nonempty(h, sep);
        lemma_join_split(h, sep);
        if s.last() == sep {
            let p = head.push(Seq::<char>::empty());
            assert(p.drop_last() =~= head);
            assert(join(p, seq![sep]) =~= h + seq![sep]);
            assert(h + seq![sep] =~= s);
        } else {
            let p = head.drop_last().push(head.last().push(s.last()));
            assert(p.drop_last() =~= head.drop_last());
            if head.len() == 1 {
                assert(join(p, seq![sep]) =~= head[0].push(s.last()));
            } else {
                assert(join(p, seq![sep]) =~= join(head, seq![sep]).push(s.last()));
            }
            assert(h.push(s.last()) =~= s);
        }
    }
}

/// No piece of a split holds the separator.
pub proof fn lemma_split_clean(s: Seq<char>, sep: char, i: int)
    requires
        0 <= i < split_on(s, sep).len(),
    ensures
        !split_on(s, sep)[i].contains(sep),
    decreases s.len(),
{
    if s.len() > 0 {
        let head = split_on(s.drop_last(), sep);
        lemma_split_nonempty(s.drop_last(), sep);
        if s.last() == sep {
            if i < head.len() {
                lemma_split_clean(s.drop_last(), sep, i);
            }
        } else if i < head.len() - 1 {
            lemma_split_clean(s.drop_last(), sep, i);
        } else {
            lemma_split_clean(s.drop_last(), sep, head.len() - 1);
            let last = head.last().push(s.last());
            assert forall|k: int| 0 <= k < last.len() implies last[k] != sep by {
                if k < head.last().len() {
                    assert(head.last()[k] != sep);
                }
            }
        }
    }
}

/// The pieces of a longer text begin with those of a shorter one, the last
/// of which may go on.
pub proof fn lemma_split_prefix(a: Seq<char>, b: Seq<char>, sep: char)
    ensures
        split_on(a, sep).len() >= 1,
        split_on(a + b, sep).len() >= split_on(a, sep).len(),
        forall|i: int|
            0 <= i < split_on(a, sep).len() - 1 ==> split_on(a + b, sep)[i] == split_on(a, sep)[i],
        ({
            let n = split_on(a, sep).len() - 1;
            let l = split_on(a, sep)[n].len() as int;
            split_on(a + b, sep)[n].len() >= l && split_on(a + b, sep)[n].take(l) == split_on(
                a,
                sep,
            )[n]
        }),
    decreases b.len(),
{
    lemma_split_nonempty(a, sep);
    let n = split_on(a, sep).len() - 1;
    if b.len() == 0 {
        assert(a + b =~= a);
        assert(split_on(a, sep)[n].take(split_on(a, sep)[n].len() as int) =~= split_on(a, sep)[n]);
    } else {
        lemma_split_prefix(a, b.drop_last(), sep);
        assert((a + b).drop_last() =~= a + b.drop_last());
        let head = split_on(a + b.drop_last(), sep);
        let all = split_on(a + b, sep);
        let l = split_on(a, sep)[n].len() as int;
        if b.last() != sep && head.len() - 1 == n {
            assert(all[n] == head[n].push(b.last()));
            assert(all[n].take(l) =~= head[n].take(l));
        } else {
            assert(all[n] == head[n]);
        }
    }
}

/// Splits `s` at every `sep`.
pub fn split(s: &str, sep: char) -> (r: Vec<String>)
    ensures
        views(r@) == split_on(s@, sep),
        r@.len() >= 1,
{
    let chars = chars_of(s);
    let mut out: Vec<String> = Vec::new();
    let mut cur = String::new();
    let mut i: usize = 0;
    while i < chars.len()
        invariant
            i <= chars.len(),
            chars@ == s@,
            views(out@).push(cur@) == split_on(s@.take(i as int), sep),
        decreases chars.len() - i,
    {
        let ghost before = views(out@).push(cur@);
        assert(s@.take(i + 1).drop_last() =~= s@.take(i as int));
        if chars[i] == sep {
            let ghost out0 = out@;
            out.push(cur);
            assert(views(out@) =~= views(out0).push(cur@));
            cur = String::new();
        } else {
            let ghost c0 = cur@;
            cur.push(chars[i]);
            assert(before.drop_last() =~= views(out@));
            assert(before.last() == c0);
        }
        i += 1;
    }
    assert(s@.take(s@.len() as int) == s@);
    let ghost out0 = out@;
    out.push(cur);
    assert(views(out@) =~= views(out0).push(cur@));
    out
}

/// Joins `parts` with `sep` between them.
pub fn join_strings(parts: &Vec<String>, sep: &str) -> (r: String)
    ensures
        r@ == join(views(parts@), sep@),
{
    let mut s = String::new();
    let mut i: usize = 0;
    while i < parts.len()
        invariant
            i <= parts.len(),
            s@ == join(views(parts@).take(i as int), sep@),
        decreases parts.len() - i,
    {
        let ghost p = views(parts@).take(i + 1);
        assert(p.drop_last() =~= views(parts@).take(i as int));
        if i > 0 {
            s.append(sep);
        }
        s.append(parts[i].as_str());
        assert(s@ =~= join(p, sep@));
        i += 1;
    }
    assert(views(parts@).take(parts@.len() as int) =~= views(parts@));
    s
}

// ---------------------------------------------------------------------------
// Matching
// ---------------------------------------------------------------------------

/// Whether `pat` stands in `s` at position `i`.
pub open spec fn matches_at(s: Seq<char>, pat: Seq<char>, i: int) -> bool {
    0 <= i && i + pat.len() <= s.len() && s.subrange(i, i + pat.len()) == pat
}

pub open spec fn has_prefix(s: Seq<char>, pat: Seq<char>) -> bool {
    matches_at(s, pat, 0)
}

pub open spec fn has_suffix(s: Seq<char>, pat: Seq<char>) -> bool {
    matches_at(s, pat, s.len() - pat.len())
}

/// Whether `pat` stands somewhere in `s`.
pub open spec fn has_infix(s: Seq<char>, pat: Seq<char>) -> bool {
    exists|i: int| #[trigger] matches_at(s, pat, i)
}

fn match_at(s: &Vec<char>, pat: &Vec<char>, at: usize) -> (r: bool)
    requires
        at <= s@.len(),
    ensures
        r == matches_at(s@, pat@, at as int),
{
    if s.len() - at < pat.len() {
        return false;
    }
    let mut k: usize = 0;
    while k < pat.len()
        invariant
            k <= pat.len(),
            at + pat.len() <= s.len(),
            forall|j: int| 0 <= j < k ==> s@[at + j] == pat@[j],
        decreases pat@.len() - k,
    {
        if s[at + k] != pat[k] {
            assert(s@.subrange(at as int, at + pat@.len())[k as int] != pat@[k as int]);
            return false;
        }
        k += 1;
    }
    assert(s@.subrange(at as int, at + pat@.len()) =~= pat@);
    true
}

pub fn starts_with(s: &str, pat: &str) -> (r: bool)
    ensures
        r == has_prefix(s@, pat@),
{
    match_at(&chars_of(s), &chars_of(pat), 0)
}

pub fn ends_with(s: &str, pat: &str) -> (r: bool)
    ensures
        r == has_suffix(s@, pat@),
{
    let c = chars_of(s);
    let p = chars_of(pat);
    if p.len() > c.len() {
        return false;
    }
    match_at(&c, &p, c.len() - p.len())
}

/// Position of the first occurrence of `pat` in `s`, from `from` on.
fn find_from(s: &Vec<char>, pat: &Vec<char>, from: usize) -> (r: Option<usize>)
    requires
        from <= s@.len(),
    ensures
        match r {
            Some(i) => from <= i && i + pat@.len() <= s@.len() && matches_at(s@, pat@, i as int)
                && forall|k: int| from <= k < i ==> !#[trigger] matches_at(s@, pat@, k),
            None => forall|k: int| from <= k ==> !#[trigger] matches_at(s@, pat@, k),
        },
{
    let mut i: usize = from;
    loop
        invariant
            from <= i <= s@.len(),
            forall|k: int| from <= k < i ==> !#[trigger] matches_at(s@, pat@, k),
        decreases s@.len() - i,
    {
        if match_at(s, pat, i) {
            return Some(i);
        }
        if i == s.len() {
            return None;
        }
        i += 1;
    }
}

/// Position of the first `c` in `s` from `i` on; the length where there is
/// none.
pub open spec fn find_char(s: Seq<char>, c: char, i: int) -> int
    decreases s.len() - i,
{
    if i >= s.len() {
        s.len() as int
    } else if i >= 0 && s[i] == c {
        i
    } else {
        find_char(s, c, i + 1)
    }
}

/// Position of the first `c` among characters from `from` on.
pub fn find_char_from(s: &Vec<char>, c: char, from: usize) -> (r: usize)
    requires
        from <= s@.len(),
    ensures
        r == find_char(s@, c, from as int),
        from <= r <= s@.len(),
        r < s@.len() ==> s@[r as int] == c,
        forall|k: int| from <= k < r ==> s@[k] != c,
{
    let mut i: usize = from;
    while i < s.len() && s[i] != c
        invariant
            from <= i <= s@.len(),
            find_char(s@, c, from as int) == find_char(s@, c, i as int),
            forall|k: int| from <= k < i ==> s@[k] != c,
        decreases s@.len() - i,
    {
        i += 1;
    }
    i
}

/// Position of the first occurrence of `pat` in `s` from `i` on.
pub open spec fn find_infix(s: Seq<char>, pat: Seq<char>, i: int) -> Option<int>
    decreases s.len() + 1 - i,
{
    if i > s.len() {
        None
    } else if matches_at(s, pat, i) {
        Some(i)
    } else {
        find_infix(s, pat, i + 1)
    }
}

proof fn lemma_find_infix(s: Seq<char>, pat: Seq<char>, from: int, at: int)
    requires
        0 <= from <= at <= s.len() + 1,
        forall|k: int| from <= k < at ==> !#[trigger] matches_at(s, pat, k),
    ensures
        find_infix(s, pat, from) == find_infix(s, pat, at),
    decreases at - from,
{
    if from < at {
        assert(!matches_at(s, pat, from));
        lemma_find_infix(s, pat, from + 1, at);
    }
}

/// Position of the first occurrence of `pat` in `s`.
pub fn find(s: &str, pat: &str) -> (r: Option<usize>)
    ensures
        match r {
            Some(i) => find_infix(s@, pat@, 0) == Some(i as int) && i + pat@.len() <= s@.len(),
            None => find_infix(s@, pat@, 0) is None,
        },
{
    let c = chars_of(s);
    let p = chars_of(pat);
    let r = find_from(&c, &p, 0);
    proof {
        match r {
            Some(i) => {
                lemma_find_infix(s@, pat@, 0, i as int);
            },
            None => {
                lemma_find_infix(s@, pat@, 0, (s@.len() + 1) as int);
            },
        }
    }
    r
}

/// Length of `s` in UTF-8 bytes.
pub open spec fn byte_len(s: Seq<char>) -> usize {
    vstd::utf8::encode_utf8(s).len() as usize
}

pub fn contains(s: &str, pat: &str) -> (r: bool)
    ensures
        r == has_infix(s@, pat@),
{
    let c = chars_of(s);
    let p = chars_of(pat);
    match find_from(&c, &p, 0) {
        Some(i) => {
            assert(matches_at(s@, pat@, i as int));
            true
        },
        None => false,
    }
}

/// Whether `c` occurs in `s`.
pub fn contains_char(s: &str, c: char) -> (r: bool)
    ensures
        r == s@.contains(c),
{
    position(s, c).is_some()
}

/// Position of the first `c` in `s`.
pub fn position(s: &str, c: char) -> (r: Option<usize>)
    ensures
        match r {
            Some(i) => i < s@.len() && s@[i as int] == c && forall|k: int| 0 <= k < i ==> s@[k] != c,
            None => !s@.contains(c),
        },
        r is Some == s@.contains(c),
{
    let chars = chars_of(s);
    let mut i: usize = 0;
    while i < chars.len()
        invariant
            i <= chars.len(),
            chars@ == s@,
            forall|k: int| 0 <= k < i ==> s@[k] != c,
        decreases chars.len() - i,
    {
        if chars[i] == c {
            assert(s@[i as int] == c);
            return Some(i);
        }
        i += 1;
    }
    None
}

/// `s` with every occurrence of `from`, taken from the left and without
/// overlap, replaced by `to`.
pub open spec fn replaced(s: Seq<char>, from: Seq<char>, to: Seq<char>) -> Seq<char>
    decreases s.len(),
{
    if from.len() == 0 || s.len() == 0 {
        s
    } else if has_prefix(s, from) {
        to + replaced(s.skip(from.len() as int), from, to)
    } else {
        seq![s[0]] + replaced(s.skip(1), from, to)
    }
}

/// Replaces every occurrence of `from` in `s` by `to`.
pub fn replace(s: &str, from: &str, to: &str) -> (r: String)
    requires
        from@.len() > 0,
    ensures
        r@ == replaced(s@, from@, to@),
{
    let c = chars_of(s);
    let p = chars_of(from);
    let mut out = String::new();
    let mut i: usize = 0;
    assert(s@.skip(0) =~= s@);
    while i < c.len()
        invariant
            i <= c@.len(),
            c@ == s@,
            p@ == from@,
            p@.len() > 0,
            out@ + replaced(s@.skip(i as int), from@, to@) == replaced(s@, from@, to@),
        decreases c@.len() - i,
    {
        let ghost rest = s@.skip(i as int);
        let ghost out0 = out@;
        assert(matches_at(s@, from@, i as int) == has_prefix(rest, from@)) by {
            if i + from@.len() <= s@.len() {
                assert(s@.subrange(i as int, i + from@.len()) =~= rest.subrange(
                    0,
                    from@.len() as int,
                ));
            }
        }
        if match_at(&c, &p, i) {
            out.append(to);
            assert(rest.skip(from@.len() as int) =~= s@.skip(i + from@.len()));
            i = i + p.len();
            assert(out@ + replaced(s@.skip(i as int), from@, to@) =~= out0 + replaced(
                rest,
                from@,
                to@,
            ));
        } else {
            out.push(c[i]);
            assert(rest.skip(1) =~= s@.skip(i + 1));
            i += 1;
            assert(out@ + replaced(s@.skip(i as int), from@, to@) =~= out0 + replaced(
                rest,
                from@,
                to@,
            ));
        }
    }
    assert(s@.skip(i as int).len() == 0);
    assert(out@ + s@.skip(i as int) =~= out@);
    out
}

// ---------------------------------------------------------------------------
// Trimming
// ---------------------------------------------------------------------------

pub open spec fn trim_start(s: Seq<char>) -> Seq<char>
    decreases s.len(),
{
    if s.len() > 0 && unicode_whitespace(s[0]) {
        trim_start(s.skip(1))
    } else {
        s
    }
}

pub open spec fn trim_end(s: Seq<char>) -> Seq<char>
    decreases s.len(),
{
    if s.len() > 0 && unicode_whitespace(s.last()) {
        trim_end(s.drop_last())
    } else {
        s
    }
}

/// `s` without the whitespace at its two ends.
pub open spec fn trim(s: Seq<char>) -> Seq<char> {
    trim_end(trim_start(s))
}

pub fn trimmed_start(s: &str) -> (r: String)
    ensures
        r@ == trim_start(s@),
{
    let c = chars_of(s);
    let mut i: usize = 0;
    assert(s@.skip(0) =~= s@);
    while i < c.len() && c[i].is_whitespace()
        invariant
            i <= c@.len(),
            c@ == s@,
            trim_start(s@) == trim_start(s@.skip(i as int)),
        decreases c@.len() - i,
    {
        assert(s@.skip(i as int).skip(1) =~= s@.skip(i + 1));
        i += 1;
    }
    string_between(&c, i, c.len())
}

pub fn trimmed_end(s: &str) -> (r: String)
    ensures
        r@ == trim_end(s@),
{
    let c = chars_of(s);
    let mut n: usize = c.len();
    assert(s@.take(n as int) =~= s@);
    while n > 0 && c[n - 1].is_whitespace()
        invariant
            n <= c@.len(),
            c@ == s@,
            trim_end(s@) == trim_end(s@.take(n as int)),
        decreases n,
    {
        assert(s@.take(n as int).drop_last() =~= s@.take(n - 1));
        n -= 1;
    }
    string_between(&c, 0, n)
}

pub fn trimmed(s: &str) -> (r: String)
    ensures
        r@ == trim(s@),
{
    let a = trimmed_start(s);
    trimmed_end(a.as_str())
}

/// `s` without the leading run of `c`.
pub open spec fn strip_leading(s: Seq<char>, c: char) -> Seq<char>
    decreases s.len(),
{
    if s.len() > 0 && s[0] == c {
        strip_leading(s.skip(1), c)
    } else {
        s
    }
}

/// `s` without the trailing run of `c`.
pub open spec fn strip_trailing(s: Seq<char>, c: char) -> Seq<char>
    decreases s.len(),
{
    if s.len() > 0 && s.last() == c {
        strip_trailing(s.drop_last(), c)
    } else {
        s
    }
}

pub fn without_leading(s: &str, ch: char) -> (r: String)
    ensures
        r@ == strip_leading(s@, ch),
{
    let c = chars_of(s);
    let mut i: usize = 0;
    assert(s@.skip(0) =~= s@);
    while i < c.len() && c[i] == ch
        invariant
            i <= c@.len(),
            c@ == s@,
            strip_leading(s@, ch) == strip_leading(s@.skip(i as int), ch),
        decreases c@.len() - i,
    {
        assert(s@.skip(i as int).skip(1) =~= s@.skip(i + 1));
        i += 1;
    }
    string_between(&c, i, c.len())
}

pub fn without_trailing(s: &str, ch: char) -> (r: String)
    ensures
        r@ == strip_trailing(s@, ch),
{
    let c = chars_of(s);
    let mut n: usize = c.len();
    assert(s@.take(n as int) =~= s@);
    while n > 0 && c[n - 1] == ch
        invariant
            n <= c@.len(),
            c@ == s@,
            strip_trailing(s@, ch) == strip_trailing(s@.take(n as int), ch),
        decreases n,
    {
        assert(s@.take(n as int).drop_last() =~= s@.take(n - 1));
        n -= 1;
    }
    string_between(&c, 0, n)
}

// ---------------------------------------------------------------------------
// Lines and words
// ---------------------------------------------------------------------------

/// `line` without a carriage return at its end.
pub open spec fn strip_cr(line: Seq<char>) -> Seq<char> {
    if line.len() > 0 && line.last() == '\r' {
        line.drop_last()
    } else {
        line
    }
}

/// The lines of a text: each is ended by `\n` or `\r\n`, the last one
/// possibly by the end of the text.
pub open spec fn lines_of(s: Seq<char>) -> Seq<Seq<char>> {
    let pieces = split_on(s, '\n');
    let ended = pieces.drop_last().map_values(|p: Seq<char>| strip_cr(p));
    if pieces.last().len() == 0 {
        ended
    } else {
        ended.push(pieces.last())
    }
}

pub fn lines(s: &str) -> (r: Vec<String>)
    ensures
        views(r@) == lines_of(s@),
{
    let pieces = split(s, '\n');
    let ghost p = views(pieces@);
    let mut out: Vec<String> = Vec::new();
    let mut i: usize = 0;
    let n = pieces.len();
    while i + 1 < n
        invariant
            n == pieces.len(),
            n >= 1,
            i + 1 <= n,
            p == views(pieces@),
            views(out@) == p.take(i as int).map_values(|p: Seq<char>| strip_cr(p)),
        decreases n - i,
    {
        let line = pieces[i].as_str();
        let len = line.unicode_len();
        let ghost out0 = out@;
        if len > 0 && line.get_char(len - 1) == '\r' {
            let cut = take(line, len - 1);
            out.push(cut);
            assert(cut@ =~= strip_cr(line@));
        } else {
            out.push(line.to_owned());
        }
        assert(p[i as int] == line@);
        assert(views(out@) =~= views(out0).push(strip_cr(line@)));
        assert(p.take(i + 1) =~= p.take(i as int).push(p[i as int]));
        i += 1;
        assert(views(out@) =~= p.take(i as int).map_values(|p: Seq<char>| strip_cr(p)));
    }
    assert(p.take(i as int) =~= p.drop_last());
    let last = &pieces[i];
    assert(p.last() == last@);
    if !last.as_str().is_empty() {
        let ghost out0 = out@;
        out.push(last.clone());
        assert(views(out@) =~= views(out0).push(last@));
    }
    out
}

/// The maximal runs of characters that are not whitespace.
pub open spec fn words_of(s: Seq<char>) -> Seq<Seq<char>> {
    let (done, cur) = word_scan(s);
    if cur.len() == 0 {
        done
    } else {
        done.push(cur)
    }
}

/// The words that are complete, and the one that the text ends in.
pub open spec fn word_scan(s: Seq<char>) -> (Seq<Seq<char>>, Seq<char>)
    decreases s.len(),
{
    if s.len() == 0 {
        (Seq::empty(), Seq::empty())
    } else {
        let (done, cur) = word_scan(s.drop_last());
        if !unicode_whitespace(s.last()) {
            (done, cur.push(s.last()))
        } else if cur.len() == 0 {
            (done, cur)
        } else {
            (done.push(cur), Seq::empty())
        }
    }
}

pub fn words(s: &str) -> (r: Vec<String>)
    ensures
        views(r@) == words_of(s@),
{
    let c = chars_of(s);
    let mut out: Vec<String> = Vec::new();
    let mut cur = String::new();
    let mut i: usize = 0;
    assert(views(out@) =~= Seq::<Seq<char>>::empty());
    while i < c.len()
        invariant
            i <= c@.len(),
            c@ == s@,
            (views(out@), cur@) == word_scan(s@.take(i as int)),
        decreases c@.len() - i,
    {
        assert(s@.take(i + 1).drop_last() =~= s@.take(i as int));
        if !c[i].is_whitespace() {
            cur.push(c[i]);
        } else if !cur.as_str().is_empty() {
            let ghost out0 = out@;
            out.push(cur);
            assert(views(out@) =~= views(out0).push(cur@));
            cur = String::new();
        }
        i += 1;
    }
    assert(s@.take(s@.len() as int) =~= s@);
    if !cur.as_str().is_empty() {
        let ghost out0 = out@;
        out.push(cur);
        assert(views(out@) =~= views(out0).push(cur@));
    }
    out
}

// ---------------------------------------------------------------------------
// Numbers
// ---------------------------------------------------------------------------

/// The decimal digit of value `d`.
pub open spec fn digit(d: int) -> char {
    (('0' as int) + d) as char
}

/// A number in decimal notation.
pub open spec fn decimal(n: int) -> Seq<char>
    decreases n,
{
    if n < 10 {
        seq![digit(n)]
    } else {
        decimal(n / 10).push(digit(n % 10))
    }
}

/// A number that may be negative, in decimal notation.
pub open spec fn signed_decimal(n: int) -> Seq<char> {
    if n < 0 {
        seq!['-'] + decimal(-n)
    } else {
        decimal(n)
    }
}

proof fn lemma_decimal_nonempty(n: int)
    requires
        n >= 0,
    ensures
        decimal(n).len() >= 1,
        n >= 10 ==> decimal(n).len() >= 2,
    decreases n,
{
    if n >= 10 {
        lemma_decimal_nonempty(n / 10);
    }
}

/// Different numbers are written differently.
pub proof fn lemma_decimal_injective(a: int, b: int)
    requires
        0 <= a,
        0 <= b,
        a != b,
    ensures
        decimal(a) != decimal(b),
    decreases a,
{
    lemma_decimal_nonempty(a);
    lemma_decimal_nonempty(b);
    if decimal(a) == decimal(b) {
        if a >= 10 && b >= 10 {
            assert(decimal(a).drop_last() =~= decimal(a / 10));
            assert(decimal(b).drop_last() =~= decimal(b / 10));
            assert(decimal(a).last() == digit(a % 10));
            assert(decimal(b).last() == digit(b % 10));
            if a / 10 != b / 10 {
                lemma_decimal_injective(a / 10, b / 10);
            }
        } else {
            assert(decimal(a).len() >= 2 || a < 10);
            assert(decimal(a)[0] == decimal(b)[0]);
        }
    }
}

fn digit_char(d: u64) -> (c: char)
    requires
        d < 10,
    ensures
        c == digit(d as int),
{
    let b: u8 = (d + 48) as u8;
    b as char
}

pub fn decimal_string(n: u64) -> (r: String)
    ensures
        r@ == decimal(n as int),
    decreases n,
{
    if n < 10 {
        let mut s = String::new();
        s.push(digit_char(n));
        assert(s@ =~= seq![digit(n as int)]);
        s
    } else {
        let mut s = decimal_string(n / 10);
        s.push(digit_char(n % 10));
        s
    }
}

pub fn signed_decimal_string(n: i64) -> (r: String)
    ensures
        r@ == signed_decimal(n as int),
{
    if n >= 0 {
        decimal_string(n as u64)
    } else {
        let m: u64 = if n == i64::MIN {
            9223372036854775808u64
        } else {
            (-n) as u64
        };
        let d = decimal_string(m);
        let r = concat("-", d.as_str());
        proof {
            reveal_strlit("-");
        }
        assert(r@ =~= seq!['-'] + decimal(m as int));
        r
    }
}

pub fn usize_string(n: usize) -> (r: String)
    ensures
        r@ == decimal(n as int),
{
    decimal_string(n as u64)
}

} // verus!
