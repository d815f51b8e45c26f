//! What cutting, trimming and writing out text does, over every text.

#[allow(unused_imports)]
use vstd::prelude::*;

#[allow(unused_imports)]
use crate::text::{
    decimal, digit, find_char, find_infix, has_infix, has_prefix, has_suffix, lines_of, matches_at,
    repeated, replaced, signed_decimal, split_on, strip_cr, strip_leading, strip_trailing, trim,
    trim_end, trim_start, unicode_whitespace, word_scan, words_of,
};

verus! {

/// Nothing but whitespace.
pub open spec fn is_blank(s: Seq<char>) -> bool {
    forall|i: int| 0 <= i < s.len() ==> unicode_whitespace(#[trigger] s[i])
}

proof fn lemma_trim_start(s: Seq<char>)
    ensures
        trim_start(s).len() <= s.len(),
        trim_start(s) == s.skip(s.len() - trim_start(s).len()),
        is_blank(s.take(s.len() - trim_start(s).len())),
        trim_start(s).len() > 0 ==> !unicode_whitespace(trim_start(s)[0]),
    decreases s.len(),
{
    if s.len() > 0 && unicode_whitespace(s[0]) {
        lemma_trim_start(s.skip(1));
        let t = trim_start(s.skip(1));
        let n = s.len() - t.len();
        assert(s.skip(1).skip(n - 1) =~= s.skip(n));
        assert forall|i: int| 0 <= i < s.take(n).len() implies unicode_whitespace(
            #[trigger] s.take(n)[i],
        ) by {
            if i > 0 {
                assert(s.skip(1).take(n - 1)[i - 1] == s[i]);
            }
        }
    } else {
        assert(s.skip(0) =~= s);
    }
}

proof fn lemma_trim_end(s: Seq<char>)
    ensures
        trim_end(s).len() <= s.len(),
        trim_end(s) == s.take(trim_end(s).len() as int),
        is_blank(s.skip(trim_end(s).len() as int)),
        trim_end(s).len() > 0 ==> !unicode_whitespace(trim_end(s).last()),
    decreases s.len(),
{
    if s.len() > 0 && unicode_whitespace(s.last()) {
        lemma_trim_end(s.drop_last());
        let t = trim_end(s.drop_last());
        let n = t.len() as int;
        assert(s.drop_last().take(n) =~= s.take(n));
        assert forall|i: int| 0 <= i < s.skip(n).len() implies unicode_whitespace(
            #[trigger] s.skip(n)[i],
        ) by {
            if i < s.len() - n - 1 {
                assert(s.drop_last().skip(n)[i] == s[n + i]);
            }
        }
    } else {
        assert(s.take(s.len() as int) =~= s);
    }
}

/// Trimming takes whitespace, and all of it, from the two ends, and nothing
/// else.
pub proof fn law_trimming_takes_the_ends(s: Seq<char>)
    ensures
        ({
            let t = trim(s);
            let from = s.len() - trim_start(s).len();
            &&& 0 <= from <= from + t.len() <= s.len()
            &&& t == s.subrange(from, from + t.len())
            &&& is_blank(s.take(from))
            &&& is_blank(s.skip(from + t.len()))
            &&& t.len() > 0 ==> !unicode_whitespace(t[0]) && !unicode_whitespace(t.last())
        }),
{
    lemma_trim_start(s);
    let u = trim_start(s);
    lemma_trim_end(u);
    let t = trim(s);
    let from = s.len() - u.len();
    assert(t =~= s.subrange(from, from + t.len()));
    assert(s.skip(from + t.len()) =~= u.skip(t.len() as int));
    if t.len() > 0 {
        assert(t[0] == u[0]);
    }
}

/// Leading and trailing marks are all taken off, and nothing else.
pub proof fn law_marks_are_stripped(s: Seq<char>, c: char, n: nat)
    ensures
        s.len() > 0 ==> s[0] != c ==> strip_leading(repeated(c, n) + s, c) == s,
        s.len() > 0 ==> s.last() != c ==> strip_trailing(s + repeated(c, n), c) == s,
    decreases n,
{
    if n == 0 {
        assert(repeated(c, n) + s =~= s);
        assert(s + repeated(c, n) =~= s);
    } else {
        law_marks_are_stripped(s, c, (n - 1) as nat);
        assert((repeated(c, n) + s).skip(1) =~= repeated(c, (n - 1) as nat) + s);
        assert((s + repeated(c, n)).drop_last() =~= s + repeated(c, (n - 1) as nat));
    }
}

/// The whitespace dropped.
pub open spec fn squeezed(s: Seq<char>) -> Seq<char>
    decreases s.len(),
{
    if s.len() == 0 {
        Seq::empty()
    } else if unicode_whitespace(s.last()) {
        squeezed(s.drop_last())
    } else {
        squeezed(s.drop_last()).push(s.last())
    }
}

/// Sequences one after the other.
pub open spec fn flat(w: Seq<Seq<char>>) -> Seq<char>
    decreases w.len(),
{
    if w.len() == 0 {
        Seq::empty()
    } else {
        flat(w.drop_last()) + w.last()
    }
}

pub open spec fn is_word(w: Seq<char>) -> bool {
    w.len() > 0 && forall|i: int| 0 <= i < w.len() ==> !unicode_whitespace(#[trigger] w[i])
}

proof fn lemma_word_scan(s: Seq<char>)
    ensures
        flat(word_scan(s).0) + word_scan(s).1 == squeezed(s),
        forall|k: int| 0 <= k < word_scan(s).0.len() ==> is_word(#[trigger] word_scan(s).0[k]),
        forall|i: int| 0 <= i < word_scan(s).1.len() ==> !unicode_whitespace(
            #[trigger] word_scan(s).1[i],
        ),
        s.len() > 0 && !unicode_whitespace(s.last()) ==> word_scan(s).1.len() > 0,
        s.len() > 0 && unicode_whitespace(s.last()) ==> word_scan(s).1.len() == 0,
    decreases s.len(),
{
    if s.len() > 0 {
        lemma_word_scan(s.drop_last());
        let (done, cur) = word_scan(s.drop_last());
        if !unicode_whitespace(s.last()) {
            assert(flat(done) + cur.push(s.last()) =~= (flat(done) + cur).push(s.last()));
        } else if cur.len() > 0 {
            assert(done.push(cur).drop_last() =~= done);
            assert(flat(done.push(cur)) + Seq::<char>::empty() =~= flat(done) + cur);
        }
    } else {
        assert(flat(word_scan(s).0) + word_scan(s).1 =~= squeezed(s));
    }
}

/// The words of a text are without whitespace, none is empty, and together
/// they are all of the text that is no whitespace, in order.
pub proof fn law_words_hold_the_text(s: Seq<char>)
    ensures
        flat(words_of(s)) == squeezed(s),
        forall|k: int| 0 <= k < words_of(s).len() ==> is_word(#[trigger] words_of(s)[k]),
{
    lemma_word_scan(s);
    let (done, cur) = word_scan(s);
    if cur.len() > 0 {
        assert(done.push(cur).drop_last() =~= done);
    } else {
        assert(flat(done) + cur =~= flat(done));
    }
}

/// Whitespace parts words: those before it and those behind it are the words
/// of the whole.
pub proof fn law_whitespace_parts_words(a: Seq<char>, c: char, b: Seq<char>)
    ensures
        unicode_whitespace(c) ==> words_of(a.push(c) + b) == words_of(a) + words_of(b),
    decreases b.len(),
{
    if unicode_whitespace(c) {
        lemma_scan_on(a.push(c), b);
        let (done, cur) = word_scan(a);
        assert(a.push(c).drop_last() =~= a);
        assert(word_scan(a.push(c)).0 =~= words_of(a));
        assert(words_of(a.push(c) + b) =~= words_of(a) + words_of(b));
    }
}

proof fn lemma_scan_on(a: Seq<char>, b: Seq<char>)
    requires
        word_scan(a).1.len() == 0,
    ensures
        word_scan(a + b) == (word_scan(a).0 + word_scan(b).0, word_scan(b).1),
    decreases b.len(),
{
    if b.len() == 0 {
        assert(a + b =~= a);
        assert(word_scan(a).0 + word_scan(b).0 =~= word_scan(a).0);
        assert(word_scan(a).1 =~= word_scan(b).1);
    } else {
        lemma_scan_on(a, b.drop_last());
        assert((a + b).drop_last() =~= a + b.drop_last());
        let (done, cur) = word_scan(b.drop_last());
        assert((word_scan(a).0 + done).push(cur) =~= word_scan(a).0 + done.push(cur));
    }
}

/// Where a text does not hold what is to be replaced, it stays; otherwise what
/// stands before the first occurrence stays, and the rest is replaced on.
pub proof fn law_replacing_changes_occurrences_only(
    s: Seq<char>,
    from: Seq<char>,
    to: Seq<char>,
    k: int,
)
    requires
        from.len() > 0,
        0 <= k <= s.len(),
        forall|i: int| 0 <= i < k ==> !#[trigger] matches_at(s, from, i),
    ensures
        k == s.len() ==> replaced(s, from, to) == s,
        matches_at(s, from, k) ==> replaced(s, from, to) == s.take(k) + to + replaced(
            s.skip(k + from.len()),
            from,
            to,
        ),
    decreases k,
{
    if k == 0 {
        if matches_at(s, from, 0) {
            assert(s.take(0) + to =~= to);
        } else if s.len() == 0 {
            assert(replaced(s, from, to) == s);
        }
    } else {
        assert(!matches_at(s, from, 0));
        let t = s.skip(1);
        assert forall|i: int| 0 <= i < k - 1 implies !#[trigger] matches_at(t, from, i) by {
            assert(!matches_at(s, from, i + 1));
            if matches_at(t, from, i) {
                assert(s.subrange(i + 1, i + 1 + from.len()) =~= t.subrange(i, i + from.len()));
            }
        }
        law_replacing_changes_occurrences_only(t, from, to, k - 1);
        assert(seq![s[0]] + t =~= s);
        if matches_at(s, from, k) {
            assert(t.subrange(k - 1, k - 1 + from.len()) =~= s.subrange(k, k + from.len()));
            assert(matches_at(t, from, k - 1));
            let rest = replaced(s.skip(k + from.len()), from, to);
            assert(t.skip(k - 1 + from.len()) =~= s.skip(k + from.len()));
            assert(seq![s[0]] + (t.take(k - 1) + to + rest) =~= s.take(k) + to + rest);
        }
    }
}

/// A search in a text gives the first place, and none where there is none.
pub proof fn law_searching_gives_the_first_place(s: Seq<char>, pat: Seq<char>, c: char, i: int)
    requires
        0 <= i <= s.len(),
    ensures
        match find_infix(s, pat, i) {
            Some(k) => i <= k && matches_at(s, pat, k) && forall|j: int|
                i <= j < k ==> !#[trigger] matches_at(s, pat, j),
            None => forall|j: int| i <= j <= s.len() ==> !#[trigger] matches_at(s, pat, j),
        },
        ({
            let k = find_char(s, c, i);
            &&& i <= k <= s.len()
            &&& k < s.len() ==> s[k] == c
            &&& forall|j: int| i <= j < k ==> #[trigger] s[j] != c
        }),
    decreases s.len() - i,
{
    if i < s.len() {
        law_searching_gives_the_first_place(s, pat, c, i + 1);
    } else if !matches_at(s, pat, i) {
        assert(find_infix(s, pat, i + 1) is None);
    }
}

/// The value that digits have.
pub open spec fn value(s: Seq<char>) -> int
    decreases s.len(),
{
    if s.len() == 0 {
        0
    } else {
        value(s.drop_last()) * 10 + (s.last() as int - '0' as int)
    }
}

/// A number is written with decimal digits of its value, without leading
/// zeros; a negative one with a minus sign.
pub proof fn law_numbers_are_written_in_decimal(n: int)
    ensures
        n >= 0 ==> value(decimal(n)) == n && decimal(n).len() > 0,
        n >= 0 ==> forall|i: int|
            0 <= i < decimal(n).len() ==> '0' <= #[trigger] decimal(n)[i] && decimal(n)[i] <= '9',
        n > 0 ==> decimal(n)[0] != '0',
        n >= 0 ==> signed_decimal(n) == decimal(n),
        n < 0 ==> signed_decimal(n) == seq!['-'] + decimal(-n),
    decreases n,
{
    if n >= 10 {
        law_numbers_are_written_in_decimal(n / 10);
        let d = decimal(n / 10);
        assert(decimal(n).drop_last() =~= d);
        assert(decimal(n).last() == digit(n % 10));
        assert(digit(n % 10) as int == '0' as int + n % 10);
    } else if n >= 0 {
        assert(seq![digit(n)].drop_last() =~= Seq::<char>::empty());
        assert(value(seq![digit(n)].drop_last()) == 0);
        assert(digit(n) as int == '0' as int + n);
    }
}

/// A prefix is what a text starts with, a suffix what it ends with.
pub proof fn law_prefixes_and_suffixes(a: Seq<char>, b: Seq<char>, s: Seq<char>, p: Seq<char>)
    ensures
        has_prefix(a + b, a),
        has_suffix(a + b, b),
        has_prefix(s, p) ==> s == p + s.skip(p.len() as int),
        has_suffix(s, p) ==> s == s.take(s.len() - p.len()) + p,
        has_infix(a + p + b, p),
{
    assert((a + b).subrange(0, a.len() as int) =~= a);
    assert((a + b).subrange(a.len() as int, (a + b).len() as int) =~= b);
    if has_prefix(s, p) {
        assert(s =~= s.subrange(0, p.len() as int) + s.skip(p.len() as int));
    }
    if has_suffix(s, p) {
        assert(s =~= s.take(s.len() - p.len()) + s.subrange(s.len() - p.len(), s.len() as int));
    }
    let t = a + p + b;
    assert(t.subrange(a.len() as int, (a.len() + p.len()) as int) =~= p);
    assert(matches_at(t, p, a.len() as int));
}

/// A text of lines without line breaks of their own is read as these lines.
pub proof fn law_lines_are_read_back(l: Seq<char>, rest: Seq<char>)
    ensures
        !l.contains('\n') && !(l.len() > 0 && l.last() == '\r') ==> lines_of(
            l + seq!['\n'] + rest,
        ) == seq![l] + lines_of(rest),
        !l.contains('\n') && l.len() > 0 ==> lines_of(l) == seq![l],
        lines_of(Seq::empty()).len() == 0,
{
    let e = Seq::<char>::empty();
    assert(split_on(e, '\n') =~= seq![e]);
    assert(lines_of(e) =~= Seq::<Seq<char>>::empty());
    if !l.contains('\n') {
        lemma_one_piece(l, '\n');
        if l.len() > 0 {
            assert(seq![l].drop_last() =~= Seq::<Seq<char>>::empty());
            assert(lines_of(l) =~= seq![l]);
        }
        lemma_split_at(l, '\n', rest);
        let p = split_on(rest, '\n');
        let all = split_on(l + seq!['\n'] + rest, '\n');
        crate::text::lemma_split_nonempty(rest, '\n');
        assert(all == seq![l] + p);
        assert(all.last() == p.last());
        assert(all.drop_last() =~= seq![l] + p.drop_last());
        if !(l.len() > 0 && l.last() == '\r') {
            assert(all.drop_last().map_values(|x: Seq<char>| strip_cr(x)) =~= seq![l]
                + p.drop_last().map_values(|x: Seq<char>| strip_cr(x)));
            assert(lines_of(l + seq!['\n'] + rest) =~= seq![l] + lines_of(rest));
        }
    }
}

pub(crate) proof fn lemma_one_piece(l: Seq<char>, sep: char)
    requires
        !l.contains(sep),
    ensures
        split_on(l, sep) == seq![l],
    decreases l.len(),
{
    if l.len() > 0 {
        let d = l.drop_last();
        assert(!d.contains(sep)) by {
            if d.contains(sep) {
                let k = choose|k: int| 0 <= k < d.len() && d[k] == sep;
                assert(l[k] == sep);
            }
        }
        lemma_one_piece(d, sep);
        assert(l.last() != sep) by {
            assert(l.contains(l[l.len() - 1]));
        }
        assert(d.push(l.last()) =~= l);
        assert(split_on(l, sep) =~= seq![l]);
    } else {
        assert(l =~= Seq::<char>::empty());
    }
}

pub(crate) proof fn lemma_split_at(l: Seq<char>, sep: char, rest: Seq<char>)
    requires
        !l.contains(sep),
    ensures
        split_on(l + seq![sep] + rest, sep) == seq![l] + split_on(rest, sep),
    decreases rest.len(),
{
    let whole = l + seq![sep] + rest;
    if rest.len() == 0 {
        assert(whole.drop_last() =~= l);
        assert(rest =~= Seq::<char>::empty());
        lemma_one_piece(l, sep);
        assert(split_on(whole, sep) =~= seq![l] + split_on(rest, sep));
    } else {
        lemma_split_at(l, sep, rest.drop_last());
        assert(whole.drop_last() =~= l + seq![sep] + rest.drop_last());
        assert(whole.last() == rest.last());
        let p = split_on(rest.drop_last(), sep);
        crate::text::lemma_split_nonempty(rest.drop_last(), sep);
        assert((seq![l] + p).last() == p.last());
        assert((seq![l] + p).drop_last() =~= seq![l] + p.drop_last());
        assert(split_on(whole, sep) =~= seq![l] + split_on(rest, sep));
    }
}

} // verus!
