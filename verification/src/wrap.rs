//! Soft wrapping: long lines broken at words to a width, inline pictures kept
//! whole.

use vstd::prelude::*;

use crate::style;
use crate::style::{Line, Span};
#[allow(unused_imports)]
use crate::style::{content, LineView, SpanView};
use crate::text;
#[allow(unused_imports)]
use crate::text::views;

verus! {

/// Columns that stay together: first column and number of columns.
pub open spec fn breakable(held: Seq<(usize, usize)>, k: int) -> bool {
    forall|j: int|
        0 <= j < held.len() ==> !((#[trigger] held[j]).0 < k && k < held[j].0 + held[j].1)
}

/// The last break after a space in (`s`, `k`].
pub open spec fn last_space(chars: Seq<char>, held: Seq<(usize, usize)>, s: int, k: int) -> Option<
    int,
>
    decreases k - s,
{
    if k <= s {
        None
    } else if chars[k - 1] == ' ' && breakable(held, k) {
        Some(k)
    } else {
        last_space(chars, held, s, k - 1)
    }
}

/// The last break in (`s`, `k`].
pub open spec fn last_cut(held: Seq<(usize, usize)>, s: int, k: int) -> Option<int>
    decreases k - s,
{
    if k <= s {
        None
    } else if breakable(held, k) {
        Some(k)
    } else {
        last_cut(held, s, k - 1)
    }
}

/// The first break from `k` on; the end of the line is one.
pub open spec fn next_cut(held: Seq<(usize, usize)>, k: int, n: int) -> int
    decreases n - k,
{
    if k >= n {
        n
    } else if breakable(held, k) {
        k
    } else {
        next_cut(held, k + 1, n)
    }
}

/// Where the row that starts at `s` ends: after the last word that fits, else
/// after the last column that fits, else after the picture that does not fit.
pub open spec fn row_end(chars: Seq<char>, held: Seq<(usize, usize)>, w: int, s: int) -> int {
    let n = chars.len() as int;
    if n - s <= w {
        n
    } else {
        match last_space(chars, held, s, s + w) {
            Some(k) => k,
            None => match last_cut(held, s, s + w) {
                Some(k) => k,
                None => next_cut(held, s + w + 1, n),
            },
        }
    }
}

/// Where the rows of a line start, from `s` on.
pub open spec fn row_starts(chars: Seq<char>, held: Seq<(usize, usize)>, w: int, s: int) -> Seq<
    usize,
>
    decreases chars.len() - s,
{
    let e = row_end(chars, held, w, s);
    if s < e && e < chars.len() {
        seq![s as usize] + row_starts(chars, held, w, e)
    } else {
        seq![s as usize]
    }
}

/// The row that a column is on.
pub open spec fn row_of(starts: Seq<usize>, col: int) -> int
    decreases starts.len(),
{
    if starts.len() <= 1 {
        0
    } else if starts.last() <= col {
        starts.len() - 1
    } else {
        row_of(starts.drop_last(), col)
    }
}

fn can_break(held: &Vec<(usize, usize)>, k: usize) -> (r: bool)
    ensures
        r == breakable(held@, k as int),
{
    let mut j: usize = 0;
    while j < held.len()
        invariant
            j <= held@.len(),
            forall|i: int|
                0 <= i < j ==> !((#[trigger] held@[i]).0 < k && k < held@[i].0 + held@[i].1),
        decreases held@.len() - j,
    {
        let (at, n) = held[j];
        if at < k && k - at < n {
            assert(held@[j as int].0 < k);
            return false;
        }
        j += 1;
    }
    true
}

proof fn lemma_row_end(chars: Seq<char>, held: Seq<(usize, usize)>, w: int, s: int)
    requires
        0 <= s < chars.len(),
        w >= 1,
    ensures
        s < row_end(chars, held, w, s) <= chars.len(),
{
    if chars.len() - s > w {
        lemma_last_space(chars, held, s, s + w);
        lemma_last_cut(held, s, s + w);
        lemma_next_cut(held, s + w + 1, chars.len() as int);
    }
}

proof fn lemma_last_space(chars: Seq<char>, held: Seq<(usize, usize)>, s: int, k: int)
    ensures
        last_space(chars, held, s, k) matches Some(x) ==> s < x <= k,
    decreases k - s,
{
    if k > s {
        lemma_last_space(chars, held, s, k - 1);
    }
}

proof fn lemma_last_cut(held: Seq<(usize, usize)>, s: int, k: int)
    ensures
        last_cut(held, s, k) matches Some(x) ==> s < x <= k,
    decreases k - s,
{
    if k > s {
        lemma_last_cut(held, s, k - 1);
    }
}

proof fn lemma_next_cut(held: Seq<(usize, usize)>, k: int, n: int)
    ensures
        next_cut(held, k, n) <= n,
        k <= n ==> k <= next_cut(held, k, n),
    decreases n - k,
{
    if k < n {
        lemma_next_cut(held, k + 1, n);
    }
}

fn find_row_end(chars: &Vec<char>, held: &Vec<(usize, usize)>, w: usize, s: usize) -> (r: usize)
    requires
        s < chars@.len(),
        w >= 1,
    ensures
        r == row_end(chars@, held@, w as int, s as int),
        s < r <= chars@.len(),
{
    proof {
        lemma_row_end(chars@, held@, w as int, s as int);
    }
    let n = chars.len();
    if n - s <= w {
        return n;
    }
    let limit = s + w;
    if let Some(k) = find_space(chars, held, s, limit) {
        return k;
    }
    if let Some(k) = find_cut(held, s, limit) {
        return k;
    }
    let mut k: usize = limit + 1;
    while k < n && !can_break(held, k)
        invariant
            limit < k <= n,
            next_cut(held@, limit + 1, n as int) == next_cut(held@, k as int, n as int),
        decreases n - k,
    {
        k += 1;
    }
    k
}

fn find_space(chars: &Vec<char>, held: &Vec<(usize, usize)>, s: usize, limit: usize) -> (r: Option<
    usize,
>)
    requires
        s <= limit <= chars@.len(),
    ensures
        match r {
            Some(k) => last_space(chars@, held@, s as int, limit as int) == Some(k as int),
            None => last_space(chars@, held@, s as int, limit as int) is None,
        },
{
    let mut k: usize = limit;
    while k > s
        invariant
            s <= k <= limit <= chars@.len(),
            last_space(chars@, held@, s as int, limit as int) == last_space(
                chars@,
                held@,
                s as int,
                k as int,
            ),
        decreases k,
    {
        if chars[k - 1] == ' ' && can_break(held, k) {
            return Some(k);
        }
        k -= 1;
    }
    None
}

fn find_cut(held: &Vec<(usize, usize)>, s: usize, limit: usize) -> (r: Option<usize>)
    requires
        s <= limit,
    ensures
        match r {
            Some(k) => last_cut(held@, s as int, limit as int) == Some(k as int),
            None => last_cut(held@, s as int, limit as int) is None,
        },
{
    let mut k: usize = limit;
    while k > s
        invariant
            s <= k <= limit,
            last_cut(held@, s as int, limit as int) == last_cut(held@, s as int, k as int),
        decreases k,
    {
        if can_break(held, k) {
            return Some(k);
        }
        k -= 1;
    }
    None
}

/// Where the rows of a line start.
pub fn wrap_starts(chars: &Vec<char>, held: &Vec<(usize, usize)>, w: usize) -> (r: Vec<usize>)
    requires
        w >= 1,
    ensures
        r@ == row_starts(chars@, held@, w as int, 0),
        r@.len() >= 1,
{
    let mut r: Vec<usize> = Vec::new();
    let mut s: usize = 0;
    let n = chars.len();
    if n == 0 {
        r.push(0);
        assert(r@ =~= seq![0usize]);
        return r;
    }
    loop
        invariant
            n == chars@.len(),
            s < n,
            w >= 1,
            r@ + row_starts(chars@, held@, w as int, s as int) == row_starts(
                chars@,
                held@,
                w as int,
                0,
            ),
        decreases n - s,
    {
        let e = find_row_end(chars, held, w, s);
        let ghost r0 = r@;
        r.push(s);
        if e >= n {
            assert(r@ =~= r0 + seq![s]);
            return r;
        }
        assert(r@ + row_starts(chars@, held@, w as int, e as int) =~= r0 + (seq![s] + row_starts(
            chars@,
            held@,
            w as int,
            e as int,
        )));
        s = e;
    }
}

/// The row that a column is on.
pub fn find_row(starts: &Vec<usize>, col: usize) -> (r: usize)
    requires
        starts@.len() >= 1,
    ensures
        r == row_of(starts@, col as int),
        r < starts@.len(),
{
    let mut i: usize = starts.len();
    assert(starts@.take(i as int) =~= starts@);
    while i > 1 && starts[i - 1] > col
        invariant
            1 <= i <= starts@.len(),
            row_of(starts@, col as int) == row_of(starts@.take(i as int), col as int),
        decreases i,
    {
        assert(starts@.take(i as int).drop_last() =~= starts@.take(i - 1));
        i -= 1;
    }
    i - 1
}

// ---------------------------------------------------------------------------
// Cutting lines
// ---------------------------------------------------------------------------

pub open spec fn clamp_to(k: int, n: int) -> int {
    if k < 0 {
        0
    } else if k > n {
        n
    } else {
        k
    }
}

/// The columns `a` to `b` of spans.
pub open spec fn cut_spans(spans: Seq<SpanView>, a: int, b: int) -> Seq<SpanView>
    decreases spans.len(),
{
    if spans.len() == 0 {
        Seq::empty()
    } else {
        let s = spans[0];
        let n = s.content.len() as int;
        let rest = cut_spans(spans.skip(1), a - n, b - n);
        let from = clamp_to(a, n);
        let to = clamp_to(b, n);
        if from < to {
            seq![SpanView { content: s.content.subrange(from, to), ..s }] + rest
        } else {
            rest
        }
    }
}

pub open spec fn cut_line(line: LineView, a: int, b: int) -> LineView {
    LineView { spans: cut_spans(line.spans, a, b), ..line }
}

fn clamped_gap(a: usize, at: usize, n: usize) -> (r: usize)
    ensures
        r == clamp_to(a - at, n as int),
{
    if a <= at {
        0
    } else if a - at > n {
        n
    } else {
        a - at
    }
}

/// The columns `a` to `b` of a line.
pub fn cut(line: &Line, a: usize, b: usize) -> (r: Line)
    requires
        line@.text().len() <= usize::MAX,
    ensures
        r@ == cut_line(line@, a as int, b as int),
{
    let ghost all = line@.spans;
    let mut spans: Vec<Span> = Vec::new();
    let mut i: usize = 0;
    let mut at: usize = 0;
    assert(all.skip(0) =~= all);
    assert(views(spans@) + cut_spans(all, a as int, b as int) =~= cut_spans(
        all,
        a as int,
        b as int,
    ));
    proof {
        lemma_content_len(all, 0);
    }
    while i < line.spans.len()
        invariant
            i <= line.spans@.len(),
            all == views(line.spans@),
            line@.text().len() <= usize::MAX,
            line@.text() == content(all),
            at == content(all.take(i as int)).len(),
            views(spans@) + cut_spans(all.skip(i as int), a - at, b - at) == cut_spans(
                all,
                a as int,
                b as int,
            ),
        decreases line.spans@.len() - i,
    {
        let s = &line.spans[i];
        let v = text::chars_of(s.content.as_str());
        let n = v.len();
        let from = clamped_gap(a, at, n);
        let to = clamped_gap(b, at, n);
        let ghost sp0 = spans@;
        let ghost rest = all.skip(i as int);
        assert(rest[0] == s@);
        assert(rest.skip(1) =~= all.skip(i + 1));
        if from < to {
            let piece = Span {
                content: text::string_between(&v, from, to),
                style: s.style.duplicate(),
            };
            assert(piece@ == SpanView {
                content: s@.content.subrange(from as int, to as int),
                ..s@
            });
            spans.push(piece);
            assert(views(spans@) =~= views(sp0).push(piece@));
            assert(views(spans@) + cut_spans(rest.skip(1), a - at - n, b - at - n) =~= views(sp0)
                + (seq![piece@] + cut_spans(rest.skip(1), a - at - n, b - at - n)));
        }
        proof {
            lemma_content_len(all, i + 1);
            assert(all.take(i + 1).drop_last() =~= all.take(i as int));
        }
        at = at + n;
        i += 1;
    }
    assert(all.skip(i as int) =~= Seq::<SpanView>::empty());
    assert(views(spans@) =~= cut_spans(all, a as int, b as int));
    Line { spans, style: line.style.duplicate() }
}

/// The first spans have no more characters than all.
proof fn lemma_content_len(spans: Seq<SpanView>, k: int)
    requires
        0 <= k <= spans.len(),
    ensures
        content(spans.take(k)).len() <= content(spans).len(),
    decreases spans.len(),
{
    if k == spans.len() {
        assert(spans.take(k) =~= spans);
    } else {
        lemma_content_len(spans.drop_last(), k);
        assert(spans.drop_last().take(k) =~= spans.take(k));
    }
}

/// The rows of a line: the line itself where it fits.
pub open spec fn wrapped(line: LineView, starts: Seq<usize>) -> Seq<LineView> {
    if starts.len() <= 1 {
        seq![line]
    } else {
        Seq::new(
            starts.len(),
            |k: int|
                cut_line(
                    line,
                    starts[k] as int,
                    if k + 1 < starts.len() {
                        starts[k + 1] as int
                    } else {
                        line.text().len() as int
                    },
                ),
        )
    }
}

/// The rows of a line, given where they start.
pub fn wrap_line(line: &Line, starts: &Vec<usize>) -> (r: Vec<Line>)
    requires
        line@.text().len() <= usize::MAX,
    ensures
        views(r@) == wrapped(line@, starts@),
{
    let mut r: Vec<Line> = Vec::new();
    if starts.len() <= 1 {
        r.push(line.duplicate());
        assert(views(r@) =~= seq![line@]);
        return r;
    }
    let end = style::line_chars(line);
    let ghost want = wrapped(line@, starts@);
    let mut k: usize = 0;
    while k < starts.len()
        invariant
            k <= starts@.len(),
            starts@.len() > 1,
            end == line@.text().len(),
            want == wrapped(line@, starts@),
            r@.len() == k,
            forall|j: int| 0 <= j < k ==> (#[trigger] r@[j])@ == want[j],
        decreases starts@.len() - k,
    {
        let to = if k + 1 < starts.len() {
            starts[k + 1]
        } else {
            end
        };
        r.push(cut(line, starts[k], to));
        k += 1;
    }
    assert(views(r@) =~= want);
    r
}

/// Wrapping loses nothing: the rows' columns are those of the line.
pub proof fn law_cutting_keeps_the_columns(spans: Seq<SpanView>, a: int, b: int)
    requires
        0 <= a <= b <= content(spans).len(),
    ensures
        content(cut_spans(spans, a, b)) == content(spans).subrange(a, b),
{
    lemma_cut_content(spans, a, b);
    assert(clamp_to(a, content(spans).len() as int) == a);
    assert(clamp_to(b, content(spans).len() as int) == b);
}

proof fn lemma_content_cons(s: SpanView, rest: Seq<SpanView>)
    ensures
        content(seq![s] + rest) == s.content + content(rest),
    decreases rest.len(),
{
    if rest.len() == 0 {
        assert(seq![s] + rest =~= seq![s]);
        assert(seq![s].drop_last() =~= Seq::<SpanView>::empty());
        reveal_with_fuel(content, 2);
        assert(content(seq![s]) =~= s.content);
        assert(s.content + content(rest) =~= s.content);
    } else {
        assert((seq![s] + rest).drop_last() =~= seq![s] + rest.drop_last());
        lemma_content_cons(s, rest.drop_last());
        assert(s.content + content(rest.drop_last()) + rest.last().content =~= s.content + (content(
            rest.drop_last(),
        ) + rest.last().content));
    }
}

proof fn lemma_cut_content(spans: Seq<SpanView>, a: int, b: int)
    requires
        a <= b,
    ensures
        ({
            let n = content(spans).len() as int;
            content(cut_spans(spans, a, b)) == content(spans).subrange(
                clamp_to(a, n),
                clamp_to(b, n),
            )
        }),
    decreases spans.len(),
{
    let all = content(spans);
    if spans.len() == 0 {
        assert(content(cut_spans(spans, a, b)) =~= all.subrange(0, 0));
    } else {
        let s = spans[0];
        let n = s.content.len() as int;
        let rest = spans.skip(1);
        assert(spans =~= seq![s] + rest);
        lemma_content_cons(s, rest);
        lemma_cut_content(rest, a - n, b - n);
        let tail = cut_spans(rest, a - n, b - n);
        let from = clamp_to(a, n);
        let to = clamp_to(b, n);
        let m = content(rest).len() as int;
        let part = content(rest).subrange(clamp_to(a - n, m), clamp_to(b - n, m));
        if from < to {
            let piece = SpanView { content: s.content.subrange(from, to), ..s };
            lemma_content_cons(piece, tail);
            assert(piece.content + part =~= all.subrange(
                clamp_to(a, n + m),
                clamp_to(b, n + m),
            ));
        } else {
            assert(part =~= all.subrange(clamp_to(a, n + m), clamp_to(b, n + m)));
        }
    }
}

/// Every row starts after the one before it, and a row that holds no picture
/// wider than the width is no longer than the width.
pub proof fn law_rows_fit_the_width(
    chars: Seq<char>,
    held: Seq<(usize, usize)>,
    w: int,
    s: int,
)
    requires
        0 <= s < chars.len(),
        w >= 1,
    ensures
        s < row_end(chars, held, w, s) <= chars.len(),
        last_cut(held, s, s + w) is Some || chars.len() - s <= w ==> row_end(chars, held, w, s) - s
            <= w,
{
    lemma_row_end(chars, held, w, s);
    lemma_last_space(chars, held, s, s + w);
    lemma_last_cut(held, s, s + w);
}

/// A row never ends inside a picture.
pub proof fn law_pictures_stay_whole(chars: Seq<char>, held: Seq<(usize, usize)>, w: int, s: int)
    requires
        0 <= s < chars.len(),
        w >= 1,
    ensures
        row_end(chars, held, w, s) == chars.len() || breakable(held, row_end(chars, held, w, s)),
{
    lemma_space_breaks(chars, held, s, s + w);
    lemma_cut_breaks(held, s, s + w);
    lemma_next_breaks(held, s + w + 1, chars.len() as int);
}

proof fn lemma_space_breaks(chars: Seq<char>, held: Seq<(usize, usize)>, s: int, k: int)
    ensures
        last_space(chars, held, s, k) matches Some(x) ==> breakable(held, x),
    decreases k - s,
{
    if k > s {
        lemma_space_breaks(chars, held, s, k - 1);
    }
}

proof fn lemma_cut_breaks(held: Seq<(usize, usize)>, s: int, k: int)
    ensures
        last_cut(held, s, k) matches Some(x) ==> breakable(held, x),
    decreases k - s,
{
    if k > s {
        lemma_cut_breaks(held, s, k - 1);
    }
}

proof fn lemma_next_breaks(held: Seq<(usize, usize)>, k: int, n: int)
    ensures
        next_cut(held, k, n) == n || breakable(held, next_cut(held, k, n)),
    decreases n - k,
{
    if k < n {
        lemma_next_breaks(held, k + 1, n);
    }
}

} // verus!
