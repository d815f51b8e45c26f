//! Which names completion offers, and what it reads from text.

#[allow(unused_imports)]
use vstd::prelude::*;

#[allow(unused_imports)]
use crate::app::AppView;
#[allow(unused_imports)]
use crate::assist::{candidates, cursor_offset, other_names};
#[allow(unused_imports)]
use crate::completion::{
    code_of, dot_completes, filtered, has_text, header_char, ident, inside_literal, name_scan,
    identifiers_of, name_start, names_in, section, sections, tidy_signature, type_of, window_top,
    with_matches, with_words, CandidateView, CompletionView,
};
#[allow(unused_imports)]
use crate::notebook::CellView;
#[allow(unused_imports)]
use crate::nvim::{BackendView, ModeKind};
#[allow(unused_imports)]
use crate::text::{
    after, find_char, first, has_infix, has_prefix, join, replaced, trim, words_of,
};

verus! {

// ---------------------------------------------------------------------------
// Code without its literals
// ---------------------------------------------------------------------------

/// Code with neither quotes nor comments.
pub open spec fn bare(s: Seq<char>) -> bool {
    forall|i: int| 0 <= i < s.len() ==> #[trigger] s[i] != '\'' && s[i] != '"' && s[i] != '#'
}

/// What a literal may hold in plain: no end of it, no escape.
pub open spec fn plain_inside(s: Seq<char>, q: char) -> bool {
    forall|i: int| 0 <= i < s.len() ==> #[trigger] s[i] != q && s[i] != '\\'
}

proof fn lemma_bare(s: Seq<char>, rest: Seq<char>)
    requires
        bare(s),
    ensures
        code_of(s + rest, None) == s + code_of(rest, None),
        inside_literal(s + rest, None) == inside_literal(rest, None),
    decreases s.len(),
{
    if s.len() == 0 {
        assert(s + rest =~= rest);
        assert(s + code_of(rest, None) =~= code_of(rest, None));
    } else {
        let t = s + rest;
        assert(t[0] == s[0]);
        assert(t.skip(1) =~= s.skip(1) + rest);
        assert(bare(s.skip(1)));
        lemma_bare(s.skip(1), rest);
        assert(seq![s[0]] + (s.skip(1) + code_of(rest, None)) =~= s + code_of(rest, None));
    }
}

proof fn lemma_inside(s: Seq<char>, q: char, rest: Seq<char>)
    requires
        plain_inside(s, q),
        q != '\\',
    ensures
        code_of(s + seq![q] + rest, Some(q)) == code_of(rest, None),
        inside_literal(s + seq![q] + rest, Some(q)) == inside_literal(rest, None),
        inside_literal(s, Some(q)),
    decreases s.len(),
{
    let t = s + seq![q] + rest;
    if s.len() == 0 {
        assert(t[0] == q);
        assert(t.skip(1) =~= rest);
    } else {
        assert(t[0] == s[0]);
        assert(t.skip(1) =~= s.skip(1) + seq![q] + rest);
        assert(plain_inside(s.skip(1), q));
        lemma_inside(s.skip(1), q, rest);
    }
}

/// In a line of code, a string literal stands for a blank and a comment for
/// nothing; the rest is kept as it is.
pub proof fn law_literals_hold_no_code(
    s: Seq<char>,
    q: char,
    inside: Seq<char>,
    rest: Seq<char>,
)
    requires
        bare(s),
        q == '\'' || q == '"',
        plain_inside(inside, q),
    ensures
        code_of(s, None) == s,
        code_of(s + seq!['#'] + rest, None) == s,
        code_of(s + seq![q] + inside + seq![q] + rest, None) == s + seq![' '] + code_of(rest, None),
        !inside_literal(s, None),
        inside_literal(s + seq!['#'] + rest, None),
        inside_literal(s + seq![q] + inside, None),
        inside_literal(s + seq![q] + inside + seq![q] + rest, None) == inside_literal(rest, None),
{
    let none = Seq::<char>::empty();
    lemma_bare(s, none);
    assert(s + none =~= s);
    assert(code_of(none, None) =~= none);
    let c = seq!['#'] + rest;
    lemma_bare(s, c);
    assert(s + seq!['#'] + rest =~= s + c);
    assert(c[0] == '#');
    let l = seq![q] + inside + seq![q] + rest;
    lemma_bare(s, l);
    assert(s + seq![q] + inside + seq![q] + rest =~= s + l);
    assert(l[0] == q);
    assert(l.skip(1) =~= inside + seq![q] + rest);
    lemma_inside(inside, q, rest);
    assert(s + (seq![' '] + code_of(rest, None)) =~= s + seq![' '] + code_of(rest, None));
    let o = seq![q] + inside;
    lemma_bare(s, o);
    assert(s + seq![q] + inside =~= s + o);
    assert(o[0] == q);
    assert(o.skip(1) =~= inside);
}

// ---------------------------------------------------------------------------
// Names
// ---------------------------------------------------------------------------

pub open spec fn all_ident(w: Seq<char>) -> bool {
    forall|i: int| 0 <= i < w.len() ==> ident(#[trigger] w[i])
}

proof fn lemma_run(w: Seq<char>)
    ensures
        all_ident(w) ==> name_scan(w) == (Seq::<Seq<char>>::empty(), w),
    decreases w.len(),
{
    if all_ident(w) {
        if w.len() > 0 {
            assert(all_ident(w.drop_last())) by {
                assert forall|i: int| 0 <= i < w.drop_last().len() implies ident(
                    #[trigger] w.drop_last()[i],
                ) by {
                    assert(w[i] == w.drop_last()[i]);
                }
            }
            lemma_run(w.drop_last());
            assert(ident(w[w.len() - 1]));
            assert(w.drop_last().push(w.last()) =~= w);
        } else {
            assert(w =~= Seq::<char>::empty());
        }
    }
}

proof fn lemma_scan_names(a: Seq<char>, b: Seq<char>)
    requires
        name_scan(a).1.len() == 0,
    ensures
        name_scan(a + b) == (name_scan(a).0 + name_scan(b).0, name_scan(b).1),
    decreases b.len(),
{
    if b.len() == 0 {
        assert(a + b =~= a);
        assert(name_scan(a).0 + name_scan(b).0 =~= name_scan(a).0);
        assert(name_scan(a).1 =~= name_scan(b).1);
    } else {
        lemma_scan_names(a, b.drop_last());
        assert((a + b).drop_last() =~= a + b.drop_last());
        assert((a + b).last() == b.last());
        let (names, run) = name_scan(b.drop_last());
        assert((name_scan(a).0 + names).push(run) =~= name_scan(a).0 + names.push(run));
    }
}

/// A run of identifier characters is a name if it is longer than one and does
/// not start with a digit; any other character parts names, and all of them are
/// given, in order.
pub proof fn law_names_are_runs(w: Seq<char>, a: Seq<char>, c: char, b: Seq<char>)
    ensures
        all_ident(w) && w.len() >= 2 && !('0' <= w[0] && w[0] <= '9') ==> names_in(w) == seq![w],
        all_ident(w) && !(w.len() >= 2 && !('0' <= w[0] && w[0] <= '9')) ==> names_in(w).len() == 0,
        !ident(c) ==> names_in(a + seq![c] + b) == names_in(a) + names_in(b),
{
    lemma_run(w);
    if all_ident(w) {
        assert(Seq::<Seq<char>>::empty().push(w) =~= seq![w]);
    }
    if !ident(c) {
        let h = a + seq![c];
        assert(h.drop_last() =~= a);
        assert(h.last() == c);
        lemma_scan_names(h, b);
        assert(names_in(h + b) =~= names_in(a) + names_in(b));
    }
}

/// A dot asks for completion after a name, a call or an index, not after a
/// number, an operator or another dot, and not inside a literal.
pub proof fn law_dots_complete(head: Seq<char>, w: Seq<char>)
    ensures
        ({
            let line = head + w + seq!['.'];
            &&& bare(head + w) && all_ident(w) && w.len() > 0 && (head.len() > 0 ==> !ident(
                head.last(),
            )) ==> (dot_completes(line) <==> !('0' <= w[0] && w[0] <= '9') || w.last() == ')'
                || w.last() == ']')
        }),
        ({
            let line = head + seq!['.'];
            &&& bare(head) && head.len() > 0 && !ident(head.last()) ==> (dot_completes(line)
                <==> head.last() == ')' || head.last() == ']')
            &&& head.len() > 0 && inside_literal(head, None) ==> !dot_completes(line)
        }),
        !dot_completes(seq!['.']),
{
    let none = Seq::<char>::empty();
    let line = head + w + seq!['.'];
    assert(line.drop_last() =~= head + w);
    if bare(head + w) && all_ident(w) && w.len() > 0 && (head.len() > 0 ==> !ident(head.last())) {
        lemma_bare(head + w, none);
        assert(head + w + none =~= head + w);
        lemma_name_start(head, w);
        assert((head + w)[head.len() as int] == w[0]);
        assert((head + w).last() == w.last());
    }
    let l = head + seq!['.'];
    assert(l.drop_last() =~= head);
    if bare(head) {
        lemma_bare(head, none);
        assert(head + none =~= head);
    }
    assert(seq!['.'].drop_last() =~= none);
}

proof fn lemma_name_start(head: Seq<char>, w: Seq<char>)
    ensures
        all_ident(w) && (head.len() > 0 ==> !ident(head.last())) ==> name_start(head + w)
            == head.len(),
    decreases w.len(),
{
    if all_ident(w) && (head.len() > 0 ==> !ident(head.last())) {
        if w.len() == 0 {
            assert(head + w =~= head);
        } else {
            assert((head + w).drop_last() =~= head + w.drop_last());
            assert((head + w).last() == w[w.len() - 1]);
            assert(all_ident(w.drop_last())) by {
                assert forall|i: int| 0 <= i < w.drop_last().len() implies ident(
                    #[trigger] w.drop_last()[i],
                ) by {
                    assert(w[i] == w.drop_last()[i]);
                }
            }
            lemma_name_start(head, w.drop_last());
        }
    }
}

// ---------------------------------------------------------------------------
// Candidates
// ---------------------------------------------------------------------------

/// Filtering keeps the candidates that start with what was typed, all of them
/// and in order.
pub proof fn law_filtering_keeps_the_order(all: Seq<CandidateView>, typed: Seq<char>)
    ensures
        filtered(all, typed) == all.filter(|c: CandidateView| has_prefix(c.text, typed)),
    decreases all.len(),
{
    reveal(Seq::filter);
    if all.len() > 0 {
        law_filtering_keeps_the_order(all.drop_last(), typed);
    } else {
        assert(filtered(all, typed) =~= all.filter(|c: CandidateView| has_prefix(c.text, typed)));
    }
}

proof fn lemma_has_text(all: Seq<CandidateView>, text: Seq<char>)
    ensures
        has_text(all, text) <==> exists|i: int| 0 <= i < all.len() && #[trigger] all[i].text == text,
    decreases all.len(),
{
    if all.len() > 0 {
        let d = all.drop_last();
        lemma_has_text(d, text);
        if has_text(all, text) {
            if all.last().text == text {
                assert(all[all.len() - 1].text == text);
            } else {
                let i = choose|i: int| 0 <= i < d.len() && #[trigger] d[i].text == text;
                assert(all[i].text == text);
            }
        }
        if exists|i: int| 0 <= i < all.len() && #[trigger] all[i].text == text {
            let i = choose|i: int| 0 <= i < all.len() && #[trigger] all[i].text == text;
            if i < d.len() {
                assert(d[i].text == text);
            }
        }
    }
}

/// `text` is the text of one of the candidates.
pub open spec fn offered(all: Seq<CandidateView>, text: Seq<char>) -> bool {
    exists|i: int| 0 <= i < all.len() && #[trigger] all[i].text == text
}

/// The kernel's matches come after the candidates that are there, each match is
/// offered, and nothing else is added.
pub proof fn law_matches_are_offered(
    all: Seq<CandidateView>,
    matches: Seq<Seq<char>>,
    types: Seq<(Seq<char>, Seq<char>, Seq<char>)>,
)
    ensures
        ({
            let r = with_matches(all, matches, types);
            &&& all.len() <= r.len()
            &&& r.take(all.len() as int) == all
            &&& forall|k: int| 0 <= k < matches.len() ==> offered(r, #[trigger] matches[k])
            &&& forall|i: int|
                all.len() <= i < r.len() ==> matches.contains((#[trigger] r[i]).text) && r[i].kind
                    == type_of(types, r[i].text).0 && r[i].detail == type_of(types, r[i].text).1
        }),
    decreases matches.len(),
{
    let r = with_matches(all, matches, types);
    if matches.len() == 0 {
        assert(r.take(all.len() as int) =~= all);
    } else {
        let d = matches.drop_last();
        law_matches_are_offered(all, d, types);
        let b = with_matches(all, d, types);
        let m = matches.last();
        lemma_has_text(b, m);
        assert(r.take(all.len() as int) =~= b.take(all.len() as int));
        assert forall|k: int| 0 <= k < matches.len() implies offered(r, #[trigger] matches[k]) by {
            if k < d.len() {
                assert(d[k] == matches[k]);
                assert(offered(b, d[k]));
                let i = choose|i: int| 0 <= i < b.len() && #[trigger] b[i].text == d[k];
                assert(r[i].text == matches[k]);
            } else if has_text(b, m) {
                let i = choose|i: int| 0 <= i < b.len() && #[trigger] b[i].text == m;
                assert(r[i].text == matches[k]);
            } else {
                assert(r[r.len() - 1].text == matches[k]);
            }
        }
        assert forall|i: int| all.len() <= i < r.len() implies matches.contains(
            (#[trigger] r[i]).text,
        ) && r[i].kind == type_of(types, r[i].text).0 && r[i].detail == type_of(
            types,
            r[i].text,
        ).1 by {
            if i < b.len() {
                assert(r[i] == b[i]);
                let k = choose|k: int| 0 <= k < d.len() && d[k] == b[i].text;
                assert(matches[k] == r[i].text);
            } else {
                assert(matches[matches.len() - 1] == r[i].text);
            }
        }
    }
}

/// The words of the notebook come after the candidates that are there: those
/// that complete what was typed, and no others.
pub proof fn law_words_are_offered(
    all: Seq<CandidateView>,
    words: Seq<Seq<char>>,
    typed: Seq<char>,
)
    ensures
        ({
            let r = with_words(all, words, typed);
            &&& all.len() <= r.len()
            &&& r.take(all.len() as int) == all
            &&& forall|k: int|
                0 <= k < words.len() && has_prefix(words[k], typed) && words[k] != typed ==> offered(
                    r,
                    #[trigger] words[k],
                )
            &&& forall|i: int|
                all.len() <= i < r.len() ==> words.contains((#[trigger] r[i]).text) && has_prefix(
                    r[i].text,
                    typed,
                ) && r[i].text != typed
        }),
    decreases words.len(),
{
    let r = with_words(all, words, typed);
    if words.len() == 0 {
        assert(r.take(all.len() as int) =~= all);
    } else {
        let d = words.drop_last();
        law_words_are_offered(all, d, typed);
        let b = with_words(all, d, typed);
        let w = words.last();
        lemma_has_text(b, w);
        assert(r.take(all.len() as int) =~= b.take(all.len() as int));
        assert forall|k: int|
            0 <= k < words.len() && has_prefix(words[k], typed) && words[k]
                != typed implies offered(r, #[trigger] words[k]) by {
            if k < d.len() {
                assert(d[k] == words[k]);
                assert(offered(b, d[k]));
                let i = choose|i: int| 0 <= i < b.len() && #[trigger] b[i].text == d[k];
                assert(r[i].text == words[k]);
            } else if has_text(b, w) {
                let i = choose|i: int| 0 <= i < b.len() && #[trigger] b[i].text == w;
                assert(r[i].text == words[k]);
            } else {
                assert(r[r.len() - 1].text == words[k]);
            }
        }
        assert forall|i: int| all.len() <= i < r.len() implies words.contains(
            (#[trigger] r[i]).text,
        ) && has_prefix(r[i].text, typed) && r[i].text != typed by {
            if i < b.len() {
                assert(r[i] == b[i]);
                let k = choose|k: int| 0 <= k < d.len() && d[k] == b[i].text;
                assert(words[k] == r[i].text);
            } else {
                assert(words[words.len() - 1] == r[i].text);
            }
        }
    }
}

/// The window of the popup holds the highlighted row, lies within the list,
/// and stays where it is while the highlight is in it.
pub proof fn law_the_popup_shows_the_highlight(top: int, sel: int, shown: int, total: int)
    requires
        0 < shown <= total,
        0 <= sel < total,
        0 <= top,
    ensures
        ({
            let t = window_top(top, sel, shown, total);
            &&& 0 <= t <= sel < t + shown
            &&& t + shown <= total
            &&& top <= sel < top + shown && top + shown <= total ==> t == top
        }),
{
}

// ---------------------------------------------------------------------------
// Inspection text
// ---------------------------------------------------------------------------

/// `name:` at the start of a line starts a section of that name with what
/// follows; a line without a name goes on with the section before it.
pub proof fn law_sections_are_read(
    lines: Seq<Seq<char>>,
    name: Seq<char>,
    body: Seq<char>,
)
    requires
        name.len() > 0,
        'A' <= name[0] && name[0] <= 'Z',
        forall|i: int|
            0 <= i < name.len() ==> ('A' <= #[trigger] name[i] && name[i] <= 'Z') || ('a' <= name[i]
                && name[i] <= 'z') || name[i] == ' ',
    ensures
        sections(lines.push(name + seq![':'] + body)) == sections(lines).push((name, trim(body))),
{
    let line = name + seq![':'] + body;
    let n = name.len() as int;
    let all = lines.push(line);
    assert(all.drop_last() =~= lines);
    assert(line[n] == ':');
    lemma_colon(line, n, 0);
    assert forall|i: int| 0 <= i < n implies header_char(#[trigger] line[i]) by {
        assert(line[i] == name[i]);
    }
    assert(line[0] == name[0]);
    assert(line.take(n) =~= name);
    assert(line.skip(n + 1) =~= body);
}

proof fn lemma_colon(line: Seq<char>, n: int, i: int)
    requires
        0 <= i <= n < line.len(),
        line[n] == ':',
        forall|k: int| i <= k < n ==> #[trigger] line[k] != ':',
    ensures
        find_char(line, ':', i) == n,
    decreases n - i,
{
    if i < n {
        lemma_colon(line, n, i + 1);
    }
}

/// A signature is shown from its first parenthesis on, as it is where it has
/// no stray blanks and commas; without a parenthesis there is none.
pub proof fn law_signatures_start_at_the_parenthesis(name: Seq<char>, args: Seq<char>)
    requires
        !name.contains('('),
    ensures
        ({
            let sig = seq!['('] + args;
            !has_infix(sig, seq!['(', ' ']) && !has_infix(sig, seq![' ', ')']) && !has_infix(
                sig,
                seq![',', ')'],
            ) ==> tidy_signature(name + sig) == Some(sig)
        }),
        tidy_signature(name) is None,
{
    let sig = seq!['('] + args;
    let s = name + sig;
    let n = name.len() as int;
    assert forall|j: int| 0 <= j < n implies name[j] != '(' by {
        assert(name.contains(name[j]));
    }
    assert(s[n] == '(');
    crate::strings::law_searching_gives_the_first_place(s, seq!['('], '(', 0);
    let k = find_char(s, '(', 0);
    assert(k == n) by {
        if k < n {
            assert(s[k] == name[k]);
        }
    }
    assert(s.skip(n) =~= sig);
    crate::strings::law_searching_gives_the_first_place(name, seq!['('], '(', 0);
    reveal_strlit("( ");
    reveal_strlit("(");
    reveal_strlit(" )");
    reveal_strlit(")");
    reveal_strlit(",)");
    assert("( "@ =~= seq!['(', ' ']);
    assert(" )"@ =~= seq![' ', ')']);
    assert(",)"@ =~= seq![',', ')']);
    if !has_infix(sig, seq!['(', ' ']) && !has_infix(sig, seq![' ', ')']) && !has_infix(
        sig,
        seq![',', ')'],
    ) {
        lemma_replaces_nothing(sig, "( "@, "("@);
        lemma_replaces_nothing(sig, " )"@, ")"@);
        lemma_replaces_nothing(sig, ",)"@, ")"@);
    }
}

proof fn lemma_replaces_nothing(s: Seq<char>, from: Seq<char>, to: Seq<char>)
    requires
        from.len() > 0,
        !has_infix(s, from),
    ensures
        replaced(s, from, to) == s,
{
    crate::strings::law_replacing_changes_occurrences_only(s, from, to, s.len() as int);
}

/// The first section of a name is the one that counts.
pub proof fn law_the_first_section_counts(
    s: Seq<(Seq<char>, Seq<char>)>,
    name: Seq<char>,
    k: int,
)
    requires
        0 <= k <= s.len(),
        forall|i: int| 0 <= i < k ==> (#[trigger] s[i]).0 != name,
    ensures
        k < s.len() && s[k].0 == name ==> section(s, name) == Some(
            join(words_of(s[k].1), seq![' ']),
        ),
        k == s.len() ==> section(s, name) is None,
    decreases k,
{
    reveal_strlit(" ");
    assert(" "@ =~= seq![' ']);
    if k > 0 {
        let t = s.skip(1);
        assert forall|i: int| 0 <= i < k - 1 implies (#[trigger] t[i]).0 != name by {
            assert(t[i] == s[i + 1]);
        }
        law_the_first_section_counts(t, name, k - 1);
        assert(s[0].0 != name);
    }
}

// ---------------------------------------------------------------------------
// Popups
// ---------------------------------------------------------------------------

proof fn lemma_offered_on(a: Seq<CandidateView>, b: Seq<CandidateView>, text: Seq<char>)
    requires
        offered(a, text),
        a.len() <= b.len(),
        b.take(a.len() as int) == a,
    ensures
        offered(b, text),
{
    let i = choose|i: int| 0 <= i < a.len() && #[trigger] a[i].text == text;
    assert(b.take(a.len() as int)[i] == b[i]);
    assert(b[i].text == text);
}

/// Every match that the kernel gives is among the candidates. After a dot they
/// are the kernel's alone.
pub proof fn law_every_match_is_a_candidate(
    c: CompletionView,
    matches: Seq<Seq<char>>,
    start: usize,
    types: Seq<(Seq<char>, Seq<char>, Seq<char>)>,
    cells: Seq<CellView>,
    selected: int,
    k: int,
)
    requires
        0 <= k < matches.len(),
    ensures
        offered(candidates(c, matches, start, types, cells, selected), matches[k]),
        ({
            let token = c.source.take(c.at as int);
            let n = name_start(token);
            let all = candidates(c, matches, start, types, cells, selected);
            n > 0 && token[n - 1] == '.' ==> forall|i: int|
                0 <= i < all.len() ==> matches.contains((#[trigger] all[i]).text)
        }),
{
    let token = c.source.take(c.at as int);
    let n = name_start(token);
    let typed = token.skip(n);
    let attribute = n > 0 && token[n - 1] == '.';
    let words = !attribute && (matches.len() == 0 || start == n);
    let own = if words {
        with_words(Seq::empty(), identifiers_of(token.take(n)).reverse(), typed)
    } else {
        Seq::empty()
    };
    let known = with_matches(own, matches, types);
    law_matches_are_offered(own, matches, types);
    assert(offered(known, matches[k]));
    if words {
        law_words_are_offered(known, other_names(cells, selected), typed);
        lemma_offered_on(
            known,
            with_words(known, other_names(cells, selected), typed),
            matches[k],
        );
    }
}

/// The names of every other code cell are known, those of the cell being
/// edited are not taken from there.
pub proof fn law_names_of_other_cells(cells: Seq<CellView>, selected: int, j: int, k: int)
    requires
        0 <= j < cells.len(),
        j != selected,
        cells[j].cell_type == "code"@,
    ensures
        0 <= k < identifiers_of(cells[j].source).len() ==> other_names(cells, selected).contains(
            identifiers_of(cells[j].source)[k],
        ),
        other_names(seq![cells[j]], 0).len() == 0,
    decreases cells.len(),
{
    let d = cells.drop_last();
    let before = other_names(d, selected);
    let all = other_names(cells, selected);
    let names = identifiers_of(cells[j].source);
    let one = seq![cells[j]];
    assert(one.drop_last() =~= Seq::<CellView>::empty());
    assert(other_names(one.drop_last(), 0) == Seq::<Seq<char>>::empty());
    if 0 <= k < names.len() {
        if j < d.len() {
            assert(d[j] == cells[j]);
            law_names_of_other_cells(d, selected, j, k);
            let i = choose|i: int| 0 <= i < before.len() && before[i] == names[k];
            assert(all[i] == names[k]);
        } else {
            assert(all == before + names);
            assert(all[before.len() + k] == names[k]);
        }
    }
}

/// As the text goes on, the popup shows the candidates that start with what
/// stands between the start of the name and the cursor; where there is none,
/// or the cursor left the name, it closes. The text is not touched.
pub proof fn law_the_popup_follows_the_text(a: AppView, c: CompletionView, e: BackendView)
    requires
        a.completion == Some(c),
        a.editor == Some(e),
        c.replied,
        a.run.kernel is None,
    ensures
        a.refiltered().editor == a.editor,
        cursor_offset(e) < c.start ==> a.refiltered().completion is None,
        ({
            let cur = cursor_offset(e);
            let typed = e.source().subrange(c.start as int, cur as int);
            let items = c.all.filter(|x: CandidateView| has_prefix(x.text, typed));
            c.start <= cur <= e.source().len() && e.source().take(c.start as int) == c.source.take(
                c.start as int,
            ) && c.start <= c.source.len() && e.mode() == ModeKind::Insert ==> {
                &&& items.len() == 0 ==> a.refiltered().completion is None
                &&& items.len() > 0 ==> (a.refiltered().completion matches Some(d) && d.items
                    == items && d.end == cur && d.start == c.start && (c.sel < items.len() ==> d.sel
                    == c.sel))
            }
        }),
{
    let cur = cursor_offset(e);
    let src = e.source();
    if c.start <= cur <= src.len() {
        let typed = src.subrange(c.start as int, cur as int);
        assert(first(after(src, c.start as int), cur - c.start) =~= typed);
        law_filtering_keeps_the_order(c.all, typed);
    }
}

} // verus!
