//! Completion inside the cell editor: candidates, what the kernel's docs say
//! of them, the names in a piece of code, and when a `.` asks for more.

use vstd::prelude::*;

#[allow(unused_imports)]
use crate::kernel::type_views;
use crate::text;
#[allow(unused_imports)]
use crate::text::{
    after, find_char, first, has_infix, has_prefix, has_suffix, is_ascii_alpha, is_ascii_digit,
    is_ascii_upper, join, lines_of, opt_view, replaced, split_on, strip_leading, trim,
    unicode_alphanumeric, views, words_of,
};

verus! {

// ---------------------------------------------------------------------------
// Positions
// ---------------------------------------------------------------------------

/// The text before a position, given as row and column of its line; a column
/// past the end of its line counts as that end, a row past the last line as
/// the end of the text.
pub open spec fn text_before(source: Seq<char>, row: int, col: int) -> Seq<char> {
    let p = split_on(source, '\n');
    if row >= p.len() {
        source
    } else if row == 0 {
        first(p[0], col)
    } else {
        join(p.take(row), seq!['\n']) + seq!['\n'] + first(p[row], col)
    }
}

/// (row, col) in chars -> char offset into `source` (rows split on '\n').
pub fn char_offset(source: &str, pos: (usize, usize)) -> (r: usize)
    ensures
        r == text_before(source@, pos.0 as int, pos.1 as int).len(),
{
    let (row, col) = pos;
    let p = text::split(source, '\n');
    let ghost all = views(p@);
    if row >= p.len() {
        return source.unicode_len();
    }
    assert(all[row as int] == p@[row as int]@);
    let part = text::take(p[row].as_str(), col);
    if row == 0 {
        return part.as_str().unicode_len();
    }
    let mut head: Vec<String> = Vec::new();
    let mut i: usize = 0;
    while i < row
        invariant
            i <= row < p@.len(),
            all == views(p@),
            head@.len() == i,
            forall|k: int| 0 <= k < i ==> (#[trigger] head@[k])@ == all[k],
        decreases row - i,
    {
        head.push(p[i].clone());
        i += 1;
    }
    assert(views(head@) =~= all.take(row as int));
    proof {
        reveal_strlit("\n");
        assert("\n"@ =~= seq!['\n']);
    }
    let mut s = text::join_strings(&head, "\n");
    s.append("\n");
    s.append(part.as_str());
    s.as_str().unicode_len()
}

/// What stands before a position is a prefix of the text.
pub proof fn law_offsets_cut_the_text(source: Seq<char>, row: int, col: int)
    requires
        row >= 0,
        col >= 0,
    ensures
        text_before(source, row, col).len() <= source.len(),
        source.take(text_before(source, row, col).len() as int) == text_before(source, row, col),
{
    let p = split_on(source, '\n');
    text::lemma_join_split(source, '\n');
    text::lemma_split_nonempty(source, '\n');
    if row >= p.len() {
        assert(source.take(source.len() as int) =~= source);
    } else {
        lemma_join_prefix(p, row, seq!['\n']);
        let b = text_before(source, row, col);
        let part = first(p[row], col);
        assert(part =~= p[row].take(part.len() as int));
        if row == 0 {
            assert(p.take(1) =~= seq![p[0]]);
            assert(b =~= source.take(b.len() as int));
        } else {
            assert(b =~= source.take(b.len() as int));
        }
    }
}

/// The first parts, joined, are a prefix of the whole.
proof fn lemma_join_prefix(p: Seq<Seq<char>>, row: int, sep: Seq<char>)
    requires
        0 <= row < p.len(),
    ensures
        ({
            let head = if row == 0 {
                p[0]
            } else {
                join(p.take(row), sep) + sep + p[row]
            };
            head.len() <= join(p, sep).len() && join(p, sep).take(head.len() as int) == head
        }),
    decreases p.len(),
{
    if row == p.len() - 1 {
        assert(p.drop_last() =~= p.take(row));
        assert(join(p, sep).take(join(p, sep).len() as int) =~= join(p, sep));
    } else {
        let d = p.drop_last();
        lemma_join_prefix(d, row, sep);
        assert(d.take(row) =~= p.take(row));
        let head = if row == 0 {
            p[0]
        } else {
            join(p.take(row), sep) + sep + p[row]
        };
        assert(join(p, sep).take(head.len() as int) =~= join(d, sep).take(head.len() as int));
    }
}

// ---------------------------------------------------------------------------
// Candidates
// ---------------------------------------------------------------------------

/// One completion candidate.
pub struct Candidate {
    /// Replacement text (the live completer returns attributes as `.name`).
    pub text: String,
    /// IPython's kind (`function`, `module`, `instance`, `keyword`, ...),
    /// `word` for notebook identifiers; refined when resolved.
    pub kind: String,
    /// Signature (callables) or type name; empty until known.
    pub detail: String,
    /// A detail lookup was sent (or none is needed).
    pub resolved: bool,
}

#[verifier::ext_equal]
pub struct CandidateView {
    pub text: Seq<char>,
    pub kind: Seq<char>,
    pub detail: Seq<char>,
    pub resolved: bool,
}

impl View for Candidate {
    type V = CandidateView;

    open spec fn view(&self) -> CandidateView {
        CandidateView {
            text: self.text@,
            kind: self.kind@,
            detail: self.detail@,
            resolved: self.resolved,
        }
    }
}

impl CandidateView {
    pub open spec fn new(text: Seq<char>, kind: Seq<char>, detail: Seq<char>) -> CandidateView {
        CandidateView {
            text,
            kind,
            detail,
            resolved: detail.len() > 0 || kind == "word"@ || kind == "keyword"@,
        }
    }
}

impl Candidate {
    pub fn new(text: String, kind: &str, detail: &str) -> (r: Candidate)
        ensures
            r@ == CandidateView::new(text@, kind@, detail@),
    {
        let resolved = !detail.is_empty() || text::same(kind, "word") || text::same(
            kind,
            "keyword",
        );
        Candidate { text, kind: kind.to_owned(), detail: detail.to_owned(), resolved }
    }

    /// What the popup shows: the name without the live completer's `.`.
    pub fn label(&self) -> (r: String)
        ensures
            r@ == strip_leading(self@.text, '.'),
    {
        text::without_leading(self.text.as_str(), '.')
    }

    pub fn duplicate(&self) -> (r: Candidate)
        ensures
            r@ == self@,
    {
        Candidate {
            text: self.text.clone(),
            kind: self.kind.clone(),
            detail: self.detail.clone(),
            resolved: self.resolved,
        }
    }
}

/// `source` with `text` replacing chars [start, end), and the char offset
/// right after it.
pub open spec fn spliced(source: Seq<char>, start: int, end: int, text: Seq<char>) -> Seq<char> {
    first(source, start) + text + after(
        source,
        if end >= start {
            end
        } else {
            start
        },
    )
}

/// The offset `n` characters after `start`.
pub open spec fn offset_after(start: int, n: int) -> int {
    if start + n <= usize::MAX {
        start + n
    } else {
        usize::MAX as int
    }
}

/// `source` with `text` replacing chars [start, end), and the char offset
/// right after it — where to inspect a candidate as if it were accepted.
pub fn splice(source: &str, start: usize, end: usize, text: &str) -> (r: (String, usize))
    ensures
        r.0@ == spliced(source@, start as int, end as int, text@),
        r.1 == offset_after(start as int, text@.len() as int),
{
    let mut s = text::take(source, start);
    s.append(text);
    let from = if end >= start {
        end
    } else {
        start
    };
    s.append(text::skip(source, from).as_str());
    (s, start.saturating_add(text.unicode_len()))
}

/// Splicing leaves what stands before and after the replaced range.
pub proof fn law_splicing_keeps_the_rest(source: Seq<char>, start: int, end: int, new: Seq<char>)
    requires
        0 <= start <= end <= source.len(),
    ensures
        spliced(source, start, end, new).take(start) == source.take(start),
        spliced(source, start, end, new).skip(start + new.len()) == source.skip(end),
        spliced(source, start, end, new).subrange(start, start + new.len()) == new,
{
    let r = spliced(source, start, end, new);
    assert(r.take(start) =~= source.take(start));
    assert(r.skip(start + new.len()) =~= source.skip(end));
    assert(r.subrange(start, start + new.len()) =~= new);
}

// ---------------------------------------------------------------------------
// Inspection text
// ---------------------------------------------------------------------------

/// Position after the first letter from `i` on: the end of an escape
/// sequence.
pub open spec fn escape_end(s: Seq<char>, i: int) -> int
    decreases s.len() - i,
{
    if i >= s.len() {
        s.len() as int
    } else if is_ascii_alpha(s[i]) {
        i + 1
    } else {
        escape_end(s, i + 1)
    }
}

/// `s` without escape sequences.
pub open spec fn unescaped(s: Seq<char>) -> Seq<char>
    decreases s.len(),
{
    if s.len() == 0 {
        Seq::empty()
    } else if s[0] == '\x1b' {
        let e = escape_end(s, 1);
        if 0 < e <= s.len() {
            unescaped(s.skip(e))
        } else {
            Seq::empty()
        }
    } else {
        seq![s[0]] + unescaped(s.skip(1))
    }
}

pub open spec fn header_char(c: char) -> bool {
    is_ascii_alpha(c) || c == ' '
}

/// Position of the colon where a line starts a section (`Signature:`).
pub open spec fn header_end(line: Seq<char>) -> Option<int> {
    let k = find_char(line, ':', 0);
    if 0 < k < line.len() && is_ascii_upper(line[0]) && forall|i: int|
        0 <= i < k ==> header_char(#[trigger] line[i]) {
        Some(k)
    } else {
        None
    }
}

/// The sections of the first lines: header and body.
pub open spec fn sections(lines: Seq<Seq<char>>) -> Seq<(Seq<char>, Seq<char>)>
    decreases lines.len(),
{
    if lines.len() == 0 {
        Seq::empty()
    } else {
        let before = sections(lines.drop_last());
        let line = lines.last();
        match header_end(line) {
            Some(k) => before.push((line.take(k), trim(line.skip(k + 1)))),
            None => if before.len() == 0 {
                before
            } else {
                before.update(
                    before.len() - 1,
                    (before.last().0, before.last().1 + " "@ + trim(line)),
                )
            },
        }
    }
}

/// The body of the first section with this header, its blanks evened out.
pub open spec fn section(s: Seq<(Seq<char>, Seq<char>)>, name: Seq<char>) -> Option<Seq<char>>
    decreases s.len(),
{
    if s.len() == 0 {
        None
    } else if s[0].0 == name {
        Some(join(words_of(s[0].1), " "@))
    } else {
        section(s.skip(1), name)
    }
}

/// The kind that a type name stands for.
pub open spec fn kind_of_type(ty: Seq<char>) -> Seq<char> {
    if has_infix(ty, "function"@) || has_infix(ty, "method"@) {
        "function"@
    } else if ty == "module"@ {
        "module"@
    } else if ty == "type"@ || has_suffix(ty, "Meta"@) {
        "class"@
    } else if ty.len() == 0 {
        ""@
    } else {
        "instance"@
    }
}

/// A signature from its parenthesis on, without stray blanks and commas.
pub open spec fn tidy_signature(s: Seq<char>) -> Option<Seq<char>> {
    let k = find_char(s, '(', 0);
    if k < s.len() {
        Some(
            replaced(
                replaced(replaced(s.skip(k), "( "@, "("@), " )"@, ")"@),
                ",)"@,
                ")"@,
            ),
        )
    } else {
        None
    }
}

/// (kind, detail) from inspection text.
pub open spec fn inspected(text: Seq<char>) -> (Seq<char>, Seq<char>) {
    let s = sections(lines_of(unescaped(text)));
    let ty = match section(s, "Type"@) {
        Some(t) => t,
        None => ""@,
    };
    let sig = match section(s, "Signature"@) {
        Some(x) => Some(x),
        None => match section(s, "Init signature"@) {
            Some(x) => Some(x),
            None => section(s, "Call signature"@),
        },
    };
    let detail = match sig {
        Some(x) => match tidy_signature(x) {
            Some(d) => d,
            None => ty,
        },
        None => ty,
    };
    (kind_of_type(ty), detail)
}

fn is_letter(c: char) -> (r: bool)
    ensures
        r == is_ascii_alpha(c),
{
    ('A' <= c && c <= 'Z') || ('a' <= c && c <= 'z')
}

fn strip_escapes(s: &str) -> (r: String)
    ensures
        r@ == unescaped(s@),
{
    let v = text::chars_of(s);
    let mut out = String::new();
    let mut i: usize = 0;
    assert(v@.skip(0) =~= s@);
    assert(out@ + unescaped(v@.skip(0)) =~= unescaped(s@));
    while i < v.len()
        invariant
            i <= v@.len(),
            v@ == s@,
            out@ + unescaped(v@.skip(i as int)) == unescaped(s@),
        decreases v@.len() - i,
    {
        let ghost rest = v@.skip(i as int);
        let ghost out0 = out@;
        if v[i] == '\x1b' {
            let start = i;
            i += 1;
            let mut ended = false;
            while i < v.len() && !ended
                invariant
                    start < i <= v@.len(),
                    v@ == s@,
                    rest == v@.skip(start as int),
                    !ended ==> escape_end(rest, 1) == escape_end(rest, i - start),
                    ended ==> escape_end(rest, 1) == i - start,
                decreases v@.len() - i,
            {
                assert(rest[i - start] == v@[i as int]);
                if is_letter(v[i]) {
                    ended = true;
                }
                i += 1;
            }
            assert(escape_end(rest, 1) == i - start);
            assert(rest.skip(i - start) =~= v@.skip(i as int));
        } else {
            out.push(v[i]);
            i += 1;
            assert(rest.skip(1) =~= v@.skip(i as int));
            assert(out@ + unescaped(v@.skip(i as int)) =~= out0 + unescaped(rest));
        }
    }
    assert(v@.skip(i as int) =~= Seq::<char>::empty());
    assert(out@ + unescaped(v@.skip(i as int)) =~= out@);
    out
}

fn find_header(line: &Vec<char>) -> (r: Option<usize>)
    ensures
        match r {
            Some(k) => header_end(line@) == Some(k as int) && k < line@.len(),
            None => header_end(line@) is None,
        },
{
    let k = text::find_char_from(line, ':', 0);
    if k == 0 || k == line.len() {
        return None;
    }
    if !('A' <= line[0] && line[0] <= 'Z') {
        return None;
    }
    let mut i: usize = 0;
    while i < k
        invariant
            i <= k < line@.len(),
            k == find_char(line@, ':', 0),
            forall|j: int| 0 <= j < i ==> header_char(#[trigger] line@[j]),
        decreases k - i,
    {
        if !(is_letter(line[i]) || line[i] == ' ') {
            assert(!header_char(line@[i as int]));
            return None;
        }
        i += 1;
    }
    Some(k)
}

pub open spec fn section_views(v: Seq<(String, String)>) -> Seq<(Seq<char>, Seq<char>)> {
    v.map_values(|p: (String, String)| (p.0@, p.1@))
}

fn parse_sections(lines: &Vec<String>) -> (r: Vec<(String, String)>)
    ensures
        section_views(r@) == sections(views(lines@)),
{
    let ghost all = views(lines@);
    let mut r: Vec<(String, String)> = Vec::new();
    let mut i: usize = 0;
    assert(section_views(r@) =~= sections(all.take(0)));
    while i < lines.len()
        invariant
            i <= lines@.len(),
            all == views(lines@),
            section_views(r@) == sections(all.take(i as int)),
        decreases lines@.len() - i,
    {
        let ghost r0 = r@;
        let line = lines[i].as_str();
        let v = text::chars_of(line);
        let n = v.len();
        assert(all.take(i + 1).drop_last() =~= all.take(i as int));
        assert(all.take(i + 1).last() == line@);
        match find_header(&v) {
            Some(k) => {
                let h = text::string_between(&v, 0, k);
                let rest = text::string_between(&v, k + 1, n);
                assert(h@ =~= line@.take(k as int));
                assert(rest@ =~= line@.skip(k + 1));
                let b = text::trimmed(rest.as_str());
                r.push((h, b));
                assert(section_views(r@) =~= section_views(r0).push((h@, b@)));
            },
            None => {
                assert(section_views(r0).len() == r0.len());
                if r.len() > 0 {
                    let last = r.len() - 1;
                    let (h, b) = match r.pop() {
                        Some(p) => p,
                        None => (String::new(), String::new()),
                    };
                    let mut b = b;
                    b.append(" ");
                    b.append(text::trimmed(line).as_str());
                    r.push((h, b));
                    assert(section_views(r@) =~= section_views(r0).update(
                        last as int,
                        (h@, b@),
                    ));
                }
            },
        }
        i += 1;
    }
    assert(all.take(i as int) =~= all);
    r
}

fn get_section(s: &Vec<(String, String)>, name: &str) -> (r: Option<String>)
    ensures
        text::opt_view(r) == section(section_views(s@), name@),
{
    let ghost all = section_views(s@);
    let mut i: usize = 0;
    assert(all.skip(0) =~= all);
    while i < s.len()
        invariant
            i <= s@.len(),
            all == section_views(s@),
            section(all, name@) == section(all.skip(i as int), name@),
        decreases s@.len() - i,
    {
        assert(all.skip(i as int)[0] == (s@[i as int].0@, s@[i as int].1@));
        assert(all.skip(i as int).skip(1) =~= all.skip(i + 1));
        if text::same(s[i].0.as_str(), name) {
            let w = text::words(s[i].1.as_str());
            return Some(text::join_strings(&w, " "));
        }
        i += 1;
    }
    None
}

fn type_kind(ty: &str) -> (r: String)
    ensures
        r@ == kind_of_type(ty@),
{
    if text::contains(ty, "function") || text::contains(ty, "method") {
        "function".to_owned()
    } else if text::same(ty, "module") {
        "module".to_owned()
    } else if text::same(ty, "type") || text::ends_with(ty, "Meta") {
        "class".to_owned()
    } else if ty.is_empty() {
        "".to_owned()
    } else {
        "instance".to_owned()
    }
}

fn tidy(s: &str) -> (r: Option<String>)
    ensures
        text::opt_view(r) == tidy_signature(s@),
{
    let v = text::chars_of(s);
    let k = text::find_char_from(&v, '(', 0);
    if k == v.len() {
        return None;
    }
    let sig = text::string_between(&v, k, v.len());
    assert(sig@ =~= s@.skip(k as int));
    proof {
        reveal_strlit("( ");
        reveal_strlit(" )");
        reveal_strlit(",)");
    }
    let a = text::replace(sig.as_str(), "( ", "(");
    let b = text::replace(a.as_str(), " )", ")");
    Some(text::replace(b.as_str(), ",)", ")"))
}

/// (kind, detail) from IPython inspect text (ANSI-colored sections like
/// `Signature:`, `Type:`): the signature from its `(` for callables, else
/// the type name.
pub fn parse_inspect(text: &str) -> (r: (String, String))
    ensures
        (r.0@, r.1@) == inspected(text@),
{
    let plain = strip_escapes(text);
    let lines = text::lines(plain.as_str());
    let s = parse_sections(&lines);
    let ty = match get_section(&s, "Type") {
        Some(t) => t,
        None => "".to_owned(),
    };
    let sig = match get_section(&s, "Signature") {
        Some(x) => Some(x),
        None => match get_section(&s, "Init signature") {
            Some(x) => Some(x),
            None => get_section(&s, "Call signature"),
        },
    };
    let kind = type_kind(ty.as_str());
    let detail = match sig {
        Some(x) => match tidy(x.as_str()) {
            Some(d) => d,
            None => ty,
        },
        None => ty,
    };
    (kind, detail)
}

// ---------------------------------------------------------------------------
// Names in code
// ---------------------------------------------------------------------------

/// Python identifier char.
pub open spec fn ident(c: char) -> bool {
    unicode_alphanumeric(c) || c == '_'
}

/// Python identifier char (what keeps a completion popup filtering).
pub fn is_ident(c: char) -> (r: bool)
    ensures
        r == ident(c),
{
    c.is_alphanumeric() || c == '_'
}

/// A line of Python without its string literals and its comment; `quote` is
/// open at its start.
pub open spec fn code_of(s: Seq<char>, quote: Option<char>) -> Seq<char>
    decreases s.len(),
{
    if s.len() == 0 {
        Seq::empty()
    } else {
        match quote {
            Some(q) => if s[0] == '\\' {
                code_of(after(s, 2), quote)
            } else if s[0] == q {
                code_of(s.skip(1), None)
            } else {
                code_of(s.skip(1), quote)
            },
            None => if s[0] == '\'' || s[0] == '"' {
                seq![' '] + code_of(s.skip(1), Some(s[0]))
            } else if s[0] == '#' {
                Seq::empty()
            } else {
                seq![s[0]] + code_of(s.skip(1), None)
            },
        }
    }
}

/// Whether the end of a line is inside a string literal or a comment.
pub open spec fn inside_literal(s: Seq<char>, quote: Option<char>) -> bool
    decreases s.len(),
{
    if s.len() == 0 {
        quote is Some
    } else {
        match quote {
            Some(q) => if s[0] == '\\' {
                inside_literal(after(s, 2), quote)
            } else if s[0] == q {
                inside_literal(s.skip(1), None)
            } else {
                inside_literal(s.skip(1), quote)
            },
            None => if s[0] == '\'' || s[0] == '"' {
                inside_literal(s.skip(1), Some(s[0]))
            } else if s[0] == '#' {
                true
            } else {
                inside_literal(s.skip(1), None)
            },
        }
    }
}

/// Whether a run of identifier characters is a name to offer.
pub open spec fn is_name(w: Seq<char>) -> bool {
    w.len() >= 2 && !is_ascii_digit(w[0])
}

pub open spec fn with_name(names: Seq<Seq<char>>, w: Seq<char>) -> Seq<Seq<char>> {
    if is_name(w) {
        names.push(w)
    } else {
        names
    }
}

/// The names in `s` that ended, and the run of identifier characters at its
/// end.
pub open spec fn name_scan(s: Seq<char>) -> (Seq<Seq<char>>, Seq<char>)
    decreases s.len(),
{
    if s.len() == 0 {
        (Seq::empty(), Seq::empty())
    } else {
        let (names, run) = name_scan(s.drop_last());
        if ident(s.last()) {
            (names, run.push(s.last()))
        } else {
            (with_name(names, run), Seq::empty())
        }
    }
}

/// The names in `s`.
pub open spec fn names_in(s: Seq<char>) -> Seq<Seq<char>> {
    with_name(name_scan(s).0, name_scan(s).1)
}

/// The names in the first lines.
pub open spec fn names_of_lines(lines: Seq<Seq<char>>) -> Seq<Seq<char>>
    decreases lines.len(),
{
    if lines.len() == 0 {
        Seq::empty()
    } else {
        names_of_lines(lines.drop_last()) + names_in(code_of(lines.last(), None))
    }
}

/// Identifiers in Python text.
pub open spec fn identifiers_of(text: Seq<char>) -> Seq<Seq<char>> {
    names_of_lines(lines_of(text))
}

fn strip_literals(line: &str) -> (r: String)
    ensures
        r@ == code_of(line@, None),
{
    let v = text::chars_of(line);
    let mut code = String::new();
    let mut quote: Option<char> = None;
    let mut i: usize = 0;
    assert(v@.skip(0) =~= line@);
    assert(code@ + code_of(v@.skip(0), None) =~= code_of(line@, None));
    while i < v.len()
        invariant
            i <= v@.len(),
            v@ == line@,
            code@ + code_of(v@.skip(i as int), quote) == code_of(line@, None),
        decreases v@.len() - i,
    {
        let c = v[i];
        let ghost rest = v@.skip(i as int);
        let ghost code0 = code@;
        assert(rest[0] == c);
        assert(rest.skip(1) =~= v@.skip(i + 1));
        match quote {
            Some(q) => {
                if c == '\\' {
                    if v.len() - i >= 2 {
                        assert(after(rest, 2) =~= v@.skip(i + 2));
                        i += 1;
                    } else {
                        assert(after(rest, 2) =~= v@.skip(i + 1));
                    }
                } else if c == q {
                    quote = None;
                }
            },
            None => {
                if c == '\'' || c == '"' {
                    quote = Some(c);
                    code.push(' ');
                    assert(code@ + code_of(v@.skip(i + 1), quote) =~= code0 + code_of(rest, None));
                } else if c == '#' {
                    assert(code@ + code_of(rest, None) =~= code@);
                    return code;
                } else {
                    code.push(c);
                    assert(code@ + code_of(v@.skip(i + 1), quote) =~= code0 + code_of(rest, None));
                }
            },
        }
        i += 1;
    }
    assert(v@.skip(i as int) =~= Seq::<char>::empty());
    assert(code@ + code_of(v@.skip(i as int), quote) =~= code@);
    code
}

fn push_name(names: &mut Vec<String>, w: String)
    ensures
        views(final(names)@) == with_name(views(old(names)@), w@),
{
    let v = text::chars_of(w.as_str());
    if v.len() >= 2 && !('0' <= v[0] && v[0] <= '9') {
        let ghost n0 = names@;
        names.push(w);
        assert(views(names@) =~= views(n0).push(w@));
    }
}

fn scan_names(code: &str, names: &mut Vec<String>)
    ensures
        views(final(names)@) == views(old(names)@) + names_in(code@),
{
    let v = text::chars_of(code);
    let ghost start = views(names@);
    let mut run = String::new();
    let mut found: Vec<String> = Vec::new();
    let mut i: usize = 0;
    assert(views(found@) =~= Seq::<Seq<char>>::empty());
    while i < v.len()
        invariant
            i <= v@.len(),
            v@ == code@,
            (views(found@), run@) == name_scan(v@.take(i as int)),
        decreases v@.len() - i,
    {
        assert(v@.take(i + 1).drop_last() =~= v@.take(i as int));
        if is_ident(v[i]) {
            run.push(v[i]);
        } else {
            push_name(&mut found, run);
            run = String::new();
            assert(run@ =~= Seq::<char>::empty());
        }
        i += 1;
    }
    assert(v@.take(i as int) =~= code@);
    push_name(&mut found, run);
    let ghost f = found@;
    let ghost n0 = names@;
    names.append(&mut found);
    assert(views(names@) =~= views(n0) + views(f));
}

/// Identifiers in Python `text` (2+ chars, not starting with a digit),
/// skipping string literals and `#` comments: the notebook's own names,
/// offered alongside the kernel's — they exist before the defining cell ever
/// ran. Strings are tracked per line; words inside multi-line triple-quoted
/// strings count.
pub fn identifiers(text: &str) -> (r: Vec<String>)
    ensures
        views(r@) == identifiers_of(text@),
{
    let lines = text::lines(text);
    let ghost all = views(lines@);
    let mut r: Vec<String> = Vec::new();
    let mut i: usize = 0;
    assert(views(r@) =~= names_of_lines(all.take(0)));
    while i < lines.len()
        invariant
            i <= lines@.len(),
            all == views(lines@),
            views(r@) == names_of_lines(all.take(i as int)),
        decreases lines@.len() - i,
    {
        let code = strip_literals(lines[i].as_str());
        scan_names(code.as_str(), &mut r);
        i += 1;
        assert(all.take(i as int).drop_last() =~= all.take(i - 1));
        assert(all.take(i as int).last() == lines@[i - 1]@);
    }
    assert(all.take(i as int) =~= all);
    r
}

/// Whether the end of `line` sits inside a string literal or a `#` comment
/// (Python rules, single-line approximation: triple-quoted strings spanning
/// lines are not tracked).
pub fn in_string_or_comment(line: &str) -> (r: bool)
    ensures
        r == inside_literal(line@, None),
{
    let v = text::chars_of(line);
    let mut quote: Option<char> = None;
    let mut i: usize = 0;
    assert(v@.skip(0) =~= line@);
    while i < v.len()
        invariant
            i <= v@.len(),
            v@ == line@,
            inside_literal(v@.skip(i as int), quote) == inside_literal(line@, None),
        decreases v@.len() - i,
    {
        let c = v[i];
        let ghost rest = v@.skip(i as int);
        assert(rest[0] == c);
        assert(rest.skip(1) =~= v@.skip(i + 1));
        match quote {
            Some(q) => {
                if c == '\\' {
                    if v.len() - i >= 2 {
                        assert(after(rest, 2) =~= v@.skip(i + 2));
                        i += 1;
                    } else {
                        assert(after(rest, 2) =~= v@.skip(i + 1));
                    }
                } else if c == q {
                    quote = None;
                }
            },
            None => {
                if c == '\'' || c == '"' {
                    quote = Some(c);
                } else if c == '#' {
                    return true;
                }
            },
        }
        i += 1;
    }
    assert(v@.skip(i as int) =~= Seq::<char>::empty());
    quote.is_some()
}

/// Where the run of identifier characters at the end of `s` starts.
pub open spec fn name_start(s: Seq<char>) -> int
    decreases s.len(),
{
    if s.len() > 0 && ident(s.last()) {
        name_start(s.drop_last())
    } else {
        s.len() as int
    }
}

/// Where the name at the end of the first `end` characters starts.
pub fn find_name_start(v: &Vec<char>, end: usize) -> (r: usize)
    requires
        end <= v@.len(),
    ensures
        r == name_start(v@.take(end as int)),
        r <= end,
        forall|k: int| r <= k < end ==> ident(v@[k]),
{
    let mut i: usize = end;
    while i > 0 && is_ident(v[i - 1])
        invariant
            i <= end <= v@.len(),
            name_start(v@.take(end as int)) == name_start(v@.take(i as int)),
            forall|k: int| i <= k < end ==> ident(v@[k]),
        decreases i,
    {
        assert(v@.take(i as int).drop_last() =~= v@.take(i - 1));
        i -= 1;
    }
    assert(v@.take(i as int).len() == i);
    i
}

/// Whether a line that ends in a `.` asks for completion: after a name, `)`
/// or `]`, not after a number, another dot, or inside a string or comment.
pub open spec fn dot_completes(line: Seq<char>) -> bool {
    &&& line.len() > 0
    &&& line.last() == '.'
    &&& {
        let head = line.drop_last();
        let k = name_start(head);
        let after_name = k < head.len() && !is_ascii_digit(head[k]);
        let after_call = head.len() > 0 && (head.last() == ')' || head.last() == ']');
        (after_name || after_call) && !inside_literal(head, None)
    }
}

/// `line` (text before the cursor) just got a `.` that should open
/// completion: after a name, `)` or `]` (`x.`, `f().`, `a[0].`), not after a
/// number (`1.`), another dot, or inside a string/comment.
pub fn wants_dot_completion(line: &str) -> (r: bool)
    ensures
        r == dot_completes(line@),
{
    let v = text::chars_of(line);
    let n = v.len();
    if n == 0 || v[n - 1] != '.' {
        return false; // the key was remapped (nvim) or didn't insert
    }
    let end = n - 1;
    assert(v@.take(end as int) =~= line@.drop_last());
    let k = find_name_start(&v, end);
    let after_name = k < end && !('0' <= v[k] && v[k] <= '9');
    let after_call = end > 0 && (v[end - 1] == ')' || v[end - 1] == ']');
    let head = text::string_between(&v, 0, end);
    assert(head@ =~= line@.drop_last());
    (after_name || after_call) && !in_string_or_comment(head.as_str())
}

// ---------------------------------------------------------------------------
// Requests
// ---------------------------------------------------------------------------

/// Tab completion: requested, then (with several matches) an open popup.
pub struct Completion {
    /// complete_request msg_id; replies for other ids are stale.
    pub request: String,
    /// Editor text at request time: the text before `start` must still
    /// match when the reply lands (typing after it is fine: it filters).
    pub source: String,
    /// Every match; `items` is the part matching what was typed since
    /// `start`.
    pub all: Vec<Candidate>,
    pub items: Vec<Candidate>,
    pub sel: usize,
    /// First visible popup row (moves only when the selection leaves the
    /// window; kept by the draw).
    pub top: usize,
    /// In-flight detail lookups (inspect msg_id -> candidate text).
    pub detail_reqs: Vec<(String, String)>,
    /// Char range of the source the chosen item replaces (`end` tracks the
    /// cursor while typing filters).
    pub start: usize,
    pub end: usize,
    /// Tab (a single match applies directly) vs auto-open on `.` (never
    /// inserts on its own).
    pub explicit: bool,
    /// Cursor offset of the request (a jedi retry re-asks at the same spot).
    pub at: usize,
    /// A reply arrived (an empty `all` then means "nothing matched").
    pub replied: bool,
    /// Already retried with jedi after the live completer found nothing.
    pub jedi_retry: bool,
}

#[verifier::ext_equal]
pub struct CompletionView {
    pub request: Seq<char>,
    pub source: Seq<char>,
    pub all: Seq<CandidateView>,
    pub items: Seq<CandidateView>,
    pub sel: usize,
    pub top: usize,
    pub detail_reqs: Seq<(Seq<char>, Seq<char>)>,
    pub start: usize,
    pub end: usize,
    pub explicit: bool,
    pub at: usize,
    pub replied: bool,
    pub jedi_retry: bool,
}

impl View for Completion {
    type V = CompletionView;

    open spec fn view(&self) -> CompletionView {
        CompletionView {
            request: self.request@,
            source: self.source@,
            all: views(self.all@),
            items: views(self.items@),
            sel: self.sel,
            top: self.top,
            detail_reqs: section_views(self.detail_reqs@),
            start: self.start,
            end: self.end,
            explicit: self.explicit,
            at: self.at,
            replied: self.replied,
            jedi_retry: self.jedi_retry,
        }
    }
}

impl CompletionView {
    /// The selection is one of the items, and the request was made inside its
    /// text.
    pub open spec fn wf(self) -> bool {
        &&& self.items.len() > 0 ==> self.sel < self.items.len()
        &&& self.at <= self.source.len()
    }

    /// A request that waits for its reply.
    pub open spec fn asked(request: Seq<char>, source: Seq<char>, offset: usize, explicit: bool) ->
        CompletionView {
        CompletionView {
            request,
            source,
            all: Seq::empty(),
            items: Seq::empty(),
            sel: 0,
            top: 0,
            detail_reqs: Seq::empty(),
            start: offset,
            end: offset,
            explicit,
            at: offset,
            replied: false,
            jedi_retry: false,
        }
    }
}

impl Completion {
    /// A request that waits for its reply.
    pub fn asked(request: String, source: String, offset: usize, explicit: bool) -> (r: Completion)
        ensures
            r@ == CompletionView::asked(request@, source@, offset, explicit),
    {
        let all: Vec<Candidate> = Vec::new();
        let items: Vec<Candidate> = Vec::new();
        let detail_reqs: Vec<(String, String)> = Vec::new();
        assert(views(all@) =~= Seq::<CandidateView>::empty());
        assert(views(items@) =~= Seq::<CandidateView>::empty());
        assert(section_views(detail_reqs@) =~= Seq::empty());
        Completion {
            request,
            source,
            all,
            items,
            sel: 0,
            top: 0,
            detail_reqs,
            start: offset,
            end: offset,
            explicit,
            at: offset,
            replied: false,
            jedi_retry: false,
        }
    }

    /// An answered completion over chars [start, end) without candidates.
    pub fn for_test(start: usize, end: usize) -> (r: Completion)
        ensures
            r@ == (CompletionView {
                start,
                end,
                at: end,
                replied: true,
                jedi_retry: true,
                ..CompletionView::asked(Seq::empty(), Seq::empty(), end, false)
            }),
    {
        let mut c = Completion::asked(String::new(), String::new(), end, false);
        c.start = start;
        c.replied = true;
        c.jedi_retry = true;
        c
    }

    /// One more item.
    pub fn push_for_test(&mut self, text: &str, kind: &str, detail: &str)
        ensures
            final(self)@ == (CompletionView {
                items: old(self)@.items.push(CandidateView::new(text@, kind@, detail@)),
                ..old(self)@
            }),
    {
        let ghost i0 = self.items@;
        let c = Candidate::new(text.to_owned(), kind, detail);
        self.items.push(c);
        assert(views(self.items@) =~= views(i0).push(c@));
    }

    /// Char range the chosen candidate replaces.
    pub fn span(&self) -> (r: (usize, usize))
        ensures
            r == (self@.start, self@.end),
    {
        (self.start, self.end)
    }
}

// ---------------------------------------------------------------------------
// The popup's window
// ---------------------------------------------------------------------------

/// Rows that the completion popup shows at most.
pub const COMPLETION_ROWS: usize = 12;

/// First row of a window of `shown` out of `total` rows: `top`, moved only as
/// far as it takes to show row `sel`, and never past the end.
pub open spec fn window_top(top: int, sel: int, shown: int, total: int) -> int {
    let t = if sel < top {
        sel
    } else if sel >= top + shown {
        sel + 1 - shown
    } else {
        top
    };
    let max = if total > shown {
        total - shown
    } else {
        0
    };
    if t > max {
        max
    } else {
        t
    }
}

/// First row of a window that scrolls only when the selection leaves it.
pub fn scroll_window(top: usize, sel: usize, shown: usize, total: usize) -> (r: usize)
    requires
        sel < total || total == 0,
        shown <= total,
        shown > 0 || total == 0,
    ensures
        r == window_top(top as int, sel as int, shown as int, total as int),
        total > 0 ==> r <= sel < r + shown && r + shown <= total,
{
    let max = total - shown;
    let t = if sel < top {
        sel
    } else if sel - top >= shown {
        if shown == 0 {
            max
        } else {
            sel - (shown - 1)
        }
    } else {
        top
    };
    if t > max {
        max
    } else {
        t
    }
}

// ---------------------------------------------------------------------------
// Lists of candidates
// ---------------------------------------------------------------------------

/// Whether a candidate with this text is there.
pub open spec fn has_text(all: Seq<CandidateView>, text: Seq<char>) -> bool
    decreases all.len(),
{
    all.len() > 0 && (all.last().text == text || has_text(all.drop_last(), text))
}

/// Whether a word completes what was typed.
pub open spec fn completes(w: Seq<char>, typed: Seq<char>) -> bool {
    has_prefix(w, typed) && w != typed
}

/// Candidates, and after them the new words that complete what was typed.
pub open spec fn with_words(
    all: Seq<CandidateView>,
    words: Seq<Seq<char>>,
    typed: Seq<char>,
) -> Seq<CandidateView>
    decreases words.len(),
{
    if words.len() == 0 {
        all
    } else {
        let before = with_words(all, words.drop_last(), typed);
        let w = words.last();
        if completes(w, typed) && !has_text(before, w) {
            before.push(CandidateView::new(w, "word"@, ""@))
        } else {
            before
        }
    }
}

/// Kind and signature of a match; the last entry counts.
pub open spec fn type_of(types: Seq<(Seq<char>, Seq<char>, Seq<char>)>, m: Seq<char>) -> (
    Seq<char>,
    Seq<char>,
)
    decreases types.len(),
{
    if types.len() == 0 {
        (Seq::empty(), Seq::empty())
    } else if types.last().0 == m {
        (types.last().1, types.last().2)
    } else {
        type_of(types.drop_last(), m)
    }
}

/// Candidates, and after them the new ones among the kernel's matches.
pub open spec fn with_matches(
    all: Seq<CandidateView>,
    matches: Seq<Seq<char>>,
    types: Seq<(Seq<char>, Seq<char>, Seq<char>)>,
) -> Seq<CandidateView>
    decreases matches.len(),
{
    if matches.len() == 0 {
        all
    } else {
        let before = with_matches(all, matches.drop_last(), types);
        let m = matches.last();
        if !has_text(before, m) {
            let (kind, sig) = type_of(types, m);
            before.push(CandidateView::new(m, kind, sig))
        } else {
            before
        }
    }
}

/// The candidates that start with what was typed.
pub open spec fn filtered(all: Seq<CandidateView>, typed: Seq<char>) -> Seq<CandidateView>
    decreases all.len(),
{
    if all.len() == 0 {
        Seq::empty()
    } else {
        let before = filtered(all.drop_last(), typed);
        if has_prefix(all.last().text, typed) {
            before.push(all.last())
        } else {
            before
        }
    }
}

/// A candidate, looked up if it has this text.
pub open spec fn looked_up(c: CandidateView, text: Seq<char>) -> CandidateView {
    if c.text == text {
        CandidateView { resolved: true, ..c }
    } else {
        c
    }
}

/// A candidate with what was found, if it has this text.
pub open spec fn detailed(
    c: CandidateView,
    text: Seq<char>,
    kind: Seq<char>,
    detail: Seq<char>,
) -> CandidateView {
    if c.text == text {
        CandidateView {
            kind: if kind.len() > 0 {
                kind
            } else {
                c.kind
            },
            detail,
            ..c
        }
    } else {
        c
    }
}

pub open spec fn all_looked_up(all: Seq<CandidateView>, text: Seq<char>) -> Seq<CandidateView> {
    all.map_values(|c: CandidateView| looked_up(c, text))
}

pub open spec fn all_detailed(
    all: Seq<CandidateView>,
    text: Seq<char>,
    kind: Seq<char>,
    detail: Seq<char>,
) -> Seq<CandidateView> {
    all.map_values(|c: CandidateView| detailed(c, text, kind, detail))
}

/// The candidate that a lookup was sent for.
pub open spec fn lookup_of(reqs: Seq<(Seq<char>, Seq<char>)>, id: Seq<char>) -> Option<Seq<char>>
    decreases reqs.len(),
{
    if reqs.len() == 0 {
        None
    } else if reqs.last().0 == id {
        Some(reqs.last().1)
    } else {
        lookup_of(reqs.drop_last(), id)
    }
}

/// The lookups without one.
pub open spec fn without_lookup(reqs: Seq<(Seq<char>, Seq<char>)>, id: Seq<char>) -> Seq<
    (Seq<char>, Seq<char>),
>
    decreases reqs.len(),
{
    if reqs.len() == 0 {
        Seq::empty()
    } else {
        let before = without_lookup(reqs.drop_last(), id);
        if reqs.last().0 == id {
            before
        } else {
            before.push(reqs.last())
        }
    }
}

fn includes(all: &Vec<Candidate>, text: &str) -> (r: bool)
    ensures
        r == has_text(views(all@), text@),
{
    let ghost vs = views(all@);
    let mut i: usize = all.len();
    assert(vs.take(i as int) =~= vs);
    while i > 0
        invariant
            i <= all@.len(),
            vs == views(all@),
            has_text(vs, text@) == has_text(vs.take(i as int), text@),
        decreases i,
    {
        assert(vs.take(i as int).drop_last() =~= vs.take(i - 1));
        assert(vs.take(i as int).last() == all@[i - 1]@);
        if text::same(all[i - 1].text.as_str(), text) {
            return true;
        }
        i -= 1;
    }
    false
}

/// Adds the new words that complete what was typed.
pub fn add_words(all: &mut Vec<Candidate>, words: &Vec<String>, typed: &str)
    ensures
        views(final(all)@) == with_words(views(old(all)@), views(words@), typed@),
{
    let ghost start = views(all@);
    let ghost ws = views(words@);
    let mut i: usize = 0;
    assert(ws.take(0) =~= Seq::<Seq<char>>::empty());
    while i < words.len()
        invariant
            i <= words@.len(),
            ws == views(words@),
            views(all@) == with_words(start, ws.take(i as int), typed@),
        decreases words@.len() - i,
    {
        let w = words[i].clone();
        assert(ws.take(i + 1).drop_last() =~= ws.take(i as int));
        assert(ws.take(i + 1).last() == w@);
        let ghost a0 = all@;
        if text::starts_with(w.as_str(), typed) && !text::same(w.as_str(), typed) && !includes(
            all,
            w.as_str(),
        ) {
            let c = Candidate::new(w, "word", "");
            all.push(c);
            assert(views(all@) =~= views(a0).push(c@));
        }
        i += 1;
    }
    assert(ws.take(i as int) =~= ws);
}

fn find_type(types: &Vec<(String, String, String)>, m: &str) -> (r: (String, String))
    ensures
        (r.0@, r.1@) == type_of(type_views(types@), m@),
{
    let ghost ts = type_views(types@);
    let mut i: usize = types.len();
    assert(ts.take(i as int) =~= ts);
    while i > 0
        invariant
            i <= types@.len(),
            ts == type_views(types@),
            type_of(ts, m@) == type_of(ts.take(i as int), m@),
        decreases i,
    {
        assert(ts.take(i as int).drop_last() =~= ts.take(i - 1));
        let t = &types[i - 1];
        assert(ts.take(i as int).last() == (t.0@, t.1@, t.2@));
        if text::same(t.0.as_str(), m) {
            return (t.1.clone(), t.2.clone());
        }
        i -= 1;
    }
    let r = (String::new(), String::new());
    assert(r.0@ =~= Seq::empty() && r.1@ =~= Seq::empty());
    r
}

/// Adds the new ones among the kernel's matches.
pub fn add_matches(
    all: &mut Vec<Candidate>,
    matches: &Vec<String>,
    types: &Vec<(String, String, String)>,
)
    ensures
        views(final(all)@) == with_matches(
            views(old(all)@),
            views(matches@),
            type_views(types@),
        ),
{
    let ghost start = views(all@);
    let ghost ms = views(matches@);
    let mut i: usize = 0;
    assert(ms.take(0) =~= Seq::<Seq<char>>::empty());
    while i < matches.len()
        invariant
            i <= matches@.len(),
            ms == views(matches@),
            views(all@) == with_matches(start, ms.take(i as int), type_views(types@)),
        decreases matches@.len() - i,
    {
        let m = matches[i].clone();
        assert(ms.take(i + 1).drop_last() =~= ms.take(i as int));
        assert(ms.take(i + 1).last() == m@);
        let ghost a0 = all@;
        if !includes(all, m.as_str()) {
            let (kind, sig) = find_type(types, m.as_str());
            let c = Candidate::new(m, kind.as_str(), sig.as_str());
            all.push(c);
            assert(views(all@) =~= views(a0).push(c@));
        }
        i += 1;
    }
    assert(ms.take(i as int) =~= ms);
}

/// The candidates that start with what was typed.
pub fn filter_candidates(all: &Vec<Candidate>, typed: &str) -> (r: Vec<Candidate>)
    ensures
        views(r@) == filtered(views(all@), typed@),
{
    let ghost vs = views(all@);
    let mut r: Vec<Candidate> = Vec::new();
    let mut i: usize = 0;
    assert(vs.take(0) =~= Seq::<CandidateView>::empty());
    assert(views(r@) =~= Seq::<CandidateView>::empty());
    while i < all.len()
        invariant
            i <= all@.len(),
            vs == views(all@),
            views(r@) == filtered(vs.take(i as int), typed@),
        decreases all@.len() - i,
    {
        assert(vs.take(i + 1).drop_last() =~= vs.take(i as int));
        assert(vs.take(i + 1).last() == all@[i as int]@);
        let ghost r0 = r@;
        if text::starts_with(all[i].text.as_str(), typed) {
            let c = all[i].duplicate();
            r.push(c);
            assert(views(r@) =~= views(r0).push(c@));
        }
        i += 1;
    }
    assert(vs.take(i as int) =~= vs);
    r
}

fn look_up_in(all: &mut Vec<Candidate>, text: &str)
    ensures
        views(final(all)@) == all_looked_up(views(old(all)@), text@),
{
    let ghost want = all_looked_up(views(all@), text@);
    let ghost a0 = all@;
    let mut i: usize = 0;
    while i < all.len()
        invariant
            i <= all@.len(),
            all@.len() == a0.len(),
            want == all_looked_up(views(a0), text@),
            forall|k: int| 0 <= k < i ==> (#[trigger] all@[k])@ == want[k],
            forall|k: int| i <= k < a0.len() ==> #[trigger] all@[k] == a0[k],
        decreases all@.len() - i,
    {
        assert(want[i as int] == looked_up(a0[i as int]@, text@));
        if text::same(all[i].text.as_str(), text) {
            all[i].resolved = true;
        }
        i += 1;
    }
    assert(views(all@) =~= want);
}

fn detail_in(all: &mut Vec<Candidate>, text: &str, kind: &str, detail: &str)
    ensures
        views(final(all)@) == all_detailed(views(old(all)@), text@, kind@, detail@),
{
    let ghost want = all_detailed(views(all@), text@, kind@, detail@);
    let ghost a0 = all@;
    let mut i: usize = 0;
    while i < all.len()
        invariant
            i <= all@.len(),
            all@.len() == a0.len(),
            want == all_detailed(views(a0), text@, kind@, detail@),
            forall|k: int| 0 <= k < i ==> (#[trigger] all@[k])@ == want[k],
            forall|k: int| i <= k < a0.len() ==> #[trigger] all@[k] == a0[k],
        decreases all@.len() - i,
    {
        assert(want[i as int] == detailed(a0[i as int]@, text@, kind@, detail@));
        if text::same(all[i].text.as_str(), text) {
            if kind.unicode_len() > 0 {
                all[i].kind = kind.to_owned();
            }
            all[i].detail = detail.to_owned();
        }
        i += 1;
    }
    assert(views(all@) =~= want);
}

impl CompletionView {
    /// A lookup for a candidate was sent.
    pub open spec fn looking_up(self, id: Seq<char>, text: Seq<char>) -> CompletionView {
        CompletionView {
            all: all_looked_up(self.all, text),
            items: all_looked_up(self.items, text),
            detail_reqs: self.detail_reqs.push((id, text)),
            ..self
        }
    }

    /// What a lookup found.
    pub open spec fn learned(
        self,
        id: Seq<char>,
        text: Seq<char>,
        kind: Seq<char>,
        detail: Seq<char>,
    ) -> CompletionView {
        CompletionView {
            all: all_detailed(self.all, text, kind, detail),
            items: all_detailed(self.items, text, kind, detail),
            detail_reqs: without_lookup(self.detail_reqs, id),
            ..self
        }
    }

    /// Popup rows (items indices) that are or will be on screen.
    pub open spec fn visible(self) -> (int, int) {
        let n = self.items.len() as int;
        let shown = if n <= COMPLETION_ROWS {
            n
        } else {
            COMPLETION_ROWS as int
        };
        let top = window_top(self.top as int, self.sel as int, shown, n);
        (top, top + shown)
    }
}

impl Completion {
    /// A lookup for a candidate was sent.
    pub fn look_up(&mut self, id: String, text: &str)
        ensures
            final(self)@ == old(self)@.looking_up(id@, text@),
            old(self)@.wf() ==> final(self)@.wf(),
    {
        look_up_in(&mut self.all, text);
        look_up_in(&mut self.items, text);
        let ghost d0 = self.detail_reqs@;
        let p = (id, text.to_owned());
        self.detail_reqs.push(p);
        assert(section_views(self.detail_reqs@) =~= section_views(d0).push((p.0@, p.1@)));
    }

    /// The candidate that a lookup was sent for.
    pub fn lookup_text(&self, id: &str) -> (r: Option<String>)
        ensures
            opt_view(r) == lookup_of(self@.detail_reqs, id@),
    {
        let ghost ds = section_views(self.detail_reqs@);
        let mut i: usize = self.detail_reqs.len();
        assert(ds.take(i as int) =~= ds);
        while i > 0
            invariant
                i <= self.detail_reqs@.len(),
                ds == section_views(self.detail_reqs@),
                lookup_of(ds, id@) == lookup_of(ds.take(i as int), id@),
            decreases i,
        {
            assert(ds.take(i as int).drop_last() =~= ds.take(i - 1));
            let p = &self.detail_reqs[i - 1];
            assert(ds.take(i as int).last() == (p.0@, p.1@));
            if text::same(p.0.as_str(), id) {
                return Some(p.1.clone());
            }
            i -= 1;
        }
        None
    }

    /// What a lookup found.
    pub fn learn(&mut self, id: &str, text: &str, kind: &str, detail: &str)
        ensures
            final(self)@ == old(self)@.learned(id@, text@, kind@, detail@),
            old(self)@.wf() ==> final(self)@.wf(),
    {
        detail_in(&mut self.all, text, kind, detail);
        detail_in(&mut self.items, text, kind, detail);
        self.detail_reqs = drop_lookup(&self.detail_reqs, id);
    }

    /// Popup rows (items indices) that are or will be on screen: the draw's
    /// window, computed the same way.
    pub fn visible_rows(&self) -> (r: (usize, usize))
        requires
            self@.wf(),
        ensures
            (r.0 as int, r.1 as int) == self@.visible(),
            r.0 <= r.1 <= self@.items.len(),
    {
        let n = self.items.len();
        let shown = if n <= COMPLETION_ROWS {
            n
        } else {
            COMPLETION_ROWS
        };
        if n == 0 {
            return (0, 0);
        }
        let top = scroll_window(self.top, self.sel, shown, n);
        (top, top + shown)
    }
}

fn drop_lookup(reqs: &Vec<(String, String)>, id: &str) -> (r: Vec<(String, String)>)
    ensures
        section_views(r@) == without_lookup(section_views(reqs@), id@),
{
    let ghost ds = section_views(reqs@);
    let mut r: Vec<(String, String)> = Vec::new();
    let mut i: usize = 0;
    assert(ds.take(0) =~= Seq::empty());
    assert(section_views(r@) =~= Seq::empty());
    while i < reqs.len()
        invariant
            i <= reqs@.len(),
            ds == section_views(reqs@),
            section_views(r@) == without_lookup(ds.take(i as int), id@),
        decreases reqs@.len() - i,
    {
        assert(ds.take(i + 1).drop_last() =~= ds.take(i as int));
        let ghost r0 = r@;
        assert(ds.take(i + 1).last() == (reqs@[i as int].0@, reqs@[i as int].1@));
        if !text::same(reqs[i].0.as_str(), id) {
            let p = (reqs[i].0.clone(), reqs[i].1.clone());
            r.push(p);
            assert(section_views(r@) =~= section_views(r0).push((p.0@, p.1@)));
        }
        i += 1;
    }
    assert(ds.take(i as int) =~= ds);
    r
}

/// An accepted candidate is asked about once: after a lookup no candidate with
/// its text is unresolved.
pub proof fn law_a_lookup_is_sent_once(c: CompletionView, id: Seq<char>, text: Seq<char>, i: int)
    requires
        0 <= i < c.items.len(),
        c.items[i].text == text,
    ensures
        c.looking_up(id, text).items[i].resolved,
{
}

/// What the popup shows completes what was typed, and is one of the matches.
pub proof fn law_shown_candidates_complete_what_was_typed(
    all: Seq<CandidateView>,
    typed: Seq<char>,
    i: int,
)
    requires
        0 <= i < filtered(all, typed).len(),
    ensures
        has_prefix(filtered(all, typed)[i].text, typed),
        all.contains(filtered(all, typed)[i]),
    decreases all.len(),
{
    let head = all.drop_last();
    if i < filtered(head, typed).len() {
        law_shown_candidates_complete_what_was_typed(head, typed, i);
        let c = filtered(head, typed)[i];
        let k = choose|k: int| 0 <= k < head.len() && head[k] == c;
        assert(all[k] == c);
    } else {
        assert(all[all.len() - 1] == all.last());
    }
}

/// No match that completes what was typed is left out.
pub proof fn law_no_match_is_left_out(all: Seq<CandidateView>, typed: Seq<char>, k: int)
    requires
        0 <= k < all.len(),
        has_prefix(all[k].text, typed),
    ensures
        filtered(all, typed).contains(all[k]),
    decreases all.len(),
{
    let head = all.drop_last();
    let before = filtered(head, typed);
    let r = filtered(all, typed);
    if k < head.len() {
        law_no_match_is_left_out(head, typed, k);
        let j = choose|j: int| 0 <= j < before.len() && before[j] == head[k];
        assert(r[j] == all[k]);
    } else {
        assert(r[r.len() - 1] == all[k]);
    }
}

/// A colour sequence: its parameters are digits, with semicolons between them.
pub open spec fn color_code(params: Seq<char>) -> Seq<char> {
    seq!['\x1b', '['] + params + seq!['m']
}

pub open spec fn color_params(params: Seq<char>) -> bool {
    forall|i: int|
        0 <= i < params.len() ==> is_ascii_digit(#[trigger] params[i]) || params[i] == ';'
}

/// Pieces of text, each with a colour sequence after it, and a last piece.
pub open spec fn colored(pieces: Seq<(Seq<char>, Seq<char>)>, last: Seq<char>) -> Seq<char>
    decreases pieces.len(),
{
    if pieces.len() == 0 {
        last
    } else {
        pieces[0].0 + (color_code(pieces[0].1) + colored(pieces.skip(1), last))
    }
}

/// The same pieces without colours.
pub open spec fn uncolored(pieces: Seq<(Seq<char>, Seq<char>)>, last: Seq<char>) -> Seq<char>
    decreases pieces.len(),
{
    if pieces.len() == 0 {
        last
    } else {
        pieces[0].0 + uncolored(pieces.skip(1), last)
    }
}

proof fn lemma_unescaped_text(a: Seq<char>, b: Seq<char>)
    requires
        !a.contains('\x1b'),
    ensures
        unescaped(a + b) == a + unescaped(b),
    decreases a.len(),
{
    if a.len() == 0 {
        assert(a + b =~= b);
        assert(a + unescaped(b) =~= unescaped(b));
    } else {
        let t = a.skip(1);
        assert(a[0] != '\x1b');
        assert forall|k: int| 0 <= k < t.len() implies t[k] != '\x1b' by {
            assert(t[k] == a[k + 1]);
        }
        lemma_unescaped_text(t, b);
        assert((a + b).skip(1) =~= t + b);
        assert(seq![a[0]] + (t + unescaped(b)) =~= a + unescaped(b));
    }
}

proof fn lemma_code_end(s: Seq<char>, i: int, end: int)
    requires
        0 <= i <= end < s.len(),
        is_ascii_alpha(s[end]),
        forall|k: int| i <= k < end ==> !is_ascii_alpha(#[trigger] s[k]),
    ensures
        escape_end(s, i) == end + 1,
    decreases end - i,
{
    if i < end {
        assert(!is_ascii_alpha(s[i]));
        lemma_code_end(s, i + 1, end);
    }
}

proof fn lemma_unescaped_code(params: Seq<char>, b: Seq<char>)
    requires
        color_params(params),
    ensures
        unescaped(color_code(params) + b) == unescaped(b),
{
    let code = color_code(params);
    let s = code + b;
    let end = code.len() - 1;
    assert(s[0] == '\x1b' && s[1] == '[' && s[end] == 'm');
    assert forall|k: int| 1 <= k < end implies !is_ascii_alpha(#[trigger] s[k]) by {
        if k > 1 {
            assert(s[k] == params[k - 2]);
        }
    }
    lemma_code_end(s, 1, end);
    assert(s.skip(code.len() as int) =~= b);
}

proof fn lemma_colors_are_cut(pieces: Seq<(Seq<char>, Seq<char>)>, last: Seq<char>)
    requires
        forall|i: int|
            0 <= i < pieces.len() ==> !(#[trigger] pieces[i]).0.contains('\x1b') && color_params(
                pieces[i].1,
            ),
    ensures
        unescaped(colored(pieces, last)) == unescaped(uncolored(pieces, last)),
    decreases pieces.len(),
{
    if pieces.len() > 0 {
        let rest = pieces.skip(1);
        assert forall|i: int| 0 <= i < rest.len() implies !(#[trigger] rest[i]).0.contains('\x1b')
            && color_params(rest[i].1) by {
            assert(rest[i] == pieces[i + 1]);
        }
        lemma_colors_are_cut(rest, last);
        let (text, params) = pieces[0];
        lemma_unescaped_text(text, color_code(params) + colored(rest, last));
        lemma_unescaped_code(params, colored(rest, last));
        lemma_unescaped_text(text, uncolored(rest, last));
    }
}

/// Colours do not matter: text with colour sequences put in anywhere says what
/// it says without them.
pub proof fn law_colors_do_not_matter(pieces: Seq<(Seq<char>, Seq<char>)>, last: Seq<char>)
    requires
        forall|i: int|
            0 <= i < pieces.len() ==> !(#[trigger] pieces[i]).0.contains('\x1b') && color_params(
                pieces[i].1,
            ),
    ensures
        inspected(colored(pieces, last)) == inspected(uncolored(pieces, last)),
{
    lemma_colors_are_cut(pieces, last);
}

/// Inspection knows five kinds.
pub proof fn law_kinds_are_known(text: Seq<char>)
    ensures
        inspected(text).0 == ""@ || inspected(text).0 == "function"@ || inspected(text).0
            == "module"@ || inspected(text).0 == "class"@ || inspected(text).0 == "instance"@,
{
}

} // verus!
