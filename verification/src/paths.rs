//! Paths, as text.

use vstd::prelude::*;
#[allow(unused_imports)]
use vstd::utf8::{is_ascii_chars, is_ascii_chars_encode_utf8};

use crate::markdown::join_path;
#[allow(unused_imports)]
use crate::markdown::joined_path;
use crate::text;
#[allow(unused_imports)]
use crate::text::{byte_len, has_prefix, opt_view, split_on, views};

verus! {

/// A path without separators and `.` components at its end.
pub open spec fn tidy(s: Seq<char>) -> Seq<char>
    decreases s.len(),
{
    if s.len() > 1 && (s.last() == '/' || s.last() == '.' && s[s.len() - 2] == '/') {
        tidy(s.drop_last())
    } else {
        s
    }
}

/// Where the last component starts.
pub open spec fn base_start(s: Seq<char>) -> int
    decreases s.len(),
{
    if s.len() == 0 || s.last() == '/' {
        s.len() as int
    } else {
        base_start(s.drop_last())
    }
}

/// The path without its last component; the root and the empty path have none.
pub open spec fn parent_of(path: Seq<char>) -> Option<Seq<char>> {
    let t = tidy(path);
    if t.len() == 0 || t == seq!['/'] {
        None
    } else {
        Some(tidy(t.take(base_start(t))))
    }
}

/// The last component, unless it is `..` or `.`.
pub open spec fn name_of(path: Seq<char>) -> Option<Seq<char>> {
    let t = tidy(path);
    let base = t.skip(base_start(t));
    if base.len() == 0 || base == seq!['.'] || base == seq!['.', '.'] {
        None
    } else {
        Some(base)
    }
}

/// The directory that a file is in.
pub open spec fn directory_of(path: Seq<char>) -> Seq<char> {
    match parent_of(path) {
        Some(p) => if p.len() > 0 {
            p
        } else {
            "."@
        },
        None => "."@,
    }
}

fn tidied(v: &Vec<char>, end: usize) -> (r: usize)
    requires
        end <= v@.len(),
    ensures
        r <= end,
        v@.take(r as int) == tidy(v@.take(end as int)),
{
    let mut n: usize = end;
    while n > 1 && (v[n - 1] == '/' || v[n - 1] == '.' && v[n - 2] == '/')
        invariant
            n <= end <= v@.len(),
            tidy(v@.take(n as int)) == tidy(v@.take(end as int)),
        decreases n,
    {
        assert(v@.take(n as int).drop_last() =~= v@.take(n - 1));
        n -= 1;
    }
    n
}

fn base_from(v: &Vec<char>, end: usize) -> (r: usize)
    requires
        end <= v@.len(),
    ensures
        r <= end,
        r == base_start(v@.take(end as int)),
{
    let mut n: usize = end;
    while n > 0 && v[n - 1] != '/'
        invariant
            n <= end <= v@.len(),
            base_start(v@.take(n as int)) == base_start(v@.take(end as int)),
        decreases n,
    {
        assert(v@.take(n as int).drop_last() =~= v@.take(n - 1));
        n -= 1;
    }
    n
}

/// The path without its last component.
pub fn parent(path: &str) -> (r: Option<String>)
    ensures
        opt_view(r) == parent_of(path@),
{
    let v = text::chars_of(path);
    let all = v.len();
    assert(v@.take(all as int) =~= path@);
    let n = tidied(&v, all);
    let ghost t = v@.take(n as int);
    if n == 0 || n == 1 && v[0] == '/' {
        assert(t.len() == 0 || t =~= seq!['/']);
        return None;
    }
    assert(t != seq!['/']) by {
        if t == seq!['/'] {
            assert(t.len() == 1 && t[0] == '/');
            assert(t[0] == v@[0]);
        }
    }
    let b = base_from(&v, n);
    let m = tidied(&v, b);
    assert(t.take(b as int) =~= v@.take(b as int));
    let r = text::string_between(&v, 0, m);
    assert(r@ =~= v@.take(m as int));
    Some(r)
}

/// The last component.
pub fn file_name(path: &str) -> (r: Option<String>)
    ensures
        opt_view(r) == name_of(path@),
{
    let v = text::chars_of(path);
    let all = v.len();
    assert(v@.take(all as int) =~= path@);
    let n = tidied(&v, all);
    let ghost t = v@.take(n as int);
    let b = base_from(&v, n);
    let base = text::string_between(&v, b, n);
    assert(base@ =~= t.skip(b as int));
    proof {
        reveal_strlit(".");
        reveal_strlit("..");
        assert("."@ =~= seq!['.']);
        assert(".."@ =~= seq!['.', '.']);
    }
    if b == n || text::same(base.as_str(), ".") || text::same(base.as_str(), "..") {
        None
    } else {
        Some(base)
    }
}

/// The directory that a file is in.
pub fn directory(path: &str) -> (r: String)
    ensures
        r@ == directory_of(path@),
{
    match parent(path) {
        Some(p) => if p.as_str().unicode_len() > 0 {
            p
        } else {
            ".".to_owned()
        },
        None => ".".to_owned(),
    }
}

/// The path with another last component.
pub open spec fn renamed(path: Seq<char>, name: Seq<char>) -> Seq<char> {
    match (name_of(path), parent_of(path)) {
        (Some(_), Some(p)) => joined_path(p, name),
        _ => joined_path(path, name),
    }
}

pub fn with_file_name(path: &str, name: &str) -> (r: String)
    ensures
        r@ == renamed(path@, name@),
{
    if file_name(path).is_some() {
        if let Some(p) = parent(path) {
            return join_path(p.as_str(), name);
        }
    }
    join_path(path, name)
}

/// `~/x` -> `$HOME/x`; anything else as typed (relative to the cwd).
pub open spec fn expanded(p: Seq<char>, home: Option<Seq<char>>) -> Seq<char> {
    match home {
        Some(h) => if has_prefix(p, "~/"@) {
            joined_path(h, p.skip(2))
        } else {
            p
        },
        None => p,
    }
}

/// `~/x` -> `$HOME/x`; anything else as typed (relative to the cwd).
pub fn expand_tilde(p: &str, home: &Option<String>) -> (r: String)
    ensures
        r@ == expanded(p@, opt_view(*home)),
{
    proof {
        reveal_strlit("~/");
    }
    if let Some(h) = home {
        if text::starts_with(p, "~/") {
            let rest = text::skip(p, 2);
            assert(rest@ =~= p@.skip(2));
            return join_path(h.as_str(), rest.as_str());
        }
    }
    p.to_owned()
}

/// What `std::path::absolute` makes of a path that starts at the root.
pub uninterp spec fn absolute_path(path: Seq<char>) -> Option<Seq<char>>;

/// A path from the root, with nothing in it to resolve: no empty and no `.`
/// component.
pub open spec fn is_normal(path: Seq<char>) -> bool {
    &&& has_prefix(path, "/"@)
    &&& forall|i: int|
        1 <= i < split_on(path, '/').len() ==> (#[trigger] split_on(path, '/')[i]).len() > 0
            && split_on(path, '/')[i] != seq!['.']
}

/// `std::path::absolute`, under POSIX rules. For a path that starts at the
/// root its result depends on the path alone; where no component is empty or
/// `.`, it is the path itself. No more is claimed of it.
#[verifier::external_body]
fn absolute(path: &str) -> (r: Option<String>)
    requires
        has_prefix(path@, "/"@),
    ensures
        opt_view(r) == absolute_path(path@),
        is_normal(path@) ==> opt_view(r) == Some(path@),
{
    std::path::absolute(path).ok().map(|p| p.to_string_lossy().into_owned())
}

/// The absolute form of a path, seen from a working directory; the path itself
/// where there is none.
pub open spec fn rooted(path: Seq<char>, cwd: Seq<char>) -> Seq<char> {
    let full = joined_path(cwd, path);
    if path.len() > 0 && has_prefix(full, "/"@) {
        match absolute_path(full) {
            Some(a) => a,
            None => path,
        }
    } else {
        path
    }
}

pub fn root_path(path: &str, cwd: &str) -> (r: String)
    ensures
        r@ == rooted(path@, cwd@),
        is_normal(path@) ==> r@ == path@,
{
    let full = join_path(cwd, path);
    if path.unicode_len() > 0 && text::starts_with(full.as_str(), "/") {
        match absolute(full.as_str()) {
            Some(a) => a,
            None => path.to_owned(),
        }
    } else {
        path.to_owned()
    }
}

/// Bytes of an escaped path that an autosave's name keeps.
pub const NAME_CAP: usize = 200;

/// A character of a path in a file name: `/` is `%`; `%` and the backslash
/// are escaped with a backslash.
pub open spec fn escaped_char(c: char) -> Seq<char> {
    if c == '/' {
        seq!['%']
    } else if c == '%' || c == '\\' {
        seq!['\\', c]
    } else {
        seq![c]
    }
}

/// A path as a file name.
pub open spec fn escaped_path(path: Seq<char>) -> Seq<char>
    decreases path.len(),
{
    if path.len() == 0 {
        Seq::empty()
    } else {
        escaped_path(path.drop_last()) + escaped_char(path.last())
    }
}

/// The longest tail that takes at most `cap` bytes.
pub open spec fn tail_within(s: Seq<char>, cap: usize) -> Seq<char>
    decreases s.len(),
{
    if s.len() == 0 || byte_len(s) <= cap {
        s
    } else {
        tail_within(s.skip(1), cap)
    }
}

/// The name of an autosave: an absolute path with `/` as `%`, of a very deep
/// one the tail.
pub open spec fn autosave_name(abs: Seq<char>) -> Seq<char> {
    tail_within(escaped_path(abs), NAME_CAP)
}

fn escape_path(path: &str) -> (r: String)
    ensures
        r@ == escaped_path(path@),
{
    let chars = text::chars_of(path);
    let mut r = String::new();
    let mut i: usize = 0;
    assert(path@.take(0) =~= Seq::<char>::empty());
    assert(r@ =~= Seq::<char>::empty());
    while i < chars.len()
        invariant
            i <= chars@.len(),
            chars@ == path@,
            r@ == escaped_path(path@.take(i as int)),
        decreases chars@.len() - i,
    {
        let c = chars[i];
        let ghost r0 = r@;
        assert(path@.take(i + 1).drop_last() =~= path@.take(i as int));
        if c == '/' {
            r.push('%');
        } else {
            if c == '%' || c == '\\' {
                r.push('\\');
            }
            r.push(c);
        }
        assert(r@ =~= r0 + escaped_char(c));
        i += 1;
    }
    assert(path@.take(i as int) =~= path@);
    r
}

pub fn autosave_file_name(abs: &str) -> (r: String)
    ensures
        r@ == autosave_name(abs@),
        byte_len(r@) <= NAME_CAP,
{
    let mut name = escape_path(abs);
    while name.as_str().unicode_len() > 0 && name.as_str().len() > NAME_CAP
        invariant
            autosave_name(abs@) == tail_within(name@, NAME_CAP),
        decreases name@.len(),
    {
        name = text::skip(name.as_str(), 1);
    }
    name
}

/// Where a notebook's recovery copy is kept: under the state directory, else
/// beside the file.
pub open spec fn autosave_of(
    path: Seq<char>,
    abs: Seq<char>,
    state_dir: Option<Seq<char>>,
) -> Seq<char> {
    match state_dir {
        Some(dir) => joined_path(joined_path(dir, "autosave"@), autosave_name(abs)),
        None => renamed(
            path,
            "."@ + (match name_of(path) {
                Some(f) => f,
                None => Seq::empty(),
            }) + ".autosave"@,
        ),
    }
}

/// The recovery copy of a path, given its absolute form.
pub fn autosave_beside(path: &str, abs: &str, state_dir: &Option<String>) -> (r: String)
    ensures
        r@ == autosave_of(path@, abs@, opt_view(*state_dir)),
{
    match state_dir {
        Some(dir) => join_path(
            join_path(dir.as_str(), "autosave").as_str(),
            autosave_file_name(abs).as_str(),
        ),
        None => {
            let file = match file_name(path) {
                Some(f) => f,
                None => String::new(),
            };
            let name = text::concat(
                text::concat(".", file.as_str()).as_str(),
                ".autosave",
            );
            with_file_name(path, name.as_str())
        },
    }
}

/// Autosave location for `path`: `<state dir>/autosave/<absolute path with
/// '/' as '%'>` (vim undodir style; a '%' of the path is escaped), so recovery copies never litter the
/// notebook's directory or a git repo. Falls back to `.name.autosave` beside
/// the file.
pub fn autosave_path_for(path: &str, cwd: &str, state_dir: &Option<String>) -> (r: String)
    ensures
        r@ == autosave_of(path@, rooted(path@, cwd@), opt_view(*state_dir)),
        is_normal(path@) ==> r@ == autosave_of(path@, path@, opt_view(*state_dir)),
{
    autosave_beside(path, root_path(path, cwd).as_str(), state_dir)
}

/// "3m", "2h", "5d": an age in seconds, for the recovery prompt.
pub open spec fn age_text(s: u64) -> Seq<char> {
    if s < 60 {
        text::decimal(s as int) + "s"@
    } else if s < 3600 {
        text::decimal((s / 60) as int) + "m"@
    } else if s < 86400 {
        text::decimal((s / 3600) as int) + "h"@
    } else {
        text::decimal((s / 86400) as int) + "d"@
    }
}

pub fn age(s: u64) -> (r: String)
    ensures
        r@ == age_text(s),
{
    if s < 60 {
        text::concat(text::decimal_string(s).as_str(), "s")
    } else if s < 3600 {
        text::concat(text::decimal_string(s / 60).as_str(), "m")
    } else if s < 86400 {
        text::concat(text::decimal_string(s / 3600).as_str(), "h")
    } else {
        text::concat(text::decimal_string(s / 86400).as_str(), "d")
    }
}

/// The components of a path in text, given its parts between separators.
pub open spec fn components_of(parts: Seq<Seq<char>>) -> Seq<Seq<char>>
    decreases parts.len(),
{
    if parts.len() == 0 {
        Seq::empty()
    } else {
        let before = components_of(parts.drop_last());
        let p = parts.last();
        if p.len() == 0 || p == "."@ && parts.len() > 1 {
            before
        } else {
            before.push(p)
        }
    }
}

/// Two paths with the same components.
pub open spec fn same_path(a: Seq<char>, b: Seq<char>) -> bool {
    &&& has_prefix(a, "/"@) == has_prefix(b, "/"@)
    &&& components_of(split_on(a, '/')) == components_of(split_on(b, '/'))
}

fn components(path: &str) -> (r: Vec<String>)
    ensures
        views(r@) == components_of(split_on(path@, '/')),
{
    let parts = text::split(path, '/');
    let ghost all = views(parts@);
    let mut r: Vec<String> = Vec::new();
    let mut i: usize = 0;
    assert(all.take(0) =~= Seq::<Seq<char>>::empty());
    assert(views(r@) =~= Seq::<Seq<char>>::empty());
    while i < parts.len()
        invariant
            i <= parts@.len(),
            all == views(parts@),
            views(r@) == components_of(all.take(i as int)),
        decreases parts@.len() - i,
    {
        let ghost r0 = r@;
        let p = parts[i].clone();
        assert(all[i as int] == p@);
        assert(all.take(i + 1).drop_last() =~= all.take(i as int));
        if !(p.as_str().unicode_len() == 0 || text::same(p.as_str(), ".") && i > 0) {
            r.push(p);
            assert(views(r@) =~= views(r0).push(p@));
        }
        i += 1;
    }
    assert(all.take(i as int) =~= all);
    r
}

/// Whether two paths have the same components.
pub fn paths_equal(a: &str, b: &str) -> (r: bool)
    ensures
        r == same_path(a@, b@),
{
    let x = components(a);
    let y = components(b);
    if text::starts_with(a, "/") != text::starts_with(b, "/") {
        return false;
    }
    text::same_strings(&x, &y)
}

proof fn lemma_escape_push(path: Seq<char>, c: char)
    ensures
        escaped_path(path.push(c)) == escaped_path(path) + escaped_char(c),
{
    assert(path.push(c).drop_last() =~= path);
}

/// An escaped path, taken apart at its front.
proof fn lemma_escape_front(path: Seq<char>)
    requires
        path.len() > 0,
    ensures
        escaped_path(path) == escaped_char(path[0]) + escaped_path(path.skip(1)),
    decreases path.len(),
{
    if path.len() == 1 {
        assert(path.drop_last() =~= Seq::<char>::empty());
        assert(path.skip(1) =~= Seq::<char>::empty());
        assert(escaped_path(path) =~= escaped_char(path[0]) + escaped_path(path.skip(1)));
    } else {
        let init = path.drop_last();
        lemma_escape_front(init);
        assert(path.skip(1) =~= init.skip(1).push(path.last()));
        lemma_escape_push(init.skip(1), path.last());
        assert(escaped_path(path) =~= escaped_char(path[0]) + escaped_path(path.skip(1)));
    }
}

/// Different paths have different escaped forms.
proof fn lemma_escape_is_injective(a: Seq<char>, b: Seq<char>)
    requires
        escaped_path(a) == escaped_path(b),
    ensures
        a == b,
    decreases a.len(),
{
    if a.len() > 0 {
        lemma_escape_front(a);
    }
    if b.len() > 0 {
        lemma_escape_front(b);
    }
    if a.len() == 0 || b.len() == 0 {
        assert(a.len() == b.len());
        assert(a =~= b);
    } else {
        let e = escaped_path(a);
        let (x, y) = (escaped_char(a[0]), escaped_char(b[0]));
        assert(e[0] == x[0] && e[0] == y[0]);
        if x.len() == 2 && y.len() == 2 {
            assert(e[1] == x[1] && e[1] == y[1]);
        }
        assert(a[0] == b[0]);
        assert(e.skip(x.len() as int) =~= escaped_path(a.skip(1)));
        assert(e.skip(x.len() as int) =~= escaped_path(b.skip(1)));
        lemma_escape_is_injective(a.skip(1), b.skip(1));
        assert(a =~= seq![a[0]] + a.skip(1));
        assert(b =~= seq![b[0]] + b.skip(1));
    }
}

proof fn lemma_escape_holds_no_slash(path: Seq<char>)
    ensures
        !escaped_path(path).contains('/'),
    decreases path.len(),
{
    if path.len() > 0 {
        lemma_escape_holds_no_slash(path.drop_last());
        let (init, last) = (escaped_path(path.drop_last()), escaped_char(path.last()));
        assert forall|i: int| 0 <= i < escaped_path(path).len() implies escaped_path(path)[i]
            != '/' by {
            if i < init.len() {
                assert(escaped_path(path)[i] == init[i]);
            } else {
                assert(escaped_path(path)[i] == last[i - init.len()]);
            }
        }
    }
}

proof fn lemma_tail(s: Seq<char>, cap: usize)
    ensures
        tail_within(s, cap).len() <= s.len(),
        tail_within(s, cap) == s.skip(s.len() - tail_within(s, cap).len()),
    decreases s.len(),
{
    if s.len() == 0 || byte_len(s) <= cap {
        assert(s.skip(0) =~= s);
    } else {
        let t = s.skip(1);
        lemma_tail(t, cap);
        assert(t.skip(t.len() - tail_within(t, cap).len()) =~= s.skip(
            s.len() - tail_within(t, cap).len(),
        ));
    }
}

/// An autosave lies directly in its directory: its name holds no `/`.
pub proof fn law_autosave_names_hold_no_slash(abs: Seq<char>)
    ensures
        !autosave_name(abs).contains('/'),
{
    let name = escaped_path(abs);
    lemma_escape_holds_no_slash(abs);
    lemma_tail(name, NAME_CAP);
    assert forall|i: int| 0 <= i < autosave_name(abs).len() implies autosave_name(abs)[i] != '/' by {
        let cut = name.len() - autosave_name(abs).len();
        assert(autosave_name(abs)[i] == name[cut + i]);
    }
}

/// The name of an autosave is a tail of the escaped path, and all of it where
/// it fits.
pub proof fn law_autosave_names_keep_the_tail(abs: Seq<char>)
    ensures
        autosave_name(abs).len() <= escaped_path(abs).len(),
        autosave_name(abs) == escaped_path(abs).skip(
            escaped_path(abs).len() - autosave_name(abs).len(),
        ),
        byte_len(escaped_path(abs)) <= NAME_CAP ==> autosave_name(abs) == escaped_path(abs),
{
    lemma_tail(escaped_path(abs), NAME_CAP);
}

/// Two notebooks share a recovery file only where the escaped path of one of
/// them is too long to be kept whole.
pub proof fn law_autosaves_are_not_shared(
    p: Seq<char>,
    a: Seq<char>,
    q: Seq<char>,
    b: Seq<char>,
    dir: Seq<char>,
)
    requires
        a != b,
        byte_len(escaped_path(a)) <= NAME_CAP,
        byte_len(escaped_path(b)) <= NAME_CAP,
    ensures
        autosave_name(a) != autosave_name(b),
        autosave_of(p, a, Some(dir)) != autosave_of(q, b, Some(dir)),
{
    let (x, y) = (autosave_name(a), autosave_name(b));
    if x == y {
        lemma_escape_is_injective(a, b);
    }
    law_autosave_names_hold_no_slash(a);
    law_autosave_names_hold_no_slash(b);
    reveal_strlit("/");
    let base = joined_path(dir, "autosave"@);
    assert(!has_prefix(x, "/"@)) by {
        if has_prefix(x, "/"@) {
            assert(x.subrange(0, 1)[0] == '/');
            assert(x.contains('/'));
        }
    }
    assert(!has_prefix(y, "/"@)) by {
        if has_prefix(y, "/"@) {
            assert(y.subrange(0, 1)[0] == '/');
            assert(y.contains('/'));
        }
    }
    let (u, v) = (joined_path(base, x), joined_path(base, y));
    if u == v {
        assert(u.skip(u.len() - x.len()) =~= x);
        assert(v.skip(v.len() - y.len()) =~= y);
        assert(x.len() == y.len());
        assert(false);
    }
}

/// Two notebooks whose escaped paths are ASCII and of at most as many
/// characters as are kept do not share a recovery file.
pub proof fn law_ascii_autosaves_are_not_shared(
    p: Seq<char>,
    a: Seq<char>,
    q: Seq<char>,
    b: Seq<char>,
    dir: Seq<char>,
)
    requires
        a != b,
        is_ascii_chars(escaped_path(a)),
        is_ascii_chars(escaped_path(b)),
        escaped_path(a).len() <= NAME_CAP,
        escaped_path(b).len() <= NAME_CAP,
    ensures
        autosave_of(p, a, Some(dir)) != autosave_of(q, b, Some(dir)),
{
    is_ascii_chars_encode_utf8(escaped_path(a));
    is_ascii_chars_encode_utf8(escaped_path(b));
    law_autosaves_are_not_shared(p, a, q, b, dir);
}

} // verus!
