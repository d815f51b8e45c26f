//! What a reader of rendered markdown gets to see of its source.

#[allow(unused_imports)]
use vstd::prelude::*;

#[allow(unused_imports)]
use crate::highlight::highlighted;
#[allow(unused_imports)]
use crate::json::JsonView;
#[allow(unused_imports)]
use crate::latex::unicode_approx;
#[allow(unused_imports)]
use crate::markdown::{
    bullet, column_widths, document, element, elements, find_stars, image_graphic, image_line,
    is_bullet, is_rule_cell, is_separator, joined_path, link_at, math_style, rendered_markdown,
    row_spans, table_cells, table_line, table_lines, text_row, CanvasView, DocumentView, InlineView, RowView,
};
#[allow(unused_imports)]
use crate::pictures::{GalleryView, GraphicView, ImageView, PictureView};
#[allow(unused_imports)]
use crate::strings::lemma_one_piece;
#[allow(unused_imports)]
use crate::style::{ColorView, LineView, SpanView, StyleView, BOLD, ITALIC, UNDERLINED};
#[allow(unused_imports)]
use crate::text::{
    byte_len, find_char, find_infix, has_prefix, has_suffix, join, lines_of, matches_at, repeated,
    split_on, strip_leading, trim, trim_start,
};

verus! {

/// What a document is rendered with.
pub struct Setting {
    pub theme: Seq<char>,
    pub g: GalleryView,
    pub attachments: Option<JsonView>,
    pub lines: Seq<Seq<char>>,
}

impl Setting {
    /// The document after its first `n` lines.
    pub open spec fn upto(self, n: int) -> DocumentView {
        document(self.theme, self.g, self.attachments, self.lines, n)
    }

    /// Line `a` starts a block: no fence and no formula is open there.
    pub open spec fn starts(self, a: int) -> bool {
        &&& 0 <= a < self.lines.len() <= usize::MAX
        &&& self.upto(a).fence is None
        &&& self.upto(a).math is None
    }

    /// What is on the canvas when line `a`, which is no table row, is met.
    pub open spec fn canvas(self, a: int) -> CanvasView {
        self.upto(a).table_closed(a).canvas
    }

    /// Lines `a` to `b` are a formula between `$$` and `$$`.
    pub open spec fn math_block(self, a: int, b: int) -> bool {
        let t = trim(self.lines[a]);
        &&& self.starts(a)
        &&& a < b < self.lines.len()
        &&& has_prefix(t, "$$"@)
        &&& !has_suffix(t.skip(2), "$$"@)
        &&& forall|k: int| a < k < b ==> !has_suffix(trim(#[trigger] self.lines[k]), "$$"@)
        &&& has_suffix(trim(self.lines[b]), "$$"@)
    }

    /// The text of a formula over lines `a` to `b`, its marks aside.
    pub open spec fn tex(self, a: int, b: int) -> Seq<char> {
        let whole = join(
            seq![trim(self.lines[a])] + self.lines.subrange(a + 1, b) + seq![trim(self.lines[b])],
            "\n"@,
        );
        whole.subrange(2, whole.len() - 2)
    }

    /// Lines `a` to `b` are code between fences.
    pub open spec fn code_block(self, a: int, b: int) -> bool {
        &&& self.starts(a)
        &&& a < b < self.lines.len()
        &&& has_prefix(trim(self.lines[a]), "```"@)
        &&& forall|k: int| a < k < b ==> !has_prefix(trim(#[trigger] self.lines[k]), "```"@)
        &&& has_prefix(trim(self.lines[b]), "```"@)
    }

    /// Lines `a` to `b - 1` are the rows of a table; line `b` is none.
    pub open spec fn table_block(self, a: int, b: int) -> bool {
        &&& self.starts(a)
        &&& self.upto(a).table.len() == 0
        &&& a < b <= self.lines.len()
        &&& forall|k: int| a <= k < b ==> has_prefix(trim(#[trigger] self.lines[k]), "|"@)
    }
}

/// `c` shows the formula `tex` below what `before` shows: as its picture, or
/// where there is none, as its approximation.
pub open spec fn shows_math(
    g: GalleryView,
    before: CanvasView,
    c: CanvasView,
    tex: Seq<char>,
) -> bool {
    let n = before.lines.len() as int;
    &&& n <= c.lines.len()
    &&& c.lines.take(n) == before.lines
    &&& match g.entry(GraphicView::Host(PictureView::Math(tex)), false) {
        Some(e) => {
            &&& c.images == before.images.push(ImageView { line: n, ..e })
            &&& c.lines.len() == n + e.rows
            &&& forall|k: int| n <= k < c.lines.len() ==> #[trigger] c.lines[k] == LineView::raw(
                Seq::empty(),
            )
        },
        None => {
            let shown = lines_of(unicode_approx(tex));
            &&& c.images == before.images
            &&& c.lines.len() == n + shown.len()
            &&& forall|k: int|
                0 <= k < shown.len() ==> #[trigger] c.lines[n + k] == LineView::styled(
                    seq![' ', ' ', ' ', ' '] + shown[k],
                    StyleView::of(ColorView::Magenta).with(ITALIC),
                )
        },
    }
    &&& match g.asking(GraphicView::Host(PictureView::Math(tex)), false) {
        Some(q) => c.wants == before.wants.push(q),
        None => c.wants == before.wants,
    }
}

proof fn lemma_shows_math(g: GalleryView, before: CanvasView, i: usize, j: usize, tex: Seq<char>)
    ensures
        shows_math(g, before, before.mapped_to(i).math(g, tex).mapped_to(j), tex),
        shows_math(g, before, before.math(g, tex).mapped_to(j), tex),
{
    reveal_strlit("    ");
    assert("    "@ =~= seq![' ', ' ', ' ', ' ']);
    let c = before.mapped_to(i).math(g, tex).mapped_to(j);
    let d = before.math(g, tex).mapped_to(j);
    let n = before.lines.len() as int;
    assert(c.lines == d.lines);
    assert(c.lines.take(n) =~= before.lines);
    let shown = lines_of(unicode_approx(tex));
    assert(math_style() == StyleView::of(ColorView::Magenta).with(ITALIC));
}

proof fn lemma_math_opens(s: Setting, a: int)
    requires
        s.starts(a),
        has_prefix(trim(s.lines[a]), "$$"@),
    ensures
        s.upto(a + 1) == s.upto(a).table_closed(a).math_opened(
            s.g,
            a as usize,
            trim(s.lines[a]).skip(2),
        ),
{
    reveal_strlit("$$");
    reveal_strlit("|");
    reveal_strlit("![");
    reveal_strlit("```");
    let t = trim(s.lines[a]);
    assert(t.take(2) == "$$"@ || t.subrange(0, 2) == "$$"@);
    assert(t[0] == '$' && t[1] == '$') by {
        assert("$$"@[0] == '$' && "$$"@[1] == '$');
        assert(t.subrange(0, 2)[0] == t[0] && t.subrange(0, 2)[1] == t[1]);
    }
    assert(!has_prefix(t, "|"@)) by {
        if has_prefix(t, "|"@) {
            assert(t.subrange(0, 1)[0] == t[0]);
            assert("|"@[0] == '|');
        }
    }
    assert(!has_prefix(t, "!["@)) by {
        if has_prefix(t, "!["@) {
            assert(t.subrange(0, 2)[0] == t[0]);
            assert("!["@[0] == '!');
        }
    }
    assert(!has_prefix(t, "```"@)) by {
        if has_prefix(t, "```"@) {
            assert(t.subrange(0, 3)[0] == t[0]);
            assert("```"@[0] == '`');
        }
    }
}

proof fn lemma_math_read(d: DocumentView, s: Setting, i: usize, buf: Seq<char>, raw: Seq<char>)
    requires
        d.fence is None,
        d.math == Some(buf),
    ensures
        d.read(s.theme, s.g, s.attachments, i, raw) == d.math_line(s.g, buf, i, raw),
{
}

proof fn lemma_first_part(t: Seq<char>)
    requires
        t.len() >= 2,
    ensures
        (join(seq![t], "\n"@) + "\n"@).skip(2) == t.skip(2) + "\n"@,
{
    assert((t + "\n"@).skip(2) =~= t.skip(2) + "\n"@);
}

proof fn lemma_next_part(parts: Seq<Seq<char>>, raw: Seq<char>)
    requires
        parts.len() > 0,
        parts[0].len() >= 2,
    ensures
        (join(parts.push(raw), "\n"@) + "\n"@).skip(2) == (join(parts, "\n"@) + "\n"@).skip(2) + raw
            + "\n"@,
{
    lemma_join_covers(parts, "\n"@);
    assert(parts.push(raw).drop_last() =~= parts);
    let j = join(parts, "\n"@);
    assert((j + "\n"@ + raw + "\n"@).skip(2) =~= (j + "\n"@).skip(2) + raw + "\n"@);
}

/// The lines of a formula from line `a` up to line `k`.
pub open spec fn math_parts(s: Setting, a: int, k: int) -> Seq<Seq<char>> {
    seq![trim(s.lines[a])] + s.lines.subrange(a + 1, k)
}

proof fn lemma_math_starts(s: Setting, a: int, b: int)
    requires
        s.math_block(a, b),
    ensures
        trim(s.lines[a]).len() >= 2,
        s.upto(a + 1).fence is None,
        s.upto(a + 1).canvas == s.canvas(a).mapped_to(a as usize),
        s.upto(a + 1).math == Some(trim(s.lines[a]).skip(2) + "\n"@),
{
    reveal_strlit("$$");
    lemma_math_opens(s, a);
}

proof fn lemma_math_goes_on(s: Setting, a: int, b: int, k: int)
    requires
        s.math_block(a, b),
        a < k <= b,
    ensures
        trim(s.lines[a]).len() >= 2,
        s.upto(k).fence is None,
        s.upto(k).canvas == s.canvas(a).mapped_to(a as usize),
        s.upto(k).math == Some((join(math_parts(s, a, k), "\n"@) + "\n"@).skip(2)),
    decreases k - a,
{
    let t = trim(s.lines[a]);
    if k == a + 1 {
        lemma_math_starts(s, a, b);
        assert(math_parts(s, a, k) =~= seq![t]);
        lemma_first_part(t);
    } else {
        lemma_math_goes_on(s, a, b, k - 1);
        let parts = math_parts(s, a, k - 1);
        let raw = s.lines[k - 1];
        let buf = (join(parts, "\n"@) + "\n"@).skip(2);
        let d = s.upto(k - 1);
        lemma_math_read(d, s, (k - 1) as usize, buf, raw);
        assert(!has_suffix(trim(raw), "$$"@));
        assert(s.upto(k) == d.math_line(s.g, buf, (k - 1) as usize, raw));
        assert(math_parts(s, a, k) =~= parts.push(raw));
        lemma_next_part(parts, raw);
    }
}

proof fn lemma_join_covers(parts: Seq<Seq<char>>, sep: Seq<char>)
    requires
        parts.len() > 0,
    ensures
        join(parts, sep).len() >= parts[0].len(),
        join(parts, sep).take(parts[0].len() as int) == parts[0],
    decreases parts.len(),
{
    if parts.len() == 1 {
        assert(parts[0].take(parts[0].len() as int) =~= parts[0]);
    } else {
        lemma_join_covers(parts.drop_last(), sep);
        let j = join(parts.drop_last(), sep);
        assert((j + sep + parts.last()).take(parts[0].len() as int) =~= j.take(
            parts[0].len() as int,
        ));
    }
}

proof fn lemma_tex(s: Setting, a: int, b: int)
    requires
        s.math_block(a, b),
        trim(s.lines[a]).len() >= 2,
    ensures
        s.tex(a, b) == (join(math_parts(s, a, b), "\n"@) + "\n"@).skip(2) + trim(s.lines[b]).take(
            trim(s.lines[b]).len() - 2,
        ),
        seq!['$', '$'] + s.tex(a, b) + seq!['$', '$'] == join(
            math_parts(s, a, b).push(trim(s.lines[b])),
            seq!['\n'],
        ),
{
    reveal_strlit("\n");
    reveal_strlit("$$");
    assert("\n"@ =~= seq!['\n']);
    assert("$$"@ =~= seq!['$', '$']);
    let (u, t) = (trim(s.lines[a]), trim(s.lines[b]));
    let parts = math_parts(s, a, b);
    let all = parts.push(t);
    assert(all =~= parts + seq![t]);
    assert(all.drop_last() =~= parts);
    assert(parts[0] == u);
    lemma_join_covers(parts, "\n"@);
    let j = join(parts, "\n"@);
    let whole = join(all, "\n"@);
    assert(whole == j + "\n"@ + t);
    assert(t.subrange(t.len() - 2, t.len() as int) == seq!['$', '$']);
    assert(u.subrange(0, 2) == seq!['$', '$']);
    assert(j[0] == '$' && j[1] == '$') by {
        assert(j.take(u.len() as int)[0] == j[0] && j.take(u.len() as int)[1] == j[1]);
        assert(u.subrange(0, 2)[0] == u[0] && u.subrange(0, 2)[1] == u[1]);
    }
    assert(t[t.len() - 2] == '$' && t[t.len() - 1] == '$') by {
        assert(t.subrange(t.len() - 2, t.len() as int)[0] == t[t.len() - 2]);
        assert(t.subrange(t.len() - 2, t.len() as int)[1] == t[t.len() - 1]);
    }
    assert(s.tex(a, b) == whole.subrange(2, whole.len() - 2));
    assert(s.tex(a, b) =~= (j + "\n"@).skip(2) + t.take(t.len() - 2));
    assert(seq!['$', '$'] + s.tex(a, b) + seq!['$', '$'] =~= whole);
}

proof fn lemma_math_ends(s: Setting, a: int, b: int)
    requires
        s.math_block(a, b),
    ensures
        trim(s.lines[a]).len() >= 2,
        s.upto(b + 1).canvas == s.canvas(a).mapped_to(a as usize).math(
            s.g,
            s.tex(a, b),
        ).mapped_to(b as usize),
        s.upto(b + 1).math is None,
        s.upto(b + 1).fence is None,
{
    lemma_math_goes_on(s, a, b, b);
    lemma_tex(s, a, b);
    let buf = (join(math_parts(s, a, b), "\n"@) + "\n"@).skip(2);
    let d = s.upto(b);
    lemma_math_read(d, s, b as usize, buf, s.lines[b]);
    assert(s.upto(b + 1) == d.math_line(s.g, buf, b as usize, s.lines[b]));
}

/// A formula between `$$` on one line and `$$` on a later one is rendered from
/// all that stands between the marks: every character of every line, in order,
/// with the line breaks.
pub proof fn law_display_math_keeps_its_text(s: Setting, a: int, b: int)
    ensures
        s.math_block(a, b) ==> {
            &&& shows_math(s.g, s.canvas(a), s.upto(b + 1).canvas, s.tex(a, b))
            &&& s.starts(b + 1) || b + 1 == s.lines.len()
        },
        s.math_block(a, b) ==> seq!['$', '$'] + s.tex(a, b) + seq!['$', '$'] == join(
            seq![trim(s.lines[a])] + s.lines.subrange(a + 1, b) + seq![trim(s.lines[b])],
            seq!['\n'],
        ),
{
    if s.math_block(a, b) {
        lemma_math_ends(s, a, b);
        lemma_tex(s, a, b);
        let t = trim(s.lines[b]);
        assert(math_parts(s, a, b).push(t) =~= seq![trim(s.lines[a])] + s.lines.subrange(a + 1, b)
            + seq![t]);
        lemma_shows_math(s.g, s.canvas(a), a as usize, b as usize, s.tex(a, b));
    }
}

/// A formula on one line, between `$$` and `$$`, is rendered from what stands
/// between the marks.
pub proof fn law_math_on_one_line(s: Setting, a: int, tex: Seq<char>)
    ensures
        s.starts(a) && trim(s.lines[a]) == seq!['$', '$'] + tex + seq!['$', '$'] ==> shows_math(
            s.g,
            s.canvas(a),
            s.upto(a + 1).canvas,
            tex,
        ) && s.upto(a + 1).math is None && s.upto(a + 1).fence is None,
{
    let t = trim(s.lines[a]);
    if s.starts(a) && t == seq!['$', '$'] + tex + seq!['$', '$'] {
        reveal_strlit("$$");
        assert("$$"@ =~= seq!['$', '$']);
        assert(t.subrange(0, 2) =~= "$$"@);
        assert(t.skip(2) =~= tex + seq!['$', '$']);
        let u = t.skip(2);
        assert(u.subrange(u.len() - 2, u.len() as int) =~= "$$"@);
        assert(u.take(u.len() - 2) =~= tex);
        lemma_math_opens(s, a);
        lemma_shows_math(s.g, s.canvas(a), a as usize, a as usize, tex);
    }
}

// ---------------------------------------------------------------------------
// Headings
// ---------------------------------------------------------------------------

proof fn lemma_strip(c: char, n: nat, rest: Seq<char>)
    requires
        rest.len() > 0 ==> rest[0] != c,
    ensures
        strip_leading(repeated(c, n) + rest, c) == rest,
    decreases n,
{
    let s = repeated(c, n) + rest;
    if n == 0 {
        assert(s =~= rest);
    } else {
        lemma_strip(c, (n - 1) as nat, rest);
        assert(s[0] == c);
        assert(s.skip(1) =~= repeated(c, (n - 1) as nat) + rest);
    }
}

proof fn lemma_no_prefix(t: Seq<char>, p: Seq<char>)
    requires
        t.len() > 0,
        p.len() > 0,
        t[0] != p[0],
    ensures
        !has_prefix(t, p),
{
    if has_prefix(t, p) {
        assert(t.subrange(0, p.len() as int)[0] == t[0]);
    }
}

/// A line of `#` and a title shows the title alone, bold; one `#` underlined
/// and in green, two in cyan, more in blue.
pub proof fn law_headings_show_their_title(s: Setting, a: int, n: nat, rest: Seq<char>)
    ensures
        s.starts(a) && n >= 1 && (rest.len() > 0 ==> rest[0] != '#') && trim(s.lines[a]) == repeated(
            '#',
            n,
        ) + rest ==> {
            let c = s.upto(a + 1).canvas;
            let bold = if n == 1 {
                StyleView::of(ColorView::Green).with(BOLD).with(UNDERLINED)
            } else if n == 2 {
                StyleView::of(ColorView::Cyan).with(BOLD)
            } else {
                StyleView::of(ColorView::Blue).with(BOLD)
            };
            &&& c.lines == s.canvas(a).lines.push(LineView::styled(trim_start(rest), bold))
            &&& c.images == s.canvas(a).images
            &&& s.upto(a + 1).fence is None
            &&& s.upto(a + 1).math is None
        },
{
    let t = trim(s.lines[a]);
    if s.starts(a) && n >= 1 && (rest.len() > 0 ==> rest[0] != '#') && t == repeated('#', n) + rest {
        reveal_strlit("#");
        reveal_strlit("|");
        reveal_strlit("![");
        reveal_strlit("```");
        reveal_strlit("$$");
        assert(t[0] == '#');
        lemma_no_prefix(t, "|"@);
        lemma_no_prefix(t, "!["@);
        lemma_no_prefix(t, "```"@);
        lemma_no_prefix(t, "$$"@);
        assert(has_prefix(t, "#"@)) by {
            assert(t.subrange(0, 1) =~= "#"@);
        }
        lemma_strip('#', n, rest);
        assert(t.len() - strip_leading(t, '#').len() == n);
        let d = s.upto(a).table_closed(a);
        assert(s.upto(a + 1) == d.block_line(s.g, s.attachments, a as usize, s.lines[a]));
    }
}

// ---------------------------------------------------------------------------
// Code
// ---------------------------------------------------------------------------

/// Lines, each with a line break.
pub open spec fn with_breaks(lines: Seq<Seq<char>>) -> Seq<char>
    decreases lines.len(),
{
    if lines.len() == 0 {
        Seq::empty()
    } else {
        with_breaks(lines.drop_last()) + lines.last() + seq!['\n']
    }
}

proof fn lemma_fence_opens(s: Setting, a: int)
    requires
        s.starts(a),
        has_prefix(trim(s.lines[a]), "```"@),
    ensures
        s.upto(a + 1) == (DocumentView {
            fence: Some((trim(trim(s.lines[a]).skip(3)), Seq::empty(), a as usize)),
            ..s.upto(a).table_closed(a)
        }),
{
    reveal_strlit("```");
    reveal_strlit("|");
    reveal_strlit("![");
    let t = trim(s.lines[a]);
    assert(t[0] == '`') by {
        assert(t.subrange(0, 3)[0] == t[0]);
    }
    lemma_no_prefix(t, "|"@);
    lemma_no_prefix(t, "!["@);
    let d = s.upto(a).table_closed(a);
    assert(s.upto(a + 1) == d.block_line(s.g, s.attachments, a as usize, s.lines[a]));
}

#[verifier::spinoff_prover]
#[verifier::rlimit(60)]
proof fn lemma_fence_goes_on(s: Setting, a: int, b: int, k: int)
    requires
        s.code_block(a, b),
        a < k <= b,
    ensures
        s.upto(k) == (DocumentView {
            fence: Some(
                (
                    trim(trim(s.lines[a]).skip(3)),
                    with_breaks(s.lines.subrange(a + 1, k)),
                    a as usize,
                ),
            ),
            ..s.upto(a).table_closed(a)
        }),
    decreases k - a,
{
    if k == a + 1 {
        lemma_fence_opens(s, a);
        assert(s.lines.subrange(a + 1, k) =~= Seq::<Seq<char>>::empty());
    } else {
        lemma_fence_goes_on(s, a, b, k - 1);
        reveal_strlit("\n");
        assert("\n"@ =~= seq!['\n']);
        let part = s.lines.subrange(a + 1, k);
        assert(part.drop_last() =~= s.lines.subrange(a + 1, k - 1));
        assert(part.last() == s.lines[k - 1]);
        let d = s.upto(k - 1);
        assert(s.upto(k) == d.read(s.theme, s.g, s.attachments, (k - 1) as usize, s.lines[k - 1]));
    }
}

/// Between fences every line is shown, in order and highlighted, as the
/// language that the fence names or else as Python; the fences are not.
pub proof fn law_fenced_code_is_shown(s: Setting, a: int, b: int)
    ensures
        s.code_block(a, b) ==> {
            let lang = trim(trim(s.lines[a]).skip(3));
            let c = s.upto(b + 1).canvas;
            &&& c.lines == s.canvas(a).lines + highlighted(
                s.theme,
                if lang.len() == 0 {
                    seq!['p', 'y']
                } else {
                    lang
                },
                with_breaks(s.lines.subrange(a + 1, b)),
            )
            &&& c.images == s.canvas(a).images
            &&& s.upto(b + 1).fence is None
            &&& s.upto(b + 1).math is None
        },
{
    if s.code_block(a, b) {
        lemma_fence_goes_on(s, a, b, b);
        reveal_strlit("py");
        assert("py"@ =~= seq!['p', 'y']);
        let d = s.upto(b);
        assert(s.upto(b + 1) == d.read(s.theme, s.g, s.attachments, b as usize, s.lines[b]));
    }
}

// ---------------------------------------------------------------------------
// Tables
// ---------------------------------------------------------------------------

#[verifier::spinoff_prover]
#[verifier::rlimit(60)]
proof fn lemma_rows(s: Setting, a: int, b: int, k: int)
    requires
        s.table_block(a, b),
        a <= k <= b,
    ensures
        s.upto(k).canvas == s.upto(a).canvas,
        s.upto(k).fence is None,
        s.upto(k).math is None,
        s.upto(k).table == s.lines.subrange(a, k).map_values(|l: Seq<char>| trim(l)),
        k > a ==> s.upto(k).table_at == a,
    decreases k - a,
{
    if k == a {
        assert(s.upto(k).table =~= s.lines.subrange(a, k).map_values(|l: Seq<char>| trim(l)));
    } else {
        lemma_rows(s, a, b, k - 1);
        let d = s.upto(k - 1);
        assert(s.upto(k) == d.read(s.theme, s.g, s.attachments, (k - 1) as usize, s.lines[k - 1]));
        assert(s.upto(k).table =~= s.lines.subrange(a, k).map_values(|l: Seq<char>| trim(l)));
    }
}

/// The rows of a table are all laid out together, one line for each.
pub proof fn law_tables_are_laid_out_whole(s: Setting, a: int, b: int)
    ensures
        s.table_block(a, b) ==> {
            let rows = s.lines.subrange(a, b).map_values(|l: Seq<char>| trim(l));
            &&& s.canvas(b).lines == s.upto(a).canvas.lines + table_lines(rows)
            &&& table_lines(rows).len() == b - a
            &&& s.canvas(b).images == s.upto(a).canvas.images
        },
{
    if s.table_block(a, b) {
        lemma_rows(s, a, b, b);
    }
}

/// Each cell of a table row stands in its column, whole, between blanks; bars
/// stand between the columns.
pub proof fn law_rows_show_their_cells(
    cells: Seq<Seq<char>>,
    widths: Seq<int>,
    style: StyleView,
    n: int,
    j: int,
)
    requires
        0 <= j < n <= widths.len(),
    ensures
        ({
            let spans = row_spans(cells, widths, style, n);
            let cell = if j < cells.len() {
                cells[j]
            } else {
                Seq::empty()
            };
            let shown = spans[2 * j].content;
            &&& spans.len() == 2 * n - 1
            &&& spans[2 * j].style == style
            &&& shown.len() >= cell.len() + 2
            &&& shown.subrange(1, cell.len() + 1int) == cell
            &&& shown[0] == ' '
            &&& forall|k: int| cell.len() < k < shown.len() ==> #[trigger] shown[k] == ' '
            &&& j > 0 ==> spans[2 * j - 1].content == "│"@
        }),
    decreases n,
{
    reveal_strlit(" ");
    if j < n - 1 {
        law_rows_show_their_cells(cells, widths, style, n - 1, j);
    } else {
        if n > 1 {
            law_rows_show_their_cells(cells, widths, style, n - 1, 0);
        }
        let cell = if j < cells.len() {
            cells[j]
        } else {
            Seq::empty()
        };
        let shown = row_spans(cells, widths, style, n)[2 * j].content;
        assert(shown.subrange(1, cell.len() + 1int) =~= cell);
    }
}

/// A header row, above a rule, is bold; the other rows are not. A rule shows
/// no text.
pub proof fn law_headers_are_bold(rows: Seq<Seq<Seq<char>>>, i: int)
    requires
        0 <= i < rows.len(),
    ensures
        ({
            let n = column_widths(rows).len() as int;
            let bold = i == 0 && rows.len() > 1 && is_separator(rows[1]);
            !is_separator(rows[i]) ==> table_line(rows, i).spans == row_spans(
                rows[i],
                column_widths(rows),
                if bold {
                    StyleView::plain().with(BOLD)
                } else {
                    StyleView::plain()
                },
                n,
            )
        }),
        is_separator(rows[i]) <==> rows[i].len() > 0 && forall|j: int|
            0 <= j < rows[i].len() ==> (#[trigger] rows[i][j]).len() > 0 && forall|k: int|
                0 <= k < rows[i][j].len() ==> (#[trigger] rows[i][j][k] == '-' || rows[i][j][k]
                    == ':'),
{
    if is_separator(rows[i]) {
        assert forall|j: int| 0 <= j < rows[i].len() implies (#[trigger] rows[i][j]).len() > 0
            && forall|k: int|
                0 <= k < rows[i][j].len() ==> (#[trigger] rows[i][j][k] == '-' || rows[i][j][k]
                    == ':') by {
            assert(is_rule_cell(rows[i][j]));
        }
    }
}

// ---------------------------------------------------------------------------
// Running text
// ---------------------------------------------------------------------------

pub open spec fn special(c: char) -> bool {
    c == '`' || c == '$' || c == '*' || c == '[' || c == '!'
}

/// Text without anything that could be a mark.
pub open spec fn unmarked(s: Seq<char>) -> bool {
    forall|i: int| 0 <= i < s.len() ==> !special(#[trigger] s[i])
}

proof fn lemma_find(s: Seq<char>, c: char, i: int, k: int)
    requires
        0 <= i <= k < s.len(),
        s[k] == c,
        forall|j: int| i <= j < k ==> s[j] != c,
    ensures
        find_char(s, c, i) == k,
    decreases k - i,
{
    if i < k {
        lemma_find(s, c, i + 1, k);
    }
}

proof fn lemma_find_stars(s: Seq<char>, i: int, k: int)
    requires
        0 <= i <= k,
        k + 1 < s.len(),
        s[k] == '*' && s[k + 1] == '*',
        forall|j: int| i <= j < k ==> s[j] != '*',
    ensures
        find_stars(s, i) == k,
    decreases k - i,
{
    if i < k {
        lemma_find_stars(s, i + 1, k);
    }
}

/// What marks at the start of a line's text stand for: `code`, $math$,
/// **strong** and *emphasised* text; the rest is read on from behind them.
#[verifier::spinoff_prover]
#[verifier::rlimit(60)]
pub proof fn law_marks_enclose_their_text(inner: Seq<char>, rest: Seq<char>)
    ensures
        !inner.contains('`') ==> elements(seq!['`'] + inner + seq!['`'] + rest) == seq![
            InlineView::Code(trim(inner)),
        ] + elements(rest),
        !inner.contains('$') && trim(inner).len() > 0 ==> elements(
            seq!['$'] + inner + seq!['$'] + rest,
        ) == seq![InlineView::Math(trim(inner))] + elements(rest),
        !inner.contains('*') && inner.len() > 0 ==> elements(
            seq!['*', '*'] + inner + seq!['*', '*'] + rest,
        ) == seq![InlineView::Strong(inner)] + elements(rest),
        !inner.contains('*') && inner.len() > 0 ==> elements(
            seq!['*'] + inner + seq!['*'] + rest,
        ) == seq![InlineView::Emphasis(inner)] + elements(rest),
{
    let n = inner.len() as int;
    assert forall|c: char| !inner.contains(c) implies forall|j: int|
        0 <= j < n ==> #[trigger] inner[j] != c by {
        assert forall|j: int| 0 <= j < n implies #[trigger] inner[j] != c by {
            if inner[j] == c {
                assert(inner.contains(inner[j]));
            }
        }
    }
    let a = seq!['`'] + inner + seq!['`'] + rest;
    if !inner.contains('`') {
        assert forall|j: int| 1 <= j < n + 1 implies a[j] != '`' by {
            assert(a[j] == inner[j - 1]);
        }
        lemma_find(a, '`', 1, n + 1);
        assert(a.subrange(1, n + 1) =~= inner);
        assert(a.skip(n + 2) =~= rest);
        assert(element(a) == (InlineView::Code(trim(inner)), n + 2));
    }
    let b = seq!['$'] + inner + seq!['$'] + rest;
    if !inner.contains('$') && trim(inner).len() > 0 {
        assert forall|j: int| 1 <= j < n + 1 implies b[j] != '$' by {
            assert(b[j] == inner[j - 1]);
        }
        lemma_find(b, '$', 1, n + 1);
        assert(b.subrange(1, n + 1) =~= inner);
        assert(b.skip(n + 2) =~= rest);
        assert(element(b) == (InlineView::Math(trim(inner)), n + 2));
    }
    let c = seq!['*', '*'] + inner + seq!['*', '*'] + rest;
    let d = seq!['*'] + inner + seq!['*'] + rest;
    if !inner.contains('*') && n > 0 {
        assert forall|j: int| 2 <= j < n + 2 implies c[j] != '*' by {
            assert(c[j] == inner[j - 2]);
        }
        lemma_find_stars(c, 2, n + 2);
        assert(c.subrange(2, n + 2) =~= inner);
        assert(c.skip(n + 4) =~= rest);
        assert(element(c) == (InlineView::Strong(inner), n + 4));
        assert forall|j: int| 1 <= j < n + 1 implies d[j] != '*' by {
            assert(d[j] == inner[j - 1]);
        }
        assert(d[1] == inner[0]);
        lemma_find(d, '*', 1, n + 1);
        assert(d.subrange(1, n + 1) =~= inner);
        assert(d.skip(n + 2) =~= rest);
        assert(element(d) == (InlineView::Emphasis(inner), n + 2));
    }
}

/// A link is its label and its address; an image in running text its label,
/// or its address where it has none.
#[verifier::spinoff_prover]
#[verifier::rlimit(60)]
pub proof fn law_links_are_read(label: Seq<char>, url: Seq<char>, rest: Seq<char>)
    requires
        !label.contains(']'),
        !url.contains(')'),
    ensures
        elements(seq!['['] + label + seq![']', '('] + url + seq![')'] + rest) == seq![
            InlineView::Link(label, url),
        ] + elements(rest),
        elements(seq!['!', '['] + label + seq![']', '('] + url + seq![')'] + rest) == seq![
            InlineView::Image(
                if label.len() == 0 {
                    url
                } else {
                    label
                },
            ),
        ] + elements(rest),
{
    let (n, m) = (label.len() as int, url.len() as int);
    let u = label + seq![']', '('] + url + seq![')'] + rest;
    assert forall|j: int| 0 <= j < n implies u[j] != ']' by {
        assert(u[j] == label[j]);
        assert(label.contains(label[j]));
    }
    lemma_find(u, ']', 0, n);
    assert forall|j: int| n + 2 <= j < n + 2 + m implies u[j] != ')' by {
        assert(u[j] == url[j - n - 2]);
        assert(url.contains(url[j - n - 2]));
    }
    lemma_find(u, ')', n + 2, n + 2 + m);
    assert(u.take(n) =~= label);
    assert(u.subrange(n + 2, n + 2 + m) =~= url);
    assert(link_at(u) == (Ok::<(Seq<char>, Seq<char>), Seq<char>>((label, url)), n + m + 3));
    let a = seq!['['] + label + seq![']', '('] + url + seq![')'] + rest;
    assert(a.skip(1) =~= u);
    assert(a.skip(n + m + 4) =~= rest);
    assert(element(a) == (InlineView::Link(label, url), n + m + 4));
    let b = seq!['!', '['] + label + seq![']', '('] + url + seq![')'] + rest;
    assert(b.skip(2) =~= u);
    assert(b.skip(n + m + 5) =~= rest);
    assert(b[0] == '!' && b[1] == '[');
}

proof fn lemma_placed_first(row: RowView, g: GalleryView, line: int, e: InlineView, es: Seq<
    InlineView,
>)
    ensures
        row.all_placed(g, line, seq![e] + es) == row.placed(g, line, e).all_placed(g, line, es),
    decreases es.len(),
{
    if es.len() == 0 {
        assert(seq![e] + es =~= seq![e]);
        assert(seq![e].drop_last() =~= Seq::<InlineView>::empty());
        assert(row.all_placed(g, line, seq![e].drop_last()) == row);
    } else {
        lemma_placed_first(row, g, line, e, es.drop_last());
        assert((seq![e] + es).drop_last() =~= seq![e] + es.drop_last());
        assert((seq![e] + es).last() == es.last());
    }
}

#[verifier::spinoff_prover]
#[verifier::rlimit(60)]
proof fn lemma_unmarked(row: RowView, g: GalleryView, line: int, s: Seq<char>, rest: Seq<char>)
    requires
        unmarked(s),
    ensures
        row.all_placed(g, line, elements(s + rest)) == (RowView {
            text: row.text + s,
            ..row
        }).all_placed(g, line, elements(rest)),
    decreases s.len(),
{
    if s.len() == 0 {
        assert(s + rest =~= rest);
        assert(row.text + s =~= row.text);
    } else {
        let t = s + rest;
        assert(t[0] == s[0]);
        assert(!special(s[0]));
        assert(element(t) == (InlineView::Text(t.take(1)), 1int));
        assert(t.take(1) =~= seq![s[0]]);
        assert(t.skip(1) =~= s.skip(1) + rest);
        lemma_placed_first(row, g, line, InlineView::Text(seq![s[0]]), elements(t.skip(1)));
        let next = row.placed(g, line, InlineView::Text(seq![s[0]]));
        assert(unmarked(s.skip(1)));
        lemma_unmarked(next, g, line, s.skip(1), rest);
        assert(row.text + seq![s[0]] + s.skip(1) =~= row.text + s);
    }
}

pub open spec fn if_any(s: Seq<char>) -> Seq<SpanView> {
    if s.len() == 0 {
        Seq::empty()
    } else {
        seq![SpanView { content: s, style: StyleView::plain() }]
    }
}

/// Text without marks is shown as it is; a list item with a bullet for its
/// dash or star.
pub proof fn law_plain_text_is_shown(g: GalleryView, s: Seq<char>, line: int)
    requires
        unmarked(s),
    ensures
        !is_bullet(s) ==> text_row(g, s, line).spans == if_any(s),
        is_bullet(s) ==> text_row(g, s, line).spans == if_any(bullet(s) + trim_start(s).skip(2)),
        trim_start(s) == s && s.len() >= 2 && s[0] == '-' && s[1] == ' ' ==> text_row(
            g,
            s,
            line,
        ).spans == if_any(seq!['•', ' '] + s.skip(2)),
{
    let e = Seq::<char>::empty();
    assert(elements(e) =~= Seq::<InlineView>::empty());
    assert(s + e =~= s);
    lemma_unmarked(RowView::starting(e), g, line, s, e);
    assert(e + s =~= s);
    let t = trim_start(s).skip(2);
    if is_bullet(s) {
        reveal_strlit("- ");
        reveal_strlit("* ");
        lemma_trim_start_is_end(s);
        assert(unmarked(t)) by {
            assert forall|i: int| 0 <= i < t.len() implies !special(#[trigger] t[i]) by {
                assert(t[i] == s[s.len() - trim_start(s).len() + 2 + i]);
            }
        }
        assert(t + e =~= t);
        lemma_unmarked(RowView::starting(bullet(s)), g, line, t, e);
    }
    if trim_start(s) == s && s.len() >= 2 && s[0] == '-' && s[1] == ' ' {
        reveal_strlit("- ");
        reveal_strlit("• ");
        assert(s.subrange(0, 2) =~= "- "@);
        assert(has_prefix(s, "- "@));
        assert(s.take(0) =~= e);
        assert(byte_len(e) == 0);
        assert(repeated(' ', 0) =~= e);
        assert(bullet(s) =~= seq!['•', ' ']);
    }
}

proof fn lemma_trim_start_is_end(s: Seq<char>)
    ensures
        trim_start(s).len() <= s.len(),
        trim_start(s) == s.skip(s.len() - trim_start(s).len()),
    decreases s.len(),
{
    if s.len() > 0 && crate::text::unicode_whitespace(s[0]) {
        lemma_trim_start_is_end(s.skip(1));
        let t = trim_start(s.skip(1));
        assert(s.skip(1).skip(s.len() - 1 - t.len()) =~= s.skip(s.len() - t.len()));
    } else {
        assert(s.skip(0) =~= s);
    }
}

/// Marked text in a line is shown in its style and without its marks, between
/// the text before and after it.
pub proof fn law_marked_text_is_styled(
    g: GalleryView,
    before: Seq<char>,
    x: Seq<char>,
    behind: Seq<char>,
    line: int,
)
    requires
        unmarked(before),
        unmarked(behind),
        unmarked(x),
        x.len() > 0,
    ensures
        ({
            let raw = before + seq!['*', '*'] + x + seq!['*', '*'] + behind;
            !is_bullet(raw) ==> text_row(g, raw, line).spans == if_any(before) + seq![
                SpanView { content: x, style: StyleView::plain().with(BOLD) },
            ] + if_any(behind)
        }),
        ({
            let raw = before + seq!['*'] + x + seq!['*'] + behind;
            !is_bullet(raw) ==> text_row(g, raw, line).spans == if_any(before) + seq![
                SpanView { content: x, style: StyleView::plain().with(ITALIC) },
            ] + if_any(behind)
        }),
        ({
            let raw = before + seq!['`'] + x + seq!['`'] + behind;
            !is_bullet(raw) ==> text_row(g, raw, line).spans == if_any(before) + seq![
                SpanView { content: trim(x), style: StyleView::of(ColorView::Yellow) },
            ] + if_any(behind)
        }),
{
    law_marks_enclose_their_text(x, behind);
    assert(!x.contains('*') && !x.contains('`')) by {
        assert(special('*') && special('`'));
        if x.contains('*') {
            let k = choose|k: int| 0 <= k < x.len() && x[k] == '*';
            assert(special(x[k]));
        }
        if x.contains('`') {
            let k = choose|k: int| 0 <= k < x.len() && x[k] == '`';
            assert(special(x[k]));
        }
    }
    let a = seq!['*', '*'] + x + seq!['*', '*'] + behind;
    assert(before + seq!['*', '*'] + x + seq!['*', '*'] + behind =~= before + a);
    lemma_styled_row(g, before, InlineView::Strong(x), behind, a, line);
    let b = seq!['*'] + x + seq!['*'] + behind;
    assert(before + seq!['*'] + x + seq!['*'] + behind =~= before + b);
    lemma_styled_row(g, before, InlineView::Emphasis(x), behind, b, line);
    let c = seq!['`'] + x + seq!['`'] + behind;
    assert(before + seq!['`'] + x + seq!['`'] + behind =~= before + c);
    lemma_styled_row(g, before, InlineView::Code(trim(x)), behind, c, line);
}

proof fn lemma_styled_row(
    g: GalleryView,
    before: Seq<char>,
    e: InlineView,
    behind: Seq<char>,
    marked: Seq<char>,
    line: int,
)
    requires
        unmarked(before),
        unmarked(behind),
        elements(marked) == seq![e] + elements(behind),
    ensures
        !is_bullet(before + marked) ==> ({
            let row = text_row(g, before + marked, line);
            &&& e matches InlineView::Strong(x) ==> row.spans == if_any(before) + seq![
                SpanView { content: x, style: StyleView::plain().with(BOLD) },
            ] + if_any(behind)
            &&& e matches InlineView::Emphasis(x) ==> row.spans == if_any(before) + seq![
                SpanView { content: x, style: StyleView::plain().with(ITALIC) },
            ] + if_any(behind)
            &&& e matches InlineView::Code(x) ==> row.spans == if_any(before) + seq![
                SpanView { content: x, style: StyleView::of(ColorView::Yellow) },
            ] + if_any(behind)
        }),
{
    let none = Seq::<char>::empty();
    let start = RowView::starting(none);
    lemma_unmarked(start, g, line, before, marked);
    assert(none + before =~= before);
    let r = RowView { text: before, ..start };
    lemma_placed_first(r, g, line, e, elements(behind));
    let p = r.placed(g, line, e);
    assert(behind + none =~= behind);
    assert(elements(none) =~= Seq::<InlineView>::empty());
    lemma_unmarked(p, g, line, behind, none);
    let row = text_row(g, before + marked, line);
    if !is_bullet(before + marked) && (e is Strong || e is Emphasis || e is Code) {
        assert(p.text.len() == 0);
        assert(p.text + behind =~= behind);
        assert(row == (RowView { text: behind, ..p }).flushed());
    }
}

// ---------------------------------------------------------------------------
// Pictures
// ---------------------------------------------------------------------------

/// `![label](source)` alone on a line is an image with that label and source.
pub proof fn law_image_lines_are_read(label: Seq<char>, source: Seq<char>)
    requires
        !label.contains(']'),
        !source.contains(')'),
    ensures
        image_line(seq!['!', '['] + label + seq![']', '('] + source + seq![')']) == Some(
            (label, source),
        ),
{
    reveal_strlit("![");
    reveal_strlit("](");
    let t = seq!['!', '['] + label + seq![']', '('] + source + seq![')'];
    assert(t.subrange(0, 2) =~= "!["@);
    let u = t.skip(2);
    let n = label.len() as int;
    assert(u =~= label + seq![']', '('] + source + seq![')']);
    assert(u.subrange(n, n + 2) =~= "]("@);
    assert forall|i: int| 0 <= i < n implies !#[trigger] matches_at(u, "]("@, i) by {
        if matches_at(u, "]("@, i) {
            assert(u.subrange(i, i + 2)[0] == u[i]);
            assert("]("@[0] == ']');
            assert(label[i] == u[i]);
            assert(label.contains(label[i]));
        }
    }
    lemma_first_infix(u, "]("@, 0, n);
    assert(u.take(n) =~= label);
    assert(u.skip(n + 2) =~= source + seq![')']);
    assert((source + seq![')']).drop_last() =~= source);
}

proof fn lemma_first_infix(s: Seq<char>, pat: Seq<char>, i: int, k: int)
    requires
        0 <= i <= k <= s.len(),
        matches_at(s, pat, k),
        forall|j: int| i <= j < k ==> !#[trigger] matches_at(s, pat, j),
    ensures
        find_infix(s, pat, i) == Some(k),
    decreases k - i,
{
    if i < k {
        lemma_first_infix(s, pat, i + 1, k);
    }
}

/// An image is drawn from a file next to the notebook or from the cell's
/// attachments, never from the network.
pub proof fn law_images_come_from_files(
    dir: Seq<char>,
    source: Seq<char>,
    attachments: Option<JsonView>,
)
    ensures
        has_prefix(source, "http://"@) || has_prefix(source, "https://"@) ==> image_graphic(
            dir,
            source,
            attachments,
        ) is None,
        !has_prefix(source, "http://"@) && !has_prefix(source, "https://"@) && !has_prefix(
            source,
            "attachment:"@,
        ) ==> image_graphic(dir, source, attachments) == Some(
            GraphicView::Host(PictureView::File(joined_path(dir, source))),
        ),
        has_prefix(source, "attachment:"@) && attachments is None ==> image_graphic(
            dir,
            source,
            attachments,
        ) is None,
{
    reveal_strlit("attachment:");
    reveal_strlit("http://");
    reveal_strlit("https://");
    if has_prefix(source, "attachment:"@) {
        assert(source.subrange(0, 11)[0] == source[0]);
        assert("attachment:"@[0] == 'a');
        lemma_no_prefix(source, "http://"@);
        lemma_no_prefix(source, "https://"@);
    }
}

/// An image without a picture is shown by its label, or by its source where it
/// has none.
pub proof fn law_missing_images_are_named(s: Setting, a: int, label: Seq<char>, source: Seq<char>)
    requires
        !label.contains(']'),
        !source.contains(')'),
    ensures
        s.starts(a) && trim(s.lines[a]) == seq!['!', '['] + label + seq![']', '('] + source + seq![
            ')',
        ] && (image_graphic(s.g.dir, source, s.attachments) matches Some(x) ==> s.g.entry(x, false)
            is None) ==> s.upto(a + 1).canvas.lines == s.canvas(a).lines.push(
            LineView::styled(
                "[image: "@ + (if label.len() == 0 {
                    source
                } else {
                    label
                }) + "]"@,
                StyleView::of(ColorView::Gray),
            ),
        ),
{
    let t = trim(s.lines[a]);
    if s.starts(a) && t == seq!['!', '['] + label + seq![']', '('] + source + seq![')'] {
        law_image_lines_are_read(label, source);
        reveal_strlit("|");
        assert(t[0] == '!');
        lemma_no_prefix(t, "|"@);
        let d = s.upto(a).table_closed(a);
        assert(s.upto(a + 1) == d.block_line(s.g, s.attachments, a as usize, s.lines[a]));
    }
}

// ---------------------------------------------------------------------------
// Whole texts
// ---------------------------------------------------------------------------

/// A line of text that no mark makes special.
pub open spec fn ordinary(l: Seq<char>) -> bool {
    let t = trim(l);
    &&& unmarked(l)
    &&& !is_bullet(l)
    &&& !has_prefix(t, "|"@)
    &&& !has_prefix(t, "#"@)
    &&& !has_prefix(t, "```"@)
    &&& !has_prefix(t, "$$"@)
    &&& !has_prefix(t, "!["@)
}

proof fn lemma_ordinary_line(d: DocumentView, s: Setting, i: usize, raw: Seq<char>)
    requires
        d.fence is None,
        d.math is None,
        d.table.len() == 0,
        ordinary(raw),
    ensures
        ({
            let e = d.read(s.theme, s.g, s.attachments, i, raw);
            &&& e.fence is None
            &&& e.math is None
            &&& e.table.len() == 0
            &&& e.canvas.lines == d.canvas.lines.push(LineView::of(if_any(raw)))
        }),
{
    law_plain_text_is_shown(s.g, raw, d.canvas.lines.len() as int);
    assert(d.table_closed(i as int) == d);
    assert(image_line(trim(raw)) is None);
}

proof fn lemma_ordinary_text(s: Setting, k: int)
    requires
        0 <= k <= s.lines.len() <= usize::MAX,
        forall|j: int| 0 <= j < s.lines.len() ==> ordinary(#[trigger] s.lines[j]),
    ensures
        s.upto(k).fence is None,
        s.upto(k).math is None,
        s.upto(k).table.len() == 0,
        s.upto(k).canvas.lines == s.lines.take(k).map_values(
            |l: Seq<char>| LineView::of(if_any(l)),
        ),
    decreases k,
{
    if k == 0 {
        assert(s.upto(k).canvas.lines =~= s.lines.take(k).map_values(
            |l: Seq<char>| LineView::of(if_any(l)),
        ));
    } else {
        lemma_ordinary_text(s, k - 1);
        let d = s.upto(k - 1);
        assert(ordinary(s.lines[k - 1]));
        lemma_ordinary_line(d, s, (k - 1) as usize, s.lines[k - 1]);
        assert(s.upto(k) == d.read(s.theme, s.g, s.attachments, (k - 1) as usize, s.lines[k - 1]));
        assert(s.upto(k).canvas.lines =~= s.lines.take(k).map_values(
            |l: Seq<char>| LineView::of(if_any(l)),
        ));
    }
}

/// A text of ordinary lines is rendered line by line, each as it is.
pub proof fn law_ordinary_text_is_rendered_as_it_is(
    theme: Seq<char>,
    g: GalleryView,
    attachments: Option<JsonView>,
    source: Seq<char>,
)
    ensures
        ({
            let lines = split_on(source, '\n');
            (forall|j: int| 0 <= j < lines.len() ==> ordinary(#[trigger] lines[j])) && lines.len()
                <= usize::MAX ==> rendered_markdown(theme, g, attachments, source).lines
                == lines.map_values(|l: Seq<char>| LineView::of(if_any(l)))
        }),
{
    let lines = split_on(source, '\n');
    if (forall|j: int| 0 <= j < lines.len() ==> ordinary(#[trigger] lines[j])) && lines.len()
        <= usize::MAX {
        let s = Setting { theme, g, attachments, lines };
        let n = lines.len() as int;
        lemma_ordinary_text(s, n);
        assert(lines.take(n) =~= lines);
        let d = s.upto(n);
        assert(d.table_closed(n) == d);
    }
}

/// What stands in a fence or a formula that is never closed is shown raw below
/// the rest; nothing is lost.
pub proof fn law_unclosed_blocks_are_shown_raw(d: DocumentView, total: int)
    requires
        d.table.len() == 0,
    ensures
        d.fence is None && d.math is None ==> d.closed(total).lines == d.canvas.lines,
        d.fence matches Some(f) ==> d.math is None ==> d.closed(total).lines == d.canvas.lines
            + lines_of(f.1).map_values(|l: Seq<char>| LineView::raw(l)),
        d.math matches Some(buf) ==> d.fence is None ==> d.closed(total).lines == d.canvas.lines
            + lines_of(buf).map_values(|l: Seq<char>| LineView::raw(l)),
{
}

// ---------------------------------------------------------------------------
// Marks that mark nothing, and cells
// ---------------------------------------------------------------------------

proof fn lemma_none(s: Seq<char>, c: char, i: int)
    requires
        0 <= i <= s.len(),
        forall|j: int| i <= j < s.len() ==> s[j] != c,
    ensures
        find_char(s, c, i) == s.len(),
    decreases s.len() - i,
{
    if i < s.len() {
        lemma_none(s, c, i + 1);
    }
}

/// A mark that is never closed is text like any other, with all that follows
/// it.
pub proof fn law_unclosed_marks_are_text(rest: Seq<char>)
    ensures
        !rest.contains('`') ==> elements(seq!['`'] + rest) == seq![
            InlineView::Text(seq!['`'] + rest),
        ],
        !rest.contains('$') ==> elements(seq!['$'] + rest) == seq![
            InlineView::Text(seq!['$'] + rest),
        ],
        !rest.contains('*') ==> elements(seq!['*'] + rest) == seq![
            InlineView::Text(seq!['*'] + rest),
        ],
        !rest.contains(']') ==> elements(seq!['['] + rest) == seq![
            InlineView::Text(seq!['['] + rest),
        ],
{
    let none = Seq::<char>::empty();
    assert(elements(none) =~= Seq::<InlineView>::empty());
    assert forall|c: char| !rest.contains(c) implies forall|j: int|
        0 <= j < rest.len() ==> #[trigger] rest[j] != c by {
        assert forall|j: int| 0 <= j < rest.len() implies #[trigger] rest[j] != c by {
            if rest[j] == c {
                assert(rest.contains(rest[j]));
            }
        }
    }
    if !rest.contains('`') {
        lemma_unclosed(rest, '`');
    }
    if !rest.contains('$') {
        lemma_unclosed(rest, '$');
    }
    if !rest.contains('*') {
        lemma_unclosed(rest, '*');
    }
    if !rest.contains(']') {
        let s = seq!['['] + rest;
        assert(s.skip(1) =~= rest);
        lemma_none(rest, ']', 0);
        assert(element(s) == (InlineView::Text(s), s.len() as int));
        assert(s.skip(s.len() as int) =~= none);
        assert(elements(s) =~= seq![InlineView::Text(s)]);
    }
}

proof fn lemma_unclosed(rest: Seq<char>, c: char)
    requires
        c == '`' || c == '$' || c == '*',
        forall|j: int| 0 <= j < rest.len() ==> #[trigger] rest[j] != c,
    ensures
        elements(seq![c] + rest) == seq![InlineView::Text(seq![c] + rest)],
{
    let none = Seq::<char>::empty();
    let s = seq![c] + rest;
    assert forall|j: int| 1 <= j < s.len() implies s[j] != c by {
        assert(s[j] == rest[j - 1]);
    }
    if s.len() > 1 {
        assert(s[1] == rest[0]);
    }
    lemma_none(s, c, 1);
    assert(element(s) == (InlineView::Text(s), s.len() as int));
    assert(s.skip(s.len() as int) =~= none);
    assert(elements(none) =~= Seq::<InlineView>::empty());
    assert(elements(s) =~= seq![InlineView::Text(s)]);
}

proof fn lemma_parts(cells: Seq<Seq<char>>)
    requires
        cells.len() > 0,
        forall|i: int| 0 <= i < cells.len() ==> !(#[trigger] cells[i]).contains('|'),
    ensures
        split_on(join(cells, seq!['|']), '|') == cells,
        join(cells, seq!['|']).len() >= cells[0].len() + cells.last().len() || cells.len() == 1,
        cells[0].len() > 0 ==> join(cells, seq!['|']).len() > 0 && join(cells, seq!['|'])[0]
            == cells[0][0],
        cells.last().len() > 0 ==> join(cells, seq!['|']).len() > 0 && join(cells, seq!['|']).last()
            == cells.last().last(),
    decreases cells.len(),
{
    let whole = join(cells, seq!['|']);
    if cells.len() == 1 {
        lemma_one_piece(cells[0], '|');
        assert(seq![cells[0]] =~= cells);
    } else {
        let d = cells.drop_last();
        let last = cells.last();
        assert forall|i: int| 0 <= i < d.len() implies !(#[trigger] d[i]).contains('|') by {
            assert(d[i] == cells[i]);
        }
        lemma_parts(d);
        assert(last == cells[cells.len() - 1]);
        lemma_split_more(join(d, seq!['|']), last);
        assert(d.push(last) =~= cells);
    }
}

proof fn lemma_split_more(head: Seq<char>, last: Seq<char>)
    requires
        !last.contains('|'),
    ensures
        split_on(head + seq!['|'] + last, '|') == split_on(head, '|').push(last),
    decreases last.len(),
{
    let s = head + seq!['|'] + last;
    if last.len() == 0 {
        assert(s.drop_last() =~= head);
        assert(last =~= Seq::<char>::empty());
    } else {
        let d = last.drop_last();
        assert(!d.contains('|')) by {
            if d.contains('|') {
                let k = choose|k: int| 0 <= k < d.len() && d[k] == '|';
                assert(last[k] == '|');
            }
        }
        assert(last.contains(last[last.len() - 1]));
        lemma_split_more(head, d);
        assert(s.drop_last() =~= head + seq!['|'] + d);
        let h = split_on(head, '|').push(d);
        assert(h.drop_last() =~= split_on(head, '|'));
        assert(d.push(last.last()) =~= last);
    }
}

/// A row between bars has as its cells what stands between them, blanks at the
/// ends of each aside.
pub proof fn law_rows_are_read_cell_by_cell(cells: Seq<Seq<char>>)
    requires
        cells.len() > 0,
        forall|i: int| 0 <= i < cells.len() ==> !(#[trigger] cells[i]).contains('|'),
        cells[0].len() > 0,
        cells.last().len() > 0,
    ensures
        ({
            let row = seq!['|'] + join(cells, seq!['|']) + seq!['|'];
            trim(row) == row ==> table_cells(row) == cells.map_values(|c: Seq<char>| trim(c))
        }),
{
    lemma_parts(cells);
    let inner = join(cells, seq!['|']);
    let row = seq!['|'] + inner + seq!['|'];
    assert(cells[0].contains(cells[0][0]));
    assert(cells.last() == cells[cells.len() - 1]);
    assert(cells.last().contains(cells.last()[cells.last().len() - 1]));
    let rest = inner + seq!['|'];
    assert(rest[0] == inner[0]);
    lemma_strip('|', 1, rest);
    assert(repeated('|', 1) =~= seq!['|']);
    assert(row =~= repeated('|', 1) + rest);
    crate::strings::law_marks_are_stripped(inner, '|', 1);
    assert(rest =~= inner + repeated('|', 1));
    if trim(row) == row {
        assert(table_cells(row) =~= cells.map_values(|c: Seq<char>| trim(c)));
    }
}

} // verus!
