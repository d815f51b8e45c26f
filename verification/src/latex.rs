//! Math for terminals: a unicode approximation of LaTeX, and the geometry of
//! rendered math pictures.

use vstd::prelude::*;

use crate::text;
#[allow(unused_imports)]
use crate::text::replaced;

verus! {

// ---------------------------------------------------------------------------
// Unicode approximation
// ---------------------------------------------------------------------------

/// LaTeX commands and powers with the characters that stand for them, in the
/// order in which they are replaced.
pub open spec fn symbols() -> Seq<(Seq<char>, Seq<char>)> {
    seq![
        ("\\rightarrow"@, "→"@),
        ("\\approx"@, "≈"@),
        ("\\partial"@, "∂"@),
        ("\\nabla"@, "∇"@),
        ("\\infty"@, "∞"@),
        ("\\alpha"@, "α"@),
        ("\\gamma"@, "γ"@),
        ("\\delta"@, "δ"@),
        ("\\theta"@, "θ"@),
        ("\\lambda"@, "λ"@),
        ("\\sigma"@, "σ"@),
        ("\\omega"@, "ω"@),
        ("\\times"@, "×"@),
        ("\\cdot"@, "·"@),
        ("\\sqrt"@, "√"@),
        ("\\hbar"@, "ℏ"@),
        ("\\beta"@, "β"@),
        ("\\leq"@, "≤"@),
        ("\\geq"@, "≥"@),
        ("\\neq"@, "≠"@),
        ("\\sum"@, "∑"@),
        ("\\int"@, "∫"@),
        ("\\pm"@, "±"@),
        ("\\mu"@, "μ"@),
        ("\\pi"@, "π"@),
        ("\\tau"@, "τ"@),
        ("\\varepsilon"@, "ε"@),
        ("\\epsilon"@, "ε"@),
        ("\\phi"@, "φ"@),
        ("\\psi"@, "ψ"@),
        ("\\Sigma"@, "Σ"@),
        ("\\Delta"@, "Δ"@),
        ("\\Omega"@, "Ω"@),
        ("\\Gamma"@, "Γ"@),
        ("\\langle"@, "⟨"@),
        ("\\rangle"@, "⟩"@),
        ("^0"@, "⁰"@),
        ("^1"@, "¹"@),
        ("^2"@, "²"@),
        ("^3"@, "³"@),
        ("^4"@, "⁴"@),
        ("^5"@, "⁵"@),
        ("^6"@, "⁶"@),
        ("^7"@, "⁷"@),
        ("^8"@, "⁸"@),
        ("^9"@, "⁹"@),
        ("^n"@, "ⁿ"@),
    ]
}

/// `s` with each symbol of `table` replaced in turn.
pub open spec fn with_symbols(s: Seq<char>, table: Seq<(Seq<char>, Seq<char>)>) -> Seq<char>
    decreases table.len(),
{
    if table.len() == 0 {
        s
    } else {
        replaced(with_symbols(s, table.drop_last()), table.last().0, table.last().1)
    }
}

/// TeX syntax that has no place in plain text.
pub open spec fn is_tex_syntax(c: char) -> bool {
    c == '\\' || c == '{' || c == '}' || c == '$'
}

/// The approximation: symbols replaced, TeX syntax dropped.
pub open spec fn unicode_approx(latex: Seq<char>) -> Seq<char> {
    with_symbols(latex, symbols()).filter(|c: char| !is_tex_syntax(c))
}

spec fn pair_views(v: Seq<(&'static str, &'static str)>) -> Seq<(Seq<char>, Seq<char>)> {
    v.map_values(|p: (&'static str, &'static str)| (p.0@, p.1@))
}

fn symbol_table() -> (r: Vec<(&'static str, &'static str)>)
    ensures
        pair_views(r@) == symbols(),
        forall|i: int| 0 <= i < r@.len() ==> (#[trigger] r@[i]).0@.len() > 0,
{
    let r: Vec<(&'static str, &'static str)> = vec![
        ("\\rightarrow", "→"),
        ("\\approx", "≈"),
        ("\\partial", "∂"),
        ("\\nabla", "∇"),
        ("\\infty", "∞"),
        ("\\alpha", "α"),
        ("\\gamma", "γ"),
        ("\\delta", "δ"),
        ("\\theta", "θ"),
        ("\\lambda", "λ"),
        ("\\sigma", "σ"),
        ("\\omega", "ω"),
        ("\\times", "×"),
        ("\\cdot", "·"),
        ("\\sqrt", "√"),
        ("\\hbar", "ℏ"),
        ("\\beta", "β"),
        ("\\leq", "≤"),
        ("\\geq", "≥"),
        ("\\neq", "≠"),
        ("\\sum", "∑"),
        ("\\int", "∫"),
        ("\\pm", "±"),
        ("\\mu", "μ"),
        ("\\pi", "π"),
        ("\\tau", "τ"),
        ("\\varepsilon", "ε"),
        ("\\epsilon", "ε"),
        ("\\phi", "φ"),
        ("\\psi", "ψ"),
        ("\\Sigma", "Σ"),
        ("\\Delta", "Δ"),
        ("\\Omega", "Ω"),
        ("\\Gamma", "Γ"),
        ("\\langle", "⟨"),
        ("\\rangle", "⟩"),
        ("^0", "⁰"),
        ("^1", "¹"),
        ("^2", "²"),
        ("^3", "³"),
        ("^4", "⁴"),
        ("^5", "⁵"),
        ("^6", "⁶"),
        ("^7", "⁷"),
        ("^8", "⁸"),
        ("^9", "⁹"),
        ("^n", "ⁿ"),
    ];
    proof {
        reveal_strlit("\\rightarrow");
        reveal_strlit("\\approx");
        reveal_strlit("\\partial");
        reveal_strlit("\\nabla");
        reveal_strlit("\\infty");
        reveal_strlit("\\alpha");
        reveal_strlit("\\gamma");
        reveal_strlit("\\delta");
        reveal_strlit("\\theta");
        reveal_strlit("\\lambda");
        reveal_strlit("\\sigma");
        reveal_strlit("\\omega");
        reveal_strlit("\\times");
        reveal_strlit("\\cdot");
        reveal_strlit("\\sqrt");
        reveal_strlit("\\hbar");
        reveal_strlit("\\beta");
        reveal_strlit("\\leq");
        reveal_strlit("\\geq");
        reveal_strlit("\\neq");
        reveal_strlit("\\sum");
        reveal_strlit("\\int");
        reveal_strlit("\\pm");
        reveal_strlit("\\mu");
        reveal_strlit("\\pi");
        reveal_strlit("\\tau");
        reveal_strlit("\\varepsilon");
        reveal_strlit("\\epsilon");
        reveal_strlit("\\phi");
        reveal_strlit("\\psi");
        reveal_strlit("\\Sigma");
        reveal_strlit("\\Delta");
        reveal_strlit("\\Omega");
        reveal_strlit("\\Gamma");
        reveal_strlit("\\langle");
        reveal_strlit("\\rangle");
        reveal_strlit("^0");
        reveal_strlit("^1");
        reveal_strlit("^2");
        reveal_strlit("^3");
        reveal_strlit("^4");
        reveal_strlit("^5");
        reveal_strlit("^6");
        reveal_strlit("^7");
        reveal_strlit("^8");
        reveal_strlit("^9");
        reveal_strlit("^n");
    }
    assert(pair_views(r@) =~= symbols());
    r
}

/// Rough unicode approximation for inline math (and the no-graphics fallback).
pub fn to_unicode_approx(latex: &str) -> (r: String)
    ensures
        r@ == unicode_approx(latex@),
{
    let table = symbol_table();
    let ghost pairs = pair_views(table@);
    let mut out = latex.to_owned();
    let mut i: usize = 0;
    while i < table.len()
        invariant
            i <= table@.len(),
            pairs == pair_views(table@),
            forall|k: int| 0 <= k < table@.len() ==> (#[trigger] table@[k]).0@.len() > 0,
            out@ == with_symbols(latex@, pairs.take(i as int)),
        decreases table@.len() - i,
    {
        let (from, to) = table[i];
        assert(table@[i as int].0@.len() > 0);
        out = text::replace(out.as_str(), from, to);
        i += 1;
        assert(pairs.take(i as int).drop_last() =~= pairs.take(i - 1));
    }
    assert(pairs.take(i as int) =~= pairs);
    without_tex_syntax(out.as_str())
}

fn without_tex_syntax(s: &str) -> (r: String)
    ensures
        r@ == s@.filter(|c: char| !is_tex_syntax(c)),
{
    let v = text::chars_of(s);
    let ghost keep = |c: char| !is_tex_syntax(c);
    let mut r = String::new();
    let mut i: usize = 0;
    proof {
        assert(v@.take(0).filter(keep) =~= Seq::<char>::empty()) by {
            reveal(Seq::filter);
        }
    }
    while i < v.len()
        invariant
            i <= v@.len(),
            keep == (|c: char| !is_tex_syntax(c)),
            r@ == v@.take(i as int).filter(keep),
        decreases v@.len() - i,
    {
        let c = v[i];
        proof {
            assert(v@.take(i + 1).drop_last() =~= v@.take(i as int));
            reveal(Seq::filter);
        }
        if !(c == '\\' || c == '{' || c == '}' || c == '$') {
            r.push(c);
        }
        i += 1;
    }
    assert(v@.take(i as int) =~= s@);
    r
}

/// No TeX syntax is left in an approximation.
pub proof fn law_no_tex_syntax_is_left(latex: Seq<char>, i: int)
    requires
        0 <= i < unicode_approx(latex).len(),
    ensures
        !is_tex_syntax(unicode_approx(latex)[i]),
{
    let s = with_symbols(latex, symbols());
    s.lemma_filter_pred(|c: char| !is_tex_syntax(c), i);
}

// ---------------------------------------------------------------------------
// Theme
// ---------------------------------------------------------------------------

/// Whether a syntax theme is made for light terminals, where math needs dark
/// strokes.
pub open spec fn light_theme(theme: Seq<char>) -> bool {
    text::has_infix(theme, "light"@) || text::has_infix(theme, "GitHub"@)
}

pub fn is_light_theme(theme: &str) -> (r: bool)
    ensures
        r == light_theme(theme@),
{
    text::contains(theme, "light") || text::contains(theme, "GitHub")
}

// ---------------------------------------------------------------------------
// Pictures
// ---------------------------------------------------------------------------

#[derive(Clone, Copy, Debug, PartialEq, Eq, Structural)]
pub struct Pixel {
    pub r: u8,
    pub g: u8,
    pub b: u8,
    pub a: u8,
}

pub open spec fn blank() -> Pixel {
    Pixel { r: 0, g: 0, b: 0, a: 0 }
}

/// A picture: rows of pixels, all of one width.
pub struct Raster {
    pub width: usize,
    pub rows: Vec<Vec<Pixel>>,
}

impl View for Raster {
    type V = Seq<Seq<Pixel>>;

    open spec fn view(&self) -> Seq<Seq<Pixel>> {
        text::views(self.rows@)
    }
}

impl Raster {
    pub open spec fn wf(&self) -> bool {
        forall|y: int| 0 <= y < self.rows@.len() ==> (#[trigger] self.rows@[y])@.len() == self.width
    }
}

/// Whether the pixel at `(x, y)` shows.
pub open spec fn visible(p: Seq<Seq<Pixel>>, x: int, y: int) -> bool {
    0 <= y < p.len() && 0 <= x < p[y].len() && p[y][x].a > 0
}

/// `(x0, y0)` to `(x1, y1)` is the smallest box with every visible pixel: all
/// are inside, and each of its four edges touches one.
pub open spec fn bounding_box(p: Seq<Seq<Pixel>>, x0: int, y0: int, x1: int, y1: int) -> bool {
    &&& forall|x: int, y: int| #[trigger] visible(p, x, y) ==> x0 <= x <= x1 && y0 <= y <= y1
    &&& exists|y: int| #[trigger] visible(p, x0, y)
    &&& exists|y: int| #[trigger] visible(p, x1, y)
    &&& exists|x: int| #[trigger] visible(p, x, y0)
    &&& exists|x: int| #[trigger] visible(p, x, y1)
}

/// The part of `p` in a box.
pub open spec fn window(p: Seq<Seq<Pixel>>, x0: int, y0: int, x1: int, y1: int) -> Seq<Seq<Pixel>> {
    Seq::new((y1 - y0 + 1) as nat, |j: int| p[y0 + j].subrange(x0, x1 + 1))
}

/// `p` with blank rows of `width` pixels above and below, `h` rows in all; as
/// it is where it has as many.
pub open spec fn centered(p: Seq<Seq<Pixel>>, width: nat, h: nat) -> Seq<Seq<Pixel>> {
    if p.len() >= h {
        p
    } else {
        let top = (h - p.len()) / 2;
        let empty = Seq::new(width, |i: int| blank());
        Seq::new(
            h,
            |y: int|
                if top <= y < top + p.len() {
                    p[y - top]
                } else {
                    empty
                },
        )
    }
}

fn copy_pixels(v: &Vec<Pixel>, from: usize, to: usize) -> (r: Vec<Pixel>)
    requires
        from <= to <= v@.len(),
    ensures
        r@ == v@.subrange(from as int, to as int),
{
    let mut r: Vec<Pixel> = Vec::new();
    let mut i: usize = from;
    while i < to
        invariant
            from <= i <= to <= v@.len(),
            r@ == v@.subrange(from as int, i as int),
        decreases to - i,
    {
        r.push(v[i]);
        i += 1;
        assert(v@.subrange(from as int, i as int) =~= v@.subrange(from as int, i - 1).push(
            v@[i - 1],
        ));
    }
    r
}

/// Crop to the bounding box of non-transparent pixels (None if fully empty).
pub fn crop_transparent(img: &Raster) -> (r: Option<Raster>)
    requires
        img.wf(),
    ensures
        match r {
            None => forall|x: int, y: int| !#[trigger] visible(img@, x, y),
            Some(c) => c.wf() && exists|x0: int, y0: int, x1: int, y1: int|
                #[trigger] bounding_box(img@, x0, y0, x1, y1) && c@ == window(
                    img@,
                    x0,
                    y0,
                    x1,
                    y1,
                ),
        },
{
    let ghost p = img@;
    let mut found = false;
    let mut x0: usize = 0;
    let mut x1: usize = 0;
    let mut y0: usize = 0;
    let mut y1: usize = 0;
    let ghost mut at_x0: int = 0;
    let ghost mut at_x1: int = 0;
    let ghost mut at_y0: int = 0;
    let ghost mut at_y1: int = 0;
    let mut y: usize = 0;
    while y < img.rows.len()
        invariant
            y <= img.rows@.len(),
            p == img@,
            img.wf(),
            found ==> visible(p, x0 as int, at_x0) && visible(p, x1 as int, at_x1) && visible(
                p,
                at_y0,
                y0 as int,
            ) && visible(p, at_y1, y1 as int),
            forall|a: int, b: int|
                #[trigger] visible(p, a, b) && b < y ==> found && x0 <= a <= x1 && y0 <= b <= y1,
        decreases img.rows@.len() - y,
    {
        let mut x: usize = 0;
        let row = &img.rows[y];
        assert(p[y as int] == row@);
        while x < row.len()
            invariant
                x <= row@.len(),
                y < img.rows@.len(),
                p == img@,
                p[y as int] == row@,
                found ==> visible(p, x0 as int, at_x0) && visible(p, x1 as int, at_x1) && visible(
                    p,
                    at_y0,
                    y0 as int,
                ) && visible(p, at_y1, y1 as int),
                forall|a: int, b: int|
                    #[trigger] visible(p, a, b) && (b < y || (b == y && a < x)) ==> found && x0 <= a
                        <= x1 && y0 <= b <= y1,
            decreases row@.len() - x,
        {
            if row[x].a > 0 {
                assert(visible(p, x as int, y as int));
                if !found || x < x0 {
                    x0 = x;
                    proof {
                        at_x0 = y as int;
                    }
                }
                if !found || x > x1 {
                    x1 = x;
                    proof {
                        at_x1 = y as int;
                    }
                }
                if !found || y < y0 {
                    y0 = y;
                    proof {
                        at_y0 = x as int;
                    }
                }
                if !found || y > y1 {
                    y1 = y;
                    proof {
                        at_y1 = x as int;
                    }
                }
                found = true;
            }
            x += 1;
        }
        y += 1;
    }
    if !found {
        assert forall|a: int, b: int| !#[trigger] visible(p, a, b) by {}
        return None;
    }
    assert(bounding_box(p, x0 as int, y0 as int, x1 as int, y1 as int)) by {
        assert forall|a: int, b: int| #[trigger] visible(p, a, b) implies x0 <= a <= x1 && y0 <= b
            <= y1 by {}
    }
    let mut rows: Vec<Vec<Pixel>> = Vec::new();
    let mut j: usize = y0;
    assert(p[y1 as int] == img.rows@[y1 as int]@);
    assert(p[at_x1] == img.rows@[at_x1]@);
    assert(p[at_x0] == img.rows@[at_x0]@);
    while j <= y1
        invariant
            y0 <= j <= y1 + 1,
            y1 < img.rows.len(),
            x0 <= x1 < img.width,
            img.wf(),
            p == img@,
            rows@.len() == j - y0,
            forall|k: int|
                0 <= k < rows@.len() ==> (#[trigger] rows@[k])@ == p[y0 + k].subrange(
                    x0 as int,
                    x1 + 1,
                ),
        decreases y1 + 1 - j,
    {
        assert(img.rows@[j as int]@.len() == img.width);
        let row = copy_pixels(&img.rows[j], x0, x1 + 1);
        assert(p[j as int] == img.rows@[j as int]@);
        rows.push(row);
        j += 1;
    }
    let c = Raster { width: x1 - x0 + 1, rows };
    assert(c@ =~= window(p, x0 as int, y0 as int, x1 as int, y1 as int));
    assert forall|k: int| 0 <= k < c.rows@.len() implies (#[trigger] c.rows@[k])@.len()
        == c.width by {
        assert(img.rows@[y0 + k]@.len() == img.width);
        assert(p[y0 + k] == img.rows@[y0 + k]@);
    }
    Some(c)
}

fn blank_row(width: usize) -> (r: Vec<Pixel>)
    ensures
        r@ == Seq::new(width as nat, |i: int| blank()),
{
    let mut r: Vec<Pixel> = Vec::new();
    while r.len() < width
        invariant
            r@.len() <= width,
            forall|i: int| 0 <= i < r@.len() ==> #[trigger] r@[i] == blank(),
        decreases width - r@.len(),
    {
        r.push(Pixel { r: 0, g: 0, b: 0, a: 0 });
    }
    assert(r@ =~= Seq::new(width as nat, |i: int| blank()));
    r
}

/// Pad with blank rows to exactly `h` rows, the content centered vertically,
/// so that short symbols sit mid-line.
pub fn center_rows(img: Raster, h: usize) -> (r: Raster)
    requires
        img.wf(),
    ensures
        r.wf(),
        r.width == img.width,
        r@ == centered(img@, img.width as nat, h as nat),
{
    let n = img.rows.len();
    if n >= h {
        return img;
    }
    let width = img.width;
    let top = (h - n) / 2;
    let ghost p = img@;
    let ghost want = centered(p, width as nat, h as nat);
    let mut rows: Vec<Vec<Pixel>> = Vec::new();
    let mut y: usize = 0;
    while y < h
        invariant
            y <= h,
            n == img.rows@.len(),
            n < h,
            top == (h - n) / 2,
            p == img@,
            width == img.width,
            img.wf(),
            want == centered(p, width as nat, h as nat),
            rows@.len() == y,
            forall|k: int|
                0 <= k < y ==> (#[trigger] rows@[k])@ == want[k] && rows@[k]@.len() == width,
        decreases h - y,
    {
        let row = if y >= top && y - top < n {
            let src = &img.rows[y - top];
            assert(img.rows@[y - top]@.len() == width);
            assert(p[y - top] == src@);
            let c = copy_pixels(src, 0, src.len());
            assert(src@.subrange(0, src@.len() as int) =~= src@);
            c
        } else {
            blank_row(width)
        };
        rows.push(row);
        y += 1;
    }
    let out = Raster { width, rows };
    assert(out@ =~= want);
    out
}

} // verus!
