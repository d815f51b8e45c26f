//! What is shown of a cell: its prompt, its source and its outputs.

#[allow(unused_imports)]
use vstd::prelude::*;

#[allow(unused_imports)]
use crate::app::{EffectView, MomentView, State};
#[allow(unused_imports)]
use crate::bindings::{after, at_notebook, lemma_groups, lemma_plain, plain, prepared};
#[allow(unused_imports)]
use crate::highlight::highlighted;
#[allow(unused_imports)]
use crate::json::JsonView;
#[allow(unused_imports)]
use crate::keys::no_modifiers;
#[allow(unused_imports)]
use crate::layout::{duration_text, prompt_label, prompted, selection_on};
#[allow(unused_imports)]
use crate::markdown::{rendered_markdown, CanvasView};
#[allow(unused_imports)]
use crate::notebook::{multiline, CellView};
#[allow(unused_imports)]
use crate::nvim::ModeKind;
#[allow(unused_imports)]
use crate::output::shown_output;
#[allow(unused_imports)]
use crate::pictures::{
    output_graphic, output_latex, payload, placed, scaled, GalleryView, GraphicView, ImageView,
    PictureView,
};
#[allow(unused_imports)]
use crate::style::LineView;
#[allow(unused_imports)]
use crate::text::{decimal, signed_decimal};
#[allow(unused_imports)]
use crate::ui::{block_of, cell_language, source_canvas, zoom_of, BlockView, Look};

verus! {

// ---------------------------------------------------------------------------
// Prompts
// ---------------------------------------------------------------------------

/// A code cell's prompt tells that it runs, waits, or which execution it was;
/// another cell's its type.
pub proof fn law_prompts_tell_the_state(c: CellView, run: Option<bool>)
    ensures
        c.cell_type == "code"@ && run == Some(true) ==> prompt_label(c, run) == seq![
            'I', 'n', ' ', '[', '*', ']', ':',
        ],
        c.cell_type == "code"@ && run == Some(false) ==> prompt_label(c, run) == seq![
            'I', 'n', ' ', '[', '·', ']', ':',
        ],
        c.cell_type == "code"@ && run is None ==> (c.execution_count() matches Some(n)
            ==> prompt_label(c, run) == seq!['I', 'n', ' ', '['] + signed_decimal(n as int) + seq![
            ']', ':',
        ]),
        c.cell_type == "code"@ && run is None && c.execution_count() is None ==> prompt_label(c, run)
            == seq!['I', 'n', ' ', '[', ' ', ']', ':'],
        c.cell_type != "code"@ ==> prompt_label(c, run) == seq!['['] + c.cell_type + seq![']'],
{
    reveal_strlit("In [*]:");
    reveal_strlit("In [·]:");
    reveal_strlit("In [ ]:");
    reveal_strlit("In [");
    reveal_strlit("]:");
    reveal_strlit("[");
    reveal_strlit("]");
    assert("In [*]:"@ =~= seq!['I', 'n', ' ', '[', '*', ']', ':']);
    assert("In [·]:"@ =~= seq!['I', 'n', ' ', '[', '·', ']', ':']);
    assert("In [ ]:"@ =~= seq!['I', 'n', ' ', '[', ' ', ']', ':']);
    assert("In ["@ =~= seq!['I', 'n', ' ', '[']);
    assert("]:"@ =~= seq![']', ':']);
    assert("["@ =~= seq!['[']);
    assert("]"@ =~= seq![']']);
}

/// The selected cell is marked, with a pencil while it is edited; how long a
/// cell took is shown once it no longer runs.
pub proof fn law_prompt_lines(
    c: CellView,
    selected: bool,
    run: Option<bool>,
    editing: bool,
    elapsed: Option<u64>,
)
    ensures
        ({
            let l = prompted(c, selected, run, editing, elapsed);
            &&& l.spans.len() >= 2
            &&& l.spans[1].content == prompt_label(c, run)
            &&& l.spans[0].content == (if !selected {
                "  "@
            } else if editing {
                "✎ "@
            } else {
                "▶ "@
            })
            &&& elapsed is None || run is Some ==> l.spans.len() == 2
            &&& elapsed matches Some(ms) ==> run is None ==> l.spans.len() == 3
                && l.spans[2].content == seq![' '] + duration_text(ms)
        }),
{
    reveal_strlit(" ");
    assert(" "@ =~= seq![' ']);
}

/// Under a second a duration is in milliseconds; from a minute on in minutes
/// and whole seconds, the seconds with two digits.
pub proof fn law_durations(ms: u64)
    ensures
        ms < 1000 ==> duration_text(ms) == decimal(ms as int) + seq!['m', 's'],
        ms >= 60000 ==> ({
            let minutes = ms as int / 60000;
            let seconds = (ms as int - minutes * 60000) / 1000;
            &&& 0 <= seconds < 60
            &&& duration_text(ms) == decimal(minutes) + seq!['m'] + (if seconds < 10 {
                seq!['0']
            } else {
                Seq::empty()
            }) + decimal(seconds) + seq!['s']
        }),
{
    reveal_strlit("ms");
    reveal_strlit("m");
    reveal_strlit("s");
    reveal_strlit("0");
    assert("ms"@ =~= seq!['m', 's']);
    assert("m"@ =~= seq!['m']);
    assert("s"@ =~= seq!['s']);
    assert("0"@ =~= seq!['0']);
    let all = ms as int / 1000;
    let minutes = ms as int / 60000;
    let seconds = (ms as int - minutes * 60000) / 1000;
    assert(all / 60 == minutes && all % 60 == seconds) by {
        vstd::arithmetic::div_mod::lemma_fundamental_div_mod_converse(all, 60, minutes, seconds);
    }
    if ms >= 60000 {
        let a = decimal(minutes) + "m"@;
        if seconds < 10 {
            assert(duration_text(ms) =~= a + seq!['0'] + decimal(seconds) + seq!['s']);
        } else {
            assert(duration_text(ms) =~= a + Seq::<char>::empty() + decimal(seconds) + seq!['s']);
        }
    }
}

// ---------------------------------------------------------------------------
// Outputs
// ---------------------------------------------------------------------------

pub open spec fn markdown_of(o: JsonView) -> Option<JsonView> {
    match o.get("data"@) {
        Some(d) => d.get("text/markdown"@),
        None => None,
    }
}

/// `d` shows picture `e` below what `c` shows, and no text.
pub open spec fn shows_picture(c: CanvasView, d: CanvasView, e: ImageView) -> bool {
    let n = c.lines.len() as int;
    &&& d.images == c.images.push(ImageView { line: n, ..e })
    &&& d.lines.len() == n + e.rows
    &&& d.lines.take(n) == c.lines
    &&& forall|k: int| n <= k < d.lines.len() ==> #[trigger] d.lines[k] == LineView::raw(
        Seq::empty(),
    )
}

/// An output is shown as its picture where there is one, else as its formula,
/// else as its markdown, and as text where it is none of these.
pub proof fn law_outputs_are_shown(c: CanvasView, look: Look, o: JsonView, full: bool)
    ensures
        ({
            let d = c.with_output(look, o, full);
            let picture = match output_graphic(o) {
                Some(x) => look.gallery.entry(x, full),
                None => None,
            };
            let formula = match output_latex(o) {
                Some(tex) => look.gallery.entry(GraphicView::Host(PictureView::Math(tex)), false),
                None => None,
            };
            &&& picture matches Some(e) ==> shows_picture(c, d, e)
            &&& picture is None ==> (formula matches Some(e) ==> shows_picture(c, d, e))
            &&& picture is None && formula is None ==> (markdown_of(o) matches Some(md) ==> {
                let sub = rendered_markdown(look.theme, look.gallery, None, multiline(md));
                d.lines == c.lines + sub.lines && d.images.len() == c.images.len()
                    + sub.images.len()
            })
            &&& picture is None && formula is None && markdown_of(o) is None ==> d.lines == c.lines
                + shown_output(o) && d.images == c.images
        }),
{
    let n = c.lines.len() as int;
    assert forall|e: ImageView, w: CanvasView|
        w.lines == c.lines && w.images == c.images implies shows_picture(
        c,
        #[trigger] w.with_image(e),
        e,
    ) by {
        assert(w.with_image(e).lines.take(n) =~= c.lines);
    }
}

/// A PNG is taken before a JPEG, that before a GIF, and that before an SVG.
pub proof fn law_pictures_of_outputs(o: JsonView, data: JsonView)
    requires
        o.get("data"@) == Some(data),
    ensures
        data.get("image/png"@) matches Some(v) ==> output_graphic(o) == (match payload(v) {
            Some(b) => Some(GraphicView::Raster(b)),
            None => None,
        }),
        data.get("image/png"@) is None ==> (data.get("image/jpeg"@) matches Some(v)
            ==> output_graphic(o) == (match payload(v) {
            Some(b) => Some(GraphicView::Raster(b)),
            None => None,
        })),
        data.get("image/png"@) is None && data.get("image/jpeg"@) is None && data.get("image/gif"@)
            is None ==> (data.get("image/svg+xml"@) matches Some(v) ==> output_graphic(o) == Some(
            GraphicView::Host(PictureView::Svg(multiline(v))),
        )),
        data.get("image/png"@) is None && data.get("image/jpeg"@) is None && data.get("image/gif"@)
            is None && data.get("image/svg+xml"@) is None ==> output_graphic(o) is None,
{
}

/// The outputs of a cell are shown below its source, in order.
pub proof fn law_outputs_follow_the_source(look: Look, c: CellView, full: bool, o: JsonView)
    ensures
        block_of(look, c, full).src_lines == source_canvas(look, c).lines.len(),
        c.outputs_or_empty().len() == 0 ==> block_of(look, c, full).lines == source_canvas(
            look,
            c,
        ).lines,
        ({
            let outs = c.outputs_or_empty();
            let more = CellView { outputs: Some(outs.push(o)), ..c };
            let canvas = source_canvas(look, c).with_outputs(look, outs, full);
            &&& block_of(look, c, full).lines == canvas.lines
            &&& block_of(look, more, full).lines == canvas.with_output(look, o, full).lines
            &&& block_of(look, more, full).images == canvas.with_output(look, o, full).images
        }),
{
    let outs = c.outputs_or_empty();
    let more = CellView { outputs: Some(outs.push(o)), ..c };
    assert(outs.push(o).drop_last() =~= outs);
    assert(more.outputs_or_empty() == outs.push(o));
    assert(source_canvas(look, more) == source_canvas(look, c));
}

/// A code cell shows its source, highlighted in its language; a markdown cell
/// the source rendered.
pub proof fn law_sources_are_shown(look: Look, c: CellView)
    ensures
        c.cell_type == "code"@ ==> source_canvas(look, c).lines == highlighted(
            look.theme,
            cell_language(c, look.language),
            c.source,
        ),
        c.cell_type == "markdown"@ ==> source_canvas(look, c).lines == rendered_markdown(
            look.theme,
            look.gallery,
            crate::json::lookup(c.extra, "attachments"@),
            c.source,
        ).lines,
{
    reveal_strlit("code");
    reveal_strlit("markdown");
    reveal_strlit("raw");
    assert("code"@.len() == 4);
    assert("markdown"@.len() == 8);
    assert("raw"@.len() == 3);
    assert(CanvasView::empty().lines + highlighted(
        look.theme,
        cell_language(c, look.language),
        c.source,
    ) =~= highlighted(look.theme, cell_language(c, look.language), c.source));
}

// ---------------------------------------------------------------------------
// Visual selections
// ---------------------------------------------------------------------------

/// Whether a position comes before another in the text, or is it.
pub open spec fn upto(a: (usize, usize), b: (usize, usize)) -> bool {
    a.0 < b.0 || (a.0 == b.0 && a.1 <= b.1)
}

/// A visual selection covers what lies between its two ends, these included;
/// by lines, their lines whole; by block, the columns between them on the
/// lines between.
pub proof fn law_selections_cover_what_is_between(
    a: (usize, usize),
    b: (usize, usize),
    row: usize,
    len: usize,
    col: usize,
)
    requires
        col < len,
        a.0 == row ==> a.1 < len,
        b.0 == row ==> b.1 < len,
    ensures
        (selection_on(ModeKind::Visual, a, b, row, len) matches Some((x, y)) && x <= col <= y) <==> (
        (upto(a, (row, col)) && upto((row, col), b)) || (upto(b, (row, col)) && upto(
            (row, col),
            a,
        ))),
        (selection_on(ModeKind::VisualLine, a, b, row, len) matches Some((x, y)) && x <= col <= y)
            <==> ((a.0 <= row <= b.0) || (b.0 <= row <= a.0)),
        (selection_on(ModeKind::VisualBlock, a, b, row, len) matches Some((x, y)) && x <= col <= y)
            <==> ((a.0 <= row <= b.0) || (b.0 <= row <= a.0)) && ((a.1 <= col <= b.1) || (b.1
            <= col <= a.1)),
{
}

// ---------------------------------------------------------------------------
// Keys
// ---------------------------------------------------------------------------

/// Only the rendering of the selected cell may differ.
pub open spec fn only_block(s: State, t: State) -> bool {
    &&& t.app.notebook == s.app.notebook
    &&& t.app.selected == s.app.selected
    &&& t.app.effects == s.app.effects
    &&& t.app.file == s.app.file
    &&& t.ui.blocks.len() == s.ui.blocks.len()
    &&& forall|k: int|
        0 <= k < s.ui.blocks.len() && k != s.app.selected ==> #[trigger] t.ui.blocks[k]
            == s.ui.blocks[k]
}

/// `o` hides the selected cell's output, or shows it again; `[` and `]` scroll
/// it by a row; `Z` switches its pictures between capped and native size.
pub proof fn law_output_keys(s: State, m: MomentView)
    requires
        at_notebook(s),
        s.app.notebook.cells.len() > 0,
        s.ui.blocks[s.app.selected].lines.len() <= usize::MAX,
    ensures
        ({
            let at = s.app.selected;
            let b = s.ui.blocks[at];
            let o = after(s, plain('o'), m);
            let up = after(s, plain('['), m);
            let down = after(s, plain(']'), m);
            let full = after(s, plain('Z'), m);
            &&& only_block(s, o)
            &&& o.ui.blocks[at] == (BlockView { collapsed: !b.collapsed, ..b })
            &&& only_block(s, up)
            &&& up.ui.blocks[at].lines == b.lines
            &&& up.ui.blocks[at].win_start() == (if b.win_start() > 0 {
                b.win_start() - 1
            } else {
                0
            })
            &&& only_block(s, down)
            &&& down.ui.blocks[at].lines == b.lines
            &&& down.ui.blocks[at].win_start() == (if b.win_start() < b.max_out_scroll() {
                b.win_start() + 1
            } else {
                b.win_start()
            })
            &&& only_block(s, full)
            &&& full.ui.blocks[at].full_images == !b.full_images
        }),
{
    lemma_plain(s, 'o', m);
    lemma_groups(prepared(s), 'o', no_modifiers(), s.app.input.count, m);
    lemma_plain(s, '[', m);
    lemma_groups(prepared(s), '[', no_modifiers(), s.app.input.count, m);
    lemma_plain(s, ']', m);
    lemma_groups(prepared(s), ']', no_modifiers(), s.app.input.count, m);
    lemma_plain(s, 'Z', m);
    lemma_groups(prepared(s), 'Z', no_modifiers(), s.app.input.count, m);
    reveal(State::look_key);
    let r = prepared(s);
    let at = s.app.selected;
    assert(r.app.current() == Some(s.app.notebook.cells[at]));
    assert(0 <= at < s.ui.blocks.len());
    let b = s.ui.blocks[at];
    assert(b.wf());
    assert(0 <= b.max_out_scroll() <= usize::MAX);
    let up = after(s, plain('['), m).ui.blocks[at];
    assert(up == b.scrolled(-1));
    assert(up.max_out_scroll() == b.max_out_scroll());
    let down = after(s, plain(']'), m).ui.blocks[at];
    assert(down == b.scrolled(1));
    assert(down.max_out_scroll() == b.max_out_scroll());
}

/// `z` shows the first picture of the selected cell's outputs over the whole
/// screen.
pub proof fn law_z_zooms(s: State, m: MomentView)
    requires
        at_notebook(s),
        s.app.notebook.cells.len() > 0,
    ensures
        ({
            let t = after(s, plain('z'), m);
            &&& t.app.notebook == s.app.notebook
            &&& zoom_of(
                s.ui.look.gallery,
                s.app.notebook.cells[s.app.selected],
                s.app.screen.body,
            ) matches Some(z) ==> t.app.effects == s.app.effects.push(EffectView::Zoom(z))
        }),
{
    lemma_plain(s, 'z', m);
    lemma_groups(prepared(s), 'z', no_modifiers(), s.app.input.count, m);
    reveal(State::look_key);
    assert(prepared(s).app.current() == Some(s.app.notebook.cells[s.app.selected]));
}

// ---------------------------------------------------------------------------
// Sizes
// ---------------------------------------------------------------------------

/// A picture that is too tall is shown at the height allowed, and as wide as
/// its aspect asks, to the pixel; one that is not keeps its size.
pub proof fn law_scaling_keeps_the_aspect(w: int, h: int, max_h: int)
    requires
        w >= 1,
        h >= 1,
        max_h >= 1,
    ensures
        ({
            let (a, b) = scaled(w, h, max_h);
            &&& h > max_h ==> b == max_h && w * max_h < (a + 1) * h && (a * h <= w * max_h || a == 1)
            &&& h <= max_h ==> a == w && b == h
        }),
{
    if h > max_h {
        let q = w * max_h / h;
        vstd::arithmetic::div_mod::lemma_fundamental_div_mod(w * max_h, h);
        vstd::arithmetic::div_mod::lemma_mod_bound(w * max_h, h);
        assert(q * h == h * q && (q + 1) * h == h * q + h) by (nonlinear_arith);
        assert(w * max_h >= 0) by (nonlinear_arith)
            requires
                w >= 1,
                max_h >= 1,
        ;
        if q < 1 {
            assert(q * h <= 0) by (nonlinear_arith)
                requires
                    q < 1,
                    h >= 1,
            ;
            assert((1 + 1) * h == 2 * h);
        }
    }
}

/// The cells that a picture takes are those that the host measured for its
/// size, and one at least; without graphics there is no picture.
pub proof fn law_pictures_take_what_was_measured(
    g: GalleryView,
    x: GraphicView,
    full: bool,
    size: (int, int),
    cols: u16,
    rows: u16,
)
    ensures
        g.font is None ==> g.entry(x, full) is None,
        g.shown_size(x, full) == Some(size) && placed(g.cells, x, size.0, size.1) == Some(
            Some((cols, rows)),
        ) ==> (g.entry(x, full) matches Some(e) && e.graphic == x && e.width == size.0 && e.height
            == size.1 && (cols >= 1 ==> e.cols == cols) && (rows >= 1 ==> e.rows == rows)),
        g.shown_size(x, full) == Some(size) && placed(g.cells, x, size.0, size.1) is None
            ==> g.entry(x, full) is None,
{
}

} // verus!
