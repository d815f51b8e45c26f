//! Rendered cells. Cell bodies (syntax-highlighted source + outputs) are
//! cached in `Rendered` and rebuilt per cell when outputs arrive. Pictures
//! take blank placeholder lines reserved in the text flow.

use vstd::prelude::*;

use crate::config::Config;
use crate::highlight::Highlighter;
#[allow(unused_imports)]
use crate::highlight::highlighted;
use crate::json::Json;
#[allow(unused_imports)]
use crate::json::{lookup, JsonView};
use crate::keys::Rect;
use crate::markdown;
use crate::markdown::Canvas;
#[allow(unused_imports)]
use crate::markdown::{attached, rendered_markdown, CanvasView};
use crate::notebook;
use crate::notebook::{Cell, Notebook};
#[allow(unused_imports)]
use crate::notebook::{multiline, source_lines, CellView, NotebookView};
use crate::output;
#[allow(unused_imports)]
use crate::output::shown_output;
use crate::pictures;
use crate::pictures::{Ask, FontSize, Gallery, Graphic, InlineImage, Picture};
#[allow(unused_imports)]
use crate::pictures::{
    bare_math, output_graphic, output_latex, AskView, GalleryView, GraphicView, ImageView,
    PictureView, PlacedView,
};
use crate::style::Line;
#[allow(unused_imports)]
use crate::style::LineView;
use crate::text;
#[allow(unused_imports)]
use crate::text::{decimal, opt_view, strip_leading, views};

verus! {

// ---------------------------------------------------------------------------
// Cells
// ---------------------------------------------------------------------------

/// A string at the end of a path of members.
pub open spec fn string_under(m: Option<JsonView>, k: Seq<char>) -> Option<Seq<char>> {
    match m {
        Some(v) => match v.get(k) {
            Some(s) => s.as_str(),
            None => None,
        },
        None => None,
    }
}

/// Raw cell destined for latex (nbconvert convention: metadata.format mime).
pub open spec fn latex_raw(c: CellView) -> bool {
    c.cell_type == "raw"@ && match string_under(lookup(c.extra, "metadata"@), "format"@) {
        Some(f) => text::has_infix(f, "latex"@),
        None => false,
    }
}

/// Raw cell destined for latex (nbconvert convention: metadata.format mime).
pub fn is_latex_raw(cell: &Cell) -> (r: bool)
    ensures
        r == latex_raw(cell@),
{
    if !text::same(cell.cell_type.as_str(), "raw") {
        return false;
    }
    match cell.extra.get("metadata") {
        Some(m) => match m.get("format") {
            Some(Json::Str(f)) => text::contains(f.as_str(), "latex"),
            _ => false,
        },
        None => false,
    }
}

/// The kernel language of a notebook: that of its `language_info`, else of
/// its kernelspec, else Python.
pub open spec fn language_of(n: NotebookView) -> Seq<char> {
    let meta = lookup(n.extra, "metadata"@);
    let info = match meta {
        Some(m) => m.get("language_info"@),
        None => None,
    };
    let kernelspec = match meta {
        Some(m) => m.get("kernelspec"@),
        None => None,
    };
    match string_under(info, "name"@) {
        Some(s) => s,
        None => match string_under(kernelspec, "language"@) {
            Some(s) => s,
            None => "python"@,
        },
    }
}

fn string_in(m: Option<&Json>, k: &str) -> (r: Option<String>)
    ensures
        opt_view(r) == string_under(attached(m), k@),
{
    match m {
        Some(v) => match v.get(k) {
            Some(Json::Str(s)) => Some(s.clone()),
            _ => None,
        },
        None => None,
    }
}

/// The kernel language of a notebook.
pub fn notebook_language(nb: &Notebook) -> (r: String)
    ensures
        r@ == language_of(nb@),
{
    let meta = nb.extra.get("metadata");
    let info = match meta {
        Some(m) => m.get("language_info"),
        None => None,
    };
    let kernelspec = match meta {
        Some(m) => m.get("kernelspec"),
        None => None,
    };
    match string_in(info, "name") {
        Some(s) => s,
        None => match string_in(kernelspec, "language") {
            Some(s) => s,
            None => "python".to_owned(),
        },
    }
}

/// The language that a cell's source is highlighted in.
pub open spec fn cell_language(c: CellView, language: Seq<char>) -> Seq<char> {
    if c.cell_type == "code"@ {
        language
    } else if c.cell_type == "markdown"@ {
        "md"@
    } else {
        "txt"@
    }
}

/// The language that a cell's source is highlighted in.
pub fn cell_ext(cell: &Cell, language: &str) -> (r: String)
    ensures
        r@ == cell_language(cell@, language@),
{
    if cell.is_code() {
        language.to_owned()
    } else if text::same(cell.cell_type.as_str(), "markdown") {
        "md".to_owned()
    } else {
        "txt".to_owned()
    }
}

/// The type of the file that a cell is edited in outside: that of the
/// notebook's language for code, markdown for everything else.
pub open spec fn suffix_of(n: NotebookView, c: CellView) -> Seq<char> {
    if c.cell_type != "code"@ {
        "md"@
    } else {
        let info = match lookup(n.extra, "metadata"@) {
            Some(m) => m.get("language_info"@),
            None => None,
        };
        match string_under(info, "file_extension"@) {
            Some(e) => strip_leading(e, '.'),
            None => if language_of(n) == "python"@ {
                "py"@
            } else {
                language_of(n)
            },
        }
    }
}

/// The suffix of the file that a cell is edited in outside.
pub fn source_suffix(nb: &Notebook, cell: &Cell) -> (r: String)
    ensures
        r@ == suffix_of(nb@, cell@),
{
    if !cell.is_code() {
        return "md".to_owned();
    }
    let info = match nb.extra.get("metadata") {
        Some(m) => m.get("language_info"),
        None => None,
    };
    match string_in(info, "file_extension") {
        Some(e) => text::without_leading(e.as_str(), '.'),
        None => {
            let language = notebook_language(nb);
            if text::same(language.as_str(), "python") {
                "py".to_owned()
            } else {
                language
            }
        },
    }
}

/// Images taller than this many rows are downscaled once.
pub fn max_image_rows(config: &Config) -> (r: u16)
    ensures
        r == config@.max_image_rows,
{
    config.max_image_rows
}

/// Output rows shown per cell; longer outputs get a scrollable viewport.
pub fn max_output_rows(config: &Config) -> (r: usize)
    ensures
        r == config@.max_output_rows,
{
    config.max_output_rows
}

/// The cell size that a terminal's size in cells and pixels comes to, where
/// it reports pixels.
pub open spec fn font_of(columns: u16, rows: u16, width: u16, height: u16) -> Option<FontSize> {
    if columns == 0 || rows == 0 || width == 0 || height == 0 {
        None
    } else {
        Some(FontSize { width: width / columns, height: height / rows })
    }
}

/// The cell size that a terminal's size in cells and pixels comes to.
pub fn reported_font(columns: u16, rows: u16, width: u16, height: u16) -> (r: Option<FontSize>)
    ensures
        r == font_of(columns, rows, width, height),
{
    if columns == 0 || rows == 0 || width == 0 || height == 0 {
        None
    } else {
        Some(FontSize { width: width / columns, height: height / rows })
    }
}

// ---------------------------------------------------------------------------
// Blocks
// ---------------------------------------------------------------------------

/// A rendered cell.
pub struct CellBlock {
    pub lines: Vec<Line>,
    /// How many of `lines` are source (the rest are outputs).
    pub src_lines: usize,
    pub images: Vec<InlineImage>,
    /// Rendered source row -> raw source line (markdown cells; empty = 1:1).
    pub src_map: Vec<usize>,
    /// What the host is to be asked about pictures.
    pub wants: Vec<Ask>,
    /// Output rows shown before the output becomes a scrollable viewport.
    pub max_output_rows: usize,
    /// First output row shown when the output is clipped to the viewport
    /// budget. usize::MAX = follow the tail (streaming output stays live).
    pub out_scroll: usize,
    pub collapsed: bool,
    /// Output images shown at native size instead of the height cap (`Z`).
    pub full_images: bool,
    /// Wall time of the cell's last completed execution (session-only), in
    /// milliseconds.
    pub elapsed: Option<u64>,
}

#[verifier::ext_equal]
pub struct BlockView {
    pub lines: Seq<LineView>,
    pub src_lines: int,
    pub images: Seq<ImageView>,
    pub src_map: Seq<usize>,
    pub wants: Seq<AskView>,
    pub max_output_rows: nat,
    pub out_scroll: usize,
    pub collapsed: bool,
    pub full_images: bool,
    pub elapsed: Option<u64>,
}

impl View for CellBlock {
    type V = BlockView;

    open spec fn view(&self) -> BlockView {
        BlockView {
            lines: views(self.lines@),
            src_lines: self.src_lines as int,
            images: views(self.images@),
            src_map: self.src_map@,
            wants: views(self.wants@),
            max_output_rows: self.max_output_rows as nat,
            out_scroll: self.out_scroll,
            collapsed: self.collapsed,
            full_images: self.full_images,
            elapsed: self.elapsed,
        }
    }
}

/// Rows that the pictures from line `from` on take.
pub open spec fn image_rows(images: Seq<ImageView>, from: int) -> nat
    decreases images.len(),
{
    if images.len() == 0 {
        0
    } else {
        image_rows(images.drop_last(), from) + if images.last().line >= from {
            images.last().rows
        } else {
            0nat
        }
    }
}

pub open spec fn at_most(a: int, b: int) -> int {
    if a <= b {
        a
    } else {
        b
    }
}

pub open spec fn at_least(a: int, b: int) -> int {
    if a >= b {
        a
    } else {
        b
    }
}

impl BlockView {
    pub open spec fn wf(self) -> bool {
        0 <= self.src_lines <= self.lines.len()
    }

    pub open spec fn out_len(self) -> int {
        self.lines.len() - self.src_lines
    }

    /// Output-viewport budget: the row cap is for *text* spam; pictures are
    /// display units and extend the budget instead of being windowed away.
    pub open spec fn out_cap(self) -> int {
        (self.max_output_rows + image_rows(self.images, self.src_lines)) as int
    }

    pub open spec fn max_out_scroll(self) -> int {
        at_least(self.out_len() - self.out_cap(), 0)
    }

    /// The clamped first visible output row.
    pub open spec fn win_start(self) -> int {
        at_most(self.out_scroll as int, self.max_out_scroll())
    }

    /// Output window as displayed: (first row, rows shown, footer line?).
    pub open spec fn window(self) -> (int, int, bool) {
        if self.collapsed && self.out_len() > 0 {
            (0, 0, true)
        } else if self.out_len() > self.out_cap() {
            (self.win_start(), self.out_cap(), true)
        } else {
            (0, self.out_len(), false)
        }
    }

    pub open spec fn scrolled(self, delta: int) -> BlockView {
        let max = self.max_out_scroll();
        let new = at_most(at_least(self.win_start() + delta, 0), max);
        BlockView {
            out_scroll: if new == max {
                usize::MAX
            } else {
                new as usize
            },
            ..self
        }
    }

    pub open spec fn scrollable(self) -> bool {
        !self.collapsed && self.max_out_scroll() > 0
    }

    /// Extent and viewport, in a line.
    pub open spec fn summary(self) -> Seq<char> {
        let (first, shown, _) = self.window();
        decimal(self.lines.len() as int) + " lines ("@ + decimal(self.src_lines)
            + " source) · output rows "@ + decimal(first) + ".."@ + decimal(first + shown)
            + " of "@ + decimal(self.out_len()) + " · "@ + decimal(self.images.len() as int)
            + " image(s)"@ + (if self.collapsed {
            " · collapsed"@
        } else {
            ""@
        }) + (if self.full_images {
            " · native size"@
        } else {
            ""@
        })
    }
}

impl CellBlock {
    pub fn out_len(&self) -> (r: usize)
        requires
            self@.wf(),
        ensures
            r == self@.out_len(),
    {
        self.lines.len() - self.src_lines
    }

    fn out_cap(&self) -> (r: usize)
        ensures
            r == at_most(self@.out_cap(), usize::MAX as int),
    {
        let ghost all = views(self.images@);
        let mut sum: usize = 0;
        let mut i: usize = 0;
        while i < self.images.len()
            invariant
                i <= self.images@.len(),
                all == views(self.images@),
                sum == at_most(
                    image_rows(all.take(i as int), self.src_lines as int) as int,
                    usize::MAX as int,
                ),
            decreases self.images@.len() - i,
        {
            let im = &self.images[i];
            assert(all.take(i + 1).drop_last() =~= all.take(i as int));
            assert(all.take(i + 1).last() == im@);
            if im.line >= self.src_lines {
                sum = sum.saturating_add(im.rows as usize);
            }
            i += 1;
        }
        assert(all.take(i as int) =~= all);
        self.max_output_rows.saturating_add(sum)
    }

    fn max_out_scroll(&self) -> (r: usize)
        requires
            self@.wf(),
        ensures
            r == self@.max_out_scroll(),
    {
        self.out_len().saturating_sub(self.out_cap())
    }

    /// The clamped first visible output row.
    pub fn win_start(&self) -> (r: usize)
        requires
            self@.wf(),
        ensures
            r == self@.win_start(),
    {
        let max = self.max_out_scroll();
        if self.out_scroll <= max {
            self.out_scroll
        } else {
            max
        }
    }

    /// Output window as displayed: (first row, rows shown, footer line?).
    pub fn window(&self) -> (r: (usize, usize, bool))
        requires
            self@.wf(),
        ensures
            (r.0 as int, r.1 as int, r.2) == self@.window(),
    {
        let len = self.out_len();
        let cap = self.out_cap();
        if self.collapsed && len > 0 {
            (0, 0, true)
        } else if len > cap {
            (self.win_start(), cap, true)
        } else {
            (0, len, false)
        }
    }

    /// Scroll the output viewport; scrolling to the very end re-pins to tail.
    pub fn scroll_output(&mut self, delta: isize)
        requires
            old(self)@.wf(),
        ensures
            final(self)@ == old(self)@.scrolled(delta as int),
    {
        let max = self.max_out_scroll();
        let cur = self.win_start();
        let moved = if delta >= 0 {
            cur.saturating_add(delta as usize)
        } else {
            cur.saturating_sub(magnitude(delta))
        };
        let new = if moved <= max {
            moved
        } else {
            max
        };
        self.out_scroll = if new == max {
            usize::MAX
        } else {
            new
        };
    }

    /// Extent and viewport, in a line.
    pub fn debug_summary(&self) -> (r: String)
        requires
            self@.wf(),
        ensures
            r@ == self@.summary(),
    {
        let (first, shown, _) = self.window();
        let mut s = text::usize_string(self.lines.len());
        s.append(" lines (");
        s.append(text::usize_string(self.src_lines).as_str());
        s.append(" source) · output rows ");
        s.append(text::usize_string(first).as_str());
        s.append("..");
        s.append(text::usize_string(first + shown).as_str());
        s.append(" of ");
        s.append(text::usize_string(self.out_len()).as_str());
        s.append(" · ");
        s.append(text::usize_string(self.images.len()).as_str());
        s.append(" image(s)");
        s.append(if self.collapsed {
            " · collapsed"
        } else {
            ""
        });
        s.append(if self.full_images {
            " · native size"
        } else {
            ""
        });
        s
    }

    /// Whether the output viewport can scroll (wheel-over-output routing).
    pub fn output_scrollable(&self) -> (r: bool)
        requires
            self@.wf(),
        ensures
            r == self@.scrollable(),
    {
        !self.collapsed && self.max_out_scroll() > 0
    }
}

fn magnitude(d: isize) -> (r: usize)
    requires
        d < 0,
    ensures
        r == -d,
{
    (-(d + 1)) as usize + 1
}

/// The window never shows rows that the output does not have, and without a
/// footer it shows them all.
pub proof fn law_window_is_within_the_output(b: BlockView)
    requires
        b.wf(),
    ensures
        ({
            let (start, rows, footer) = b.window();
            &&& 0 <= start && 0 <= rows && start + rows <= b.out_len()
            &&& !footer ==> start == 0 && rows == b.out_len()
            &&& !b.collapsed && footer ==> rows == b.out_cap()
        }),
{
}

/// An output that follows its tail shows its last rows.
pub proof fn law_tail_is_shown(b: BlockView)
    requires
        b.wf(),
        b.out_scroll == usize::MAX,
        !b.collapsed,
        b.out_len() <= usize::MAX,
    ensures
        b.window().0 + b.window().1 == b.out_len(),
{
}

/// Scrolling forth after scrolling back the same distance returns to the
/// same row, unless the top was reached.
pub proof fn law_scrolling_back_and_forth(b: BlockView, d: int)
    requires
        b.wf(),
        d >= 0,
        b.win_start() - d >= 0,
        b.out_len() <= usize::MAX,
    ensures
        b.scrolled(-d).scrolled(d).win_start() == b.win_start(),
{
}

// ---------------------------------------------------------------------------
// Rendering a cell
// ---------------------------------------------------------------------------

/// What cells are rendered with.
pub struct Look {
    /// Syntax theme.
    pub theme: Seq<char>,
    pub gallery: GalleryView,
    /// Language of the code cells.
    pub language: Seq<char>,
    pub max_output_rows: nat,
}

/// The pictures of a part that starts at line `base`.
pub open spec fn shifted(images: Seq<ImageView>, base: int) -> Seq<ImageView> {
    images.map_values(|im: ImageView| ImageView { line: im.line + base, ..im })
}

impl CanvasView {
    /// With one more output of a cell.
    pub open spec fn with_output(self, look: Look, o: JsonView, full: bool) -> CanvasView {
        let g = look.gallery;
        let graphic = output_graphic(o);
        let c = match graphic {
            Some(x) => self.wanting(g, x, full),
            None => self,
        };
        let picture = match graphic {
            Some(x) => g.entry(x, full),
            None => None,
        };
        match picture {
            Some(e) => c.with_image(e),
            None => match output_latex(o) {
                Some(tex) => {
                    let x = GraphicView::Host(PictureView::Math(tex));
                    let d = c.wanting(g, x, false);
                    match g.entry(x, false) {
                        Some(e) => d.with_image(e),
                        None => d.with_text_output(look, o),
                    }
                },
                None => c.with_text_output(look, o),
            },
        }
    }

    /// With an output that shows no picture of its own.
    pub open spec fn with_text_output(self, look: Look, o: JsonView) -> CanvasView {
        let md = match o.get("data"@) {
            Some(d) => d.get("text/markdown"@),
            None => None,
        };
        match md {
            Some(md) => {
                let sub = rendered_markdown(look.theme, look.gallery, None, multiline(md));
                CanvasView {
                    lines: self.lines + sub.lines,
                    images: self.images + shifted(sub.images, self.lines.len() as int),
                    wants: self.wants + sub.wants,
                    ..self
                }
            },
            None => self.with_lines(shown_output(o)),
        }
    }

    pub open spec fn with_outputs(self, look: Look, outputs: Seq<JsonView>, full: bool) ->
        CanvasView
        decreases outputs.len(),
    {
        if outputs.len() == 0 {
            self
        } else {
            self.with_outputs(look, outputs.drop_last(), full).with_output(
                look,
                outputs.last(),
                full,
            )
        }
    }
}

/// The source of a cell, rendered.
pub open spec fn source_canvas(look: Look, c: CellView) -> CanvasView {
    if c.cell_type == "markdown"@ {
        rendered_markdown(look.theme, look.gallery, lookup(c.extra, "attachments"@), c.source)
    } else if latex_raw(c) {
        CanvasView::empty().math(look.gallery, bare_math(c.source))
    } else {
        CanvasView::empty().with_lines(
            highlighted(look.theme, cell_language(c, look.language), c.source),
        )
    }
}

/// A cell, rendered.
pub open spec fn block_of(look: Look, c: CellView, full: bool) -> BlockView {
    let source = source_canvas(look, c);
    let all = source.with_outputs(look, c.outputs_or_empty(), full);
    BlockView {
        lines: all.lines,
        src_lines: source.lines.len() as int,
        images: all.images,
        src_map: source.map,
        wants: all.wants,
        max_output_rows: look.max_output_rows,
        out_scroll: usize::MAX,
        collapsed: false,
        full_images: full,
        elapsed: None,
    }
}

/// A cell rendered anew; the viewport position, image sizing and timing stay.
pub open spec fn rebuilt(look: Look, old_block: BlockView, c: CellView) -> BlockView {
    BlockView {
        out_scroll: old_block.out_scroll,
        collapsed: old_block.collapsed,
        elapsed: old_block.elapsed,
        ..block_of(look, c, old_block.full_images)
    }
}

pub struct Rendered {
    pub highlighter: Highlighter,
    pub gallery: Gallery,
    /// Language of the code cells.
    pub language: String,
    /// Output rows shown per cell; longer outputs get a scrollable viewport.
    pub max_output_rows: usize,
    pub blocks: Vec<CellBlock>,
}

#[verifier::ext_equal]
pub struct RenderedView {
    pub look: Look,
    pub blocks: Seq<BlockView>,
}

impl View for Rendered {
    type V = RenderedView;

    open spec fn view(&self) -> RenderedView {
        RenderedView {
            look: Look {
                theme: self.highlighter@,
                gallery: self.gallery@,
                language: self.language@,
                max_output_rows: self.max_output_rows as nat,
            },
            blocks: views(self.blocks@),
        }
    }
}

/// Every block has its source lines.
pub open spec fn all_wf(blocks: Seq<BlockView>) -> bool {
    forall|i: int| 0 <= i < blocks.len() ==> (#[trigger] blocks[i]).wf()
}

impl RenderedView {
    pub open spec fn wf(self) -> bool {
        all_wf(self.blocks)
    }

    pub open spec fn with_blocks(self, blocks: Seq<BlockView>) -> RenderedView {
        RenderedView { blocks, ..self }
    }

    pub open spec fn rebuilt_cell(self, i: int, c: CellView) -> RenderedView {
        self.with_blocks(self.blocks.update(i, rebuilt(self.look, self.blocks[i], c)))
    }

    pub open spec fn inserted(self, i: int, c: CellView) -> RenderedView {
        self.with_blocks(self.blocks.insert(i, block_of(self.look, c, false)))
    }

    pub open spec fn removed(self, i: int) -> RenderedView {
        self.with_blocks(self.blocks.remove(i))
    }

    pub open spec fn swapped(self, a: int, b: int) -> RenderedView {
        self.with_blocks(self.blocks.update(a, self.blocks[b]).update(b, self.blocks[a]))
    }

    /// With one block changed, if it is there.
    pub open spec fn with_block(self, i: int, b: BlockView) -> RenderedView {
        if 0 <= i < self.blocks.len() {
            self.with_blocks(self.blocks.update(i, b))
        } else {
            self
        }
    }

    /// A cell's output follows its tail.
    pub open spec fn tailed(self, i: int) -> RenderedView {
        self.with_block(i, BlockView { out_scroll: usize::MAX, ..self.blocks[i] })
    }

    /// A cell's execution took this long.
    pub open spec fn timed(self, i: int, ms: u64) -> RenderedView {
        self.with_block(i, BlockView { elapsed: Some(ms), ..self.blocks[i] })
    }

    /// A cell's output collapsed, or shown again.
    pub open spec fn folded(self, i: int) -> RenderedView {
        self.with_block(
            i,
            BlockView { collapsed: !self.blocks[i].collapsed, ..self.blocks[i] },
        )
    }

    /// A cell's output scrolled.
    pub open spec fn output_scrolled(self, i: int, delta: int) -> RenderedView {
        self.with_block(i, self.blocks[i].scrolled(delta))
    }

    pub open spec fn all_rebuilt(self, cells: Seq<CellView>) -> RenderedView {
        self.with_blocks(cells.map_values(|c: CellView| block_of(self.look, c, false)))
    }
}

/// A picture moved down by `base` lines.
fn shift_image(im: InlineImage, base: usize) -> (r: InlineImage)
    requires
        im.line + base <= usize::MAX,
    ensures
        r@ == (ImageView { line: im.line + base, ..im@ }),
{
    InlineImage {
        line: im.line + base,
        col: im.col,
        cols: im.cols,
        rows: im.rows,
        width: im.width,
        height: im.height,
        graphic: im.graphic,
    }
}

/// Pictures moved down by `base` lines.
fn shift_images(images: Vec<InlineImage>, base: usize, total: usize) -> (r: Vec<InlineImage>)
    requires
        base <= total,
        forall|k: int|
            0 <= k < images@.len() ==> 0 <= (#[trigger] views(images@)[k]).line <= total - base,
    ensures
        views(r@) == shifted(views(images@), base as int),
{
    let ghost all = views(images@);
    let mut images = images;
    let mut back: Vec<InlineImage> = Vec::new();
    // taken from the end, so that the pictures need no copy
    while images.len() > 0
        invariant
            base <= total,
            all.len() == images@.len() + back@.len(),
            forall|k: int| 0 <= k < all.len() ==> 0 <= (#[trigger] all[k]).line <= total - base,
            forall|k: int| 0 <= k < images@.len() ==> (#[trigger] images@[k])@ == all[k],
            forall|k: int|
                0 <= k < back@.len() ==> (#[trigger] back@[k])@ == shifted(all, base as int)[
                all.len() - 1 - k],
        decreases images@.len(),
    {
        let ghost i0 = images@;
        if let Some(im) = images.pop() {
            assert(i0[i0.len() - 1]@ == all[i0.len() - 1]);
            back.push(shift_image(im, base));
        }
    }
    let ghost b0 = back@;
    let mut r: Vec<InlineImage> = Vec::new();
    while back.len() > 0
        invariant
            all.len() == back@.len() + r@.len(),
            back@ == b0.take(back@.len() as int),
            b0.len() == all.len(),
            forall|k: int|
                0 <= k < b0.len() ==> (#[trigger] b0[k])@ == shifted(all, base as int)[all.len() - 1
                    - k],
            forall|k: int|
                0 <= k < r@.len() ==> (#[trigger] r@[k])@ == shifted(all, base as int)[k],
        decreases back@.len(),
    {
        let ghost b1 = back@;
        if let Some(im) = back.pop() {
            assert(b1[b1.len() - 1] == b0[b1.len() - 1]);
            r.push(im);
        }
    }
    assert(views(r@) =~= shifted(all, base as int));
    r
}

impl Rendered {
    pub open spec fn wf(&self) -> bool {
        self@.wf()
    }

    fn push_text_output(&self, c: &mut Canvas, output: &Json)
        ensures
            final(c)@ == old(c)@.with_text_output(self@.look, output@),
            final(c)@.lines.len() >= old(c)@.lines.len(),
    {
        let md = match output.get("data") {
            Some(d) => d.get("text/markdown"),
            None => None,
        };
        match md {
            Some(md) => {
                let src = notebook::join_multiline(md);
                let sub = markdown::render_markdown(
                    &self.highlighter,
                    &self.gallery,
                    src.as_str(),
                    None,
                );
                let ghost sv = sub@;
                let base = c.lines.len();
                let Canvas { lines, images, map: _, wants } = sub;
                let ghost i0 = views(c.images@);
                let ghost w0 = c.wants@;
                c.extend(lines);
                let total = c.lines.len();
                assert(c@.lines.len() == total && c@.lines.len() == base + sv.lines.len());
                let ghost src_images = views(images@);
                assert(forall|k: int|
                    0 <= k < images@.len() ==> 0 <= (#[trigger] src_images[k]).line
                        <= sv.lines.len());
                let mut moved = shift_images(images, base, total);
                let ghost m = views(moved@);
                c.images.append(&mut moved);
                assert(views(c.images@) =~= i0 + m);
                let mut wants = wants;
                let ghost w1 = wants@;
                c.wants.append(&mut wants);
                assert(views(c.wants@) =~= views(w0) + views(w1));
            },
            None => {
                c.extend(output::output_lines(output));
            },
        }
    }

    fn push_output(&self, c: &mut Canvas, output: &Json, full: bool)
        ensures
            final(c)@ == old(c)@.with_output(self@.look, output@, full),
            final(c)@.lines.len() >= old(c)@.lines.len(),
    {
        let picture = match pictures::graphic_of_output(output) {
            Some(x) => {
                c.note(&self.gallery, &x, full);
                self.gallery.image_entry(x, full)
            },
            None => None,
        };
        if let Some(e) = picture {
            c.push_image(e);
            return;
        }
        if let Some(tex) = pictures::latex_of_output(output) {
            let x = Graphic::Host(Picture::Math(tex));
            c.note(&self.gallery, &x, false);
            if let Some(e) = self.gallery.image_entry(x, false) {
                c.push_image(e);
                return;
            }
        }
        self.push_text_output(c, output);
    }

    /// Syntax-highlight source text, for cached blocks and the live editor.
    pub fn highlight(&self, source: &str, lang: &str) -> (r: Vec<Line>)
        ensures
            views(r@) == highlighted(self@.look.theme, lang@, source@),
            r@.len() == source_lines(source@).len(),
    {
        self.highlighter.lines(source, lang)
    }

    fn render_source(&self, cell: &Cell) -> (r: Canvas)
        ensures
            r@ == source_canvas(self@.look, cell@),
    {
        if text::same(cell.cell_type.as_str(), "markdown") {
            markdown::render_markdown(
                &self.highlighter,
                &self.gallery,
                cell.source.as_str(),
                cell.extra.get("attachments"),
            )
        } else if is_latex_raw(cell) {
            let mut c = Canvas::empty();
            c.push_math(&self.gallery, pictures::strip_math(cell.source.as_str()).as_str());
            c
        } else {
            let mut c = Canvas::empty();
            let lang = cell_ext(cell, self.language.as_str());
            c.extend(self.highlight(cell.source.as_str(), lang.as_str()));
            c
        }
    }

    /// Renders a cell; `full_images` shows its output images at native size.
    pub fn render_cell(&self, cell: &Cell, full_images: bool) -> (r: CellBlock)
        ensures
            r@ == block_of(self@.look, cell@, full_images),
            r@.wf(),
    {
        let mut c = self.render_source(cell);
        let ghost source = c@;
        let src_lines = c.lines.len();
        if let Some(outputs) = &cell.outputs {
            let ghost all = views(outputs@);
            let mut i: usize = 0;
            while i < outputs.len()
                invariant
                    i <= outputs@.len(),
                    all == views(outputs@),
                    c@ == source.with_outputs(self@.look, all.take(i as int), full_images),
                    c@.lines.len() >= src_lines,
                    c@.map == source.map,
                decreases outputs@.len() - i,
            {
                self.push_output(&mut c, &outputs[i], full_images);
                i += 1;
                assert(all.take(i as int).drop_last() =~= all.take(i - 1));
                assert(all.take(i as int).last() == outputs@[i - 1]@);
            }
            assert(all.take(i as int) =~= all);
        } else {
            assert(source.with_outputs(self@.look, Seq::empty(), full_images) == source);
        }
        let Canvas { lines, images, map, wants } = c;
        CellBlock {
            lines,
            src_lines,
            images,
            src_map: map,
            wants,
            max_output_rows: self.max_output_rows,
            out_scroll: usize::MAX,
            collapsed: false,
            full_images,
            elapsed: None,
        }
    }

    /// Renders a notebook.
    pub fn build(
        nb: &Notebook,
        theme: &str,
        max_output_rows: usize,
        gallery: Gallery,
    ) -> (r: Rendered)
        ensures
            r@.look == (Look {
                theme: theme@,
                gallery: gallery@,
                language: language_of(nb@),
                max_output_rows: max_output_rows as nat,
            }),
            r@ == r@.all_rebuilt(nb@.cells),
            r.wf(),
    {
        let blocks: Vec<CellBlock> = Vec::new();
        let mut r = Rendered {
            highlighter: Highlighter::new(theme),
            gallery,
            language: notebook_language(nb),
            max_output_rows,
            blocks,
        };
        r.rebuild_all(nb);
        r
    }

    /// Re-render a cell, keeping viewport position, image sizing and timing.
    pub fn rebuild_cell(&mut self, idx: usize, cell: &Cell)
        requires
            idx < old(self).blocks@.len(),
        ensures
            final(self)@ == old(self)@.rebuilt_cell(idx as int, cell@),
            final(self).blocks@.len() == old(self).blocks@.len(),
            old(self).wf() ==> final(self).wf(),
    {
        let ghost b0 = self.blocks@;
        let full = self.blocks[idx].full_images;
        let mut b = self.render_cell(cell, full);
        b.out_scroll = self.blocks[idx].out_scroll;
        b.collapsed = self.blocks[idx].collapsed;
        b.elapsed = self.blocks[idx].elapsed;
        self.blocks.set(idx, b);
        assert(views(self.blocks@) =~= views(b0).update(idx as int, b@));
    }

    pub fn insert_cell(&mut self, idx: usize, cell: &Cell)
        requires
            idx <= old(self).blocks@.len(),
        ensures
            final(self)@ == old(self)@.inserted(idx as int, cell@),
            final(self).blocks@.len() == old(self).blocks@.len() + 1,
            old(self).wf() ==> final(self).wf(),
    {
        let ghost b0 = self.blocks@;
        let b = self.render_cell(cell, false);
        self.blocks.insert(idx, b);
        assert(views(self.blocks@) =~= views(b0).insert(idx as int, b@));
        assert(old(self).wf() ==> self.wf());
    }

    pub fn remove_cell(&mut self, idx: usize)
        requires
            idx < old(self).blocks@.len(),
        ensures
            final(self)@ == old(self)@.removed(idx as int),
            final(self).blocks@.len() == old(self).blocks@.len() - 1,
            old(self).wf() ==> final(self).wf(),
    {
        let ghost b0 = self.blocks@;
        let _ = self.blocks.remove(idx);
        assert(views(self.blocks@) =~= views(b0).remove(idx as int));
    }

    pub fn swap_cells(&mut self, a: usize, b: usize)
        requires
            a < old(self).blocks@.len(),
            b < old(self).blocks@.len(),
        ensures
            final(self)@ == old(self)@.swapped(a as int, b as int),
            final(self).blocks@.len() == old(self).blocks@.len(),
            old(self).wf() ==> final(self).wf(),
    {
        let ghost b0 = self.blocks@;
        swap_in(&mut self.blocks, a, b);
        assert(views(self.blocks@) =~= views(b0).update(a as int, views(b0)[b as int]).update(
            b as int,
            views(b0)[a as int],
        ));
    }

    /// Re-render every cell (external reload, font-size change).
    pub fn rebuild_all(&mut self, nb: &Notebook)
        ensures
            final(self)@ == old(self)@.all_rebuilt(nb@.cells),
            final(self).blocks@.len() == nb.cells@.len(),
            final(self).wf(),
    {
        let mut blocks: Vec<CellBlock> = Vec::new();
        let ghost want = self@.all_rebuilt(nb@.cells).blocks;
        let mut i: usize = 0;
        while i < nb.cells.len()
            invariant
                i <= nb.cells@.len(),
                *self == *old(self),
                want == self@.all_rebuilt(nb@.cells).blocks,
                blocks@.len() == i,
                forall|k: int|
                    0 <= k < i ==> (#[trigger] blocks@[k])@ == want[k] && blocks@[k]@.wf(),
            decreases nb.cells@.len() - i,
        {
            let b = self.render_cell(&nb.cells[i], false);
            blocks.push(b);
            i += 1;
        }
        assert(views(blocks@) =~= want);
        self.blocks = blocks;
    }

    /// The terminal's cell size changed (terminal zoom), which invalidates
    /// every picture's cell dimensions: everything is rendered anew. A size
    /// that did not change, or a terminal that shows no graphics, changes
    /// nothing.
    pub fn on_resize(&mut self, nb: &Notebook, font: FontSize)
        requires
            old(self).wf(),
        ensures
            final(self)@ == old(self)@.resized(nb@.cells, font),
            final(self).wf(),
    {
        match self.gallery.font {
            None => {},
            Some(f) => {
                if f.width != font.width || f.height != font.height {
                    self.gallery.set_font(font);
                    self.rebuild_all(nb);
                }
            },
        }
    }

    /// A cell's output follows its tail.
    pub fn follow_tail(&mut self, idx: usize)
        requires
            old(self).wf(),
        ensures
            final(self)@ == old(self)@.tailed(idx as int),
            final(self).wf(),
    {
        let ghost b0 = self.blocks@;
        if idx < self.blocks.len() {
            self.blocks[idx].out_scroll = usize::MAX;
            assert(views(self.blocks@) =~= views(b0).update(
                idx as int,
                BlockView { out_scroll: usize::MAX, ..views(b0)[idx as int] },
            ));
        }
    }

    /// A cell's execution took this long.
    pub fn set_elapsed(&mut self, idx: usize, ms: u64)
        requires
            old(self).wf(),
        ensures
            final(self)@ == old(self)@.timed(idx as int, ms),
            final(self).wf(),
    {
        let ghost b0 = self.blocks@;
        if idx < self.blocks.len() {
            self.blocks[idx].elapsed = Some(ms);
            assert(views(self.blocks@) =~= views(b0).update(
                idx as int,
                BlockView { elapsed: Some(ms), ..views(b0)[idx as int] },
            ));
        }
    }

    /// Collapse a cell's output, or show it again.
    pub fn fold(&mut self, idx: usize)
        requires
            old(self).wf(),
        ensures
            final(self)@ == old(self)@.folded(idx as int),
            final(self).wf(),
    {
        let ghost b0 = self.blocks@;
        if idx < self.blocks.len() {
            let collapsed = !self.blocks[idx].collapsed;
            self.blocks[idx].collapsed = collapsed;
            assert(views(self.blocks@) =~= views(b0).update(
                idx as int,
                BlockView { collapsed, ..views(b0)[idx as int] },
            ));
        }
    }

    /// Scroll a cell's output.
    pub fn scroll_cell(&mut self, idx: usize, delta: isize)
        requires
            old(self).wf(),
        ensures
            final(self)@ == old(self)@.output_scrolled(idx as int, delta as int),
            final(self).wf(),
    {
        let ghost b0 = self.blocks@;
        if idx < self.blocks.len() {
            assert(views(b0)[idx as int] == b0[idx as int]@);
            assert(b0[idx as int]@.wf());
            self.blocks[idx].scroll_output(delta);
            assert(views(self.blocks@) =~= views(b0).update(
                idx as int,
                views(b0)[idx as int].scrolled(delta as int),
            ));
        }
    }

    /// `Z`: re-render a cell with its output images at native size (or back).
    /// Returns the new state.
    pub fn toggle_full_images(&mut self, idx: usize, cell: &Cell) -> (r: bool)
        ensures
            final(self)@ == old(self)@.toggled_full(idx as int, cell@),
            r == (idx < old(self).blocks@.len() && !old(self)@.blocks[idx as int].full_images),
            old(self).wf() ==> final(self).wf(),
    {
        if idx >= self.blocks.len() {
            return false;
        }
        let ghost b0 = self.blocks@;
        let state = !self.blocks[idx].full_images;
        self.blocks[idx].full_images = state;
        assert(views(self.blocks@) =~= views(b0).update(
            idx as int,
            BlockView { full_images: state, ..views(b0)[idx as int] },
        ));
        self.rebuild_cell(idx, cell);
        state
    }

    /// Code cells rendered from now on are in this language.
    pub fn set_language(&mut self, language: &str)
        ensures
            final(self)@ == old(self)@.in_language(language@),
    {
        self.language = language.to_owned();
    }

    /// The host measured a picture, or found that it cannot be had.
    pub fn learn(&mut self, p: Picture, size: Option<(u32, u32)>)
        ensures
            final(self)@ == old(self)@.learned(p@, size),
    {
        self.gallery.learn(p, size);
    }

    /// The host placed a graphic of a size in pixels on the terminal, in
    /// columns and rows, or found that the terminal cannot show it.
    pub fn place(&mut self, graphic: Graphic, width: u32, height: u32, cells: Option<(u16, u16)>)
        ensures
            final(self)@ == old(self)@.placed(
                PlacedView { graphic: graphic@, width: width as int, height: height as int, cells },
            ),
    {
        self.gallery.place(graphic, width, height, cells);
    }

    /// Renders anew the cells whose pictures were waited for.
    pub fn refresh(&mut self, nb: &Notebook)
        requires
            old(self).wf(),
            old(self).blocks@.len() == nb.cells@.len(),
        ensures
            final(self)@ == old(self)@.refreshed(nb@.cells),
            final(self).wf(),
    {
        let ghost start = self@;
        let ghost cells = nb@.cells;
        let mut i: usize = 0;
        while i < self.blocks.len()
            invariant
                i <= self.blocks@.len(),
                self.blocks@.len() == nb.cells@.len(),
                start.blocks.len() == nb.cells@.len(),
                cells == views(nb.cells@),
                self@.look == start.look,
                self.wf(),
                forall|k: int|
                    0 <= k < i ==> (#[trigger] self@.blocks[k]) == start.refreshed(cells).blocks[k],
                forall|k: int|
                    i <= k < self.blocks@.len() ==> (#[trigger] self@.blocks[k]) == start.blocks[k],
            decreases self.blocks@.len() - i,
        {
            assert(self@.blocks[i as int] == self.blocks@[i as int]@);
            assert(self@.blocks[i as int].wants.len() == self.blocks@[i as int].wants@.len());
            if self.blocks[i].wants.len() > 0 {
                self.rebuild_cell(i, &nb.cells[i]);
            }
            i += 1;
        }
        assert(self@.blocks =~= start.refreshed(cells).blocks);
    }

    /// The first image output of a cell, at its native resolution, with what
    /// it must fit into; nothing where the terminal shows no graphics.
    pub fn zoom_image(&self, cell: &Cell, area: Rect) -> (r: Option<Zoom>)
        ensures
            opt_view(r) == zoom_of(self@.look.gallery, cell@, area),
    {
        let font = match self.gallery.font {
            Some(f) => f,
            None => {
                return None;
            },
        };
        let outputs = match &cell.outputs {
            Some(o) => o,
            None => {
                return None;
            },
        };
        let ghost all = views(outputs@);
        let mut i: usize = 0;
        assert(all.skip(0) =~= all);
        while i < outputs.len()
            invariant
                i <= outputs@.len(),
                all == views(outputs@),
                first_graphic(self@.look.gallery, all) == first_graphic(
                    self@.look.gallery,
                    all.skip(i as int),
                ),
                self.gallery.font == Some(font),
                cell@.outputs == Some(all),
            decreases outputs@.len() - i,
        {
            assert(all.skip(i as int)[0] == outputs@[i as int]@);
            assert(all.skip(i as int).skip(1) =~= all.skip(i + 1));
            if let Some(x) = pictures::graphic_of_output(&outputs[i]) {
                if let Some((width, height)) = self.gallery.size_of(&x) {
                    assert(area.width * font.width <= 65535 * 65535) by (nonlinear_arith)
                        requires
                            area.width <= 65535,
                            font.width <= 65535,
                    ;
                    assert(area.height * font.height <= 65535 * 65535) by (nonlinear_arith)
                        requires
                            area.height <= 65535,
                            font.height <= 65535,
                    ;
                    let w = area.width as u32 * font.width as u32;
                    let h = area.height as u32 * font.height as u32;
                    let max_width = if w < 1 {
                        1
                    } else {
                        w
                    };
                    let max_height = if h < 1 {
                        1
                    } else {
                        h
                    };
                    return Some(
                        Zoom {
                            graphic: x,
                            width,
                            height,
                            max_width,
                            max_height,
                        },
                    );
                }
            }
            i += 1;
        }
        None
    }

    /// Cell size of the terminal's graphics, for bug reports.
    pub fn graphics_summary(&self) -> (r: String)
        ensures
            r@ == graphics_text(self@.look.gallery),
    {
        match self.gallery.font {
            None => "none".to_owned(),
            Some(f) => {
                let mut s = text::decimal_string(f.width as u64);
                s.append("x");
                s.append(text::decimal_string(f.height as u64).as_str());
                s.append(" px per cell");
                s
            },
        }
    }
}

impl RenderedView {
    pub open spec fn resized(self, cells: Seq<CellView>, font: FontSize) -> RenderedView {
        match self.look.gallery.font {
            None => self,
            Some(f) => if f == font {
                self
            } else {
                RenderedView {
                    look: Look {
                        gallery: self.look.gallery.with_font(font),
                        ..self.look
                    },
                    ..self
                }.all_rebuilt(cells)
            },
        }
    }

    pub open spec fn toggled_full(self, i: int, c: CellView) -> RenderedView {
        if i >= self.blocks.len() {
            self
        } else {
            self.with_blocks(
                self.blocks.update(
                    i,
                    BlockView { full_images: !self.blocks[i].full_images, ..self.blocks[i] },
                ),
            ).rebuilt_cell(i, c)
        }
    }

    pub open spec fn in_language(self, language: Seq<char>) -> RenderedView {
        RenderedView { look: Look { language, ..self.look }, ..self }
    }

    pub open spec fn learned(self, p: PictureView, size: Option<(u32, u32)>) -> RenderedView {
        RenderedView {
            look: Look {
                gallery: GalleryView {
                    sizes: self.look.gallery.sizes.push((p, size)),
                    ..self.look.gallery
                },
                ..self.look
            },
            ..self
        }
    }

    pub open spec fn placed(self, p: PlacedView) -> RenderedView {
        RenderedView {
            look: Look {
                gallery: GalleryView {
                    cells: self.look.gallery.cells.push(p),
                    ..self.look.gallery
                },
                ..self.look
            },
            ..self
        }
    }

    pub open spec fn refreshed(self, cells: Seq<CellView>) -> RenderedView {
        self.with_blocks(
            Seq::new(
                self.blocks.len(),
                |i: int|
                    if self.blocks[i].wants.len() > 0 {
                        rebuilt(self.look, self.blocks[i], cells[i])
                    } else {
                        self.blocks[i]
                    },
            ),
        )
    }
}

fn swap_in(v: &mut Vec<CellBlock>, a: usize, b: usize)
    requires
        a < old(v)@.len(),
        b < old(v)@.len(),
    ensures
        final(v)@ == old(v)@.update(a as int, old(v)@[b as int]).update(b as int, old(v)@[a as int]),
{
    if a == b {
        assert(v@ =~= v@.update(a as int, v@[b as int]).update(b as int, v@[a as int]));
        return;
    }
    let (lo, hi) = if a < b {
        (a, b)
    } else {
        (b, a)
    };
    let ghost v0 = v@;
    let y = v.remove(hi);
    let x = v.remove(lo);
    v.insert(lo, y);
    v.insert(hi, x);
    assert(v@ =~= v0.update(a as int, v0[b as int]).update(b as int, v0[a as int]));
}

/// What the graphics summary says.
pub open spec fn graphics_text(g: GalleryView) -> Seq<char> {
    match g.font {
        None => "none"@,
        Some(f) => decimal(f.width as int) + "x"@ + decimal(f.height as int) + " px per cell"@,
    }
}

/// A picture shown over the whole screen.
pub struct Zoom {
    pub graphic: Graphic,
    /// Native size in pixels.
    pub width: u32,
    pub height: u32,
    /// What it is scaled down to fit into, where it is larger.
    pub max_width: u32,
    pub max_height: u32,
}

pub struct ZoomView {
    pub graphic: GraphicView,
    pub width: int,
    pub height: int,
    pub max_width: int,
    pub max_height: int,
}

impl View for Zoom {
    type V = ZoomView;

    open spec fn view(&self) -> ZoomView {
        ZoomView {
            graphic: self.graphic@,
            width: self.width as int,
            height: self.height as int,
            max_width: self.max_width as int,
            max_height: self.max_height as int,
        }
    }
}

/// The first picture among outputs, at its native size.
pub open spec fn first_graphic(g: GalleryView, outputs: Seq<JsonView>) -> Option<
    (GraphicView, u32, u32),
>
    decreases outputs.len(),
{
    if outputs.len() == 0 {
        None
    } else {
        let e = match output_graphic(outputs[0]) {
            Some(x) => match g.size_of(x) {
                Some((w, h)) => Some((x, w, h)),
                None => None,
            },
            None => None,
        };
        match e {
            Some(e) => Some(e),
            None => first_graphic(g, outputs.skip(1)),
        }
    }
}

pub open spec fn zoom_of(g: GalleryView, c: CellView, area: Rect) -> Option<ZoomView> {
    match (g.font, first_graphic(g, c.outputs_or_empty())) {
        (Some(font), Some((graphic, width, height))) => Some(
            ZoomView {
                graphic,
                width: width as int,
                height: height as int,
                max_width: at_least(area.width * font.width, 1),
                max_height: at_least(area.height * font.height, 1),
            },
        ),
        _ => None,
    }
}

} // verus!
