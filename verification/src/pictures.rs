//! Pictures in the text flow: where they come from and how many terminal
//! cells they take.

use vstd::prelude::*;

use crate::json::Json;
#[allow(unused_imports)]
use crate::json::JsonView;
use crate::notebook;
#[allow(unused_imports)]
use crate::notebook::multiline;
use crate::text;
#[allow(unused_imports)]
use crate::text::{join, opt_view, views, words_of};

verus! {

/// A picture that only the host can measure: it takes fonts, floating-point
/// layout or a file.
pub enum Picture {
    /// An SVG document.
    Svg(String),
    /// Display math.
    Math(String),
    /// Math in a line of text.
    Inline(String),
    /// An image file.
    File(String),
}

pub enum PictureView {
    Svg(Seq<char>),
    Math(Seq<char>),
    Inline(Seq<char>),
    File(Seq<char>),
}

impl View for Picture {
    type V = PictureView;

    open spec fn view(&self) -> PictureView {
        match *self {
            Picture::Svg(s) => PictureView::Svg(s@),
            Picture::Math(s) => PictureView::Math(s@),
            Picture::Inline(s) => PictureView::Inline(s@),
            Picture::File(s) => PictureView::File(s@),
        }
    }
}

impl Picture {
    pub fn duplicate(&self) -> (r: Picture)
        ensures
            r@ == self@,
    {
        match self {
            Picture::Svg(s) => Picture::Svg(s.clone()),
            Picture::Math(s) => Picture::Math(s.clone()),
            Picture::Inline(s) => Picture::Inline(s.clone()),
            Picture::File(s) => Picture::File(s.clone()),
        }
    }

    pub fn equal(&self, other: &Picture) -> (r: bool)
        ensures
            r == (self@ == other@),
    {
        match (self, other) {
            (Picture::Svg(a), Picture::Svg(b)) => text::same(a.as_str(), b.as_str()),
            (Picture::Math(a), Picture::Math(b)) => text::same(a.as_str(), b.as_str()),
            (Picture::Inline(a), Picture::Inline(b)) => text::same(a.as_str(), b.as_str()),
            (Picture::File(a), Picture::File(b)) => text::same(a.as_str(), b.as_str()),
            _ => false,
        }
    }
}

/// What a picture is drawn from.
pub enum Graphic {
    /// The bytes of a PNG, JPEG or GIF.
    Raster(Vec<u8>),
    Host(Picture),
}

pub enum GraphicView {
    Raster(Seq<u8>),
    Host(PictureView),
}

impl View for Graphic {
    type V = GraphicView;

    open spec fn view(&self) -> GraphicView {
        match *self {
            Graphic::Raster(b) => GraphicView::Raster(b@),
            Graphic::Host(p) => GraphicView::Host(p@),
        }
    }
}

fn same_bytes(a: &Vec<u8>, b: &Vec<u8>) -> (r: bool)
    ensures
        r == (a@ == b@),
{
    if a.len() != b.len() {
        return false;
    }
    let mut i: usize = 0;
    while i < a.len()
        invariant
            i <= a@.len(),
            a@.len() == b@.len(),
            forall|k: int| 0 <= k < i ==> a@[k] == b@[k],
        decreases a@.len() - i,
    {
        if a[i] != b[i] {
            return false;
        }
        i += 1;
    }
    assert(a@ =~= b@);
    true
}

impl Graphic {
    pub fn duplicate(&self) -> (r: Graphic)
        ensures
            r@ == self@,
    {
        match self {
            Graphic::Raster(b) => {
                let c = b.clone();
                assert(c@ =~= b@);
                Graphic::Raster(c)
            },
            Graphic::Host(p) => Graphic::Host(p.duplicate()),
        }
    }

    pub fn equal(&self, other: &Graphic) -> (r: bool)
        ensures
            r == (self@ == other@),
    {
        match (self, other) {
            (Graphic::Raster(a), Graphic::Raster(b)) => same_bytes(a, b),
            (Graphic::Host(a), Graphic::Host(b)) => a.equal(b),
            _ => false,
        }
    }
}

/// What the host is asked about a picture.
pub enum Ask {
    /// Its size in pixels.
    Size(Picture),
    /// The cells that it takes on the terminal at a size in pixels.
    Cells { graphic: Graphic, width: u32, height: u32 },
}

pub enum AskView {
    Size(PictureView),
    Cells { graphic: GraphicView, width: int, height: int },
}

impl View for Ask {
    type V = AskView;

    open spec fn view(&self) -> AskView {
        match *self {
            Ask::Size(p) => AskView::Size(p@),
            Ask::Cells { graphic, width, height } => AskView::Cells {
                graphic: graphic@,
                width: width as int,
                height: height as int,
            },
        }
    }
}

impl Ask {
    pub fn duplicate(&self) -> (r: Ask)
        ensures
            r@ == self@,
    {
        match self {
            Ask::Size(p) => Ask::Size(p.duplicate()),
            Ask::Cells { graphic, width, height } => Ask::Cells {
                graphic: graphic.duplicate(),
                width: *width,
                height: *height,
            },
        }
    }
}

// ---------------------------------------------------------------------------
// Outside results
// ---------------------------------------------------------------------------

/// What the standard base64 alphabet, padded, decodes `s` to.
pub uninterp spec fn base64_decoded(s: Seq<char>) -> Option<Seq<u8>>;

/// The standard base64 encoding, padded, of the UTF-8 bytes of `s`.
pub uninterp spec fn base64_encoded(s: Seq<char>) -> Seq<char>;

/// Width and height, in pixels, of the image that `bytes` decode to.
pub uninterp spec fn image_size(bytes: Seq<u8>) -> Option<(u32, u32)>;

/// `base64::engine::general_purpose::STANDARD.decode`: the bytes, or nothing
/// where the text is no base64.
#[verifier::external_body]
fn decode_base64(s: &str) -> (r: Option<Vec<u8>>)
    ensures
        opt_view(r) == base64_decoded(s@),
{
    base64::Engine::decode(&base64::engine::general_purpose::STANDARD, s).ok()
}

/// `base64::engine::general_purpose::STANDARD.encode`.
#[verifier::external_body]
fn encode_base64(s: &str) -> (r: String)
    ensures
        r@ == base64_encoded(s@),
{
    base64::Engine::encode(&base64::engine::general_purpose::STANDARD, s)
}

/// `image::load_from_memory`: the size of the decoded image, or nothing where
/// the bytes are no image.
#[verifier::external_body]
fn decoded_size(bytes: &Vec<u8>) -> (r: Option<(u32, u32)>)
    ensures
        r == image_size(bytes@),
{
    image::load_from_memory(bytes).ok().map(|i| (i.width(), i.height()))
}

// ---------------------------------------------------------------------------
// Clipboard
// ---------------------------------------------------------------------------

/// The OSC 52 sequence that puts `s` on the system clipboard.
pub open spec fn clipboard_sequence(s: Seq<char>) -> Seq<char> {
    "\x1b]52;c;"@ + base64_encoded(s) + "\x07"@
}

/// The OSC 52 sequence that copies `text` to the system clipboard (works over
/// ssh/tmux).
pub fn osc52(text: &str) -> (r: String)
    ensures
        r@ == clipboard_sequence(text@),
{
    framed_osc52(encode_base64(text).as_str())
}

/// The OSC 52 sequence around a payload that is base64 already.
pub fn framed_osc52(payload: &str) -> (r: String)
    ensures
        r@ == "\x1b]52;c;"@ + payload@ + "\x07"@,
{
    let mut s = "\x1b]52;c;".to_owned();
    s.append(payload);
    s.append("\x07");
    s
}

// ---------------------------------------------------------------------------
// Sizes
// ---------------------------------------------------------------------------

/// A number of cells: at least one.
pub open spec fn cell_count(n: u16) -> nat {
    if n < 1 {
        1
    } else {
        n as nat
    }
}

fn at_least_one(n: u16) -> (r: u16)
    ensures
        r == cell_count(n),
{
    if n < 1 {
        1
    } else {
        n
    }
}

/// The size at which an image of `w` by `h` pixels is shown: one that is
/// taller than `max_h` is scaled down to `max_h`, keeping its aspect.
pub open spec fn scaled(w: int, h: int, max_h: int) -> (int, int) {
    if h > max_h {
        let sw = w * max_h / h;
        (
            if sw < 1 {
                1
            } else {
                sw
            },
            max_h,
        )
    } else {
        (w, h)
    }
}

/// The size at which an image is shown under a height cap.
pub fn scale_down(w: u32, h: u32, max_h: u32) -> (r: (u32, u32))
    ensures
        (r.0 as int, r.1 as int) == scaled(w as int, h as int, max_h as int),
{
    if h > max_h {
        assert(w * max_h <= 0xffff_ffff * 0xffff_ffff && w * max_h <= w * h && (w * max_h) / (
        h as int) <= w) by (nonlinear_arith)
            requires
                0 <= w <= 0xffff_ffff,
                0 <= max_h < h <= 0xffff_ffff,
        ;
        let sw = (w as u64 * max_h as u64) / h as u64;
        (
            if sw < 1 {
                1
            } else {
                sw as u32
            },
            max_h,
        )
    } else {
        (w, h)
    }
}

/// A scaled image is no taller than the cap, and no wider than it was.
pub proof fn law_scaling_keeps_within_the_cap(w: int, h: int, max_h: int)
    requires
        w >= 1,
        h >= 1,
        max_h >= 0,
    ensures
        scaled(w, h, max_h).1 <= max_h || scaled(w, h, max_h) == (w, h),
        1 <= scaled(w, h, max_h).0 <= w,
        h <= max_h ==> scaled(w, h, max_h) == (w, h),
{
    if h > max_h {
        assert(w * max_h / h <= w) by (nonlinear_arith)
            requires
                w >= 1,
                0 <= max_h < h,
        ;
    }
}

// ---------------------------------------------------------------------------
// Placed pictures
// ---------------------------------------------------------------------------

/// A picture in a cell's lines.
pub struct InlineImage {
    /// Line offset within the cell's block (source + outputs).
    pub line: usize,
    /// Column offset within the line (inline math sits mid-text).
    pub col: u16,
    pub cols: u16,
    pub rows: u16,
    /// Size in pixels at which it is shown.
    pub width: u32,
    pub height: u32,
    pub graphic: Graphic,
}

pub struct ImageView {
    pub line: int,
    pub col: u16,
    pub cols: nat,
    pub rows: nat,
    pub width: int,
    pub height: int,
    pub graphic: GraphicView,
}

impl View for InlineImage {
    type V = ImageView;

    open spec fn view(&self) -> ImageView {
        ImageView {
            line: self.line as int,
            col: self.col,
            cols: self.cols as nat,
            rows: self.rows as nat,
            width: self.width as int,
            height: self.height as int,
            graphic: self.graphic@,
        }
    }
}

/// Size of a terminal cell in pixels.
#[derive(Clone, Copy, Debug, PartialEq, Eq, Structural)]
pub struct FontSize {
    pub width: u16,
    pub height: u16,
}

/// What the host found of a graphic on the terminal.
pub struct Placed {
    pub graphic: Graphic,
    /// Size in pixels.
    pub width: u32,
    pub height: u32,
    /// Columns and rows.
    pub cells: Option<(u16, u16)>,
}

pub struct PlacedView {
    pub graphic: GraphicView,
    pub width: int,
    pub height: int,
    pub cells: Option<(u16, u16)>,
}

impl View for Placed {
    type V = PlacedView;

    open spec fn view(&self) -> PlacedView {
        PlacedView {
            graphic: self.graphic@,
            width: self.width as int,
            height: self.height as int,
            cells: self.cells,
        }
    }
}

/// What is known of the terminal's graphics and of the host's pictures.
pub struct Gallery {
    /// Cell size, where the terminal shows graphics at all.
    pub font: Option<FontSize>,
    /// Images taller than this many rows are downscaled once.
    pub max_rows: u16,
    /// Sizes that the host measured; `None` where a picture cannot be had.
    pub sizes: Vec<(Picture, Option<(u32, u32)>)>,
    /// Columns and rows that the host found a graphic to take at a size in
    /// pixels; `None` where the terminal cannot show it.
    pub cells: Vec<Placed>,
    /// Notebook directory: markdown image paths resolve relative to it.
    pub dir: String,
}

#[verifier::ext_equal]
pub struct GalleryView {
    pub font: Option<FontSize>,
    pub max_rows: u16,
    pub sizes: Seq<(PictureView, Option<(u32, u32)>)>,
    pub cells: Seq<PlacedView>,
    pub dir: Seq<char>,
}

pub open spec fn size_views(v: Seq<(Picture, Option<(u32, u32)>)>) -> Seq<
    (PictureView, Option<(u32, u32)>),
> {
    v.map_values(|p: (Picture, Option<(u32, u32)>)| (p.0@, p.1))
}

impl View for Gallery {
    type V = GalleryView;

    open spec fn view(&self) -> GalleryView {
        GalleryView {
            font: self.font,
            max_rows: self.max_rows,
            sizes: size_views(self.sizes@),
            cells: views(self.cells@),
            dir: self.dir@,
        }
    }
}

/// What the host said of a picture, if it was asked; the last word counts.
pub open spec fn known(
    sizes: Seq<(PictureView, Option<(u32, u32)>)>,
    p: PictureView,
) -> Option<Option<(u32, u32)>>
    decreases sizes.len(),
{
    if sizes.len() == 0 {
        None
    } else if sizes.last().0 == p {
        Some(sizes.last().1)
    } else {
        known(sizes.drop_last(), p)
    }
}

/// What the host said of a graphic at a size, if it was asked; the last word
/// counts.
pub open spec fn placed(cells: Seq<PlacedView>, g: GraphicView, w: int, h: int) -> Option<
    Option<(u16, u16)>,
>
    decreases cells.len(),
{
    if cells.len() == 0 {
        None
    } else if cells.last().graphic == g && cells.last().width == w && cells.last().height == h {
        Some(cells.last().cells)
    } else {
        placed(cells.drop_last(), g, w, h)
    }
}

impl GalleryView {
    /// Size in pixels of a graphic.
    pub open spec fn size_of(self, g: GraphicView) -> Option<(u32, u32)> {
        match g {
            GraphicView::Raster(b) => image_size(b),
            GraphicView::Host(p) => match known(self.sizes, p) {
                Some(s) => s,
                None => None,
            },
        }
    }

    /// The size in pixels at which a graphic is shown, if the terminal shows
    /// graphics and the graphic can be had; `full` skips the height cap.
    pub open spec fn shown_size(self, g: GraphicView, full: bool) -> Option<(int, int)> {
        match (self.font, self.size_of(g)) {
            (Some(font), Some((w, h))) => Some(
                if full {
                    (w as int, h as int)
                } else {
                    scaled(w as int, h as int, self.max_rows * font.height)
                },
            ),
            _ => None,
        }
    }

    /// What the host is still to be asked before a graphic can be placed.
    pub open spec fn asking(self, g: GraphicView, full: bool) -> Option<AskView> {
        if self.font is Some && g is Host && known(self.sizes, g->Host_0) is None {
            Some(AskView::Size(g->Host_0))
        } else {
            match self.shown_size(g, full) {
                Some((w, h)) => if placed(self.cells, g, w, h) is None {
                    Some(AskView::Cells { graphic: g, width: w, height: h })
                } else {
                    None
                },
                None => None,
            }
        }
    }

    /// A graphic as it is placed in the text, if the terminal shows it.
    pub open spec fn entry(self, g: GraphicView, full: bool) -> Option<ImageView> {
        match self.shown_size(g, full) {
            Some((w, h)) => match placed(self.cells, g, w, h) {
                Some(Some((cols, rows))) => Some(
                    ImageView {
                        line: 0,
                        col: 0,
                        cols: cell_count(cols),
                        rows: cell_count(rows),
                        width: w,
                        height: h,
                        graphic: g,
                    },
                ),
                _ => None,
            },
            None => None,
        }
    }

    /// The terminal's cells are of another size: nothing is measured.
    pub open spec fn with_font(self, font: FontSize) -> GalleryView {
        GalleryView { font: Some(font), sizes: Seq::empty(), cells: Seq::empty(), ..self }
    }
}

impl Gallery {
    /// A gallery with nothing measured.
    pub fn new(font: Option<FontSize>, max_rows: u16, dir: &str) -> (r: Gallery)
        ensures
            r@ == (GalleryView {
                font,
                max_rows,
                sizes: Seq::empty(),
                cells: Seq::empty(),
                dir: dir@,
            }),
    {
        let sizes: Vec<(Picture, Option<(u32, u32)>)> = Vec::new();
        let cells: Vec<Placed> = Vec::new();
        assert(size_views(sizes@) =~= Seq::empty());
        assert(views(cells@) =~= Seq::<PlacedView>::empty());
        Gallery { font, max_rows, sizes, cells, dir: dir.to_owned() }
    }

    /// The terminal's cells are of another size.
    pub fn set_font(&mut self, font: FontSize)
        ensures
            final(self)@ == old(self)@.with_font(font),
    {
        let sizes: Vec<(Picture, Option<(u32, u32)>)> = Vec::new();
        let cells: Vec<Placed> = Vec::new();
        assert(size_views(sizes@) =~= Seq::empty());
        assert(views(cells@) =~= Seq::<PlacedView>::empty());
        self.font = Some(font);
        self.sizes = sizes;
        self.cells = cells;
    }

    /// What the host said of `p`.
    pub fn known(&self, p: &Picture) -> (r: Option<Option<(u32, u32)>>)
        ensures
            r == known(self@.sizes, p@),
    {
        let ghost all = self@.sizes;
        let mut i: usize = self.sizes.len();
        assert(all.take(i as int) =~= all);
        while i > 0
            invariant
                i <= self.sizes@.len(),
                all == size_views(self.sizes@),
                known(all, p@) == known(all.take(i as int), p@),
            decreases i,
        {
            i -= 1;
            assert(all.take(i + 1).drop_last() =~= all.take(i as int));
            assert(all.take(i + 1).last() == (self.sizes@[i as int].0@, self.sizes@[i as int].1));
            if self.sizes[i].0.equal(p) {
                return Some(self.sizes[i].1);
            }
        }
        None
    }

    /// What the host said of a graphic at a size.
    pub fn placed(&self, g: &Graphic, w: u32, h: u32) -> (r: Option<Option<(u16, u16)>>)
        ensures
            r == placed(self@.cells, g@, w as int, h as int),
    {
        let ghost all = self@.cells;
        let mut i: usize = self.cells.len();
        assert(all.take(i as int) =~= all);
        while i > 0
            invariant
                i <= self.cells@.len(),
                all == views(self.cells@),
                placed(all, g@, w as int, h as int) == placed(
                    all.take(i as int),
                    g@,
                    w as int,
                    h as int,
                ),
            decreases i,
        {
            i -= 1;
            assert(all.take(i + 1).drop_last() =~= all.take(i as int));
            assert(all.take(i + 1).last() == self.cells@[i as int]@);
            let c = &self.cells[i];
            if c.width == w && c.height == h && c.graphic.equal(g) {
                return Some(c.cells);
            }
        }
        None
    }

    /// The host placed a graphic, or found that the terminal cannot show it.
    pub fn place(&mut self, graphic: Graphic, width: u32, height: u32, cells: Option<(u16, u16)>)
        ensures
            final(self)@ == (GalleryView {
                cells: old(self)@.cells.push(
                    PlacedView { graphic: graphic@, width: width as int, height: height as int, cells },
                ),
                ..old(self)@
            }),
    {
        let ghost c0 = self.cells@;
        let p = Placed { graphic, width, height, cells };
        self.cells.push(p);
        assert(views(self.cells@) =~= views(c0).push(p@));
    }

    /// The host measured `p`.
    pub fn learn(&mut self, p: Picture, size: Option<(u32, u32)>)
        ensures
            final(self)@ == (GalleryView { sizes: old(self)@.sizes.push((p@, size)), ..old(self)@ }),
    {
        let ghost s0 = self.sizes@;
        self.sizes.push((p, size));
        assert(size_views(self.sizes@) =~= size_views(s0).push((p@, size)));
    }

    pub fn size_of(&self, g: &Graphic) -> (r: Option<(u32, u32)>)
        ensures
            r == self@.size_of(g@),
    {
        match g {
            Graphic::Raster(b) => decoded_size(b),
            Graphic::Host(p) => match self.known(p) {
                Some(s) => s,
                None => None,
            },
        }
    }

    /// The size at which a graphic is shown. Anything taller than the cap is
    /// downscaled once, unless `full`.
    fn shown_size(&self, g: &Graphic, full: bool) -> (r: Option<(u32, u32)>)
        ensures
            match r {
                Some((w, h)) => self@.shown_size(g@, full) == Some((w as int, h as int)),
                None => self@.shown_size(g@, full) is None,
            },
    {
        let font = match self.font {
            Some(f) => f,
            None => {
                return None;
            },
        };
        let (w, h) = match self.size_of(g) {
            Some(s) => s,
            None => {
                return None;
            },
        };
        assert(self.max_rows * font.height <= 65535 * 65535) by (nonlinear_arith)
            requires
                self.max_rows <= 65535,
                font.height <= 65535,
        ;
        let max_h = self.max_rows as u32 * font.height as u32;
        Some(
            if full {
                (w, h)
            } else {
                scale_down(w, h, max_h)
            },
        )
    }

    /// What the host is still to be asked before a graphic can be placed.
    pub fn ask(&self, g: &Graphic, full: bool) -> (r: Option<Ask>)
        ensures
            opt_view(r) == self@.asking(g@, full),
    {
        if let Graphic::Host(p) = g {
            if self.font.is_some() && self.known(p).is_none() {
                return Some(Ask::Size(p.duplicate()));
            }
        }
        match self.shown_size(g, full) {
            Some((width, height)) => if self.placed(g, width, height).is_none() {
                Some(Ask::Cells { graphic: g.duplicate(), width, height })
            } else {
                None
            },
            None => None,
        }
    }

    /// A graphic as it is placed in the text.
    pub fn image_entry(&self, g: Graphic, full: bool) -> (r: Option<InlineImage>)
        ensures
            opt_view(r) == self@.entry(g@, full),
    {
        let (width, height) = match self.shown_size(&g, full) {
            Some(s) => s,
            None => {
                return None;
            },
        };
        match self.placed(&g, width, height) {
            Some(Some((cols, rows))) => Some(
                InlineImage {
                    line: 0,
                    col: 0,
                    cols: at_least_one(cols),
                    rows: at_least_one(rows),
                    width,
                    height,
                    graphic: g,
                },
            ),
            _ => None,
        }
    }
}

/// An entry takes at least one cell, and one that the terminal shows is placed.
pub proof fn law_entries_take_room(g: GalleryView, x: GraphicView, full: bool)
    ensures
        g.entry(x, full) is Some <==> (g.shown_size(x, full) matches Some((w, h)) && (placed(
            g.cells,
            x,
            w,
            h,
        ) matches Some(c) && c is Some)),
        g.entry(x, full) matches Some(e) ==> e.cols >= 1 && e.rows >= 1 && e.graphic == x,
{
}

/// What cannot be shown is not placed, and is not asked about again.
pub proof fn law_what_cannot_be_shown_is_not_placed(g: GalleryView, x: GraphicView, full: bool)
    requires
        g.asking(x, full) matches Some(AskView::Cells { .. }),
    ensures
        ({
            let (w, h) = g.shown_size(x, full)->Some_0;
            let told = GalleryView {
                cells: g.cells.push(PlacedView { graphic: x, width: w, height: h, cells: None }),
                ..g
            };
            &&& told.entry(x, full) is None
            &&& told.asking(x, full) is None
        }),
{
    let (w, h) = g.shown_size(x, full)->Some_0;
    let p = PlacedView { graphic: x, width: w, height: h, cells: None };
    assert(g.cells.push(p).drop_last() =~= g.cells);
}

/// What the host said last of a picture is what is known of it.
pub proof fn law_learned_sizes_are_known(
    g: GalleryView,
    p: PictureView,
    size: Option<(u32, u32)>,
)
    ensures
        known(g.sizes.push((p, size)), p) == Some(size),
        forall|q: PictureView|
            q != p ==> known(g.sizes.push((p, size)), q) == #[trigger] known(g.sizes, q),
{
    assert(g.sizes.push((p, size)).drop_last() =~= g.sizes);
}

// ---------------------------------------------------------------------------
// Images in outputs
// ---------------------------------------------------------------------------

/// Text without its whitespace.
pub open spec fn unspaced(s: Seq<char>) -> Seq<char> {
    join(words_of(s), Seq::empty())
}

/// The bytes that a base64 member decodes to, line breaks aside.
pub open spec fn payload(v: JsonView) -> Option<Seq<u8>> {
    base64_decoded(unspaced(multiline(v)))
}

fn decode_payload(v: &Json) -> (r: Option<Vec<u8>>)
    ensures
        opt_view(r) == payload(v@),
{
    let s = notebook::join_multiline(v);
    let w = text::words(s.as_str());
    let packed = text::join_strings(&w, "");
    proof {
        reveal_strlit("");
        assert(""@ =~= Seq::<char>::empty());
    }
    decode_base64(packed.as_str())
}

/// The image that a base64 member decodes to, if it is one.
pub fn decodable(v: &Json) -> (r: Option<Graphic>)
    ensures
        opt_view(r) == match payload(v@) {
            Some(b) if image_size(b) is Some => Some(GraphicView::Raster(b)),
            _ => None,
        },
{
    match decode_payload(v) {
        Some(b) => if decoded_size(&b).is_some() {
            Some(Graphic::Raster(b))
        } else {
            None
        },
        None => None,
    }
}

/// The image that an output carries: the first raster format that it has,
/// else SVG.
pub open spec fn output_graphic(output: JsonView) -> Option<GraphicView> {
    match output.get("data"@) {
        None => None,
        Some(data) => {
            let raster = match data.get("image/png"@) {
                Some(v) => Some(v),
                None => match data.get("image/jpeg"@) {
                    Some(v) => Some(v),
                    None => data.get("image/gif"@),
                },
            };
            match raster {
                Some(v) => match payload(v) {
                    Some(b) => Some(GraphicView::Raster(b)),
                    None => None,
                },
                None => match data.get("image/svg+xml"@) {
                    Some(v) => Some(GraphicView::Host(PictureView::Svg(multiline(v)))),
                    None => None,
                },
            }
        },
    }
}

/// Find an output's raster/SVG image.
pub fn graphic_of_output(output: &Json) -> (r: Option<Graphic>)
    ensures
        opt_view(r) == output_graphic(output@),
{
    let data = match output.get("data") {
        Some(d) => d,
        None => {
            return None;
        },
    };
    let raster = match data.get("image/png") {
        Some(v) => Some(v),
        None => match data.get("image/jpeg") {
            Some(v) => Some(v),
            None => data.get("image/gif"),
        },
    };
    match raster {
        Some(v) => match decode_payload(v) {
            Some(b) => Some(Graphic::Raster(b)),
            None => None,
        },
        None => match data.get("image/svg+xml") {
            Some(v) => Some(Graphic::Host(Picture::Svg(notebook::join_multiline(v)))),
            None => None,
        },
    }
}

/// The LaTeX of an output, as it is rendered: dollar signs and
/// `\displaystyle` are dropped.
pub open spec fn output_latex(output: JsonView) -> Option<Seq<char>> {
    match output.get("data"@) {
        None => None,
        Some(data) => match data.get("text/latex"@) {
            None => None,
            Some(v) => Some(
                text::replaced(bare_math(multiline(v)), "\\displaystyle"@, Seq::empty()),
            ),
        },
    }
}

/// Math source without surrounding blanks and dollar signs.
pub open spec fn bare_math(s: Seq<char>) -> Seq<char> {
    text::strip_trailing(text::strip_leading(text::trim(s), '$'), '$')
}

pub fn strip_math(s: &str) -> (r: String)
    ensures
        r@ == bare_math(s@),
{
    let t = text::trimmed(s);
    let a = text::without_leading(t.as_str(), '$');
    text::without_trailing(a.as_str(), '$')
}

/// text/latex output (e.g. sympy): the math to render.
pub fn latex_of_output(output: &Json) -> (r: Option<String>)
    ensures
        opt_view(r) == output_latex(output@),
{
    let data = match output.get("data") {
        Some(d) => d,
        None => {
            return None;
        },
    };
    match data.get("text/latex") {
        Some(v) => {
            let s = strip_math(notebook::join_multiline(v).as_str());
            proof {
                reveal_strlit("\\displaystyle");
                reveal_strlit("");
                assert(""@ =~= Seq::<char>::empty());
            }
            Some(text::replace(s.as_str(), "\\displaystyle", ""))
        },
        None => None,
    }
}

} // verus!
