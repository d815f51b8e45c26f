//! Rendered cells, drawn frames, popups and the log.

use jotter::app::{Action, App, Effect, HitKind, Moment, StdinReq};
use jotter::config;
use jotter::draw::Frame;
use jotter::files::Place;
use jotter::json::{Json, Object};
use jotter::keys::{KeyCode, KeyEvent, KeyModifiers, Rect};
use jotter::latex::{center_rows, crop_transparent, to_unicode_approx, Pixel, Raster};
use jotter::layout::{fmt_duration, sel_range};
use jotter::log::{enabled, Entry, Level, Ring, RING_CAP};
use jotter::markdown::render_markdown;
use jotter::notebook::{new_cell_id, Cell, Notebook};
use jotter::nvim::ModeKind;
use jotter::output::output_lines;
use jotter::pictures::{osc52, Ask, FontSize, Gallery, Graphic, InlineImage};
use jotter::popups::{draw_completion, draw_help, draw_stdin, zoom_position, HELP};
use jotter::style::{line_chars, overlay_reversed, Color, Line, Span, REVERSED};
use jotter::ui::{
    max_image_rows, max_output_rows, notebook_language, reported_font, source_suffix, CellBlock,
    Rendered,
};
use jotter::wrap::{cut, wrap_line, wrap_starts};
use ratatui_image::picker::Picker;
use ratatui_image::sliced::SlicedProtocol;

fn from_value(v: serde_json::Value) -> Json {
    match v {
        serde_json::Value::Null => Json::Null,
        serde_json::Value::Bool(b) => Json::Bool(b),
        serde_json::Value::Number(n) => match n.as_i64() {
            Some(i) => Json::Int(i),
            None => Json::Num(n.to_string()),
        },
        serde_json::Value::String(s) => Json::Str(s),
        serde_json::Value::Array(a) => Json::Arr(a.into_iter().map(from_value).collect()),
        serde_json::Value::Object(m) => Json::Obj(Object {
            entries: m.into_iter().map(|(k, v)| (k, from_value(v))).collect(),
        }),
    }
}

fn json(text: &str) -> Json {
    from_value(serde_json::from_str(text).expect("valid JSON"))
}

fn place() -> Place {
    Place {
        state_dir: Some("/state/jotter".to_string()),
        cwd: "/work".to_string(),
        home: Some("/home/u".to_string()),
        version: "0.1.0".to_string(),
    }
}

fn notebook(text: &str) -> Notebook {
    Notebook::from_json(json(text)).expect("a notebook")
}

fn open(nb: Notebook) -> (App, Rendered) {
    let app = App::open(
        "/work/nb.ipynb".to_string(),
        Some(nb),
        "fresh",
        None,
        Some(1),
        config::get(None),
        place(),
    );
    let rendered = Rendered::build(&app.notebook, "base16-ocean.dark", 15, Gallery::new(None, 18, ""));
    (app, rendered)
}

/// App over a one-code-cell notebook, plus its render cache.
fn one_cell_app() -> (App, Rendered) {
    open(notebook(
        r#"{"cells": [{"cell_type": "code", "id": "c1", "metadata": {}, "execution_count": null,
            "outputs": [], "source": ["x"]}],
            "metadata": {}, "nbformat": 4, "nbformat_minor": 5}"#,
    ))
}

fn moment() -> Moment {
    Moment { now: 0, on_disk: Some(1), target_exists: false, fresh_id: new_cell_id() }
}

fn key(c: char) -> KeyEvent {
    KeyEvent::new(KeyCode::Char(c), KeyModifiers::none())
}

fn press(app: &mut App, r: &mut Rendered, k: KeyEvent) -> Action {
    app.on_key(k, &moment(), r)
}

// 1x1 transparent png
const PNG: &str = "iVBORw0KGgoAAAANSUhEUgAAAAEAAAABCAYAAAAfFcSJAAAAC0lEQVR4nGNgAAIAAAUAAXpeqz8AAAAASUVORK5CYII=";

fn gallery(font: Option<FontSize>) -> Gallery {
    Gallery::new(font, max_image_rows(&config::get(None)), "")
}

fn font() -> Option<FontSize> {
    Some(FontSize { width: 8, height: 16 })
}

fn rows_shown() -> usize {
    max_output_rows(&config::get(None))
}

fn build(nb: &Notebook, font: Option<FontSize>) -> Rendered {
    Rendered::build(nb, "base16-ocean.dark", rows_shown(), gallery(font))
}

fn one(cell: &str) -> Notebook {
    Notebook {
        cells: vec![Cell::from_json(json(cell)).expect("a cell")],
        extra: Object::new(),
    }
}

fn empty() -> Notebook {
    Notebook { cells: vec![], extra: Object::new() }
}

/// A picture of a size, as a PNG file.
fn png(w: u32, h: u32) -> Graphic {
    let mut bytes = std::io::Cursor::new(Vec::new());
    image::DynamicImage::new_rgba8(w, h).write_to(&mut bytes, image::ImageFormat::Png).unwrap();
    Graphic::Raster(bytes.into_inner())
}

/// The cells that a terminal takes for a graphic of this size.
fn cells(g: &Graphic, w: u32, h: u32) -> Option<(u16, u16)> {
    #[allow(deprecated)]
    let picker = Picker::from_fontsize(ratatui_image::FontSize::new(8, 16));
    let img = match g {
        Graphic::Raster(bytes) => image::load_from_memory(bytes).ok()?,
        Graphic::Host(_) => image::DynamicImage::new_rgba8(w, h),
    };
    let img = img.resize_exact(w, h, image::imageops::FilterType::Lanczos3);
    let size = SlicedProtocol::new(&picker, img, None).ok()?.size();
    Some((size.width, size.height))
}

/// A graphic as it is placed, once the terminal answered.
fn placed(gallery: &mut Gallery, g: Graphic, full: bool) -> InlineImage {
    if let Some(Ask::Cells { graphic, width, height }) = gallery.ask(&g, full) {
        let c = cells(&graphic, width, height);
        gallery.place(graphic, width, height, c);
    }
    gallery.image_entry(g, full).unwrap()
}

/// Answers what is asked about pictures; math is as wide as said, and one text
/// row tall.
fn answer(r: &mut Rendered, nb: &Notebook, widths: &[u32]) {
    let mut widths = widths.iter();
    loop {
        let asks: Vec<Ask> =
            r.blocks.iter().flat_map(|b| b.wants.iter().map(|q| q.duplicate())).collect();
        if asks.is_empty() {
            return;
        }
        for q in asks {
            match q {
                Ask::Size(p) => r.learn(p, widths.next().map(|w| (*w, 16))),
                Ask::Cells { graphic, width, height } => {
                    let c = cells(&graphic, width, height);
                    r.place(graphic, width, height, c);
                }
            }
        }
        r.refresh(nb);
    }
}

fn texts(b: &CellBlock) -> Vec<String> {
    b.lines.iter().map(|l| l.text()).collect()
}

fn blank() -> Line {
    Line::raw(String::new())
}

#[test]
fn visual_selection_ranges() {
    // charwise, anchor below/after cursor (selection is direction-free)
    assert_eq!(sel_range(ModeKind::Visual, (1, 4), (0, 2), 0, 10), Some((2, 9)));
    assert_eq!(sel_range(ModeKind::Visual, (1, 4), (0, 2), 1, 10), Some((0, 4)));
    assert_eq!(sel_range(ModeKind::Visual, (0, 4), (0, 2), 0, 10), Some((2, 4)));
    assert_eq!(sel_range(ModeKind::Visual, (0, 0), (0, 0), 3, 5), None);
    // linewise: whole line for every row in range
    assert_eq!(sel_range(ModeKind::VisualLine, (0, 3), (2, 0), 1, 7), Some((0, 6)));
    // blockwise: same col range on every row
    assert_eq!(sel_range(ModeKind::VisualBlock, (0, 5), (2, 2), 1, 10), Some((2, 5)));
    assert_eq!(sel_range(ModeKind::Normal, (0, 0), (2, 0), 1, 5), None);
}

#[test]
fn overlay_splits_spans_at_selection_bounds() {
    let mut line = Line::of(vec![Span::raw("abc".into()), Span::raw("def".into())]);
    overlay_reversed(&mut line, 2, 4); // "c" + "de"
    let flags: Vec<(String, bool)> =
        line.spans.iter().map(|s| (s.content.clone(), s.style.add & REVERSED != 0)).collect();
    assert_eq!(
        flags,
        [
            ("ab".to_string(), false),
            ("c".to_string(), true),
            ("de".to_string(), true),
            ("f".to_string(), false)
        ]
    );
    // empty line inside a linewise selection still shows a mark
    let mut empty = blank();
    overlay_reversed(&mut empty, 0, 0);
    assert_eq!(line_chars(&empty), 1);
}

#[test]
fn a_range_that_cuts_no_span_leaves_the_line() {
    let mut line = Line::of(vec![Span::raw("abc".into()), Span::raw("def".into())]);
    overlay_reversed(&mut line, 9, 4); // past the text
    overlay_reversed(&mut line, 4, 1); // backwards, each end in a span of its own
    assert_eq!(line.spans.len(), 2);
    assert!(line.spans.iter().all(|s| s.style.add & REVERSED == 0));
    let mut empty = blank();
    overlay_reversed(&mut empty, 5, 0);
    assert_eq!(line_chars(&empty), 1);
}

#[test]
fn image_output_reserves_lines_and_creates_protocol() {
    let mut nb = one(r#"{"cell_type": "code", "source": ["x"], "outputs": [], "metadata": {}}"#);
    let mut data = Object::new();
    data.insert("image/png", Json::Str(PNG.to_string()));
    let mut out = json(r#"{"output_type": "display_data", "metadata": {}}"#);
    out.set("data", Json::Obj(data));
    nb.cells[0].push_output(out);
    let mut r = build(&nb, font());
    answer(&mut r, &nb, &[]);
    let block = &r.blocks[0];
    assert_eq!(block.src_lines, 1);
    assert_eq!(block.images.len(), 1);
    // 1px image -> 1 row reserved
    assert_eq!(block.lines.len(), 1 + block.images[0].rows as usize);

    // without graphics: placeholder text instead
    let r = build(&nb, None);
    assert!(r.blocks[0].images.is_empty());
    assert_eq!(r.blocks[0].lines.len(), 2);
}

#[test]
fn try_image_steps() {
    let b64: String = PNG.split_whitespace().collect();
    let g = jotter::pictures::decodable(&Json::Str(b64)).expect("b64 and png load");
    let entry = placed(&mut gallery(font()), g, true);
    assert_eq!((entry.width, entry.height), (1, 1));
}

#[test]
fn tall_images_prescale_to_row_cap_preserving_aspect() {
    let mut r = build(&empty(), font());
    // 640x480 > 18*16=288 px tall -> prescaled to exactly the cap
    let entry = placed(&mut r.gallery, png(640, 480), false);
    assert_eq!(entry.rows, max_image_rows(&config::get(None)));
    assert_eq!(entry.cols, 48); // 640 * 288/480 = 384 px / 8 px per col

    // small image: untouched, ceil to cells
    let entry = placed(&mut r.gallery, png(100, 100), false);
    assert_eq!((entry.cols, entry.rows), (13, 7));

    // native-size toggle: no prescale, full 480 px = 30 rows
    let entry = placed(&mut r.gallery, png(640, 480), true);
    assert_eq!((entry.cols, entry.rows), (80, 30));
}

#[test]
fn all_inline_math_becomes_images() {
    let nb = one(
        r#"{"cell_type": "markdown", "metadata": {},
            "source": "on the $\\tau$ grid, and $ \\int_0^\\infty \\frac{1}{x^2} $ too"}"#,
    );
    let mut r = build(&nb, font());
    assert_eq!(r.blocks[0].wants.len(), 2);
    answer(&mut r, &nb, &[10, 60]);
    let block = &r.blocks[0];
    assert_eq!(block.images.len(), 2);
    // ALL inline math is exactly one row; too small => author uses $$
    assert!(block.images.iter().all(|i| i.rows == 1));
    assert_eq!(block.images[0].col, "on the ".len() as u16);
    assert_eq!(block.lines.len(), 1);
}

#[test]
fn what_the_terminal_cannot_show_stays_text() {
    let mut nb = one(r#"{"cell_type": "code", "source": ["x"], "outputs": [], "metadata": {}}"#);
    let mut data = Object::new();
    data.insert("image/png", Json::Str(PNG.to_string()));
    let mut out = json(r#"{"output_type": "display_data", "metadata": {}}"#);
    out.set("data", Json::Obj(data));
    nb.cells[0].push_output(out);
    let mut r = build(&nb, font());
    let q = r.blocks[0].wants[0].duplicate();
    let Ask::Cells { graphic, width, height } = q else { panic!("a size is known") };
    assert_eq!((width, height), (1, 1));
    r.place(graphic, width, height, None);
    r.refresh(&nb);
    assert!(r.blocks[0].images.is_empty() && r.blocks[0].wants.is_empty());
    assert_eq!(r.blocks[0].lines.len(), 2);
    // another font: everything is asked anew
    r.on_resize(&nb, FontSize { width: 9, height: 18 });
    assert_eq!(r.blocks[0].wants.len(), 1);
}

#[test]
fn a_zoomed_picture_is_made_by_the_host_first() {
    let mut nb = one(r#"{"cell_type": "code", "source": ["x"], "outputs": [], "metadata": {}}"#);
    let (mut app, _) = open(one(r#"{"cell_type": "code", "source": ["x"], "metadata": {}}"#));
    let mut r = build(&nb, font());
    press(&mut app, &mut r, key('z'));
    assert_eq!(app.message.as_deref(), Some("no image output in this cell"));
    let mut data = Object::new();
    data.insert("image/png", Json::Str(PNG.to_string()));
    let mut out = json(r#"{"output_type": "display_data", "metadata": {}}"#);
    out.set("data", Json::Obj(data));
    nb.cells[0].push_output(out);
    let (mut app, _) = open(nb);
    press(&mut app, &mut r, key('z'));
    assert!(app.zoom.is_none());
    let Some(Effect::Zoom(z)) = app.take_effects().pop() else { panic!("no picture found") };
    assert_eq!((z.width, z.height), (1, 1));
    app.zoomed(Some(z));
    assert!(app.zoom.is_some());
    assert_eq!(app.message.as_deref(), Some("zoom — any key closes"));
    // the terminal cannot show it
    app.zoomed(None);
    assert_eq!(app.message.as_deref(), Some("no image output in this cell"));
}

fn stream(text: String) -> Json {
    let mut o = json(r#"{"output_type": "stream", "name": "stdout"}"#);
    o.set("text", Json::Str(text));
    o
}

#[test]
fn long_output_windows_scrolls_and_collapses() {
    let text: String = (0..40).map(|i| format!("l{i}")).collect::<Vec<_>>().join("\n");
    let mut nb = one(r#"{"cell_type": "code", "source": "x", "metadata": {}, "outputs": []}"#);
    nb.cells[0].push_output(stream(text));
    let mut r = build(&nb, None);
    let b = &mut r.blocks[0];
    let len = b.out_len();
    assert!(len > rows_shown());
    // default follows the tail
    assert_eq!(b.window(), (len - rows_shown(), rows_shown(), true));
    b.scroll_output(-5);
    assert_eq!(b.win_start(), len - rows_shown() - 5);
    b.scroll_output(100); // clamped and re-pinned to the tail
    assert_eq!(b.window().0, len - rows_shown());
    b.collapsed = true;
    assert_eq!(b.window(), (0, 0, true));
    assert!(!b.output_scrollable());
}

#[test]
fn images_never_force_an_output_viewport() {
    let mut r = build(&empty(), font());
    // a full-size plot: 18 reserved rows, above the 15-row text budget
    let entry = placed(&mut r.gallery, png(640, 480), false);
    let rows = entry.rows as usize;
    let mut block = CellBlock {
        lines: (0..1 + rows + 1).map(|_| blank()).collect(), // source + image + one text line
        src_lines: 1,
        images: vec![InlineImage { line: 1, ..entry }],
        src_map: Vec::new(),
        wants: Vec::new(),
        max_output_rows: rows_shown(),
        out_scroll: usize::MAX,
        collapsed: false,
        full_images: false,
        elapsed: None,
    };
    assert_eq!(block.window(), (0, rows + 1, false), "plot arrives whole");
    // only genuine text spam scrolls: image rows extend the budget
    block.lines.extend((0..40).map(|_| blank()));
    let (start, shown, footer) = block.window();
    assert!(footer);
    assert_eq!(shown, rows_shown() + rows);
    assert_eq!(start, block.out_len() - shown);
}

#[test]
fn markdown_click_map_points_at_source_lines() {
    let src = "# title\n\ntext\n| a |\n|---|\n| 1 |\nafter";
    let r = build(&empty(), None);
    let map = render_markdown(&r.highlighter, &r.gallery, src, None).map;
    // heading, blank, text, 3 table rows, trailing line -> identity here
    assert_eq!(map, vec![0, 1, 2, 3, 4, 5, 6]);
}

#[test]
fn markdown_links_emphasis_tables() {
    let mut nb = one(r#"{"cell_type": "markdown", "metadata": {}, "source": ""}"#);
    nb.cells[0].source =
        "see [docs](https://x.y) with **bold** or *it*\n| a | b |\n|---|---|\n| 1 | 22 |".into();
    let r = build(&nb, None);
    let text = texts(&r.blocks[0]);
    assert!(
        text[0].contains("docs") && text[0].contains("⟨https://x.y⟩"),
        "{}",
        text[0]
    );
    assert!(text[0].contains("bold") && text[0].contains("it") && !text[0].contains('*'));
    assert!(text[1].contains(" a ") && text[1].contains('│'));
    assert!(text[2].contains('┼'));
    assert!(text[3].contains(" 1 ") && text[3].contains(" 22 "));
}

fn frame_rows(f: &Frame) -> Vec<String> {
    let mut rows: Vec<String> = f.rows.iter().map(|l| l.text()).collect();
    while rows.len() < f.body.height as usize {
        rows.push(String::new());
    }
    rows.push(f.status.text());
    rows
}

#[test]
fn draw_windows_long_output_and_renders_cells() {
    let nb = notebook(
        r##"{"cells": [
            {"cell_type": "code", "execution_count": 3, "metadata": {},
             "source": ["print('hi')"], "outputs": []},
            {"cell_type": "markdown", "metadata": {}, "source": ["# Big Title"]}],
            "metadata": {}, "nbformat": 4, "nbformat_minor": 5}"##,
    );
    let (mut app, mut rendered) = open(nb);
    let text: String = (0..30).map(|i| format!("line-{i}\n")).collect();
    app.notebook.cells[0].push_output(stream(text));
    rendered.rebuild_all(&app.notebook);
    let frame = app.draw(&rendered, Rect { x: 0, y: 0, width: 60, height: 30 });
    let rows = frame_rows(&frame);
    let all = rows.join(" \n");
    assert!(rows[0].contains("▶ In [3]:"), "selected prompt: {}", rows[0]);
    // 30 output lines -> viewport pinned to the tail, footer describes it
    assert!(all.contains("line-29"), "tail visible:\n{all}");
    assert!(!all.contains("line-0 "), "head clipped:\n{all}");
    assert!(all.contains("··· output"), "footer present:\n{all}");
    assert!(all.contains("[markdown]") && all.contains("Big Title"), "{all}");
    assert!(rows[29].contains("cell 1/2"), "status line: {}", rows[29]);
    // hit map is window-relative and covers the viewport
    assert!(matches!(app.hit[0].kind, HitKind::Other));
    assert_eq!(app.hit[0].cell, 0);
}

#[test]
fn markdown_renders_rich() {
    let nb = one(
        r##"{"cell_type": "markdown", "metadata": {},
            "source": "# Title\n- item\ncall `f(x)` on $\\tau$\n$$E = \\hbar \\omega^2$$"}"##,
    );
    let r = build(&nb, None); // no graphics -> math becomes unicode approx
    let text = texts(&r.blocks[0]);
    assert_eq!(text[0], "Title"); // hashes stripped
    assert_eq!(text[1], "• item");
    assert!(text[2].contains("f(x)") && text[2].contains('τ'));
    assert!(text[3].contains("E = ℏ ω²"));
}

#[test]
fn bad_latex_is_none_and_unicode_approx_works() {
    assert_eq!(to_unicode_approx(r"$\hbar \omega^2$"), "ℏ ω²");
}

// ---------------------------------------------------------------------------

fn raster(rows: &[&str]) -> Raster {
    let px = |c: char| Pixel { r: 1, g: 2, b: 3, a: if c == '#' { 9 } else { 0 } };
    Raster {
        width: rows[0].len(),
        rows: rows.iter().map(|r| r.chars().map(px).collect()).collect(),
    }
}

fn shape(r: &Raster) -> Vec<String> {
    r.rows
        .iter()
        .map(|row| row.iter().map(|p| if p.a > 0 { '#' } else { '.' }).collect())
        .collect()
}

#[test]
fn pictures_crop_to_what_shows_and_center_in_a_row() {
    let img = raster(&["....", "..#.", ".##.", "...."]);
    let c = crop_transparent(&img).unwrap();
    assert_eq!(shape(&c), [".#", "##"]);
    assert_eq!(shape(&center_rows(c, 5)), ["..", ".#", "##", "..", ".."]);
    assert!(crop_transparent(&raster(&["..", ".."])).is_none());
}

#[test]
fn long_lines_wrap_at_words_and_pictures_stay_whole() {
    let line = "alpha beta gamma";
    let chars: Vec<char> = line.chars().collect();
    let starts = wrap_starts(&chars, &vec![], 8);
    let rows: Vec<String> =
        wrap_line(&Line::raw(line.to_string()), &starts).iter().map(|l| l.text()).collect();
    assert_eq!(rows.concat(), line, "nothing is lost");
    assert!(rows.iter().all(|r| r.chars().count() <= 8), "{rows:?}");
    assert_eq!(rows.len(), 3);
    // a held range is never split
    let held = vec![(3, 9)];
    let starts = wrap_starts(&"aaaaaaaaaaaa".chars().collect(), &held, 8);
    assert!(starts.iter().all(|s| !(3 < *s && *s < 9)), "{starts:?}");
    assert_eq!(cut(&Line::raw("abcdef".into()), 2, 4).text(), "cd");
}

#[test]
fn the_selection_and_the_cursor_stay_in_view() {
    let (mut app, mut r) = one_cell_app();
    for i in 0..30 {
        let mut c = app.notebook.cells[0].duplicate();
        c.source = format!("cell {i}");
        app.notebook.cells.push(c);
    }
    r.rebuild_all(&app.notebook);
    let area = Rect { x: 0, y: 0, width: 40, height: 12 };
    press(&mut app, &mut r, key('G'));
    let f = app.draw(&r, area);
    assert!(frame_rows(&f).iter().any(|t| t.contains("cell 29")));
    assert!(app.hit.iter().any(|h| h.cell == 30));
    press(&mut app, &mut r, KeyEvent::new(KeyCode::Enter, KeyModifiers::none()));
    let f = app.draw(&r, area);
    let (x, y) = f.cursor.expect("a cursor");
    assert!(x < 40 && y < 11);
    assert!(f.status.text().contains("NORMAL"));
    press(&mut app, &mut r, KeyEvent::new(KeyCode::Esc, KeyModifiers::none()));
    press(&mut app, &mut r, key('g'));
    let f = app.draw(&r, area);
    assert!(f.cursor.is_none());
    assert!(f.rows[0].text().contains("▶"));
    assert!(f.status.text().starts_with(" VIEW "));
}

#[test]
fn a_status_message_is_logged_once() {
    let (mut app, r) = one_cell_app();
    app.say("saved");
    let area = Rect { x: 0, y: 0, width: 40, height: 12 };
    assert_eq!(app.draw(&r, area).log.as_deref(), Some("saved"));
    assert_eq!(app.draw(&r, area).log, None);
    assert!(app.draw(&r, area).status.text().ends_with("  saved"));
}

#[test]
fn input_boxes_keep_the_end_of_the_input() {
    let area = Rect { x: 0, y: 0, width: 40, height: 20 };
    let mut req = StdinReq {
        prompt: " name? ".to_string(),
        buf: "x".repeat(40),
        password: false,
        request: "q".to_string(),
    };
    let p = draw_stdin(&req, area);
    assert_eq!((p.area.x, p.area.y, p.area.width, p.area.height), (3, 8, 34, 3));
    assert_eq!(p.title, " name? ");
    assert_eq!(p.rows[0].len(), 31);
    assert_eq!(p.cursor, Some((35, 9)));
    req.password = true;
    req.buf = "abc".to_string();
    req.prompt = String::new();
    let p = draw_stdin(&req, area);
    assert_eq!(p.rows[0], "•••");
    assert_eq!(p.title, " input() — Enter sends, Esc sends empty ");
}

#[test]
fn popups_scroll_no_further_than_their_text() {
    let (mut app, mut r) = one_cell_app();
    let area = Rect { x: 0, y: 0, width: 40, height: 14 };
    let log: Vec<String> = (0..30).map(|i| format!("entry {i}")).collect();
    press(&mut app, &mut r, key('L'));
    let p = app.draw_popups(&log, None, area);
    assert_eq!(p.len(), 1);
    assert_eq!(p[0].rows.last().unwrap(), "entry 29", "newest at the bottom");
    press(&mut app, &mut r, key('g'));
    let p = app.draw_popups(&log, None, area);
    assert_eq!(p[0].rows[0], "entry 0");
    assert_eq!(p[0].rows.len(), 10);
    assert_eq!(app.logs, Some(20));
    press(&mut app, &mut r, key('x'));
    press(&mut app, &mut r, key('?'));
    let p = app.draw_popups(&log, None, area);
    assert_eq!(p[0].rows.len(), HELP.lines().count());
    assert_eq!(draw_help(area).area.width, 40);
    assert_eq!(zoom_position(area, 10, 20), (15, 0));
}

#[test]
fn completion_rows_show_name_kind_and_signature() {
    let mut c = jotter::completion::Completion::for_test(0, 0);
    c.push_for_test(".linspace", "function", "(start, stop)");
    c.push_for_test("np", "word", "");
    c.sel = 1;
    let area = Rect { x: 0, y: 0, width: 60, height: 20 };
    let (p, top) = draw_completion(&c, (5, 3), area);
    assert_eq!(top, 0);
    assert_eq!(p.rows, ["linspace · function · (start, stop)", "np · word"]);
    assert_eq!(p.selected, Some(1));
    assert_eq!((p.area.x, p.area.y, p.area.width, p.area.height), (5, 4, 37, 4));
    // no room below the cursor: above it
    let (p, _) = draw_completion(&c, (50, 18), area);
    assert_eq!((p.area.x, p.area.y), (23, 14));
}

#[test]
fn the_log_keeps_the_newest_records_that_matter() {
    let entry = |level, msg: &str| Entry {
        millis: 61_007,
        level,
        target: "status".to_string(),
        msg: msg.to_string(),
    };
    let mut ring = Ring::new();
    ring.log(entry(Level::Debug, "wire"));
    assert!(ring.with_entries().is_empty());
    for i in 0..RING_CAP + 3 {
        ring.log(entry(Level::Info, &format!("m{i}")));
    }
    assert_eq!(ring.with_entries().len(), RING_CAP);
    assert_eq!(ring.with_entries()[0].msg, "m3");
    let e = entry(Level::Warn, "careful");
    assert_eq!(e.viewer_line(), "61.007 WARN  status: careful");
    assert_eq!(e.file_line(1_700_000_000_250), "1700000000.250 WARN  status: careful");
    assert!(enabled(Level::Error, false) && !enabled(Level::Debug, false));
    assert!(enabled(Level::Debug, true));
}

#[test]
fn durations_fonts_and_suffixes() {
    assert_eq!(fmt_duration(42), "42ms");
    assert_eq!(fmt_duration(1500), "1.5s");
    // half-way, as the seconds round in binary
    assert_eq!(fmt_duration(1250), "1.2s");
    assert_eq!(fmt_duration(1150), "1.1s");
    assert_eq!(fmt_duration(1350), "1.4s");
    assert_eq!(fmt_duration(1949), "1.9s");
    assert_eq!(fmt_duration(59_999), "60.0s");
    assert_eq!(fmt_duration(61_000), "1m01s");
    assert_eq!(reported_font(80, 24, 640, 384), font());
    assert_eq!(reported_font(80, 24, 0, 384), None);
    let mut nb = notebook(
        r#"{"cells": [{"cell_type": "code", "metadata": {}, "source": ""},
                      {"cell_type": "markdown", "metadata": {}, "source": ""}],
            "metadata": {"language_info": {"name": "julia", "file_extension": ".jl"}}}"#,
    );
    assert_eq!(notebook_language(&nb), "julia");
    assert_eq!(source_suffix(&nb, &nb.cells[0]), "jl");
    assert_eq!(source_suffix(&nb, &nb.cells[1]), "md");
    nb.extra = Object::new();
    assert_eq!(source_suffix(&nb, &nb.cells[0]), "py");
}

#[test]
fn ansi_colors_become_styles() {
    let lines = output_lines(&stream("\x1b[31mred\x1b[0m plain\nnext".to_string()));
    assert_eq!(lines.len(), 2);
    assert_eq!(lines[0].text(), "red plain");
    assert!(
        matches!(&lines[0].spans[0].style.fg, Some(Color::Named(n)) if n == "Red"),
        "escapes are colours"
    );
    assert_eq!(lines[1].text(), "next");
}

#[test]
fn source_is_highlighted_in_its_language() {
    let r = build(&empty(), None);
    let py = r.highlight("def f():\n    return 1", "python");
    assert_eq!(py.len(), 2);
    assert_eq!(py[0].text(), "def f():");
    let colours = |l: &Line| {
        let mut v: Vec<(u8, u8, u8)> = l
            .spans
            .iter()
            .filter_map(|s| match s.style.fg {
                Some(Color::Rgb(r, g, b)) => Some((r, g, b)),
                _ => None,
            })
            .collect();
        v.sort();
        v.dedup();
        v.len()
    };
    assert!(colours(&py[0]) > 1, "a keyword stands out");
    assert_eq!(colours(&r.highlight("def f():", "txt")[0]), 1);
    // an unknown language is plain text
    assert_eq!(colours(&r.highlight("def f():", "no such language")[0]), 1);
}

#[test]
fn the_clipboard_gets_base64() {
    assert_eq!(osc52("hi é"), "\x1b]52;c;aGkgw6k=\x07");
}
