//! Popups over the notebook.

use vstd::prelude::*;

use crate::app::{App, AppView, OverlayView, PagerView, StdinReq, StdinView};
use crate::completion::{CandidateView, Completion, CompletionView};
use crate::keys::Rect;
use crate::text;
use crate::text::{after, lines_of, repeated, strip_leading, trim, views};

verus! {

/// The keys' page.
pub const HELP: &'static str =
    " j/k g/G      select / first / last cell    5G  goto cell 5
 Enter, i, A  edit cell (vi: hjkl wbe 0$^ ggG x dd yy p u ...)
 Esc          exit editing (normal mode)
 E            edit cell in $EDITOR

 Shift+Enter/r       run + advance
 Space/Ctrl+Enter    run
 X  <  >             run all / all above / cell and below

 a/b          new cell after / before
 dd yy p      delete / copy / paste cell
 u / Ctrl+r   undo / redo cell operations
 J/K          move cell down / up
 M            merge with the cell below
 Ctrl+\\       split at the cursor (editing)
 m            cycle code -> markdown -> latex

 Tab / Shift+Tab     complete / show docs (editing)

 o            hide/show output   [ ]  scroll long output
 c / C        clear cell output / all outputs
 z / Z        zoom image fullscreen / toggle native size
 /  n  N      search cell sources / next / previous

 w            save (W: force)    S   save as    q   quit
 Ctrl+C       interrupt          R   restart kernel
 L            view logs
 D            debug info for the cell (copied)
 mouse        click: select/edit, wheel: scroll,
              Shift+drag: select text";

/// A bordered box with a title, drawn over the notebook.
pub struct Popup {
    pub area: Rect,
    pub title: String,
    pub rows: Vec<String>,
    /// The highlighted row.
    pub selected: Option<usize>,
    pub cursor: Option<(u16, u16)>,
}

pub struct PopupView {
    pub area: Rect,
    pub title: Seq<char>,
    pub rows: Seq<Seq<char>>,
    pub selected: Option<usize>,
    pub cursor: Option<(u16, u16)>,
}

impl View for Popup {
    type V = PopupView;

    open spec fn view(&self) -> PopupView {
        PopupView {
            area: self.area,
            title: self.title@,
            rows: views(self.rows@),
            selected: self.selected,
            cursor: self.cursor,
        }
    }
}

/// `a - b`, or nothing.
pub open spec fn less(a: int, b: int) -> int {
    if a > b {
        a - b
    } else {
        0
    }
}

pub open spec fn least(a: int, b: int) -> int {
    if a <= b {
        a
    } else {
        b
    }
}

pub open spec fn clamped(v: int, lo: int, hi: int) -> int {
    if v < lo {
        lo
    } else {
        least(v, hi)
    }
}

/// A box of a width and height in the middle of the screen.
pub open spec fn centered(area: Rect, width: int, height: int) -> Rect {
    let w = least(width, area.width as int);
    Rect {
        x: ((area.width - w) / 2) as u16,
        y: (less(area.height as int, height) / 2) as u16,
        width: w as u16,
        height: least(height, area.height as int) as u16,
    }
}

fn center(area: Rect, width: u16, height: u16) -> (r: Rect)
    ensures
        r == centered(area, width as int, height as int),
        r.x + r.width <= area.width,
        r.y <= area.height / 2,
        r.width == least(width as int, area.width as int),
{
    let w = if width <= area.width {
        width
    } else {
        area.width
    };
    Rect {
        x: (area.width - w) / 2,
        y: if area.height > height {
            (area.height - height) / 2
        } else {
            0
        },
        width: w,
        height: if height <= area.height {
            height
        } else {
            area.height
        },
    }
}

fn clamp(v: u16, lo: u16, hi: u16) -> (r: u16)
    ensures
        r == clamped(v as int, lo as int, hi as int),
{
    if v < lo {
        lo
    } else if v <= hi {
        v
    } else {
        hi
    }
}

fn shorter(a: u16, b: u16) -> (r: u16)
    ensures
        r == less(a as int, b as int),
{
    if a > b {
        a - b
    } else {
        0
    }
}

// ---------------------------------------------------------------------------
// input()
// ---------------------------------------------------------------------------

pub open spec fn stdin_area(area: Rect) -> Rect {
    centered(area, clamped(less(area.width as int, 6), 24, 70), 3)
}

/// What the box shows of the input: its end, with room for the cursor.
pub open spec fn stdin_tail(req: StdinView, width: int) -> Seq<char> {
    let shown = if req.password {
        repeated('•', req.buf.len())
    } else {
        req.buf
    };
    after(shown, less(shown.len() as int, less(less(width, 2), 1)))
}

pub open spec fn stdin_title(req: StdinView) -> Seq<char> {
    let p = trim(req.prompt);
    if p.len() == 0 {
        " input() — Enter sends, Esc sends empty "@
    } else {
        " "@ + p + " "@
    }
}

/// Kernel `input()`: a centered modal prompt.
pub open spec fn stdin_box(req: StdinView, area: Rect) -> PopupView {
    let at = stdin_area(area);
    let tail = stdin_tail(req, at.width as int);
    PopupView {
        area: at,
        title: stdin_title(req),
        rows: seq![tail],
        selected: None,
        cursor: Some(((at.x + 1 + tail.len()) as u16, (at.y + 1) as u16)),
    }
}

/// Kernel `input()`: a centered modal prompt. A password shows as bullets,
/// and the end of the input stays inside the box.
pub fn draw_stdin(req: &StdinReq, area: Rect) -> (r: Popup)
    ensures
        r@ == stdin_box(req@, area),
{
    let at = center(area, clamp(shorter(area.width, 6), 24, 70), 3);
    let n = req.buf.as_str().unicode_len();
    let shown = if req.password {
        text::repeat_char('•', n)
    } else {
        req.buf.clone()
    };
    let room = shorter(shorter(at.width, 2), 1) as usize;
    let from = if n > room {
        n - room
    } else {
        0
    };
    let tail = text::skip(shown.as_str(), from);
    let p = text::trimmed(req.prompt.as_str());
    let title = if p.as_str().unicode_len() == 0 {
        " input() — Enter sends, Esc sends empty ".to_owned()
    } else {
        let mut t = " ".to_owned();
        t.append(p.as_str());
        t.append(" ");
        t
    };
    let len = tail.as_str().unicode_len();
    assert(len <= room);
    let cursor = Some((at.x + 1 + len as u16, at.y + 1));
    let mut rows: Vec<String> = Vec::new();
    rows.push(tail);
    assert(views(rows@) =~= seq![tail@]);
    Popup { area: at, title, rows, selected: None, cursor }
}

// ---------------------------------------------------------------------------
// Pages of text
// ---------------------------------------------------------------------------

/// Rows that a page shows of `n` lines.
pub open spec fn page_rows(area: Rect, n: int) -> int {
    least(
        less(area.height as int, 4),
        if n > 1 {
            n
        } else {
            1
        },
    )
}

pub open spec fn page_area(area: Rect, n: int) -> Rect {
    centered(area, clamped(less(area.width as int, 4), 20, 100), page_rows(area, n) + 2)
}

/// The first line of a page that starts at `top` at the latest.
pub open spec fn page_top(area: Rect, n: int, top: int) -> int {
    least(top, less(n, page_rows(area, n)))
}

/// A page of lines.
pub open spec fn page(
    title: Seq<char>,
    lines: Seq<Seq<char>>,
    area: Rect,
    top: int,
) -> PopupView {
    let n = lines.len() as int;
    let from = page_top(area, n, top);
    PopupView {
        area: page_area(area, n),
        title,
        rows: lines.subrange(from, from + least(page_rows(area, n), n)),
        selected: None,
        cursor: None,
    }
}

fn copy_lines(lines: &Vec<String>, from: usize, to: usize) -> (r: Vec<String>)
    requires
        from <= to <= lines@.len(),
    ensures
        views(r@) == views(lines@).subrange(from as int, to as int),
{
    let mut r: Vec<String> = Vec::new();
    let mut i: usize = from;
    while i < to
        invariant
            from <= i <= to <= lines@.len(),
            r@.len() == i - from,
            forall|k: int| 0 <= k < r@.len() ==> (#[trigger] r@[k])@ == lines@[from + k]@,
        decreases to - i,
    {
        r.push(lines[i].clone());
        i += 1;
    }
    assert(views(r@) =~= views(lines@).subrange(from as int, to as int));
    r
}

/// A page and its first line.
fn draw_page(title: String, lines: &Vec<String>, area: Rect, top: usize) -> (r: (Popup, usize))
    ensures
        r.0@ == page(title@, views(lines@), area, top as int),
        r.1 == page_top(area, lines@.len() as int, top as int),
{
    let n = lines.len();
    assert(views(lines@).len() == n);
    let most = shorter(area.height, 4);
    let rows = if n > most as usize {
        most
    } else if n > 1 {
        n as u16
    } else if most > 1 {
        1
    } else {
        most
    };
    assert(rows == page_rows(area, n as int));
    let max = if n > rows as usize {
        n - rows as usize
    } else {
        0
    };
    let from = if top <= max {
        top
    } else {
        max
    };
    let shown = if rows as usize <= n {
        rows as usize
    } else {
        n
    };
    let at = center(area, clamp(shorter(area.width, 4), 20, 100), rows + 2);
    let popup = Popup {
        area: at,
        title,
        rows: copy_lines(lines, from, from + shown),
        selected: None,
        cursor: None,
    };
    (popup, from)
}

/// The keys' page.
pub open spec fn help_box(area: Rect) -> PopupView {
    let rows = lines_of(HELP@);
    PopupView {
        area: centered(area, 62, least(rows.len() as int, 98) + 2),
        title: " jOtter 🦦 — keys (any key closes) "@,
        rows,
        selected: None,
        cursor: None,
    }
}

/// The keys' page.
pub fn draw_help(area: Rect) -> (r: Popup)
    ensures
        r@ == help_box(area),
{
    let rows = text::lines(HELP);
    assert(views(rows@).len() == rows@.len());
    let n: u16 = if rows.len() <= 98 {
        rows.len() as u16
    } else {
        98
    };
    Popup {
        area: center(area, 62, n + 2),
        title: " jOtter 🦦 — keys (any key closes) ".to_owned(),
        rows,
        selected: None,
        cursor: None,
    }
}

/// The debug report.
pub fn draw_debug(report: &str, area: Rect) -> (r: Popup)
    ensures
        r@ == page(" debug info (any key closes) "@, lines_of(report@), area, 0),
{
    let lines = text::lines(report);
    draw_page(" debug info (any key closes) ".to_owned(), &lines, area, 0).0
}

// ---------------------------------------------------------------------------
// Completion
// ---------------------------------------------------------------------------

/// A candidate's row: name, kind and signature.
pub open spec fn candidate_row(c: CandidateView) -> Seq<char> {
    strip_leading(c.text, '.') + (if c.kind.len() > 0 {
        " · "@ + c.kind
    } else {
        ""@
    }) + (if c.detail.len() > 0 {
        " · "@ + c.detail
    } else {
        ""@
    })
}

/// The rows of the candidates in view.
pub open spec fn candidate_rows(c: CompletionView) -> Seq<Seq<char>> {
    let (from, to) = c.visible();
    c.items.subrange(from, to).map_values(|i: CandidateView| candidate_row(i))
}

/// The longest row's length.
pub open spec fn widest(rows: Seq<Seq<char>>) -> int
    decreases rows.len(),
{
    if rows.len() == 0 {
        0
    } else {
        let w = widest(rows.drop_last());
        if rows.last().len() > w {
            rows.last().len() as int
        } else {
            w
        }
    }
}

/// The popup's place: under the cursor, or above it where there is no room.
pub open spec fn completion_area(rows: Seq<Seq<char>>, cursor: (u16, u16), area: Rect) -> Rect {
    let w = least(least(widest(rows), 96) + 2, area.width as int);
    let h = least(rows.len() as int + 2, area.height as int);
    Rect {
        x: least(cursor.0 as int, area.width - w) as u16,
        y: (if cursor.1 + 1 + h <= area.height {
            cursor.1 + 1
        } else {
            less(cursor.1 as int, h)
        }) as u16,
        width: w as u16,
        height: h as u16,
    }
}

/// The completion popup.
pub open spec fn completion_box(c: CompletionView, cursor: (u16, u16), area: Rect) -> PopupView {
    let rows = candidate_rows(c);
    PopupView {
        area: completion_area(rows, cursor, area),
        title: ""@,
        rows,
        selected: if c.items.len() > 0 {
            Some((c.sel - c.visible().0) as usize)
        } else {
            None
        },
        cursor: None,
    }
}

fn row_of_candidate(c: &crate::completion::Candidate) -> (r: String)
    ensures
        r@ == candidate_row(c@),
{
    let mut s = c.label();
    if c.kind.as_str().unicode_len() > 0 {
        s.append(" · ");
        s.append(c.kind.as_str());
    }
    if c.detail.as_str().unicode_len() > 0 {
        s.append(" · ");
        s.append(c.detail.as_str());
    }
    proof {
        reveal_strlit("");
    }
    assert(s@ =~= candidate_row(c@));
    s
}

fn width_of_rows(rows: &Vec<String>) -> (r: usize)
    ensures
        r == widest(views(rows@)),
{
    let ghost all = views(rows@);
    let mut w: usize = 0;
    let mut i: usize = 0;
    while i < rows.len()
        invariant
            i <= rows@.len(),
            all == views(rows@),
            w == widest(all.take(i as int)),
        decreases rows@.len() - i,
    {
        assert(all.take(i + 1).drop_last() =~= all.take(i as int));
        let n = rows[i].as_str().unicode_len();
        if n > w {
            w = n;
        }
        i += 1;
    }
    assert(all.take(i as int) =~= all);
    w
}

/// The completion popup at the editor's cursor, and the first candidate in
/// view.
pub fn draw_completion(c: &Completion, cursor: (u16, u16), area: Rect) -> (r: (Popup, usize))
    requires
        c@.wf(),
    ensures
        r.0@ == completion_box(c@, cursor, area),
        r.1 == c@.visible().0,
{
    let (from, to) = c.visible_rows();
    let ghost want = candidate_rows(c@);
    let mut rows: Vec<String> = Vec::new();
    let mut i: usize = from;
    while i < to
        invariant
            from <= i <= to <= c@.items.len(),
            (from as int, to as int) == c@.visible(),
            want == candidate_rows(c@),
            rows@.len() == i - from,
            forall|k: int| 0 <= k < rows@.len() ==> (#[trigger] rows@[k])@ == want[k],
        decreases to - i,
    {
        assert(want[i - from] == candidate_row(c@.items[i as int]));
        assert(c@.items.len() == c.items@.len());
        rows.push(row_of_candidate(&c.items[i]));
        i += 1;
    }
    assert(views(rows@) =~= want);
    let count = to - from;
    let most = width_of_rows(&rows);
    let mut w: u16 = if most <= 96 {
        most as u16 + 2
    } else {
        98
    };
    if w > area.width {
        w = area.width;
    }
    let mut h: u16 = count as u16 + 2;
    if h > area.height {
        h = area.height;
    }
    let room = area.width - w;
    let at = Rect {
        x: if cursor.0 <= room {
            cursor.0
        } else {
            room
        },
        y: if cursor.1 < area.height && area.height - cursor.1 - 1 >= h {
            cursor.1 + 1
        } else if cursor.1 > h {
            cursor.1 - h
        } else {
            0
        },
        width: w,
        height: h,
    };
    let selected = if c.items.len() > 0 {
        assert(c@.items.len() == c.items@.len());
        Some(c.sel - from)
    } else {
        None
    };
    let popup = Popup { area: at, title: "".to_owned(), rows, selected, cursor: None };
    (popup, from)
}

// ---------------------------------------------------------------------------
// The popups over a frame
// ---------------------------------------------------------------------------

/// Where a zoomed picture stands in the body: in its middle.
pub open spec fn zoom_place(body: Rect, width: u16, height: u16) -> (u16, u16) {
    (
        (less(body.width as int, width as int) / 2) as u16,
        (less(body.height as int, height as int) / 2) as u16,
    )
}

/// The middle of the body for a picture of a size in cells.
pub fn zoom_position(body: Rect, width: u16, height: u16) -> (r: (u16, u16))
    ensures
        r == zoom_place(body, width, height),
{
    (shorter(body.width, width) / 2, shorter(body.height, height) / 2)
}

/// The first log line in view, when the newest `up` lines are scrolled off.
pub open spec fn logs_top(area: Rect, n: int, up: int) -> int {
    less(n, page_rows(area, n)) - page_top(area, n, up)
}

impl AppView {
    /// The popups, the last on top.
    pub open spec fn popups(
        self,
        log: Seq<Seq<char>>,
        cursor: Option<(u16, u16)>,
        area: Rect,
    ) -> Seq<PopupView> {
        (match (self.completion, cursor) {
            (Some(c), Some(at)) => seq![completion_box(c, at, area)],
            _ => Seq::empty(),
        }) + (if self.overlay.show_help {
            seq![help_box(area)]
        } else {
            Seq::empty()
        }) + (match self.overlay.logs {
            Some(up) => seq![
                page(
                    " logs (j/k scroll, any other key closes) "@,
                    log,
                    area,
                    logs_top(area, log.len() as int, up as int),
                ),
            ],
            None => Seq::empty(),
        }) + (match self.overlay.debug {
            Some(d) => seq![page(" debug info (any key closes) "@, lines_of(d), area, 0)],
            None => Seq::empty(),
        }) + (match self.overlay.pager {
            Some(p) => seq![page(" "@ + p.title + " "@, lines_of(p.text), area, p.top as int)],
            None => Seq::empty(),
        }) + (match self.run.stdin_req {
            Some(r) => seq![stdin_box(r, area)],
            None => Seq::empty(),
        })
    }

    /// The session after its popups were drawn: what scrolls stays inside
    /// its text.
    pub open spec fn popped(
        self,
        log: Seq<Seq<char>>,
        cursor: Option<(u16, u16)>,
        area: Rect,
    ) -> AppView {
        AppView {
            completion: match (self.completion, cursor) {
                (Some(c), Some(_)) => Some(CompletionView { top: c.visible().0 as usize, ..c }),
                _ => self.completion,
            },
            overlay: OverlayView {
                logs: match self.overlay.logs {
                    Some(up) => Some(page_top(area, log.len() as int, up as int) as usize),
                    None => None,
                },
                pager: match self.overlay.pager {
                    Some(p) => Some(
                        PagerView {
                            top: page_top(area, lines_of(p.text).len() as int, p.top as int) as usize,
                            ..p
                        },
                    ),
                    None => None,
                },
                ..self.overlay
            },
            ..self
        }
    }
}

fn add_popup(all: &mut Vec<Popup>, p: Popup)
    ensures
        views(final(all)@) == views(old(all)@) + seq![p@],
{
    let ghost all0 = views(all@);
    all.push(p);
    assert(views(all@) =~= all0 + seq![p@]);
}

impl App {
    fn pop_completion(&mut self, all: &mut Vec<Popup>, cursor: Option<(u16, u16)>, area: Rect)
        requires
            old(self)@.completion matches Some(c) ==> c.wf(),
        ensures
            views(final(all)@) == views(old(all)@) + (match (old(self)@.completion, cursor) {
                (Some(c), Some(at)) => seq![completion_box(c, at, area)],
                _ => Seq::empty(),
            }),
            final(self)@ == (AppView {
                completion: match (old(self)@.completion, cursor) {
                    (Some(c), Some(_)) => Some(
                        CompletionView { top: c.visible().0 as usize, ..c },
                    ),
                    _ => old(self)@.completion,
                },
                ..old(self)@
            }),
    {
        let ghost all0 = views(all@);
        if let Some(at) = cursor {
            if let Some(c) = &mut self.completion {
                let (p, top) = draw_completion(c, at, area);
                c.top = top;
                add_popup(all, p);
                return;
            }
        }
        assert(views(all@) =~= all0 + Seq::<PopupView>::empty());
    }

    fn pop_logs(&mut self, all: &mut Vec<Popup>, log: &Vec<String>, area: Rect)
        ensures
            views(final(all)@) == views(old(all)@) + (match old(self)@.overlay.logs {
                Some(up) => seq![
                    page(
                        " logs (j/k scroll, any other key closes) "@,
                        views(log@),
                        area,
                        logs_top(area, log@.len() as int, up as int),
                    ),
                ],
                None => Seq::empty(),
            }),
            final(self)@ == (AppView {
                overlay: OverlayView {
                    logs: match old(self)@.overlay.logs {
                        Some(up) => Some(page_top(area, log@.len() as int, up as int) as usize),
                        None => None,
                    },
                    ..old(self)@.overlay
                },
                ..old(self)@
            }),
    {
        let ghost all0 = views(all@);
        let n = log.len();
        if let Some(up) = self.logs {
            let most = shorter(area.height, 4) as usize;
            let rows = if n > most {
                most
            } else if n > 1 {
                n
            } else if most > 1 {
                1
            } else {
                most
            };
            assert(rows == page_rows(area, n as int));
            let max = if n > rows {
                n - rows
            } else {
                0
            };
            let at = if up <= max {
                up
            } else {
                max
            };
            let title = " logs (j/k scroll, any other key closes) ".to_owned();
            let (p, _) = draw_page(title, log, area, max - at);
            add_popup(all, p);
            self.logs = Some(at);
        } else {
            assert(views(all@) =~= all0 + Seq::<PopupView>::empty());
        }
    }

    fn pop_pager(&mut self, all: &mut Vec<Popup>, area: Rect)
        ensures
            views(final(all)@) == views(old(all)@) + (match old(self)@.overlay.pager {
                Some(p) => seq![page(" "@ + p.title + " "@, lines_of(p.text), area, p.top as int)],
                None => Seq::empty(),
            }),
            final(self)@ == (AppView {
                overlay: OverlayView {
                    pager: match old(self)@.overlay.pager {
                        Some(p) => Some(
                            PagerView {
                                top: page_top(
                                    area,
                                    lines_of(p.text).len() as int,
                                    p.top as int,
                                ) as usize,
                                ..p
                            },
                        ),
                        None => None,
                    },
                    ..old(self)@.overlay
                },
                ..old(self)@
            }),
    {
        let ghost all0 = views(all@);
        if let Some(pager) = &mut self.pager {
            let lines = text::lines(pager.text.as_str());
            assert(views(lines@).len() == lines@.len());
            let mut title = " ".to_owned();
            title.append(pager.title.as_str());
            title.append(" ");
            let (p, top) = draw_page(title, &lines, area, pager.top);
            pager.top = top;
            add_popup(all, p);
        } else {
            assert(views(all@) =~= all0 + Seq::<PopupView>::empty());
        }
    }

    /// The popups over the frame, the last on top. `log` holds the log
    /// viewer's lines, oldest first, and `cursor` is the editor's.
    pub fn draw_popups(
        &mut self,
        log: &Vec<String>,
        cursor: Option<(u16, u16)>,
        area: Rect,
    ) -> (r: Vec<Popup>)
        requires
            old(self)@.wf(),
        ensures
            views(r@) == old(self)@.popups(views(log@), cursor, area),
            final(self)@ == old(self)@.popped(views(log@), cursor, area),
            final(self)@.wf(),
    {
        let ghost a0 = self@;
        let mut all: Vec<Popup> = Vec::new();
        assert(views(all@) =~= Seq::<PopupView>::empty());
        assert(views(log@).len() == log@.len());
        self.pop_completion(&mut all, cursor, area);
        let ghost p1 = views(all@);
        if self.show_help {
            add_popup(&mut all, draw_help(area));
        }
        let ghost p2 = views(all@);
        self.pop_logs(&mut all, log, area);
        let ghost p3 = views(all@);
        if let Some(d) = &self.debug {
            add_popup(&mut all, draw_debug(d.as_str(), area));
        }
        let ghost p4 = views(all@);
        self.pop_pager(&mut all, area);
        let ghost p5 = views(all@);
        if let Some(r) = &self.stdin_req {
            add_popup(&mut all, draw_stdin(r, area));
        }
        assert(views(all@) =~= a0.popups(views(log@), cursor, area));
        all
    }
}

} // verus!
