//! What stands where on the screen.

#[allow(unused_imports)]
use vstd::prelude::*;

#[allow(unused_imports)]
use crate::app::{HitKind, State, StdinView};
#[allow(unused_imports)]
use crate::completion::CompletionView;
#[allow(unused_imports)]
use crate::draw::{body_of, width_of};
#[allow(unused_imports)]
use crate::json::{lookup, JsonView};
#[allow(unused_imports)]
use crate::keys::Rect;
#[allow(unused_imports)]
use crate::layout::{line_rows, starts_of, RowOf, Shown};
#[allow(unused_imports)]
use crate::notebook::NotebookView;
#[allow(unused_imports)]
use crate::nvim::BackendView;
#[allow(unused_imports)]
use crate::popups::{
    candidate_row, candidate_rows, centered, completion_area, completion_box, logs_top, page,
    stdin_tail, widest, zoom_place,
};
#[allow(unused_imports)]
use crate::style::{content, overlaid, split_reversed, LineView, SpanView, StyleView, REVERSED};
#[allow(unused_imports)]
use crate::text::strip_leading;
#[allow(unused_imports)]
use crate::ui::language_of;

verus! {

// ---------------------------------------------------------------------------
// Rows
// ---------------------------------------------------------------------------

/// Every row belongs to cell `i`.
pub open spec fn all_of(rows: Seq<RowOf>, i: usize) -> bool {
    forall|k: int| 0 <= k < rows.len() ==> (#[trigger] rows[k]).hit.cell == i
}

proof fn lemma_src_rows(s: Shown, i: usize, w: int, n: int)
    ensures
        all_of(s.src_rows(i, w, n), i),
    decreases n,
{
    if n > 0 {
        lemma_src_rows(s, i, w, n - 1);
    }
}

proof fn lemma_out_rows(s: Shown, i: usize, w: int, first: int, n: int)
    ensures
        all_of(s.out_rows(i, w, first, n), i),
        forall|k: int|
            0 <= k < s.out_rows(i, w, first, n).len() ==> (#[trigger] s.out_rows(
                i,
                w,
                first,
                n,
            )[k]).hit.kind == HitKind::Output,
    decreases n,
{
    if n > 0 {
        lemma_out_rows(s, i, w, first, n - 1);
    }
}

/// A cell takes a row for its prompt, then those of its source, those of the
/// output in view, and a blank one; all of them lead back to the cell. A
/// collapsed output takes one row.
pub proof fn law_the_rows_of_a_cell(s: Shown, i: usize, prompt: LineView, w: int)
    ensures
        ({
            let rows = s.rows(i, prompt, w);
            let n = s.src_rows(i, w, s.src_count()).len() as int;
            let (first, shown, _) = s.block.window();
            let m = s.out_rows(i, w, first, shown).len() as int;
            &&& rows.len() >= 2 + n + m
            &&& rows[0].line == prompt
            &&& rows.last().line.spans.len() == 0
            &&& all_of(rows, i)
            &&& rows.subrange(1, 1 + n) == s.src_rows(i, w, s.src_count())
            &&& rows.subrange(1 + n, 1 + n + m) == s.out_rows(i, w, first, shown)
            &&& s.block.collapsed && s.block.out_len() > 0 ==> m == 0 && rows.len() == n + 3
        }),
{
    let rows = s.rows(i, prompt, w);
    let n = s.src_rows(i, w, s.src_count()).len() as int;
    let (first, shown, _) = s.block.window();
    let m = s.out_rows(i, w, first, shown).len() as int;
    lemma_src_rows(s, i, w, s.src_count());
    lemma_out_rows(s, i, w, first, shown);
    assert(rows.subrange(1, 1 + n) =~= s.src_rows(i, w, s.src_count()));
    assert(rows.subrange(1 + n, 1 + n + m) =~= s.out_rows(i, w, first, shown));
    assert forall|k: int| 0 <= k < rows.len() implies (#[trigger] rows[k]).hit.cell == i by {
        if 1 <= k < 1 + n {
            assert(rows[k] == s.src_rows(i, w, s.src_count())[k - 1]);
        } else if 1 + n <= k < 1 + n + m {
            assert(rows[k] == s.out_rows(i, w, first, shown)[k - 1 - n]);
        }
    }
}

/// The rows of a source line follow those of the lines before it.
pub proof fn law_source_lines_stand_in_order(s: Shown, i: usize, w: int, k: int, n: int)
    requires
        0 <= k < n,
    ensures
        ({
            let at = s.src_rows(i, w, k).len() as int;
            let rows = s.src_rows(i, w, n);
            let line = line_rows(i, s.src_line(k), s.src_held(k), s.src_kind(k), w);
            &&& at + line.len() <= rows.len()
            &&& rows.subrange(at, at + line.len()) == line
        }),
    decreases n,
{
    let at = s.src_rows(i, w, k).len() as int;
    let rows = s.src_rows(i, w, n);
    let line = line_rows(i, s.src_line(k), s.src_held(k), s.src_kind(k), w);
    if k == n - 1 {
        assert(rows.subrange(at, at + line.len()) =~= line);
    } else {
        law_source_lines_stand_in_order(s, i, w, k, n - 1);
        assert(rows.subrange(at, at + line.len()) =~= s.src_rows(i, w, n - 1).subrange(
            at,
            at + line.len(),
        ));
    }
}

/// The cells stand one below the other, each whole, in their order.
pub proof fn law_cells_stand_in_order(s: State, i: int, n: int, w: int)
    requires
        0 <= i < n,
    ensures
        ({
            let at = s.start_of(i, w);
            let rows = s.rows_before(n, w);
            &&& at + s.cell_rows(i, w).len() <= rows.len()
            &&& rows.subrange(at, at + s.cell_rows(i, w).len()) == s.cell_rows(i, w)
            &&& i + 1 < n ==> s.start_of(i + 1, w) == at + s.cell_rows(i, w).len()
            &&& i == 0 ==> at == 0
        }),
    decreases n,
{
    let at = s.start_of(i, w);
    let rows = s.rows_before(n, w);
    let mine = s.cell_rows(i, w);
    if i == n - 1 {
        assert(rows.subrange(at, at + mine.len()) =~= mine);
    } else {
        law_cells_stand_in_order(s, i, n - 1, w);
        assert(rows.subrange(at, at + mine.len()) =~= s.rows_before(n - 1, w).subrange(
            at,
            at + mine.len(),
        ));
    }
}

/// A frame shows consecutive rows of the notebook from the first one in view,
/// as many as there is room for, above the status line; the pointer finds on
/// each what is shown there.
pub proof fn law_a_frame_shows_rows(s: State, area: Rect, k: int)
    requires
        area.height > 0,
    ensures
        body_of(area).height == area.height - 1,
        ({
            let body = body_of(area);
            let w = width_of(body);
            let from = s.scroll_for(w, body.height as int);
            let rows = s.frame(area).rows;
            0 <= from <= s.all_rows(w).len() && 0 <= k < rows.len() ==> {
                &&& rows.len() <= body.height
                &&& from + k < s.all_rows(w).len()
                &&& rows[k] == s.all_rows(w)[from + k].line
                &&& s.drawn(area).screen.hit[k] == s.all_rows(w)[from + k].hit
                &&& rows.len() < body.height ==> from + rows.len() == s.all_rows(w).len()
            }
        }),
{
}

proof fn lemma_one_row(l: LineView, held: Seq<(usize, usize)>, w: int)
    requires
        l.text().len() <= w,
    ensures
        starts_of(l, held, w).len() == 1,
        starts_of(l, held, w)[0] == 0,
{
}

proof fn lemma_row_each(s: Shown, i: usize, w: int, n: int)
    requires
        forall|k: int| 0 <= k < n ==> (#[trigger] s.src_line(k)).text().len() <= w,
        n >= 0,
    ensures
        s.src_rows(i, w, n).len() == n,
    decreases n,
{
    if n > 0 {
        lemma_row_each(s, i, w, n - 1);
        lemma_one_row(s.src_line(n - 1), s.src_held(n - 1), w);
    }
}

/// Where every line fits the screen, the cursor is shown on the line and the
/// column where it is in the text.
pub proof fn law_the_cursor_is_where_it_is(s: State, e: BackendView, w: int)
    requires
        s.app.editor == Some(e),
        0 <= e.row(),
        e.col() >= 0,
    ensures
        ({
            let sh = s.shown(s.app.selected);
            e.row() < sh.src_count() && (forall|k: int|
                0 <= k < sh.src_count() ==> (#[trigger] sh.src_line(k)).text().len() <= w)
                ==> s.cursor_at(w) == (e.row(), e.col())
        }),
{
    let sh = s.shown(s.app.selected);
    if e.row() < sh.src_count() && (forall|k: int|
        0 <= k < sh.src_count() ==> (#[trigger] sh.src_line(k)).text().len() <= w) {
        lemma_row_each(sh, s.app.selected as usize, w, e.row());
        lemma_one_row(sh.src_line(e.row()), Seq::empty(), w);
    }
}

proof fn lemma_out_row_each(s: Shown, i: usize, w: int, first: int, n: int)
    requires
        forall|k: int|
            0 <= k < s.block.lines.len() ==> (#[trigger] s.block.lines[k]).text().len() <= w,
        n >= 0,
        0 <= s.block.src_lines + first,
        s.block.src_lines + first + n <= s.block.lines.len(),
    ensures
        s.out_rows(i, w, first, n).len() == n,
    decreases n,
{
    if n > 0 {
        lemma_out_row_each(s, i, w, first, n - 1);
        let k = s.block.src_lines + first + n - 1;
        lemma_one_row(s.block.lines[k], crate::layout::held_on(s.block.images, k), w);
    }
}

/// Where no line is broken, a picture in the source stands on the row of its
/// line, at its column, if any of it is in view; and so does one in an output,
/// on its row of the output's window.
pub proof fn law_pictures_stand_at_their_lines(
    s: State,
    i: int,
    k: int,
    body: Rect,
    scroll: int,
)
    requires
        0 <= i < s.ui.blocks.len() <= usize::MAX,
        0 <= k < s.ui.blocks[i].images.len(),
        s.ui.blocks[i].wf(),
        !s.edits(i),
        !s.ui.blocks[i].collapsed,
        forall|j: int|
            0 <= j < s.ui.blocks[i].lines.len() ==> (#[trigger] s.ui.blocks[i].lines[j]).text().len()
                <= width_of(body),
        0 <= s.ui.blocks[i].images[k].line < s.ui.blocks[i].lines.len(),
    ensures
        ({
            let b = s.ui.blocks[i];
            let img = b.images[k];
            let at = s.start_of(i, width_of(body)) + 1 - scroll;
            let (first, n, _) = b.window();
            let ol = img.line - b.src_lines;
            &&& ol < 0 ==> (s.image_place(i, k, body, scroll) matches Some(p) ==> p.x == img.col
                && p.area.y + p.y == body.y + at + img.line && p.cell == i && p.image == k)
            &&& ol < 0 && img.col < body.width && at + img.line + img.rows > 0 && at + img.line
                < body.height ==> s.image_place(i, k, body, scroll) is Some
            &&& first <= ol < first + n && body.y + body.height <= u16::MAX ==> (s.image_place(
                i,
                k,
                body,
                scroll,
            ) matches Some(p) ==> p.x == img.col && p.area.y + p.y == body.y + at + b.src_lines + (ol
                - first) && p.cell == i && p.image == k)
            &&& ol >= 0 && (ol + img.rows <= first || ol >= first + n) ==> s.image_place(
                i,
                k,
                body,
                scroll,
            ) is None
        }),
{
    let w = width_of(body);
    let b = s.ui.blocks[i];
    let img = b.images[k];
    let sh = s.shown(i);
    assert(sh.block == b);
    assert forall|j: int| 0 <= j < sh.src_count() implies (#[trigger] sh.src_line(j)).text().len()
        <= w by {
        assert(sh.src_line(j) == b.lines[j]);
    }
    lemma_one_row(b.lines[img.line], crate::layout::held_on(b.images, img.line), w);
    let (first, n, _) = b.window();
    let ol = img.line - b.src_lines;
    if ol < 0 {
        lemma_row_each(sh, i as usize, w, img.line);
    } else if first <= ol < first + n {
        lemma_row_each(sh, i as usize, w, sh.src_count());
        lemma_out_row_each(sh, i as usize, w, first, ol - first);
        lemma_out_row_each(sh, i as usize, w, first, n);
    }
}

// ---------------------------------------------------------------------------
// Popups
// ---------------------------------------------------------------------------

/// A page shows lines of its text one below the other, from where it is
/// scrolled to, and never beyond the end.
pub proof fn law_pages_show_their_lines(
    title: Seq<char>,
    lines: Seq<Seq<char>>,
    area: Rect,
    top: int,
    k: int,
)
    requires
        top >= 0,
        0 <= k < page(title, lines, area, top).rows.len(),
    ensures
        ({
            let p = page(title, lines, area, top);
            let room = if area.height > 4 {
                area.height - 4
            } else {
                0
            };
            &&& p.rows.len() <= room
            &&& lines.len() <= room ==> p.rows == lines
            &&& top + p.rows.len() <= lines.len() ==> p.rows[k] == lines[top + k]
            &&& top + p.rows.len() > lines.len() ==> p.rows.last() == lines.last()
        }),
{
    let p = page(title, lines, area, top);
    if lines.len() > 0 && lines.len() <= area.height - 4 {
        assert(p.rows =~= lines);
    }
}

/// What is typed into a password prompt is not shown, only how much; any
/// other answer is shown up to its end.
pub proof fn law_passwords_are_hidden(req: StdinView, width: int)
    requires
        width > 3,
    ensures
        req.password ==> forall|k: int|
            0 <= k < stdin_tail(req, width).len() ==> #[trigger] stdin_tail(req, width)[k] == '•',
        !req.password && req.buf.len() <= width - 3 ==> stdin_tail(req, width) == req.buf,
        !req.password && req.buf.len() > width - 3 ==> stdin_tail(req, width) == req.buf.skip(
            req.buf.len() - (width - 3),
        ),
{
    if !req.password && req.buf.len() <= width - 3 {
        assert(req.buf.skip(0) =~= req.buf);
    }
}

/// The popup shows the candidates in view by name, and highlights the row of
/// the one that Enter would put in.
pub proof fn law_the_popup_highlights(c: CompletionView, cursor: (u16, u16), area: Rect)
    requires
        0 <= c.sel < c.items.len() <= usize::MAX,
    ensures
        ({
            let b = completion_box(c, cursor, area);
            b.selected matches Some(r) && r < b.rows.len() && b.rows[r as int] == candidate_row(
                c.items[c.sel as int],
            )
        }),
        ({
            let item = c.items[c.sel as int];
            let name = strip_leading(item.text, '.');
            let row = candidate_row(item);
            name.len() <= row.len() && row.take(name.len() as int) == name
        }),
{
    let item = c.items[c.sel as int];
    let name = strip_leading(item.text, '.');
    assert(candidate_row(item).take(name.len() as int) =~= name);
    let (from, to) = c.visible();
    assert(0 <= from <= c.sel < to <= c.items.len());
    let rows = candidate_rows(c);
    assert(rows[c.sel - from] == candidate_row(c.items.subrange(from, to)[c.sel - from]));
}

/// A box in the middle of the screen is within it, with the same room on both
/// sides, or one column or row more on the far one.
pub proof fn law_boxes_stand_in_the_middle(area: Rect, width: int, height: int)
    requires
        0 <= width,
        0 <= height,
    ensures
        ({
            let r = centered(area, width, height);
            let right = area.width - r.x - r.width;
            let below = area.height - r.y - r.height;
            &&& width <= area.width ==> r.width == width
            &&& height <= area.height ==> r.height == height
            &&& r.x <= right <= r.x + 1
            &&& r.y <= below <= r.y + 1
        }),
        ({
            let (x, y) = zoom_place(area, width as u16, height as u16);
            &&& width <= area.width ==> x <= area.width - width - x <= x + 1
            &&& height <= area.height ==> y <= area.height - height - y <= y + 1
        }),
{
}

/// The completion popup is on the screen, right below the cursor's row where
/// there is room, else right above it.
pub proof fn law_the_popup_is_near_the_cursor(
    rows: Seq<Seq<char>>,
    cursor: (u16, u16),
    area: Rect,
)
    requires
        cursor.0 < area.width,
        cursor.1 < area.height,
        rows.len() <= 30000,
    ensures
        ({
            let r = completion_area(rows, cursor, area);
            &&& r.x + r.width <= area.width
            &&& r.x <= cursor.0
            &&& cursor.1 + 1 + r.height <= area.height ==> r.y == cursor.1 + 1
            &&& cursor.1 + 1 + r.height > area.height && r.height <= cursor.1 ==> r.y + r.height
                == cursor.1
            &&& rows.len() + 2 <= area.height ==> r.height == rows.len() + 2
        }),
{
    lemma_widest(rows);
}

proof fn lemma_widest(rows: Seq<Seq<char>>)
    ensures
        widest(rows) >= 0,
    decreases rows.len(),
{
    if rows.len() > 0 {
        lemma_widest(rows.drop_last());
    }
}

/// The log opens on its newest entries: the last one is at the bottom. Going
/// up by a row shows one older entry.
pub proof fn law_the_log_ends_with_the_newest(title: Seq<char>, log: Seq<Seq<char>>, area: Rect)
    requires
        log.len() > 0,
        area.height > 4,
    ensures
        ({
            let n = log.len() as int;
            let p = page(title, log, area, logs_top(area, n, 0));
            let q = page(title, log, area, logs_top(area, n, 1));
            &&& p.rows.last() == log.last()
            &&& n > area.height - 4 ==> q.rows.last() == log[n - 2]
            &&& n <= area.height - 4 ==> p.rows == log
        }),
{
    let n = log.len() as int;
    let p = page(title, log, area, logs_top(area, n, 0));
    if n <= area.height - 4 {
        assert(p.rows =~= log);
    }
}

// ---------------------------------------------------------------------------
// Selections
// ---------------------------------------------------------------------------

/// The style of the character at a column.
pub open spec fn style_at(spans: Seq<SpanView>, col: int) -> StyleView
    decreases spans.len(),
{
    if spans.len() == 0 {
        StyleView::plain()
    } else {
        let before = content(spans.drop_last()).len() as int;
        if col >= before {
            spans.last().style
        } else {
            style_at(spans.drop_last(), col)
        }
    }
}

proof fn lemma_content_join(a: Seq<SpanView>, b: Seq<SpanView>)
    ensures
        content(a + b) == content(a) + content(b),
    decreases b.len(),
{
    if b.len() == 0 {
        assert(a + b =~= a);
        assert(content(a) + content(b) =~= content(a));
    } else {
        lemma_content_join(a, b.drop_last());
        assert((a + b).drop_last() =~= a + b.drop_last());
        assert((a + b).last() == b.last());
        assert(content(a) + (content(b.drop_last()) + b.last().content) =~= content(a) + content(
            b.drop_last(),
        ) + b.last().content);
    }
}

proof fn lemma_style_join(a: Seq<SpanView>, b: Seq<SpanView>, col: int)
    requires
        0 <= col < content(a).len() + content(b).len(),
        forall|k: int| 0 <= k < b.len() ==> (#[trigger] b[k]).content.len() > 0,
    ensures
        style_at(a + b, col) == (if col < content(a).len() {
            style_at(a, col)
        } else {
            style_at(b, col - content(a).len())
        }),
    decreases b.len(),
{
    if b.len() == 0 {
        assert(a + b =~= a);
    } else {
        let d = b.drop_last();
        assert((a + b).drop_last() =~= a + d);
        assert((a + b).last() == b.last());
        lemma_content_join(a, d);
        if col < content(a).len() + content(d).len() {
            assert forall|k: int| 0 <= k < d.len() implies (#[trigger] d[k]).content.len() > 0 by {
                assert(b[k].content.len() > 0);
            }
            lemma_style_join(a, d, col);
        }
    }
}

proof fn lemma_split(s: SpanView, at: int, from: int, to: int, col: int)
    requires
        s.content.len() > 0,
        from <= to,
        0 <= col < s.content.len(),
    ensures
        ({
            let p = split_reversed(s, at, from, to);
            &&& content(p) == s.content
            &&& forall|k: int| 0 <= k < p.len() ==> (#[trigger] p[k]).content.len() > 0
            &&& style_at(p, col) == (if from <= at + col <= to {
                s.style.with(REVERSED)
            } else {
                s.style
            })
        }),
{
    reveal_with_fuel(content, 5);
    reveal_with_fuel(style_at, 5);
    let n = s.content.len() as int;
    let p = split_reversed(s, at, from, to);
    if at + n <= from || at > to {
        assert(p.drop_last() =~= Seq::<SpanView>::empty());
        assert(content(p) =~= s.content);
    } else {
        let a = if from > at {
            from - at
        } else {
            0
        };
        let b = if to + 1 - at < n {
            to + 1 - at
        } else {
            n
        };
        let head = SpanView { content: s.content.subrange(0, a), ..s };
        let mid = SpanView { content: s.content.subrange(a, b), style: s.style.with(REVERSED) };
        let tail = SpanView { content: s.content.subrange(b, n), ..s };
        let none = Seq::<SpanView>::empty();
        if a > 0 && b < n {
            assert(p =~= seq![head, mid, tail]);
            assert(p.drop_last() =~= seq![head, mid]);
            assert(seq![head, mid].drop_last() =~= seq![head]);
            assert(seq![head].drop_last() =~= none);
        } else if a > 0 {
            assert(p =~= seq![head, mid]);
            assert(p.drop_last() =~= seq![head]);
            assert(seq![head].drop_last() =~= none);
        } else if b < n {
            assert(p =~= seq![mid, tail]);
            assert(p.drop_last() =~= seq![mid]);
            assert(seq![mid].drop_last() =~= none);
        } else {
            assert(p =~= seq![mid]);
            assert(p.drop_last() =~= none);
        }
        assert(content(p) =~= s.content);
    }
}

/// A selection reverses the characters at its columns, and no others; their
/// colours stay.
pub proof fn law_selections_are_reversed(spans: Seq<SpanView>, from: int, to: int, col: int)
    requires
        from <= to,
        0 <= col < content(spans).len(),
        forall|k: int| 0 <= k < spans.len() ==> (#[trigger] spans[k]).content.len() > 0,
    ensures
        content(overlaid(spans, from, to)) == content(spans),
        style_at(overlaid(spans, from, to), col) == (if from <= col <= to {
            style_at(spans, col).with(REVERSED)
        } else {
            style_at(spans, col)
        }),
    decreases spans.len(),
{
    let d = spans.drop_last();
    let last = spans.last();
    assert(last == spans[spans.len() - 1]);
    let at = content(d).len() as int;
    assert forall|k: int| 0 <= k < d.len() implies (#[trigger] d[k]).content.len() > 0 by {
        assert(spans[k].content.len() > 0);
    }
    let o = overlaid(d, from, to);
    let p = split_reversed(last, at, from, to);
    if d.len() == 0 {
        assert(d =~= Seq::<SpanView>::empty());
        assert(o =~= Seq::<SpanView>::empty());
        assert(content(o) =~= content(d));
    } else {
        assert(content(d).len() > 0) by {
            assert(d.last() == d[d.len() - 1]);
        }
        law_selections_are_reversed(d, from, to, if col < at {
            col
        } else {
            0
        });
    }
    lemma_split(last, at, from, to, if col >= at {
        col - at
    } else {
        0
    });
    lemma_content_join(o, p);
    lemma_style_join(o, p, col);
}

// ---------------------------------------------------------------------------
// Languages
// ---------------------------------------------------------------------------

/// The language of a notebook is that of its `language_info`, else that of its
/// kernelspec, else Python.
pub proof fn law_languages(n: NotebookView, m: JsonView, lang: Seq<char>, spec: Seq<char>)
    requires
        lookup(n.extra, "metadata"@) == Some(m),
    ensures
        (m.get("language_info"@) matches Some(i) && i.get("name"@) == Some(JsonView::Str(lang)))
            ==> language_of(n) == lang,
        m.get("language_info"@) is None && (m.get("kernelspec"@) matches Some(k) && k.get(
            "language"@,
        ) == Some(JsonView::Str(spec))) ==> language_of(n) == spec,
        m.get("language_info"@) is None && m.get("kernelspec"@) is None ==> language_of(n)
            == seq!['p', 'y', 't', 'h', 'o', 'n'],
{
    reveal_strlit("python");
    assert("python"@ =~= seq!['p', 'y', 't', 'h', 'o', 'n']);
}

} // verus!
