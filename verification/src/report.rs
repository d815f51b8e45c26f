//! The debug report: everything about the selected cell that helps pin down a
//! bug report — identity, model, render/viewport state, execution, kernel.

use vstd::prelude::*;

use crate::app::App;
#[allow(unused_imports)]
use crate::app::{state, State};
use crate::completion::Completion;
#[allow(unused_imports)]
use crate::completion::CompletionView;
use crate::ids::{IdMap, IdSet};
#[allow(unused_imports)]
use crate::ids::value_of;
use crate::json::Json;
#[allow(unused_imports)]
use crate::json::{keys_in_order, JsonView};
use crate::notebook;
use crate::notebook::Cell;
#[allow(unused_imports)]
use crate::notebook::{multiline, CellView};
use crate::nvim::{Backend, ModeKind};
#[allow(unused_imports)]
use crate::nvim::BackendView;
use crate::text;
#[allow(unused_imports)]
use crate::text::{decimal, join, lines_of, opt_view, signed_decimal, split_on, trim_end, views};
use crate::ui::Rendered;
#[allow(unused_imports)]
use crate::ui::{graphics_text, RenderedView};

verus! {

/// A string member, `?` where there is none.
pub open spec fn named(o: JsonView, k: Seq<char>) -> Seq<char> {
    match o.at(k).as_str() {
        Some(s) => s,
        None => "?"@,
    }
}

/// An output in a few words.
pub open spec fn output_words(o: JsonView) -> Seq<char> {
    let ty = named(o, "output_type"@);
    if ty == "stream"@ {
        "stream:"@ + named(o, "name"@) + " ("@ + decimal(
            lines_of(multiline(o.at("text"@))).len() as int,
        ) + " lines)"@
    } else if ty == "error"@ {
        "error:"@ + named(o, "ename"@)
    } else {
        ty + "["@ + (match o.at("data"@) {
            JsonView::Obj(m) => join(keys_in_order(m), ","@),
            _ => Seq::empty(),
        }) + "]"@
    }
}

pub open spec fn id_or_dash(c: CellView) -> Seq<char> {
    match c.id() {
        Some(id) => id,
        None => "-"@,
    }
}

pub open spec fn count_or_dash(c: CellView) -> Seq<char> {
    match c.execution_count() {
        Some(n) => signed_decimal(n as int),
        None => "-"@,
    }
}

pub open spec fn cell_lines(c: CellView, at: int, n: int) -> Seq<char> {
    "cell "@ + decimal(at + 1) + "/"@ + decimal(n) + " · id "@ + id_or_dash(c) + " · "@
        + c.cell_type + " · execution_count "@ + count_or_dash(c) + "\nsource: "@ + decimal(
        split_on(c.source, '\n').len() as int,
    ) + " lines, "@ + decimal(c.source.len() as int) + " chars\noutputs ("@ + decimal(
        c.outputs_or_empty().len() as int,
    ) + "): "@ + join(
        c.outputs_or_empty().map_values(|o: JsonView| output_words(o)),
        " · "@,
    ) + "\n"@
}

/// The executions of a cell, in a few words each.
pub open spec fn run_words(
    running: Seq<(Seq<char>, usize)>,
    started: Seq<(Seq<char>, u64)>,
    half_done: Seq<Seq<char>>,
    cell: int,
) -> Seq<Seq<char>>
    decreases running.len(),
{
    if running.len() == 0 {
        Seq::empty()
    } else {
        let before = run_words(running.drop_last(), started, half_done, cell);
        let (id, at) = running.last();
        if at == cell {
            before.push(
                (if value_of(started, id) is Some {
                    "running"@
                } else {
                    "queued"@
                }) + (if half_done.contains(id) {
                    ", half-done"@
                } else {
                    ""@
                }) + " msg "@ + id,
            )
        } else {
            before
        }
    }
}

pub open spec fn mode_name(m: ModeKind) -> Seq<char> {
    match m {
        ModeKind::Normal => "Normal"@,
        ModeKind::Insert => "Insert"@,
        ModeKind::Visual => "Visual"@,
        ModeKind::VisualLine => "VisualLine"@,
        ModeKind::VisualBlock => "VisualBlock"@,
        ModeKind::Replace => "Replace"@,
        ModeKind::Pending => "Pending"@,
        ModeKind::Cmdline => "Cmdline"@,
    }
}

pub open spec fn editor_words(e: Option<BackendView>) -> Seq<char> {
    match e {
        None => "closed"@,
        Some(e) => (if e.is_builtin() {
            "builtin"@
        } else {
            "nvim"@
        }) + " "@ + mode_name(e.mode()) + " cursor ("@ + decimal(e.row()) + ", "@ + decimal(e.col())
            + ")"@,
    }
}

pub open spec fn completion_line(c: Option<CompletionView>) -> Seq<char> {
    match c {
        None => ""@,
        Some(c) => "completion: "@ + (if c.all.len() == 0 {
            "pending"@
        } else {
            "open"@
        }) + " · "@ + decimal(c.items.len() as int) + " of "@ + decimal(c.all.len() as int)
            + " matches · chars "@ + decimal(c.start as int) + ".."@ + decimal(c.end as int) + (
        if c.explicit {
            " · Tab\n"@
        } else {
            " · auto\n"@
        }),
    }
}

impl State {
    pub open spec fn cell_report(self) -> Seq<char> {
        match self.app.current() {
            None => "no cell selected (empty notebook)\n"@,
            Some(c) => {
                let run = self.app.run;
                let words = run_words(run.running, run.started, run.half_done, self.app.selected);
                cell_lines(c, self.app.selected, self.app.notebook.cells.len() as int) + (
                if self.app.selected < self.ui.blocks.len() {
                    "render: "@ + self.ui.blocks[self.app.selected].summary() + "\n"@
                } else {
                    ""@
                }) + "exec: "@ + (if words.len() == 0 {
                    "idle"@
                } else {
                    join(words, " · "@)
                }) + "\n"@
            },
        }
    }

    pub open spec fn kernel_report(self) -> Seq<char> {
        match self.app.run.kernel {
            Some(k) => "kernel: "@ + k.name + " ("@ + k.spec_dir + ") · "@ + (
            if self.app.run.kernel_busy {
                "busy"@
            } else {
                "idle"@
            }) + " · "@ + decimal(self.app.run.running.len() as int) + " in flight\n"@,
            None => "kernel: none (requested '"@ + self.app.run.kernel_name + "')\n"@,
        }
    }

    pub open spec fn view_report(self) -> Seq<char> {
        let v = self.app.screen;
        "view: scroll "@ + decimal(v.scroll as int) + " of "@ + decimal(v.content_lines as int)
            + " lines"@ + (if v.manual_scroll {
            " (manual)"@
        } else {
            ""@
        }) + " · body "@ + decimal(v.body.width as int) + "x"@ + decimal(v.body.height as int)
            + "\n"@
    }

    /// The debug report.
    pub open spec fn report(self) -> Seq<char> {
        trim_end(
            "jotter "@ + self.app.version + "\n"@ + self.cell_report() + self.view_report()
                + self.kernel_report() + completion_line(self.app.completion) + "editor: "@
                + editor_words(self.app.editor) + " · graphics: "@ + graphics_text(
                self.ui.look.gallery,
            ) + "\n"@,
        )
    }
}

// ---------------------------------------------------------------------------

fn name_at(o: &Json, key: &str) -> (r: String)
    ensures
        r@ == named(o@, key@),
{
    match o.str_at(key) {
        Some(s) => s.to_owned(),
        None => "?".to_owned(),
    }
}

fn describe_output(o: &Json) -> (r: String)
    ensures
        r@ == output_words(o@),
{
    let ty = name_at(o, "output_type");
    if text::same(ty.as_str(), "stream") {
        let mut s = "stream:".to_owned();
        s.append(name_at(o, "name").as_str());
        s.append(" (");
        let text = notebook::multiline_at(o, "text");
        s.append(text::usize_string(text::lines(text.as_str()).len()).as_str());
        s.append(" lines)");
        s
    } else if text::same(ty.as_str(), "error") {
        text::concat("error:", name_at(o, "ename").as_str())
    } else {
        let mut s = ty;
        s.append("[");
        if let Some(Json::Obj(m)) = o.get("data") {
            s.append(text::join_strings(&m.keys(), ",").as_str());
        } else {
            s.append("");
            proof {
                reveal_strlit("");
                assert(""@ =~= Seq::<char>::empty());
            }
        }
        s.append("]");
        s
    }
}

fn describe_outputs(v: &Vec<Json>) -> (r: Vec<String>)
    ensures
        views(r@) == views(v@).map_values(|o: JsonView| output_words(o)),
{
    let ghost want = views(v@).map_values(|o: JsonView| output_words(o));
    let mut r: Vec<String> = Vec::new();
    let mut i: usize = 0;
    while i < v.len()
        invariant
            i <= v@.len(),
            want == views(v@).map_values(|o: JsonView| output_words(o)),
            r@.len() == i,
            forall|k: int| 0 <= k < i ==> (#[trigger] r@[k])@ == want[k],
        decreases v@.len() - i,
    {
        assert(want[i as int] == output_words(v@[i as int]@));
        r.push(describe_output(&v[i]));
        i += 1;
    }
    assert(views(r@) =~= want);
    r
}

fn describe_cell(c: &Cell, at: usize, n: usize) -> (r: String)
    requires
        at < n,
    ensures
        r@ == cell_lines(c@, at as int, n as int),
{
    let outputs = match &c.outputs {
        Some(v) => describe_outputs(v),
        None => Vec::new(),
    };
    assert(views(outputs@) =~= c@.outputs_or_empty().map_values(|o: JsonView| output_words(o)));
    assert(outputs@.len() == views(outputs@).len());
    let mut s = "cell ".to_owned();
    s.append(text::usize_string(at + 1).as_str());
    s.append("/");
    s.append(text::usize_string(n).as_str());
    s.append(" · id ");
    s.append(
        match c.id() {
            Some(id) => id,
            None => "-",
        },
    );
    s.append(" · ");
    s.append(c.cell_type.as_str());
    s.append(" · execution_count ");
    let count = match c.execution_count() {
        Some(n) => text::signed_decimal_string(n),
        None => "-".to_owned(),
    };
    s.append(count.as_str());
    s.append("\nsource: ");
    s.append(text::usize_string(text::split(c.source.as_str(), '\n').len()).as_str());
    s.append(" lines, ");
    s.append(text::usize_string(c.source.as_str().unicode_len()).as_str());
    s.append(" chars\noutputs (");
    s.append(text::usize_string(outputs.len()).as_str());
    s.append("): ");
    s.append(text::join_strings(&outputs, " · ").as_str());
    s.append("\n");
    s
}

fn describe_runs(
    running: &IdMap<usize>,
    started: &IdMap<u64>,
    half_done: &IdSet,
    cell: usize,
) -> (r: Vec<String>)
    ensures
        views(r@) == run_words(running@, started@, half_done@, cell as int),
{
    let ghost all = running@;
    let n = running.len();
    let mut r: Vec<String> = Vec::new();
    let mut i: usize = 0;
    assert(all.take(0) =~= Seq::empty());
    assert(views(r@) =~= Seq::<Seq<char>>::empty());
    while i < n
        invariant
            i <= n,
            n == running@.len(),
            all == running@,
            views(r@) == run_words(all.take(i as int), started@, half_done@, cell as int),
        decreases n - i,
    {
        let (id, at) = running.entry(i);
        assert(all.take(i + 1).drop_last() =~= all.take(i as int));
        assert(all.take(i + 1).last() == (id@, at));
        if at == cell {
            let mut s = if started.contains_key(id.as_str()) {
                "running".to_owned()
            } else {
                "queued".to_owned()
            };
            s.append(if half_done.contains(id.as_str()) {
                ", half-done"
            } else {
                ""
            });
            s.append(" msg ");
            s.append(id.as_str());
            let ghost r0 = r@;
            r.push(s);
            assert(views(r@) =~= views(r0).push(s@));
        }
        i += 1;
    }
    assert(all.take(i as int) =~= all);
    r
}

pub fn mode_text(m: ModeKind) -> (r: &'static str)
    ensures
        r@ == mode_name(m),
{
    match m {
        ModeKind::Normal => "Normal",
        ModeKind::Insert => "Insert",
        ModeKind::Visual => "Visual",
        ModeKind::VisualLine => "VisualLine",
        ModeKind::VisualBlock => "VisualBlock",
        ModeKind::Replace => "Replace",
        ModeKind::Pending => "Pending",
        ModeKind::Cmdline => "Cmdline",
    }
}

fn describe_editor(e: &Option<Backend>) -> (r: String)
    ensures
        r@ == editor_words(opt_view(*e)),
{
    match e {
        None => "closed".to_owned(),
        Some(e) => {
            let mut s = if e.is_builtin() {
                "builtin".to_owned()
            } else {
                "nvim".to_owned()
            };
            let (row, col) = e.cursor();
            s.append(" ");
            s.append(mode_text(e.mode()));
            s.append(" cursor (");
            s.append(text::usize_string(row).as_str());
            s.append(", ");
            s.append(text::usize_string(col).as_str());
            s.append(")");
            s
        },
    }
}

fn describe_completion(c: &Option<Completion>) -> (r: String)
    ensures
        r@ == completion_line(opt_view(*c)),
{
    match c {
        None => "".to_owned(),
        Some(c) => {
            let mut s = "completion: ".to_owned();
            s.append(if c.all.len() == 0 {
                "pending"
            } else {
                "open"
            });
            s.append(" · ");
            s.append(text::usize_string(c.items.len()).as_str());
            s.append(" of ");
            s.append(text::usize_string(c.all.len()).as_str());
            s.append(" matches · chars ");
            s.append(text::usize_string(c.start).as_str());
            s.append("..");
            s.append(text::usize_string(c.end).as_str());
            s.append(if c.explicit {
                " · Tab\n"
            } else {
                " · auto\n"
            });
            s
        },
    }
}

impl App {
    fn describe_selected(&self, rendered: &Rendered) -> (r: String)
        requires
            state(self, rendered).wf(),
        ensures
            r@ == state(self, rendered).cell_report(),
    {
        let at = self.selected;
        let n = self.notebook.cells.len();
        if at >= n {
            return "no cell selected (empty notebook)\n".to_owned();
        }
        assert(self@.current() == Some(self.notebook.cells@[at as int]@));
        let mut s = describe_cell(&self.notebook.cells[at], at, n);
        assert(rendered.blocks@.len() == rendered@.blocks.len());
        if at < rendered.blocks.len() {
            assert(rendered@.blocks[at as int] == rendered.blocks@[at as int]@);
            assert(rendered@.blocks[at as int].wf());
            let line = text::concat(
                text::concat("render: ", rendered.blocks[at].debug_summary().as_str()).as_str(),
                "\n",
            );
            s.append(line.as_str());
        } else {
            s.append("");
        }
        s.append("exec: ");
        let runs = describe_runs(&self.running, &self.started, &self.half_done, at);
        assert(views(runs@).len() == runs@.len());
        if runs.len() == 0 {
            s.append("idle");
        } else {
            s.append(text::join_strings(&runs, " · ").as_str());
        }
        s.append("\n");
        s
    }

    fn describe_kernel(&self, Ghost(ui): Ghost<RenderedView>) -> (r: String)
        ensures
            r@ == (State { app: self@, ui }).kernel_report(),
    {
        match &self.kernel {
            Some(k) => {
                let mut s = "kernel: ".to_owned();
                s.append(k.name.as_str());
                s.append(" (");
                s.append(k.spec_dir.as_str());
                s.append(") · ");
                s.append(if self.kernel_busy {
                    "busy"
                } else {
                    "idle"
                });
                s.append(" · ");
                s.append(text::usize_string(self.running.len()).as_str());
                s.append(" in flight\n");
                s
            },
            None => {
                let mut s = "kernel: none (requested '".to_owned();
                s.append(self.kernel_name.as_str());
                s.append("')\n");
                s
            },
        }
    }

    fn describe_view(&self, Ghost(ui): Ghost<RenderedView>) -> (r: String)
        ensures
            r@ == (State { app: self@, ui }).view_report(),
    {
        let mut s = "view: scroll ".to_owned();
        s.append(text::usize_string(self.scroll).as_str());
        s.append(" of ");
        s.append(text::usize_string(self.content_lines).as_str());
        s.append(" lines");
        s.append(if self.manual_scroll {
            " (manual)"
        } else {
            ""
        });
        s.append(" · body ");
        s.append(text::decimal_string(self.body.width as u64).as_str());
        s.append("x");
        s.append(text::decimal_string(self.body.height as u64).as_str());
        s.append("\n");
        s
    }

    /// `D`: everything about the selected cell that helps pin down a bug
    /// report — identity, model, render/viewport state, execution, kernel.
    pub fn debug_report(&self, rendered: &Rendered) -> (r: String)
        requires
            state(self, rendered).wf(),
        ensures
            r@ == state(self, rendered).report(),
    {
        let mut out = "jotter ".to_owned();
        out.append(self.version.as_str());
        out.append("\n");
        out.append(self.describe_selected(rendered).as_str());
        out.append(self.describe_view(Ghost(rendered@)).as_str());
        out.append(self.describe_kernel(Ghost(rendered@)).as_str());
        out.append(describe_completion(&self.completion).as_str());
        out.append("editor: ");
        out.append(describe_editor(&self.editor).as_str());
        out.append(" · graphics: ");
        out.append(rendered.graphics_summary().as_str());
        out.append("\n");
        text::trimmed_end(out.as_str())
    }
}

} // verus!
