//! The nbformat 4.x model. Only what the editor touches is typed; everything
//! else lives in `extra`, so that foreign fields survive reading and writing.

use vstd::prelude::*;

use crate::json::{self, Json, Object};
#[allow(unused_imports)]
use crate::json::{lookup, JsonView};
use crate::text;
#[allow(unused_imports)]
use crate::text::{join, opt_view, replaced, split_on, views};

verus! {

/// Lines kept per stream output; older ones are dropped (runaway print loops).
pub const MAX_STREAM_LINES: usize = 10_000;

pub struct Cell {
    pub cell_type: String,
    pub source: String,
    pub outputs: Option<Vec<Json>>,
    /// Everything else (id, metadata, execution_count, ...).
    pub extra: Object,
}

/// Model of a `Cell`.
#[verifier::ext_equal]
pub struct CellView {
    pub cell_type: Seq<char>,
    pub source: Seq<char>,
    pub outputs: Option<Seq<JsonView>>,
    pub extra: Map<Seq<char>, JsonView>,
}

pub open spec fn outputs_view(o: Option<Vec<Json>>) -> Option<Seq<JsonView>> {
    match o {
        Some(v) => Some(views(v@)),
        None => None,
    }
}

impl View for Cell {
    type V = CellView;

    open spec fn view(&self) -> CellView {
        CellView {
            cell_type: self.cell_type@,
            source: self.source@,
            outputs: outputs_view(self.outputs),
            extra: self.extra@,
        }
    }
}

pub struct Notebook {
    pub cells: Vec<Cell>,
    pub extra: Object,
}

/// Model of a `Notebook`.
#[verifier::ext_equal]
pub struct NotebookView {
    pub cells: Seq<CellView>,
    pub extra: Map<Seq<char>, JsonView>,
}

impl View for Notebook {
    type V = NotebookView;

    open spec fn view(&self) -> NotebookView {
        NotebookView { cells: views(self.cells@), extra: self.extra@ }
    }
}

// ---------------------------------------------------------------------------
// Stream text
// ---------------------------------------------------------------------------

/// `part` written over the start of `line`: a shorter part leaves the tail.
pub open spec fn overwrite(line: Seq<char>, part: Seq<char>) -> Seq<char> {
    part + text::after(line, part.len() as int)
}

/// The parts between carriage returns, each written over what is there.
pub open spec fn overwrite_all(parts: Seq<Seq<char>>) -> Seq<char>
    decreases parts.len(),
{
    if parts.len() == 0 {
        Seq::empty()
    } else {
        overwrite(overwrite_all(parts.drop_last()), parts.last())
    }
}

/// One line as a terminal shows it. A carriage return at its end is an
/// overwrite still to come: it is kept, for the next chunk.
pub open spec fn shown_line(line: Seq<char>) -> Seq<char> {
    let acc = overwrite_all(split_on(line, '\r'));
    if line.len() > 0 && line.last() == '\r' {
        acc.push('\r')
    } else {
        acc
    }
}

pub open spec fn shown_lines(lines: Seq<Seq<char>>) -> Seq<Seq<char>> {
    lines.map_values(|l: Seq<char>| shown_line(l))
}

/// `\r\n` is a newline; a bare `\r` returns to the start of the line, and
/// later text overwrites from there.
pub open spec fn collapsed(s: Seq<char>) -> Seq<char> {
    join(shown_lines(split_on(replaced(s, seq!['\r', '\n'], seq!['\n']), '\n')), seq!['\n'])
}

fn show_line(line: &str) -> (r: String)
    ensures
        r@ == shown_line(line@),
{
    let parts = text::split(line, '\r');
    let ghost p = views(parts@);
    let mut acc = String::new();
    let mut i: usize = 0;
    while i < parts.len()
        invariant
            i <= parts@.len(),
            p == views(parts@),
            acc@ == overwrite_all(p.take(i as int)),
        decreases parts@.len() - i,
    {
        assert(p.take(i + 1).drop_last() =~= p.take(i as int));
        let part = parts[i].as_str();
        let tail = text::skip(acc.as_str(), part.unicode_len());
        acc = text::concat(part, tail.as_str());
        i += 1;
    }
    assert(p.take(i as int) =~= p);
    let len = line.unicode_len();
    if len > 0 && line.get_char(len - 1) == '\r' {
        acc.push('\r');
    }
    acc
}

/// Collapses carriage returns, so that progress output never accumulates.
pub fn collapse_cr(s: &str) -> (r: String)
    ensures
        r@ == collapsed(s@),
{
    proof {
        reveal_strlit("\r\n");
        reveal_strlit("\n");
        assert("\r\n"@ =~= seq!['\r', '\n']);
        assert("\n"@ =~= seq!['\n']);
    }
    let unix = text::replace(s, "\r\n", "\n");
    let lines = text::split(unix.as_str(), '\n');
    let ghost l = views(lines@);
    let mut out: Vec<String> = Vec::new();
    let mut i: usize = 0;
    while i < lines.len()
        invariant
            i <= lines@.len(),
            l == views(lines@),
            views(out@) == shown_lines(l.take(i as int)),
        decreases lines@.len() - i,
    {
        let ghost o0 = out@;
        let shown = show_line(lines[i].as_str());
        out.push(shown);
        i += 1;
        assert(views(out@) =~= views(o0).push(shown@));
        assert(shown_lines(l.take(i as int)) =~= shown_lines(l.take(i - 1)).push(
            shown_line(l[i - 1]),
        ));
    }
    assert(l.take(i as int) =~= l);
    text::join_strings(&out, "\n")
}

/// The line put on top of a text whose first lines were dropped.
pub open spec fn truncation_marker() -> Seq<char> {
    "[... output truncated ...]\n"@
}

/// The last `max` lines of `s`, under a marker if lines were dropped.
pub open spec fn capped(s: Seq<char>, max: nat) -> Seq<char> {
    let lines = split_on(s, '\n');
    if max == 0 || lines.len() <= max {
        s
    } else {
        truncation_marker() + join(lines.skip(lines.len() - max), seq!['\n'])
    }
}

/// Keeps only the last `max` lines, with a truncation marker up top.
pub fn cap_lines(s: &str, max: usize) -> (r: String)
    ensures
        r@ == capped(s@, max as nat),
{
    let lines = text::split(s, '\n');
    if max == 0 || lines.len() <= max {
        return s.to_owned();
    }
    let cut = lines.len() - max;
    let mut kept: Vec<String> = Vec::new();
    let mut i: usize = cut;
    while i < lines.len()
        invariant
            cut <= i <= lines@.len(),
            views(kept@) == views(lines@).subrange(cut as int, i as int),
        decreases lines@.len() - i,
    {
        let ghost k0 = kept@;
        kept.push(lines[i].clone());
        i += 1;
        assert(views(kept@) =~= views(k0).push(views(lines@)[i - 1]));
        assert(views(lines@).subrange(cut as int, i as int) =~= views(lines@).subrange(
            cut as int,
            i - 1,
        ).push(views(lines@)[i - 1]));
    }
    assert(views(lines@).subrange(cut as int, i as int) =~= views(lines@).skip(cut as int));
    proof {
        reveal_strlit("\n");
        assert("\n"@ =~= seq!['\n']);
    }
    let tail = text::join_strings(&kept, "\n");
    text::concat("[... output truncated ...]\n", tail.as_str())
}

/// The strings of an array, one after the other; other elements are skipped.
pub open spec fn concat_strings(a: Seq<JsonView>) -> Seq<char>
    decreases a.len(),
{
    if a.len() == 0 {
        Seq::empty()
    } else {
        match a.last() {
            JsonView::Str(s) => concat_strings(a.drop_last()) + s,
            _ => concat_strings(a.drop_last()),
        }
    }
}

/// The text of a multiline string: a string, or a list of strings.
pub open spec fn multiline(v: JsonView) -> Seq<char> {
    match v {
        JsonView::Str(s) => s,
        JsonView::Arr(a) => concat_strings(a),
        _ => Seq::empty(),
    }
}

/// Joins a multiline-string value (string or list of strings).
pub fn join_multiline(v: &Json) -> (r: String)
    ensures
        r@ == multiline(v@),
{
    match v {
        Json::Str(s) => s.clone(),
        Json::Arr(a) => {
            let mut out = String::new();
            let mut i: usize = 0;
            let ghost all = views(a@);
            proof {
                json::lemma_array_view(a@);
            }
            while i < a.len()
                invariant
                    i <= a@.len(),
                    all == views(a@),
                    out@ == concat_strings(all.take(i as int)),
                decreases a@.len() - i,
            {
                assert(all.take(i + 1).drop_last() =~= all.take(i as int));
                assert(all.take(i + 1).last() == a@[i as int]@);
                if let Json::Str(s) = &a[i] {
                    out.append(s.as_str());
                }
                i += 1;
            }
            assert(all.take(i as int) =~= all);
            out
        },
        _ => String::new(),
    }
}

/// The multiline string in member `key`.
pub fn multiline_at(v: &Json, key: &str) -> (r: String)
    ensures
        r@ == multiline(v@.at(key@)),
{
    match v.get(key) {
        Some(m) => join_multiline(m),
        None => String::new(),
    }
}

// ---------------------------------------------------------------------------
// Outputs
// ---------------------------------------------------------------------------

/// The name of the stream that an output belongs to.
pub open spec fn stream_name(o: JsonView) -> Option<Seq<char>> {
    if o.at("output_type"@).as_str() == Some("stream"@) {
        Some(
            match o.at("name"@).as_str() {
                Some(s) => s,
                None => Seq::empty(),
            },
        )
    } else {
        None
    }
}

/// The text that a stream output holds once `chunk` was added to `before`.
pub open spec fn stream_text(before: Seq<char>, chunk: Seq<char>) -> JsonView {
    JsonView::Str(capped(collapsed(before + chunk), MAX_STREAM_LINES as nat))
}

/// The outputs with one more: a stream output goes into the last output if
/// that belongs to the same stream.
pub open spec fn appended(outputs: Seq<JsonView>, o: JsonView) -> Seq<JsonView> {
    match stream_name(o) {
        None => outputs.push(o),
        Some(name) => {
            let chunk = multiline(o.at("text"@));
            if outputs.len() > 0 && stream_name(outputs.last()) == Some(name) {
                outputs.drop_last().push(
                    outputs.last().set(
                        "text"@,
                        stream_text(multiline(outputs.last().at("text"@)), chunk),
                    ),
                )
            } else {
                outputs.push(o.set("text"@, stream_text(Seq::empty(), chunk)))
            }
        },
    }
}

fn stream_of(o: &Json) -> (r: Option<String>)
    ensures
        opt_view(r) == stream_name(o@),
{
    if o.str_is("output_type", "stream") {
        match o.str_at("name") {
            Some(s) => Some(s.to_owned()),
            None => Some(String::new()),
        }
    } else {
        None
    }
}

impl CellView {
    pub open spec fn execution_count(self) -> Option<i64> {
        match lookup(self.extra, "execution_count"@) {
            Some(v) => v.as_i64(),
            None => None,
        }
    }

    pub open spec fn outputs_or_empty(self) -> Seq<JsonView> {
        match self.outputs {
            Some(v) => v,
            None => Seq::empty(),
        }
    }

    pub open spec fn with_output(self, o: JsonView) -> CellView {
        CellView { outputs: Some(appended(self.outputs_or_empty(), o)), ..self }
    }

    /// The id that nbformat gives the cell.
    pub open spec fn id(self) -> Option<Seq<char>> {
        match lookup(self.extra, "id"@) {
            Some(v) => v.as_str(),
            None => None,
        }
    }

    pub open spec fn is_code(self) -> bool {
        self.cell_type == "code"@
    }

    pub open spec fn with_id(self, id: Seq<char>) -> CellView {
        CellView { extra: self.extra.insert("id"@, JsonView::Str(id)), ..self }
    }

    /// An empty code cell.
    pub open spec fn new_code(id: Seq<char>) -> CellView {
        CellView {
            cell_type: "code"@,
            source: Seq::empty(),
            outputs: Some(Seq::empty()),
            extra: Map::empty().insert("metadata"@, JsonView::Obj(Map::empty())).insert(
                "execution_count"@,
                JsonView::Null,
            ).insert("id"@, JsonView::Str(id)),
        }
    }
}

impl Cell {
    /// An empty code cell with this id.
    pub fn new_code(id: &str) -> (r: Cell)
        ensures
            r@ == CellView::new_code(id@),
    {
        let mut extra = Object::new();
        let _ = extra.insert("metadata", Json::Obj(Object::new()));
        let _ = extra.insert("execution_count", Json::Null);
        let _ = extra.insert("id", Json::string(id));
        let outputs: Vec<Json> = Vec::new();
        assert(views(outputs@) =~= Seq::<JsonView>::empty());
        Cell {
            cell_type: "code".to_owned(),
            source: String::new(),
            outputs: Some(outputs),
            extra,
        }
    }

    pub fn execution_count(&self) -> (r: Option<i64>)
        ensures
            r == self@.execution_count(),
    {
        match self.extra.get("execution_count") {
            Some(v) => v.as_i64(),
            None => None,
        }
    }

    pub fn id(&self) -> (r: Option<&str>)
        ensures
            match r {
                Some(s) => self@.id() == Some(s@),
                None => self@.id() is None,
            },
    {
        match self.extra.get("id") {
            Some(v) => v.as_str(),
            None => None,
        }
    }

    pub fn is_code(&self) -> (r: bool)
        ensures
            r == self@.is_code(),
    {
        text::same(self.cell_type.as_str(), "code")
    }

    /// A copy.
    pub fn duplicate(&self) -> (r: Cell)
        ensures
            r@ == self@,
    {
        Cell {
            cell_type: self.cell_type.clone(),
            source: self.source.clone(),
            outputs: match &self.outputs {
                Some(v) => Some(json::duplicate_all(v)),
                None => None,
            },
            extra: self.extra.duplicate(),
        }
    }

    /// Appends a kernel output with nbformat stream semantics: consecutive
    /// same-name streams coalesce into one output, carriage returns overwrite
    /// the current line, and the text is capped to its last lines.
    pub fn push_output(&mut self, output: Json)
        ensures
            final(self)@ == old(self)@.with_output(output@),
    {
        let mut outputs: Vec<Json> = match self.outputs.take() {
            Some(v) => v,
            None => Vec::new(),
        };
        let ghost before = views(outputs@);
        assert(before =~= old(self)@.outputs_or_empty());
        match stream_of(&output) {
            None => {
                let ghost o0 = outputs@;
                outputs.push(output);
                assert(views(outputs@) =~= views(o0).push(output@));
            },
            Some(name) => {
                let chunk = multiline_at(&output, "text");
                let n = outputs.len();
                let mut merge = false;
                if n > 0 {
                    assert(before.last() == outputs@[n - 1]@);
                    match stream_of(&outputs[n - 1]) {
                        Some(last) => {
                            merge = text::same(last.as_str(), name.as_str());
                        },
                        None => {},
                    }
                }
                if merge {
                    let ghost o0 = outputs@;
                    let so_far = multiline_at(&outputs[n - 1], "text");
                    let joined = text::concat(so_far.as_str(), chunk.as_str());
                    let shown = collapse_cr(joined.as_str());
                    let text = cap_lines(shown.as_str(), MAX_STREAM_LINES);
                    match outputs.pop() {
                        Some(last) => {
                            let mut last = last;
                            let ghost l0 = last@;
                            last.set("text", Json::Str(text));
                            outputs.push(last);
                            assert(views(outputs@) =~= views(o0).drop_last().push(last@));
                        },
                        None => {},
                    }
                } else {
                    let shown = collapse_cr(chunk.as_str());
                    let text = cap_lines(shown.as_str(), MAX_STREAM_LINES);
                    assert(Seq::<char>::empty() + chunk@ =~= chunk@);
                    let mut output = output;
                    output.set("text", Json::Str(text));
                    let ghost o0 = outputs@;
                    outputs.push(output);
                    assert(views(outputs@) =~= views(o0).push(output@));
                }
            },
        }
        self.outputs = Some(outputs);
    }
}

/// Copies an optional cell.
pub fn duplicate_opt(c: &Option<Cell>) -> (r: Option<Cell>)
    ensures
        opt_view(r) == opt_view(*c),
{
    match c {
        Some(x) => Some(x.duplicate()),
        None => None,
    }
}

// ---------------------------------------------------------------------------
// Cell ids
// ---------------------------------------------------------------------------

pub open spec fn is_lower_hex(c: char) -> bool {
    text::is_ascii_digit(c) || ('a' <= c && c <= 'f')
}

/// An nbformat cell id as this library makes them: eight hex digits.
pub open spec fn fresh_id(s: Seq<char>) -> bool {
    s.len() == 8 && forall|i: int| 0 <= i < 8 ==> is_lower_hex(#[trigger] s[i])
}

/// `uuid::Uuid::new_v4`, printed with its `Display`: 36 characters, lower-case
/// hex digits with hyphens at positions 8, 13, 18 and 23. Which digits they
/// are is random.
#[verifier::external_body]
fn random_uuid() -> (r: String)
    ensures
        r@.len() == 36,
        forall|i: int|
            0 <= i < 36 ==> if i == 8 || i == 13 || i == 18 || i == 23 {
                #[trigger] r@[i] == '-'
            } else {
                is_lower_hex(r@[i])
            },
{
    uuid::Uuid::new_v4().to_string()
}

/// nbformat cell id: 8 hex chars (schema: 1-64 of [a-zA-Z0-9-_]).
pub fn new_cell_id() -> (r: String)
    ensures
        fresh_id(r@),
{
    let u = random_uuid();
    let id = text::take(u.as_str(), 8);
    assert forall|i: int| 0 <= i < 8 implies is_lower_hex(#[trigger] id@[i]) by {
        assert(id@[i] == u@[i]);
    }
    id
}

impl NotebookView {
    /// The value of an integer member of the notebook.
    pub open spec fn int_at(self, k: Seq<char>) -> Option<i64> {
        match lookup(self.extra, k) {
            Some(v) => v.as_i64(),
            None => None,
        }
    }

    /// An nbformat 4 notebook brought to 4.5: cell `i` gets id `ids[i]` if it
    /// has none, and the minor version is at least 5.
    pub open spec fn upgraded(self, ids: Seq<Seq<char>>) -> NotebookView {
        if self.int_at("nbformat"@) != Some(4i64) {
            self
        } else {
            NotebookView {
                cells: Seq::new(
                    self.cells.len(),
                    |i: int|
                        if self.cells[i].extra.contains_key("id"@) {
                            self.cells[i]
                        } else {
                            self.cells[i].with_id(ids[i])
                        },
                ),
                extra: match self.int_at("nbformat_minor"@) {
                    Some(m) if m >= 5 => self.extra,
                    _ => self.extra.insert("nbformat_minor"@, JsonView::Int(5)),
                },
            }
        }
    }

    /// A notebook with one empty code cell.
    pub open spec fn new_empty(id: Seq<char>) -> NotebookView {
        NotebookView {
            cells: seq![CellView::new_code(id)],
            extra: Map::empty().insert("metadata"@, JsonView::Obj(Map::empty())).insert(
                "nbformat"@,
                JsonView::Int(4),
            ).insert("nbformat_minor"@, JsonView::Int(5)),
        }
    }
}

impl Notebook {
    /// An empty notebook: one code cell with this id.
    pub fn new_empty(id: &str) -> (r: Notebook)
        ensures
            r@ == NotebookView::new_empty(id@),
    {
        let mut extra = Object::new();
        let _ = extra.insert("metadata", Json::Obj(Object::new()));
        let _ = extra.insert("nbformat", Json::Int(4));
        let _ = extra.insert("nbformat_minor", Json::Int(5));
        let mut cells: Vec<Cell> = Vec::new();
        cells.push(Cell::new_code(id));
        assert(views(cells@) =~= seq![CellView::new_code(id@)]);
        Notebook { cells, extra }
    }

    fn int_at(&self, key: &str) -> (r: Option<i64>)
        ensures
            r == self@.int_at(key@),
    {
        match self.extra.get(key) {
            Some(v) => v.as_i64(),
            None => None,
        }
    }

    /// Brings an nbformat 4 notebook to 4.5 with the given ids for the cells
    /// that have none.
    pub fn upgrade_with(&mut self, ids: &Vec<String>)
        requires
            ids@.len() == old(self).cells@.len(),
        ensures
            final(self)@ == old(self)@.upgraded(views(ids@)),
    {
        if self.int_at("nbformat") != Some(4) {
            return;
        }
        let minor = self.int_at("nbformat_minor");
        let old_enough = match minor {
            Some(m) => m >= 5,
            None => false,
        };
        if !old_enough {
            let _ = self.extra.insert("nbformat_minor", Json::Int(5));
        }
        let ghost want = old(self)@.upgraded(views(ids@)).cells;
        let ghost was = old(self)@.cells;
        let mut i: usize = 0;
        while i < self.cells.len()
            invariant
                i <= self.cells@.len(),
                self.cells@.len() == was.len(),
                ids@.len() == was.len(),
                want.len() == was.len(),
                forall|k: int|
                    0 <= k < was.len() ==> #[trigger] want[k] == (if was[k].extra.contains_key(
                        "id"@,
                    ) {
                        was[k]
                    } else {
                        was[k].with_id(views(ids@)[k])
                    }),
                forall|k: int| 0 <= k < i ==> (#[trigger] self.cells@[k])@ == want[k],
                forall|k: int| i <= k < was.len() ==> (#[trigger] self.cells@[k])@ == was[k],
                self.extra@ == old(self)@.upgraded(views(ids@)).extra,
            decreases self.cells@.len() - i,
        {
            assert(self.cells@[i as int]@ == was[i as int]);
            if !self.cells[i].extra.contains_key("id") {
                let _ = self.cells[i].extra.insert("id", Json::string(ids[i].as_str()));
                assert(views(ids@)[i as int] == ids@[i as int]@);
                assert(self.cells@[i as int]@ == want[i as int]);
            }
            i += 1;
        }
        assert(views(self.cells@) =~= want);
    }

    /// nbformat 4.5 made cell ids mandatory: gives id-less cells a random id
    /// and bumps the minor version, so that every cell has a stable identity.
    pub fn upgrade_to_4_5(&mut self)
        ensures
            exists|ids: Seq<Seq<char>>|
                #![trigger old(self)@.upgraded(ids)]
                ids.len() == old(self)@.cells.len() && (forall|i: int|
                    0 <= i < ids.len() ==> fresh_id(#[trigger] ids[i])) && final(self)@ == old(
                    self,
                )@.upgraded(ids),
    {
        let mut ids: Vec<String> = Vec::new();
        while ids.len() < self.cells.len()
            invariant
                ids@.len() <= self.cells@.len(),
                *self == *old(self),
                forall|i: int| 0 <= i < ids@.len() ==> fresh_id((#[trigger] ids@[i])@),
            decreases self.cells@.len() - ids@.len(),
        {
            ids.push(new_cell_id());
        }
        self.upgrade_with(&ids);
        proof {
            let v = views(ids@);
            assert forall|i: int| 0 <= i < v.len() implies fresh_id(#[trigger] v[i]) by {
                assert(v[i] == ids@[i]@);
            }
        }
    }
}

// ---------------------------------------------------------------------------
// Reading and writing
// ---------------------------------------------------------------------------

/// Why a value is no cell.
#[derive(Clone, Copy, Debug, PartialEq, Eq, Structural)]
pub enum CellError {
    NotAnObject,
    NoCellType,
    NoSource,
    BadSource,
    BadOutputs,
}

/// Why a value is no notebook.
#[derive(Clone, Copy, Debug, PartialEq, Eq, Structural)]
pub enum NotebookError {
    NotAnObject,
    NoCells,
    Cell { index: usize, error: CellError },
}

/// Whether every element is a string.
pub open spec fn all_strings(a: Seq<JsonView>) -> bool {
    forall|i: int| 0 <= i < a.len() ==> (#[trigger] a[i]) is Str
}

/// The text of a cell source: a string, or a list of strings.
pub open spec fn source_text(v: JsonView) -> Option<Seq<char>> {
    match v {
        JsonView::Str(s) => Some(s),
        JsonView::Arr(a) => if all_strings(a) {
            Some(concat_strings(a))
        } else {
            None
        },
        _ => None,
    }
}

/// The members of a cell that are not typed.
pub open spec fn untyped(m: Map<Seq<char>, JsonView>) -> Map<Seq<char>, JsonView> {
    m.remove("cell_type"@).remove("source"@).remove("outputs"@)
}

/// The cell that a value stands for.
pub open spec fn parse_cell(v: JsonView) -> Result<CellView, CellError> {
    match v {
        JsonView::Obj(m) => match lookup(m, "cell_type"@) {
            Some(JsonView::Str(t)) => match lookup(m, "source"@) {
                None => Err(CellError::NoSource),
                Some(src) => match source_text(src) {
                    None => Err(CellError::BadSource),
                    Some(s) => match lookup(m, "outputs"@) {
                        Some(JsonView::Arr(a)) => Ok(
                            CellView {
                                cell_type: t,
                                source: s,
                                outputs: Some(a),
                                extra: untyped(m),
                            },
                        ),
                        Some(JsonView::Null) | None => Ok(
                            CellView { cell_type: t, source: s, outputs: None, extra: untyped(m) },
                        ),
                        _ => Err(CellError::BadOutputs),
                    },
                },
            },
            _ => Err(CellError::NoCellType),
        },
        _ => Err(CellError::NotAnObject),
    }
}

/// The cells that a list of values stands for, or what is wrong with the
/// first value that is none.
pub open spec fn parse_cells(a: Seq<JsonView>) -> Result<Seq<CellView>, NotebookError>
    decreases a.len(),
{
    if a.len() == 0 {
        Ok(Seq::empty())
    } else {
        match parse_cells(a.drop_last()) {
            Err(e) => Err(e),
            Ok(cs) => match parse_cell(a.last()) {
                Ok(c) => Ok(cs.push(c)),
                Err(error) => Err(
                    NotebookError::Cell { index: (a.len() - 1) as usize, error },
                ),
            },
        }
    }
}

/// The notebook that a value stands for.
pub open spec fn parse_notebook(v: JsonView) -> Result<NotebookView, NotebookError> {
    match v {
        JsonView::Obj(m) => match lookup(m, "cells"@) {
            Some(JsonView::Arr(a)) => match parse_cells(a) {
                Ok(cells) => Ok(NotebookView { cells, extra: m.remove("cells"@) }),
                Err(e) => Err(e),
            },
            _ => Err(NotebookError::NoCells),
        },
        _ => Err(NotebookError::NotAnObject),
    }
}

/// The lines of a source as a notebook file holds them: each keeps its `\n`.
pub open spec fn source_lines(s: Seq<char>) -> Seq<Seq<char>> {
    let p = split_on(s, '\n');
    let ended = p.drop_last().map_values(|l: Seq<char>| l.push('\n'));
    if p.last().len() == 0 {
        ended
    } else {
        ended.push(p.last())
    }
}

pub open spec fn strings(lines: Seq<Seq<char>>) -> Seq<JsonView> {
    lines.map_values(|l: Seq<char>| JsonView::Str(l))
}

/// `typed` unless `extra` has the member itself.
pub open spec fn or_typed(
    extra: Map<Seq<char>, JsonView>,
    k: Seq<char>,
    typed: JsonView,
) -> Map<Seq<char>, JsonView> {
    if extra.contains_key(k) {
        extra
    } else {
        extra.insert(k, typed)
    }
}

/// A cell as a notebook file holds it.
pub open spec fn cell_json(c: CellView) -> JsonView {
    let a = or_typed(c.extra, "cell_type"@, JsonView::Str(c.cell_type));
    let b = or_typed(a, "source"@, JsonView::Arr(strings(source_lines(c.source))));
    JsonView::Obj(
        match c.outputs {
            Some(o) => or_typed(b, "outputs"@, JsonView::Arr(o)),
            None => b,
        },
    )
}

/// A notebook as its file holds it.
pub open spec fn notebook_json(n: NotebookView) -> JsonView {
    JsonView::Obj(
        or_typed(
            n.extra,
            "cells"@,
            JsonView::Arr(n.cells.map_values(|c: CellView| cell_json(c))),
        ),
    )
}

/// No member in `extra` hides a typed one.
pub open spec fn clean_cell(c: CellView) -> bool {
    &&& !c.extra.contains_key("cell_type"@)
    &&& !c.extra.contains_key("source"@)
    &&& !c.extra.contains_key("outputs"@)
}

pub open spec fn clean(n: NotebookView) -> bool {
    &&& !n.extra.contains_key("cells"@)
    &&& forall|i: int| 0 <= i < n.cells.len() ==> clean_cell(#[trigger] n.cells[i])
}

fn parse_source(v: &Json) -> (r: Option<String>)
    ensures
        opt_view(r) == source_text(v@),
{
    match v {
        Json::Str(s) => Some(s.clone()),
        Json::Arr(a) => {
            proof {
                json::lemma_array_view(a@);
            }
            let mut i: usize = 0;
            while i < a.len()
                invariant
                    i <= a@.len(),
                    v@ == JsonView::Arr(views(a@)),
                    forall|k: int| 0 <= k < i ==> (#[trigger] views(a@)[k]) is Str,
                decreases a@.len() - i,
            {
                assert(views(a@)[i as int] == a@[i as int]@);
                match &a[i] {
                    Json::Str(_) => {},
                    _ => {
                        assert(!(views(a@)[i as int] is Str));
                        return None;
                    },
                }
                i += 1;
            }
            Some(join_multiline(v))
        },
        _ => None,
    }
}

impl Cell {
    /// The cell that a JSON value stands for.
    pub fn from_json(v: Json) -> (r: Result<Cell, CellError>)
        ensures
            match r {
                Ok(c) => parse_cell(v@) == Ok::<CellView, CellError>(c@) && clean_cell(c@),
                Err(e) => parse_cell(v@) == Err::<CellView, CellError>(e),
            },
    {
        let mut extra = match v {
            Json::Obj(o) => o,
            _ => {
                return Err(CellError::NotAnObject);
            },
        };
        let ghost m = extra@;
        proof {
            lemma_cell_keys();
        }
        let cell_type = match extra.remove("cell_type") {
            Some(Json::Str(t)) => t,
            _ => {
                return Err(CellError::NoCellType);
            },
        };
        assert(lookup(extra@, "source"@) == lookup(m, "source"@));
        let source = match extra.remove("source") {
            Some(s) => match parse_source(&s) {
                Some(t) => t,
                None => {
                    return Err(CellError::BadSource);
                },
            },
            None => {
                return Err(CellError::NoSource);
            },
        };
        assert(lookup(extra@, "outputs"@) == lookup(m, "outputs"@));
        let outputs: Option<Vec<Json>> = match extra.remove("outputs") {
            Some(Json::Arr(a)) => {
                proof {
                    json::lemma_array_view(a@);
                }
                Some(a)
            },
            Some(Json::Null) | None => None,
            _ => {
                return Err(CellError::BadOutputs);
            },
        };
        Ok(Cell { cell_type, source, outputs, extra })
    }

    /// The cell as a notebook file holds it.
    pub fn to_json(&self) -> (r: Json)
        ensures
            r@ == cell_json(self@),
    {
        let mut o = self.extra.duplicate();
        if !o.contains_key("cell_type") {
            let _ = o.insert("cell_type", Json::Str(self.cell_type.clone()));
        }
        if !o.contains_key("source") {
            let _ = o.insert("source", Json::Arr(source_list(self.source.as_str())));
        }
        if let Some(v) = &self.outputs {
            if !o.contains_key("outputs") {
                let copy = json::duplicate_all(v);
                proof {
                    json::lemma_array_view(copy@);
                }
                let _ = o.insert("outputs", Json::Arr(copy));
            }
        }
        Json::Obj(o)
    }
}

/// The lines of a source, as strings of a notebook file.
fn source_list(s: &str) -> (r: Vec<Json>)
    ensures
        json::array_view(r@) == strings(source_lines(s@)),
{
    let p = text::split(s, '\n');
    let ghost pieces = views(p@);
    let mut out: Vec<Json> = Vec::new();
    let mut i: usize = 0;
    let n = p.len();
    while i + 1 < n
        invariant
            n == p.len(),
            i + 1 <= n,
            pieces == views(p@),
            views(out@) == strings(pieces.take(i as int).map_values(|l: Seq<char>| l.push('\n'))),
        decreases n - i,
    {
        let ghost o0 = out@;
        let mut line = p[i].clone();
        line.push('\n');
        out.push(Json::Str(line));
        assert(views(out@) =~= views(o0).push(JsonView::Str(line@)));
        assert(pieces[i as int] == p@[i as int]@);
        i += 1;
        assert(pieces.take(i as int) =~= pieces.take(i - 1).push(pieces[i - 1]));
        assert(strings(pieces.take(i as int).map_values(|l: Seq<char>| l.push('\n'))) =~= strings(
            pieces.take(i - 1).map_values(|l: Seq<char>| l.push('\n')),
        ).push(JsonView::Str(pieces[i - 1].push('\n'))));
    }
    assert(pieces.take(i as int) =~= pieces.drop_last());
    assert(pieces.last() == p@[i as int]@);
    if !p[i].as_str().is_empty() {
        let ghost o0 = out@;
        out.push(Json::Str(p[i].clone()));
        assert(views(out@) =~= views(o0).push(JsonView::Str(pieces.last())));
        assert(strings(source_lines(s@)) =~= strings(
            pieces.drop_last().map_values(|l: Seq<char>| l.push('\n')),
        ).push(JsonView::Str(pieces.last())));
    }
    proof {
        json::lemma_array_view(out@);
    }
    out
}

/// The typed members of a cell have different names.
pub proof fn lemma_cell_keys()
    ensures
        "cell_type"@ != "source"@,
        "cell_type"@ != "outputs"@,
        "source"@ != "outputs"@,
{
    reveal_strlit("cell_type");
    reveal_strlit("source");
    reveal_strlit("outputs");
    assert("cell_type"@.len() == 9);
    assert("source"@.len() == 6);
    assert("outputs"@.len() == 7);
}

impl Notebook {
    /// The notebook that a JSON value stands for.
    pub fn from_json(v: Json) -> (r: Result<Notebook, NotebookError>)
        ensures
            match r {
                Ok(n) => parse_notebook(v@) == Ok::<NotebookView, NotebookError>(n@) && clean(n@),
                Err(e) => parse_notebook(v@) == Err::<NotebookView, NotebookError>(e),
            },
    {
        let mut extra = match v {
            Json::Obj(o) => o,
            _ => {
                return Err(NotebookError::NotAnObject);
            },
        };
        let values = match extra.remove("cells") {
            Some(Json::Arr(a)) => a,
            _ => {
                return Err(NotebookError::NoCells);
            },
        };
        let ghost all = views(values@);
        proof {
            json::lemma_array_view(values@);
        }
        let mut values = values;
        let n = values.len();
        let mut rest: Vec<Json> = Vec::new();
        // the values, last one first, so that they can be taken from the end
        while values.len() > 0
            invariant
                n == all.len(),
                values@.len() + rest@.len() == n,
                forall|k: int| 0 <= k < values@.len() ==> (#[trigger] values@[k])@ == all[k],
                forall|k: int|
                    0 <= k < rest@.len() ==> (#[trigger] rest@[k])@ == all[n - 1 - k],
            decreases values@.len(),
        {
            let ghost v0 = values@;
            match values.pop() {
                Some(x) => {
                    assert(v0[v0.len() - 1]@ == all[v0.len() - 1]);
                    rest.push(x);
                },
                None => {},
            }
        }
        let mut cells: Vec<Cell> = Vec::new();
        assert(views(cells@) =~= Seq::<CellView>::empty());
        while rest.len() > 0
            invariant
                n == all.len(),
                cells@.len() + rest@.len() == n,
                forall|k: int|
                    0 <= k < rest@.len() ==> (#[trigger] rest@[k])@ == all[n - 1 - k],
                forall|k: int| 0 <= k < cells@.len() ==> clean_cell((#[trigger] cells@[k])@),
                parse_cells(all.take(cells@.len() as int)) == Ok::<Seq<CellView>, NotebookError>(
                    views(cells@),
                ),
                parse_notebook(v@) == (match parse_cells(all) {
                    Ok(cells) => Ok(NotebookView { cells, extra: extra@ }),
                    Err(e) => Err(e),
                }),
                !extra@.contains_key("cells"@),
            decreases rest@.len(),
        {
            let ghost r0 = rest@;
            let at = cells.len();
            match rest.pop() {
                Some(x) => {
                    assert(r0[r0.len() - 1]@ == all[at as int]);
                    let ghost p = all.take(at + 1);
                    assert(p.drop_last() =~= all.take(at as int));
                    assert(p.last() == x@);
                    match Cell::from_json(x) {
                        Ok(c) => {
                            let ghost c0 = cells@;
                            cells.push(c);
                            assert(views(cells@) =~= views(c0).push(c@));
                        },
                        Err(error) => {
                            proof {
                                lemma_first_error(all, at + 1);
                            }
                            return Err(NotebookError::Cell { index: at, error });
                        },
                    }
                },
                None => {},
            }
        }
        assert(all.take(n as int) =~= all);
        Ok(Notebook { cells, extra })
    }

    /// The notebook as its file holds it.
    pub fn to_json(&self) -> (r: Json)
        ensures
            r@ == notebook_json(self@),
    {
        let mut o = self.extra.duplicate();
        if !o.contains_key("cells") {
            let ghost all = self@.cells;
            let mut out: Vec<Json> = Vec::new();
            let mut i: usize = 0;
            while i < self.cells.len()
                invariant
                    i <= self.cells@.len(),
                    all == views(self.cells@),
                    views(out@) == all.take(i as int).map_values(|c: CellView| cell_json(c)),
                decreases self.cells@.len() - i,
            {
                let ghost o0 = out@;
                let c = self.cells[i].to_json();
                out.push(c);
                i += 1;
                assert(views(out@) =~= views(o0).push(c@));
                assert(all.take(i as int) =~= all.take(i - 1).push(all[i - 1]));
                assert(all.take(i as int).map_values(|c: CellView| cell_json(c)) =~= all.take(
                    i - 1,
                ).map_values(|c: CellView| cell_json(c)).push(cell_json(all[i - 1])));
            }
            assert(all.take(i as int) =~= all);
            proof {
                json::lemma_array_view(out@);
            }
            let _ = o.insert("cells", Json::Arr(out));
        }
        Json::Obj(o)
    }

    /// A copy.
    pub fn duplicate(&self) -> (r: Notebook)
        ensures
            r@ == self@,
    {
        let mut cells: Vec<Cell> = Vec::new();
        let mut i: usize = 0;
        while i < self.cells.len()
            invariant
                i <= self.cells@.len(),
                views(cells@) == views(self.cells@).take(i as int),
            decreases self.cells@.len() - i,
        {
            let ghost c0 = cells@;
            let c = self.cells[i].duplicate();
            cells.push(c);
            i += 1;
            assert(views(cells@) =~= views(c0).push(c@));
            assert(views(self.cells@).take(i as int) =~= views(self.cells@).take(i - 1).push(
                views(self.cells@)[i - 1],
            ));
        }
        assert(views(self.cells@).take(i as int) =~= views(self.cells@));
        Notebook { cells, extra: self.extra.duplicate() }
    }
}

/// An error in a prefix of the cells is the error of them all.
proof fn lemma_first_error(a: Seq<JsonView>, n: int)
    requires
        0 <= n <= a.len(),
        parse_cells(a.take(n)) is Err,
    ensures
        parse_cells(a) == parse_cells(a.take(n)),
    decreases a.len(),
{
    if n == a.len() {
        assert(a.take(n) =~= a);
    } else {
        assert(a.drop_last().take(n) =~= a.take(n));
        lemma_first_error(a.drop_last(), n);
    }
}

// ---------------------------------------------------------------------------
// Laws
// ---------------------------------------------------------------------------

/// The lines of a source, one after the other, are the source.
pub proof fn law_source_lines_concatenate(s: Seq<char>)
    ensures
        concat_strings(strings(source_lines(s))) == s,
        all_strings(strings(source_lines(s))),
    decreases s.len(),
{
    let lines = strings(source_lines(s));
    assert(all_strings(lines));
    if s.len() == 0 {
        assert(split_on(s, '\n').drop_last() =~= Seq::<Seq<char>>::empty());
        assert(lines =~= Seq::empty());
        assert(concat_strings(lines) =~= s);
    } else {
        let h = s.drop_last();
        law_source_lines_concatenate(h);
        text::lemma_split_nonempty(h, '\n');
        let hp = split_on(h, '\n');
        let p = split_on(s, '\n');
        let hl = strings(source_lines(h));
        let hended = strings(hp.drop_last().map_values(|l: Seq<char>| l.push('\n')));
        assert(h.push(s.last()) =~= s);
        if hp.last().len() == 0 {
            assert(hl =~= hended);
        } else {
            assert(hl =~= hended.push(JsonView::Str(hp.last())));
            assert(hl.drop_last() =~= hended);
        }
        assert(concat_strings(hended) + hp.last() =~= h);
        if s.last() == '\n' {
            assert(p.drop_last() =~= hp);
            assert(p.last().len() == 0);
            let last = hp.last().push('\n');
            assert(lines =~= hended.push(JsonView::Str(last)));
            assert(lines.drop_last() =~= hended);
            assert(concat_strings(lines) =~= concat_strings(hended) + last);
        } else {
            assert(p.drop_last() =~= hp.drop_last());
            let last = hp.last().push(s.last());
            assert(p.last() == last);
            assert(lines =~= hended.push(JsonView::Str(last)));
            assert(lines.drop_last() =~= hended);
            assert(concat_strings(lines) =~= concat_strings(hended) + last);
        }
    }
}

/// Reading a cell that was written gives the cell back.
pub proof fn law_read_gives_back_a_written_cell(c: CellView)
    requires
        clean_cell(c),
    ensures
        parse_cell(cell_json(c)) == Ok::<CellView, CellError>(c),
{
    lemma_cell_keys();
    law_source_lines_concatenate(c.source);
    match cell_json(c) {
        JsonView::Obj(m) => {
            assert(untyped(m) =~= c.extra);
        },
        _ => {},
    }
}

/// Reading a notebook that was written gives the notebook back: cells, ids,
/// metadata and every foreign field.
pub proof fn law_read_gives_back_what_was_written(n: NotebookView)
    requires
        clean(n),
    ensures
        parse_notebook(notebook_json(n)) == Ok::<NotebookView, NotebookError>(n),
{
    let a = n.cells.map_values(|c: CellView| cell_json(c));
    lemma_cells_read_back(n.cells);
    match notebook_json(n) {
        JsonView::Obj(m) => {
            assert(m.remove("cells"@) =~= n.extra);
        },
        _ => {},
    }
}

proof fn lemma_cells_read_back(cells: Seq<CellView>)
    requires
        forall|i: int| 0 <= i < cells.len() ==> clean_cell(#[trigger] cells[i]),
    ensures
        parse_cells(cells.map_values(|c: CellView| cell_json(c))) == Ok::<
            Seq<CellView>,
            NotebookError,
        >(cells),
    decreases cells.len(),
{
    let a = cells.map_values(|c: CellView| cell_json(c));
    if cells.len() == 0 {
        assert(cells =~= Seq::empty());
        assert(a =~= Seq::empty());
    } else {
        let d = cells.drop_last();
        assert forall|i: int| 0 <= i < d.len() implies clean_cell(#[trigger] d[i]) by {
            assert(clean_cell(cells[i]));
        }
        lemma_cells_read_back(d);
        assert(a.drop_last() =~= d.map_values(|c: CellView| cell_json(c)));
        assert(a.last() == cell_json(cells.last()));
        assert(clean_cell(cells[cells.len() - 1]));
        law_read_gives_back_a_written_cell(cells.last());
        assert(d.push(cells.last()) =~= cells);
    }
}

/// A cell in the form that jupyter tools write: the source is a list of
/// lines, and `outputs`, where present, is a list.
pub open spec fn canonical_cell(v: JsonView) -> bool {
    match v {
        JsonView::Obj(m) => {
            &&& lookup(m, "cell_type"@) matches Some(JsonView::Str(t))
            &&& lookup(m, "source"@) matches Some(JsonView::Arr(a)) && all_strings(a) && a
                == strings(source_lines(concat_strings(a)))
            &&& m.contains_key("outputs"@) ==> m["outputs"@] is Arr
        },
        _ => false,
    }
}

/// A notebook in the form that jupyter tools write.
pub open spec fn canonical(v: JsonView) -> bool {
    match v {
        JsonView::Obj(m) => lookup(m, "cells"@) matches Some(JsonView::Arr(a)) && forall|i: int|
            0 <= i < a.len() ==> canonical_cell(#[trigger] a[i]),
        _ => false,
    }
}

/// A canonical cell is read, and written back as it was.
pub proof fn law_canonical_cells_survive(v: JsonView)
    requires
        canonical_cell(v),
    ensures
        parse_cell(v) is Ok,
        cell_json(parse_cell(v)->Ok_0) == v,
{
    lemma_cell_keys();
    match v {
        JsonView::Obj(m) => {
            let c = parse_cell(v)->Ok_0;
            assert(c.extra == untyped(m));
            match cell_json(c) {
                JsonView::Obj(w) => {
                    assert(w =~= m);
                },
                _ => {},
            }
        },
        _ => {},
    }
}

/// Opening and saving is lossless: a canonical notebook is read, and written
/// back as it was, foreign fields included.
pub proof fn law_round_trip_is_lossless(v: JsonView)
    requires
        canonical(v),
    ensures
        parse_notebook(v) is Ok,
        notebook_json(parse_notebook(v)->Ok_0) == v,
{
    match v {
        JsonView::Obj(m) => {
            match m["cells"@] {
                JsonView::Arr(a) => {
                    lemma_cells_survive(a);
                    let n = parse_notebook(v)->Ok_0;
                    match notebook_json(n) {
                        JsonView::Obj(w) => {
                            assert(w =~= m);
                        },
                        _ => {},
                    }
                },
                _ => {},
            }
        },
        _ => {},
    }
}

proof fn lemma_cells_survive(a: Seq<JsonView>)
    requires
        forall|i: int| 0 <= i < a.len() ==> canonical_cell(#[trigger] a[i]),
    ensures
        parse_cells(a) is Ok,
        (parse_cells(a)->Ok_0).map_values(|c: CellView| cell_json(c)) == a,
    decreases a.len(),
{
    if a.len() > 0 {
        let d = a.drop_last();
        assert forall|i: int| 0 <= i < d.len() implies canonical_cell(#[trigger] d[i]) by {
            assert(canonical_cell(a[i]));
        }
        lemma_cells_survive(d);
        assert(canonical_cell(a[a.len() - 1]));
        law_canonical_cells_survive(a.last());
        let cs = parse_cells(d)->Ok_0;
        let c = parse_cell(a.last())->Ok_0;
        assert(cs.push(c).map_values(|c: CellView| cell_json(c)) =~= cs.map_values(
            |c: CellView| cell_json(c),
        ).push(cell_json(c)));
        assert(d.push(a.last()) =~= a);
    } else {
        assert((parse_cells(a)->Ok_0).map_values(|c: CellView| cell_json(c)) =~= a);
    }
}

/// After an upgrade every cell of an nbformat 4 notebook has an id, and what
/// had one keeps it; nothing else of a cell changes.
pub proof fn law_upgraded_cells_have_ids(n: NotebookView, ids: Seq<Seq<char>>, i: int)
    requires
        ids.len() == n.cells.len(),
        n.int_at("nbformat"@) == Some(4i64),
        0 <= i < n.cells.len(),
    ensures
        n.upgraded(ids).cells[i].extra.contains_key("id"@),
        n.cells[i].extra.contains_key("id"@) ==> n.upgraded(ids).cells[i] == n.cells[i],
        n.upgraded(ids).cells[i].source == n.cells[i].source,
        n.upgraded(ids).cells[i].outputs == n.cells[i].outputs,
        n.upgraded(ids).int_at("nbformat_minor"@) matches Some(m) && m >= 5,
{
}

// ---------------------------------------------------------------------------
// Comparing
// ---------------------------------------------------------------------------

/// Whether two cells show the same: type, source and outputs.
pub open spec fn same_content(a: CellView, b: CellView) -> bool {
    a.cell_type == b.cell_type && a.source == b.source && a.outputs == b.outputs
}

/// Whether both lists have a cell at `i` and the two show the same.
pub open spec fn same_at(a: Seq<CellView>, b: Seq<CellView>, i: int) -> bool {
    i < a.len() && i < b.len() && same_content(a[i], b[i])
}

/// Number of positions, up to `n`, at which two cell lists differ.
pub open spec fn differing(a: Seq<CellView>, b: Seq<CellView>, n: nat) -> nat
    decreases n,
{
    if n == 0 {
        0
    } else {
        differing(a, b, (n - 1) as nat) + if same_at(a, b, n - 1) {
            0nat
        } else {
            1nat
        }
    }
}

pub open spec fn longer(a: nat, b: nat) -> nat {
    if a >= b {
        a
    } else {
        b
    }
}

fn same_outputs(a: &Option<Vec<Json>>, b: &Option<Vec<Json>>) -> (r: bool)
    ensures
        r == (outputs_view(*a) == outputs_view(*b)),
{
    match (a, b) {
        (None, None) => true,
        (Some(x), Some(y)) => {
            if x.len() != y.len() {
                assert(views(x@).len() != views(y@).len());
                return false;
            }
            let mut i: usize = 0;
            while i < x.len()
                invariant
                    i <= x@.len(),
                    x@.len() == y@.len(),
                    outputs_view(*a) == Some(views(x@)),
                    outputs_view(*b) == Some(views(y@)),
                    forall|k: int| 0 <= k < i ==> views(x@)[k] == views(y@)[k],
                decreases x@.len() - i,
            {
                if !x[i].equal(&y[i]) {
                    assert(views(x@)[i as int] == x@[i as int]@);
                    assert(views(y@)[i as int] == y@[i as int]@);
                    return false;
                }
                i += 1;
            }
            assert(views(x@) =~= views(y@));
            true
        },
        _ => false,
    }
}

/// Cells whose type/source/outputs differ (ids are ignored: a pre-4.5 file
/// gets fresh random ids on every load).
pub fn differing_cells(a: &Notebook, b: &Notebook) -> (r: usize)
    ensures
        r == differing(a@.cells, b@.cells, longer(a@.cells.len(), b@.cells.len())),
{
    let n = if a.cells.len() >= b.cells.len() {
        a.cells.len()
    } else {
        b.cells.len()
    };
    let mut count: usize = 0;
    let mut i: usize = 0;
    while i < n
        invariant
            i <= n,
            n == longer(a@.cells.len(), b@.cells.len()),
            count <= i,
            count == differing(a@.cells, b@.cells, i as nat),
        decreases n - i,
    {
        let mut equal = false;
        if i < a.cells.len() && i < b.cells.len() {
            let x = &a.cells[i];
            let y = &b.cells[i];
            assert(a@.cells[i as int] == x@);
            assert(b@.cells[i as int] == y@);
            equal = text::same(x.cell_type.as_str(), y.cell_type.as_str()) && text::same(
                x.source.as_str(),
                y.source.as_str(),
            ) && same_outputs(&x.outputs, &y.outputs);
        }
        if !equal {
            count += 1;
        }
        i += 1;
    }
    count
}

/// No cell differs exactly when the two lists show the same.
pub proof fn law_nothing_differs_iff_same(a: Seq<CellView>, b: Seq<CellView>)
    ensures
        (differing(a, b, longer(a.len(), b.len())) == 0) == (a.len() == b.len() && forall|i: int|
            0 <= i < a.len() ==> same_content(#[trigger] a[i], b[i])),
{
    let n = longer(a.len(), b.len());
    lemma_differing_zero(a, b, n);
    if differing(a, b, n) == 0 {
        assert(n > 0 ==> same_at(a, b, n - 1));
        assert forall|i: int| 0 <= i < a.len() implies same_content(#[trigger] a[i], b[i]) by {
            assert(same_at(a, b, i));
        }
    }
}

proof fn lemma_differing_zero(a: Seq<CellView>, b: Seq<CellView>, n: nat)
    ensures
        (differing(a, b, n) == 0) == (forall|i: int| 0 <= i < n ==> #[trigger] same_at(a, b, i)),
    decreases n,
{
    if n > 0 {
        lemma_differing_zero(a, b, (n - 1) as nat);
        assert(differing(a, b, n) == 0 ==> same_at(a, b, n - 1));
    }
}

// ---------------------------------------------------------------------------
// Streams
// ---------------------------------------------------------------------------

/// Consecutive chunks of a stream are one output: a chunk after an output of
/// its stream goes into it, and nothing else changes.
pub proof fn law_stream_chunks_coalesce(outputs: Seq<JsonView>, o: JsonView)
    requires
        stream_name(o) is Some,
        outputs.len() > 0,
        stream_name(outputs.last()) == stream_name(o),
    ensures
        appended(outputs, o).len() == outputs.len(),
        appended(outputs, o).drop_last() == outputs.drop_last(),
        stream_name(appended(outputs, o).last()) == stream_name(o),
        appended(outputs, o).last().at("text"@) == stream_text(
            multiline(outputs.last().at("text"@)),
            multiline(o.at("text"@)),
        ),
{
    reveal_strlit("text");
    reveal_strlit("output_type");
    reveal_strlit("name");
    assert("text"@.len() == 4 && "output_type"@.len() == 11);
    assert("text"@[0] == 't' && "name"@[0] == 'n');
    assert(appended(outputs, o).drop_last() =~= outputs.drop_last());
}

/// Other outputs, and chunks of another stream, come after what is there.
pub proof fn law_other_outputs_are_added(outputs: Seq<JsonView>, o: JsonView)
    requires
        outputs.len() == 0 || stream_name(outputs.last()) != stream_name(o) || stream_name(o)
            is None,
    ensures
        appended(outputs, o).len() == outputs.len() + 1,
        appended(outputs, o).drop_last() == outputs,
{
    assert(appended(outputs, o).drop_last() =~= outputs);
}

/// Splitting what was joined gives the pieces back, if none holds the
/// separator.
proof fn lemma_split_join(parts: Seq<Seq<char>>, sep: char)
    requires
        parts.len() > 0,
        forall|i: int| 0 <= i < parts.len() ==> !(#[trigger] parts[i]).contains(sep),
    ensures
        split_on(join(parts, seq![sep]), sep) == parts,
    decreases parts.len(),
{
    let last = parts.last();
    if parts.len() == 1 {
        lemma_split_one(Seq::empty(), last, sep);
        assert(Seq::<char>::empty() + last =~= last);
        assert(parts =~= seq![last]);
    } else {
        let head = parts.drop_last();
        assert forall|i: int| 0 <= i < head.len() implies !(#[trigger] head[i]).contains(sep) by {
            assert(head[i] == parts[i]);
        }
        lemma_split_join(head, sep);
        let before = join(head, seq![sep]) + seq![sep];
        assert(before.drop_last() =~= join(head, seq![sep]));
        assert(split_on(before, sep) =~= head.push(Seq::empty()));
        lemma_split_one(before, last, sep);
        assert(split_on(before, sep).drop_last() =~= head);
        assert(Seq::<char>::empty() + last =~= last);
        assert(head.push(last) =~= parts);
    }
}

/// Text without a separator goes on with the last piece.
proof fn lemma_split_one(a: Seq<char>, b: Seq<char>, sep: char)
    requires
        !b.contains(sep),
    ensures
        split_on(a + b, sep) == split_on(a, sep).drop_last().push(split_on(a, sep).last() + b),
    decreases b.len(),
{
    text::lemma_split_nonempty(a, sep);
    let p = split_on(a, sep);
    if b.len() == 0 {
        assert(a + b =~= a);
        assert(p.last() + b =~= p.last());
        assert(p.drop_last().push(p.last()) =~= p);
    } else {
        let h = b.drop_last();
        assert(b[b.len() - 1] == b.last());
        assert forall|k: int| 0 <= k < h.len() implies h[k] != sep by {
            assert(b[k] == h[k]);
        }
        lemma_split_one(a, h, sep);
        assert((a + b).drop_last() =~= a + h);
        assert((a + b).last() == b.last());
        let q = split_on(a + h, sep);
        assert(q.last() == p.last() + h);
        assert((p.last() + h).push(b.last()) =~= p.last() + b);
        assert(q.drop_last() =~= p.drop_last());
    }
}

/// A stream keeps its last lines: where it is too long, the first line says
/// so, and the last `max` lines are there as they were.
pub proof fn law_a_long_stream_keeps_its_last_lines(s: Seq<char>, max: nat)
    requires
        max > 0,
    ensures
        split_on(capped(s, max), '\n').len() <= max + 1,
        ({
            let lines = split_on(s, '\n');
            let kept = split_on(capped(s, max), '\n');
            let n = if lines.len() <= max {
                lines.len()
            } else {
                max
            };
            kept.skip(kept.len() - n) == lines.skip(lines.len() - n)
        }),
{
    let lines = split_on(s, '\n');
    text::lemma_split_nonempty(s, '\n');
    if lines.len() <= max {
        assert(lines.skip(lines.len() - lines.len()) =~= lines);
    } else {
        reveal_strlit("[... output truncated ...]\n");
        let marker = truncation_marker();
        let title = marker.drop_last();
        let last = lines.skip(lines.len() - max);
        let parts = seq![title] + last;
        assert forall|i: int| 0 <= i < parts.len() implies !(#[trigger] parts[i]).contains('\n') by {
            if i > 0 {
                assert(parts[i] == lines[lines.len() - max + i - 1]);
                text::lemma_split_clean(s, '\n', lines.len() - max + i - 1);
            }
        }
        lemma_join_first(title, last);
        assert(title + seq!['\n'] =~= marker);
        assert(capped(s, max) == join(parts, seq!['\n']));
        lemma_split_join(parts, '\n');
        assert(parts.skip(parts.len() - max) =~= last);
    }
}

/// A piece before others that are joined.
proof fn lemma_join_first(a: Seq<char>, rest: Seq<Seq<char>>)
    requires
        rest.len() > 0,
    ensures
        join(seq![a] + rest, seq!['\n']) == a + seq!['\n'] + join(rest, seq!['\n']),
    decreases rest.len(),
{
    let all = seq![a] + rest;
    assert(all.drop_last() =~= seq![a] + rest.drop_last());
    if rest.len() == 1 {
        assert(all.drop_last() =~= seq![a]);
        assert(join(seq![a], seq!['\n']) == a);
        assert(join(rest, seq!['\n']) == rest[0]);
    } else {
        lemma_join_first(a, rest.drop_last());
        assert(join(all, seq!['\n']) =~= a + seq!['\n'] + join(rest, seq!['\n']));
    }
}

// ---------------------------------------------------------------------------
// Collapsing chunk by chunk
// ---------------------------------------------------------------------------

/// The pieces of two texts in a row: the last of the first goes on with the
/// first of the second.
proof fn lemma_split_concat(a: Seq<char>, b: Seq<char>, sep: char)
    ensures
        split_on(a + b, sep) == split_on(a, sep).drop_last() + seq![
            split_on(a, sep).last() + split_on(b, sep)[0],
        ] + split_on(b, sep).skip(1),
    decreases b.len(),
{
    let p = split_on(a, sep);
    text::lemma_split_nonempty(a, sep);
    text::lemma_split_nonempty(b, sep);
    if b.len() == 0 {
        assert(a + b =~= a);
        assert(p.last() + split_on(b, sep)[0] =~= p.last());
        assert(p.drop_last() + seq![p.last()] + split_on(b, sep).skip(1) =~= p);
    } else {
        let h = b.drop_last();
        lemma_split_concat(a, h, sep);
        text::lemma_split_nonempty(h, sep);
        assert((a + b).drop_last() =~= a + h);
        let q = split_on(h, sep);
        let goal = p.drop_last() + seq![p.last() + split_on(b, sep)[0]] + split_on(b, sep).skip(1);
        let before = split_on(a + h, sep);
        assert(before.len() == p.len() + q.len() - 1);
        if b.last() == sep {
            assert(split_on(b, sep) =~= q.push(Seq::empty()));
            assert(before.push(Seq::empty()) =~= goal);
        } else {
            let longer = q.last().push(b.last());
            assert(split_on(b, sep) =~= q.drop_last().push(longer));
            if q.len() == 1 {
                assert(before.last() == p.last() + q[0]);
                assert(before.last().push(b.last()) =~= p.last() + longer);
            } else {
                assert(before.last() == q.last());
            }
            assert(before.drop_last().push(before.last().push(b.last())) =~= goal);
        }
    }
}

/// A character that a text does not hold, its pieces do not hold.
proof fn lemma_split_holds_no(s: Seq<char>, sep: char, c: char, i: int)
    requires
        !s.contains(c),
        0 <= i < split_on(s, sep).len(),
    ensures
        !split_on(s, sep)[i].contains(c),
    decreases s.len(),
{
    if s.len() > 0 {
        let h = s.drop_last();
        assert(s[s.len() - 1] == s.last());
        assert forall|k: int| 0 <= k < h.len() implies h[k] != c by {
            assert(h[k] == s[k]);
        }
        text::lemma_split_nonempty(h, sep);
        let n = split_on(h, sep).len();
        if i < n {
            lemma_split_holds_no(h, sep, c, i);
        }
    }
}

spec fn crlf() -> Seq<char> {
    seq!['\r', '\n']
}

spec fn unix(s: Seq<char>) -> Seq<char> {
    replaced(s, crlf(), seq!['\n'])
}

proof fn lemma_unix_step(s: Seq<char>)
    requires
        s.len() > 0,
    ensures
        s.len() >= 2 && s[0] == '\r' && s[1] == '\n' ==> unix(s) == seq!['\n'] + unix(s.skip(2)),
        !(s.len() >= 2 && s[0] == '\r' && s[1] == '\n') ==> unix(s) == seq![s[0]] + unix(s.skip(1)),
{
    if s.len() >= 2 {
        let two = s.subrange(0, 2);
        assert(two[0] == s[0] && two[1] == s[1]);
        if s[0] == '\r' && s[1] == '\n' {
            assert(two =~= crlf());
        } else {
            assert(crlf()[0] == '\r' && crlf()[1] == '\n');
            assert(two != crlf());
        }
    }
}

/// Line breaks of two texts in a row, unless one is cut in two.
proof fn lemma_unix_concat(h: Seq<char>, y: Seq<char>)
    requires
        h.len() > 0 && y.len() > 0 ==> !(h.last() == '\r' && y[0] == '\n'),
    ensures
        unix(h + y) == unix(h) + unix(y),
    decreases h.len(),
{
    let s = h + y;
    if h.len() == 0 {
        assert(s =~= y);
        assert(unix(h) + unix(y) =~= unix(y));
    } else {
        lemma_unix_step(s);
        lemma_unix_step(h);
        if h.len() >= 2 && h[0] == '\r' && h[1] == '\n' {
            let t = h.skip(2);
            assert(s.skip(2) =~= t + y);
            if t.len() > 0 {
                assert(t.last() == h.last());
            }
            lemma_unix_concat(t, y);
            assert(seq!['\n'] + (unix(t) + unix(y)) =~= seq!['\n'] + unix(t) + unix(y));
        } else {
            let t = h.skip(1);
            assert(s.skip(1) =~= t + y);
            if t.len() > 0 {
                assert(t.last() == h.last());
            }
            lemma_unix_concat(t, y);
            assert(seq![h[0]] + (unix(t) + unix(y)) =~= seq![h[0]] + unix(t) + unix(y));
        }
    }
}

/// A text without carriage returns has its line breaks already.
proof fn lemma_unix_is_kept(s: Seq<char>)
    requires
        !s.contains('\r'),
    ensures
        unix(s) == s,
    decreases s.len(),
{
    if s.len() > 0 {
        let t = s.skip(1);
        assert(s[0] != '\r');
        assert forall|k: int| 0 <= k < t.len() implies t[k] != '\r' by {
            assert(t[k] == s[k + 1]);
        }
        lemma_unix_step(s);
        lemma_unix_is_kept(t);
        assert(seq![s[0]] + t =~= s);
    }
}

/// No two carriage returns in a row.
pub open spec fn single_returns(s: Seq<char>) -> bool {
    forall|i: int| 0 <= i < s.len() - 1 ==> !(#[trigger] s[i] == '\r' && s[i + 1] == '\r')
}

/// Every carriage return has a character of its line after it.
spec fn overwritten(s: Seq<char>) -> bool {
    forall|i: int| 0 <= i < s.len() && #[trigger] s[i] == '\r' ==> i + 1 < s.len() && s[i + 1] != '\n'
}

proof fn lemma_unix_overwritten(h: Seq<char>)
    requires
        single_returns(h),
        h.len() > 0 ==> h.last() != '\r',
    ensures
        overwritten(unix(h)),
    decreases h.len(),
{
    if h.len() > 0 {
        lemma_unix_step(h);
        let u = unix(h);
        let at = if h.len() >= 2 && h[0] == '\r' && h[1] == '\n' {
            2int
        } else {
            1int
        };
        let t = h.skip(at);
        assert forall|i: int| 0 <= i < t.len() - 1 implies !(#[trigger] t[i] == '\r' && t[i + 1]
            == '\r') by {
            assert(t[i] == h[i + at] && t[i + 1] == h[i + at + 1]);
        }
        if t.len() > 0 {
            assert(t.last() == h.last());
        }
        lemma_unix_overwritten(t);
        let v = unix(t);
        assert forall|i: int| 0 <= i < u.len() && #[trigger] u[i] == '\r' implies i + 1 < u.len()
            && u[i + 1] != '\n' by {
            if i == 0 {
                assert(at == 1 && h[0] == '\r');
                assert(h.len() > 1);
                assert(t[0] == h[1]);
                assert(h[1] != '\n' && h[1] != '\r');
                lemma_unix_step(t);
                assert(v[0] == h[1]);
                assert(u[1] == v[0]);
            } else {
                assert(u[i] == v[i - 1]);
                assert(u[i + 1] == v[i]);
            }
        }
    }
}

/// The lines end in no carriage return, and the last one ends as the text does.
proof fn lemma_lines_end(x: Seq<char>)
    requires
        forall|i: int| 0 <= i < x.len() - 1 ==> !(#[trigger] x[i] == '\r' && x[i + 1] == '\n'),
    ensures
        ({
            let l = split_on(x, '\n');
            &&& l.len() > 0
            &&& forall|i: int|
                0 <= i < l.len() - 1 && (#[trigger] l[i]).len() > 0 ==> l[i].last() != '\r'
            &&& l.last().len() > 0 ==> x.len() > 0 && l.last().last() == x.last()
        }),
    decreases x.len(),
{
    if x.len() > 0 {
        let h = x.drop_last();
        assert forall|i: int| 0 <= i < h.len() - 1 implies !(#[trigger] h[i] == '\r' && h[i + 1]
            == '\n') by {
            assert(h[i] == x[i] && h[i + 1] == x[i + 1]);
        }
        lemma_lines_end(h);
        let l = split_on(h, '\n');
        if x.last() == '\n' {
            if l.last().len() > 0 {
                assert(h.last() == x[x.len() - 2]);
                assert(h.last() != '\r');
            }
            let m = l.push(Seq::<char>::empty());
            assert forall|i: int| 0 <= i < m.len() - 1 && (#[trigger] m[i]).len() > 0 implies
                m[i].last() != '\r' by {
                if i == l.len() - 1 {
                    assert(m[i] == l.last());
                } else {
                    assert(m[i] == l[i]);
                }
            }
        } else {
            let m = l.drop_last().push(l.last().push(x.last()));
            assert forall|i: int| 0 <= i < m.len() - 1 && (#[trigger] m[i]).len() > 0 implies
                m[i].last() != '\r' by {
                assert(m[i] == l[i]);
            }
        }
    }
}

proof fn lemma_overwrite_holds_no(parts: Seq<Seq<char>>, c: char)
    requires
        forall|i: int| 0 <= i < parts.len() ==> !(#[trigger] parts[i]).contains(c),
    ensures
        !overwrite_all(parts).contains(c),
    decreases parts.len(),
{
    if parts.len() > 0 {
        let head = parts.drop_last();
        assert forall|i: int| 0 <= i < head.len() implies !(#[trigger] head[i]).contains(c) by {
            assert(head[i] == parts[i]);
        }
        lemma_overwrite_holds_no(head, c);
        let (acc, part) = (overwrite_all(head), parts.last());
        assert(part == parts[parts.len() - 1]);
        let r = overwrite(acc, part);
        assert forall|k: int| 0 <= k < r.len() implies r[k] != c by {
            if k < part.len() {
                assert(r[k] == part[k]);
            } else {
                assert(r[k] == acc[k]);
            }
        }
    }
}

/// Overwriting goes on from what is shown.
proof fn lemma_overwrite_goes_on(p: Seq<Seq<char>>, q: Seq<Seq<char>>)
    ensures
        overwrite_all(p + q) == overwrite_all(seq![overwrite_all(p)] + q),
    decreases q.len(),
{
    let acc = overwrite_all(p);
    if q.len() == 0 {
        assert(p + q =~= p);
        assert(seq![acc] + q =~= seq![acc]);
        assert(seq![acc].drop_last() =~= Seq::<Seq<char>>::empty());
        assert(overwrite_all(seq![acc].drop_last()) == Seq::<char>::empty());
        assert(overwrite(Seq::empty(), acc) =~= acc);
    } else {
        lemma_overwrite_goes_on(p, q.drop_last());
        assert((p + q).drop_last() =~= p + q.drop_last());
        assert((seq![acc] + q).drop_last() =~= seq![acc] + q.drop_last());
    }
}

/// A line without carriage returns is shown as it is.
proof fn lemma_shown_is_kept(x: Seq<char>)
    requires
        !x.contains('\r'),
    ensures
        shown_line(x) == x,
        split_on(x, '\r') == seq![x],
        overwrite_all(seq![x]) == x,
{
    lemma_split_one(Seq::empty(), x, '\r');
    assert(Seq::<char>::empty() + x =~= x);
    assert(split_on(x, '\r') =~= seq![x]);
    assert(seq![x].drop_last() =~= Seq::<Seq<char>>::empty());
    assert(overwrite_all(seq![x].drop_last()) == Seq::<char>::empty());
    assert(overwrite(Seq::empty(), x) =~= x);
    if x.len() > 0 {
        assert(x[x.len() - 1] == x.last());
    }
}

/// A line that ends in no carriage return shows none.
proof fn lemma_shown_holds_no_return(l: Seq<char>)
    requires
        !l.contains('\n'),
        l.len() > 0 ==> l.last() != '\r',
    ensures
        shown_line(l) == overwrite_all(split_on(l, '\r')),
        !shown_line(l).contains('\r'),
        !shown_line(l).contains('\n'),
{
    let parts = split_on(l, '\r');
    assert forall|i: int| 0 <= i < parts.len() implies !(#[trigger] parts[i]).contains('\r') by {
        text::lemma_split_clean(l, '\r', i);
    }
    assert forall|i: int| 0 <= i < parts.len() implies !(#[trigger] parts[i]).contains('\n') by {
        lemma_split_holds_no(l, '\r', '\n', i);
    }
    lemma_overwrite_holds_no(parts, '\r');
    lemma_overwrite_holds_no(parts, '\n');
}

/// What a line becomes depends on what it shows before a carriage return.
proof fn lemma_shown_after_return(m: Seq<char>, z: Seq<char>)
    requires
        !m.contains('\n'),
        m.len() > 0 ==> m.last() != '\r',
    ensures
        shown_line(m + (seq!['\r'] + z)) == shown_line(shown_line(m) + (seq!['\r'] + z)),
{
    let acc = shown_line(m);
    let tail = seq!['\r'] + z;
    lemma_shown_holds_no_return(m);
    lemma_shown_is_kept(acc);
    assert(seq!['\r'].drop_last() =~= Seq::<char>::empty());
    assert(split_on(seq!['\r'].drop_last(), '\r') =~= seq![Seq::<char>::empty()]);
    assert(split_on(seq!['\r'], '\r') =~= seq![Seq::<char>::empty(), Seq::empty()]);
    text::lemma_split_nonempty(z, '\r');
    text::lemma_split_nonempty(m, '\r');
    lemma_split_concat(seq!['\r'], z, '\r');
    let q = split_on(z, '\r');
    assert(Seq::<char>::empty() + q[0] =~= q[0]);
    assert(split_on(tail, '\r') =~= seq![Seq::<char>::empty()] + q);
    lemma_split_concat(m, tail, '\r');
    lemma_split_concat(acc, tail, '\r');
    let p = split_on(m, '\r');
    assert(p.last() + Seq::<char>::empty() =~= p.last());
    assert(acc + Seq::<char>::empty() =~= acc);
    assert(split_on(m + tail, '\r') =~= p + q);
    assert(split_on(acc + tail, '\r') =~= seq![acc] + q);
    lemma_overwrite_goes_on(p, q);
    assert((m + tail).last() == tail.last());
    assert((acc + tail).last() == tail.last());
}

/// Lines from `x` on: what follows it meets the same, whether `x` is collapsed
/// or not.
proof fn lemma_collapse_lines(x: Seq<char>, shown: Seq<char>, y: Seq<char>)
    requires
        overwritten(x),
        y.len() > 0,
        y[0] == '\n' || y[0] == '\r',
        shown == join(shown_lines(split_on(x, '\n')), seq!['\n']),
    ensures
        shown_lines(split_on(x + y, '\n')) == shown_lines(split_on(shown + y, '\n')),
        !shown.contains('\r'),
{
    let l = split_on(x, '\n');
    lemma_lines_end(x);
    let s = shown_lines(l);
    assert forall|i: int| 0 <= i < l.len() implies !(#[trigger] s[i]).contains('\r')
        && !s[i].contains('\n') && (l[i].len() > 0 ==> l[i].last() != '\r') && !l[i].contains(
        '\n',
    ) by {
        text::lemma_split_clean(x, '\n', i);
        if l[i].len() > 0 && i == l.len() - 1 {
            assert(x[x.len() - 1] == x.last());
        }
        lemma_shown_holds_no_return(l[i]);
    }
    lemma_split_join(s, '\n');
    lemma_join_holds_no(s, '\r');
    lemma_split_concat(x, y, '\n');
    lemma_split_concat(shown, y, '\n');
    text::lemma_split_nonempty(y, '\n');
    let q = split_on(y, '\n');
    let (m, acc) = (l.last(), s.last());
    assert(m == l[l.len() - 1] && acc == s[l.len() - 1]);
    let c = seq![y[0]];
    let z = y.skip(1);
    assert(y =~= c + z);
    lemma_split_concat(c, z, '\n');
    text::lemma_split_nonempty(z, '\n');
    assert(c.drop_last() =~= Seq::<char>::empty());
    assert(split_on(c.drop_last(), '\n') =~= seq![Seq::<char>::empty()]);
    if y[0] == '\n' {
        assert(split_on(c, '\n') =~= seq![Seq::<char>::empty(), Seq::empty()]);
        assert(q[0] =~= Seq::<char>::empty());
        assert(m + q[0] =~= m);
        assert(acc + q[0] =~= acc);
        lemma_shown_is_kept(acc);
    } else {
        assert(Seq::<char>::empty().push('\r') =~= c);
        assert(split_on(c, '\n') =~= seq![c]);
        assert(q[0] == c + split_on(z, '\n')[0]);
        lemma_shown_after_return(m, split_on(z, '\n')[0]);
    }
    assert(shown_line(m + q[0]) == shown_line(acc + q[0]));
    assert forall|i: int| 0 <= i < l.len() implies shown_line(#[trigger] s[i]) == s[i] by {
        lemma_shown_is_kept(s[i]);
    }
    assert(shown_lines(split_on(x + y, '\n')) =~= shown_lines(split_on(shown + y, '\n')));
}

proof fn lemma_join_holds_no(parts: Seq<Seq<char>>, c: char)
    requires
        c != '\n',
        forall|i: int| 0 <= i < parts.len() ==> !(#[trigger] parts[i]).contains(c),
    ensures
        !join(parts, seq!['\n']).contains(c),
    decreases parts.len(),
{
    if parts.len() > 0 {
        let head = parts.drop_last();
        assert forall|i: int| 0 <= i < head.len() implies !(#[trigger] head[i]).contains(c) by {
            assert(head[i] == parts[i]);
        }
        lemma_join_holds_no(head, c);
        let (a, b) = (join(head, seq!['\n']), parts.last());
        assert(b == parts[parts.len() - 1]);
        let r = join(parts, seq!['\n']);
        assert forall|k: int| 0 <= k < r.len() implies r[k] != c by {
            if parts.len() > 1 {
                if k < a.len() {
                    assert(r[k] == a[k]);
                } else if k > a.len() {
                    assert(r[k] == b[k - a.len() - 1]);
                }
            } else {
                assert(r =~= b);
            }
        }
    }
}

/// The carriage return that is kept at the end of a chunk is an overwrite still
/// to come: collapsing what was collapsed together with the next chunk gives
/// what collapsing the whole stream gives.
pub proof fn law_collapsing_goes_on_after_a_return(a: Seq<char>, b: Seq<char>)
    requires
        a.len() > 0,
        a.last() == '\r',
        single_returns(a),
    ensures
        collapsed(collapsed(a) + b) == collapsed(a + b),
{
    let h = a.drop_last();
    let cr = seq!['\r'];
    assert(a =~= h + cr);
    assert forall|i: int| 0 <= i < h.len() - 1 implies !(#[trigger] h[i] == '\r' && h[i + 1]
        == '\r') by {
        assert(h[i] == a[i] && h[i + 1] == a[i + 1]);
    }
    if h.len() > 0 {
        assert(h.last() == a[a.len() - 2] && a[a.len() - 1] == '\r');
    }
    lemma_unix_overwritten(h);
    let x = unix(h);
    let shown = join(shown_lines(split_on(x, '\n')), seq!['\n']);
    // the chunk alone: what is shown, and the carriage return
    lemma_unix_concat(h, cr);
    lemma_unix_step(cr);
    assert(cr.skip(1) =~= Seq::<char>::empty());
    assert(unix(cr) =~= cr);
    assert(unix(a) == x + cr);
    lemma_collapse_lines(x, shown, cr);
    assert(collapsed(a) == join(shown_lines(split_on(shown + cr, '\n')), seq!['\n']));
    assert(collapsed(a) == shown + cr) by {
        lemma_shown_and_return(x, shown);
    }
    // both streams go on with the same
    let y = unix(cr + b);
    lemma_unix_concat(h, cr + b);
    lemma_unix_concat(shown, cr + b);
    lemma_unix_is_kept(shown);
    assert(a + b =~= h + (cr + b));
    assert(shown + cr + b =~= shown + (cr + b));
    lemma_unix_step(cr + b);
    lemma_collapse_lines(x, shown, y);
}

/// Shown lines with a carriage return at their end are shown as they are.
proof fn lemma_shown_and_return(x: Seq<char>, shown: Seq<char>)
    requires
        overwritten(x),
        shown == join(shown_lines(split_on(x, '\n')), seq!['\n']),
    ensures
        join(shown_lines(split_on(shown + seq!['\r'], '\n')), seq!['\n']) == shown + seq!['\r'],
{
    let cr = seq!['\r'];
    lemma_collapse_lines(x, shown, cr);
    let l = split_on(shown, '\n');
    text::lemma_split_nonempty(shown, '\n');
    lemma_split_one(shown, cr, '\n');
    let all = split_on(shown + cr, '\n');
    assert forall|i: int| 0 <= i < all.len() implies shown_line(#[trigger] all[i]) == all[i] by {
        assert(!l[i].contains('\r')) by {
            lemma_split_holds_no(shown, '\n', '\r', i);
        }
        lemma_shown_is_kept(l[i]);
        if i == all.len() - 1 {
            let line = l[i];
            assert(all[i] == line + cr);
            assert((line + cr).drop_last() =~= line);
            assert(split_on(line + cr, '\r') =~= seq![line, Seq::<char>::empty()]);
            assert(seq![line, Seq::<char>::empty()].drop_last() =~= seq![line]);
            assert(overwrite(line, Seq::empty()) =~= line);
            assert(line.push('\r') =~= line + cr);
        } else {
            assert(all[i] == l[i]);
        }
    }
    assert(shown_lines(all) =~= all);
    text::lemma_join_split(shown + cr, '\n');
}

} // verus!
