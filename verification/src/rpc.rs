//! What is said to an embedded nvim and what its answers mean. Keys go in,
//! and one deferred evaluation that nvim answers only after the queued input
//! brings its state back.

use vstd::prelude::*;

use crate::editor::cursor_in;
use crate::ids::{value_of, with_id, IdMap};
use crate::nvim::{NvimCell, NvimMove, NvimMoveView, NvimView};
use crate::text;
#[allow(unused_imports)]
use crate::text::{byte_len, decimal, opt_view, split_on, views};

verus! {

/// An answer's value.
pub enum Value {
    Nil,
    Bool(bool),
    Uint(u64),
    Str(String),
    Array(Vec<Value>),
    /// Keys and values in turn.
    Table(Vec<Value>),
    /// Any other value.
    Other,
}

impl Value {
    pub open spec fn str_of(self) -> Option<Seq<char>> {
        match self {
            Value::Str(s) => Some(s@),
            _ => None,
        }
    }

    pub open spec fn uint_of(self) -> Option<u64> {
        match self {
            Value::Uint(n) => Some(n),
            _ => None,
        }
    }

    pub fn as_str(&self) -> (r: Option<String>)
        ensures
            opt_view(r) == self.str_of(),
    {
        match self {
            Value::Str(s) => Some(s.clone()),
            _ => None,
        }
    }

    pub fn as_u64(&self) -> (r: Option<u64>)
        ensures
            r == self.uint_of(),
    {
        match self {
            Value::Uint(n) => Some(*n),
            _ => None,
        }
    }
}

// ---------------------------------------------------------------------------
// Frames
// ---------------------------------------------------------------------------

/// What a frame from nvim is.
pub enum Incoming {
    /// The answer to the request with this id.
    Response(u64, Result<Value, String>),
    /// `:w` was typed.
    Write,
    /// The cell is to be left.
    Quit,
    /// The cell is to be left and the edit discarded.
    Bail,
    Nothing,
}

/// The last string among the first `n` values.
pub open spec fn last_text(v: Seq<Value>, n: int) -> Option<Seq<char>>
    decreases n,
{
    if n <= 0 {
        None
    } else if v[n - 1] is Str {
        v[n - 1].str_of()
    } else {
        last_text(v, n - 1)
    }
}

/// An error's text. Errors arrive as [type, message]; any other value is
/// `shown` as it is written.
pub open spec fn error_text(err: Value, shown: Seq<char>) -> Seq<char> {
    match err {
        Value::Array(a) => match last_text(a@, a@.len() as int) {
            Some(s) => s,
            None => "unknown error"@,
        },
        _ => shown,
    }
}

pub fn rpc_error(err: &Value, shown: String) -> (r: String)
    ensures
        r@ == error_text(*err, shown@),
{
    match err {
        Value::Array(a) => {
            let mut i: usize = a.len();
            while i > 0
                invariant
                    i <= a@.len(),
                    *err == Value::Array(*a),
                    last_text(a@, a@.len() as int) == last_text(a@, i as int),
                decreases i,
            {
                if let Value::Str(s) = &a[i - 1] {
                    return s.clone();
                }
                i -= 1;
            }
            "unknown error".to_owned()
        },
        _ => shown,
    }
}

/// Whether a frame is what `classify` says.
pub open spec fn classified(frame: Value, shown: Seq<char>, r: Incoming) -> bool {
    match frame {
        Value::Array(a) => {
            if a@.len() == 4 && a@[0].uint_of() == Some(1u64) {
                match a@[1].uint_of() {
                    Some(id) => if a@[2] is Nil {
                        r == Incoming::Response(id, Ok(a@[3]))
                    } else {
                        r matches Incoming::Response(i, Err(e)) && i == id && e@ == error_text(
                            a@[2],
                            shown,
                        )
                    },
                    None => r == Incoming::Nothing,
                }
            } else if a@.len() == 3 && a@[0].uint_of() == Some(2u64) {
                let method = a@[1].str_of();
                if method == Some("jotter_write"@) {
                    r == Incoming::Write
                } else if method == Some("jotter_quit"@) {
                    r == Incoming::Quit
                } else if method == Some("jotter_bail"@) {
                    r == Incoming::Bail
                } else {
                    r == Incoming::Nothing
                }
            } else {
                r == Incoming::Nothing
            }
        },
        _ => r == Incoming::Nothing,
    }
}

/// Tell responses `[1, id, error, result]` and notifications
/// `[2, method, params]` apart. `shown` is how a response's error is written.
pub fn classify(frame: Value, shown: String) -> (r: Incoming)
    ensures
        classified(frame, shown@, r),
{
    let mut items = match frame {
        Value::Array(a) => a,
        _ => {
            return Incoming::Nothing;
        },
    };
    if items.len() == 4 {
        if let Some(1) = items[0].as_u64() {
            let id = match items[1].as_u64() {
                Some(id) => id,
                None => {
                    return Incoming::Nothing;
                },
            };
            let failed = !matches!(items[2], Value::Nil);
            if failed {
                return Incoming::Response(id, Err(rpc_error(&items[2], shown)));
            }
            let result = items.remove(3);
            return Incoming::Response(id, Ok(result));
        }
    }
    if items.len() == 3 {
        if let Some(2) = items[0].as_u64() {
            if let Value::Str(method) = &items[1] {
                if text::same(method.as_str(), "jotter_write") {
                    return Incoming::Write;
                }
                if text::same(method.as_str(), "jotter_quit") {
                    return Incoming::Quit;
                }
                if text::same(method.as_str(), "jotter_bail") {
                    return Incoming::Bail;
                }
            }
        }
    }
    Incoming::Nothing
}

// ---------------------------------------------------------------------------
// Requests
// ---------------------------------------------------------------------------

/// A request. A buffer is known by the number of buffers made before it.
pub enum Request {
    /// `nvim_get_api_info`.
    ApiInfo,
    /// `nvim_exec2` of a script.
    Exec(String),
    /// `nvim_buf_is_valid`.
    IsValid(usize),
    /// `nvim_set_current_buf`.
    Enter(usize),
    /// `nvim_buf_get_lines`, all of them.
    GetLines(usize),
    /// `nvim_buf_set_lines`, all of them.
    SetLines(usize, Vec<String>),
    /// `nvim_command`.
    Command(String),
    /// `nvim_create_buf`, unlisted and no scratch buffer.
    CreateBuf,
    /// `nvim_buf_set_name`.
    SetName(usize, String),
    /// `nvim_eval`.
    Eval(String),
    /// `nvim_input`.
    Input(String),
    /// `nvim_exec_lua` of the script that puts nvim back into a buffer.
    Reclaim(u64),
    /// `nvim_get_mode`.
    GetMode,
    /// `nvim_buf_set_text` in the current buffer: rows from 0, byte columns.
    SetText { from: (usize, usize), to: (usize, usize), lines: Vec<String> },
    /// `nvim_win_set_cursor` in the current window: row from 1, byte column.
    SetCursor { row: usize, col: usize },
}

pub enum RequestView {
    ApiInfo,
    Exec(Seq<char>),
    IsValid(usize),
    Enter(usize),
    GetLines(usize),
    SetLines(usize, Seq<Seq<char>>),
    Command(Seq<char>),
    CreateBuf,
    SetName(usize, Seq<char>),
    Eval(Seq<char>),
    Input(Seq<char>),
    Reclaim(u64),
    GetMode,
    SetText { from: (usize, usize), to: (usize, usize), lines: Seq<Seq<char>> },
    SetCursor { row: usize, col: usize },
}

impl View for Request {
    type V = RequestView;

    open spec fn view(&self) -> RequestView {
        match *self {
            Request::ApiInfo => RequestView::ApiInfo,
            Request::Exec(s) => RequestView::Exec(s@),
            Request::IsValid(b) => RequestView::IsValid(b),
            Request::Enter(b) => RequestView::Enter(b),
            Request::GetLines(b) => RequestView::GetLines(b),
            Request::SetLines(b, l) => RequestView::SetLines(b, views(l@)),
            Request::Command(s) => RequestView::Command(s@),
            Request::CreateBuf => RequestView::CreateBuf,
            Request::SetName(b, s) => RequestView::SetName(b, s@),
            Request::Eval(s) => RequestView::Eval(s@),
            Request::Input(s) => RequestView::Input(s@),
            Request::Reclaim(b) => RequestView::Reclaim(b),
            Request::GetMode => RequestView::GetMode,
            Request::SetText { from, to, lines } => RequestView::SetText {
                from,
                to,
                lines: views(lines@),
            },
            Request::SetCursor { row, col } => RequestView::SetCursor { row, col },
        }
    }
}

// ---------------------------------------------------------------------------
// Starting
// ---------------------------------------------------------------------------

/// Puts nvim back into the cell: leave insert mode, close every floating
/// window (pickers, hovers, popups) and every other split, and show the cell
/// buffer again. `...` = the cell's buffer number.
pub const RECLAIM: &'static str = "
local buf = ...
pcall(vim.cmd, 'stopinsert')
-- closing one float can close its companions (telescope: prompt + results
-- + preview), so re-check validity for every window
for _, w in ipairs(vim.api.nvim_list_wins()) do
  if vim.api.nvim_win_is_valid(w) and vim.api.nvim_win_get_config(w).relative ~= '' then
    pcall(vim.api.nvim_win_close, w, true)
  end
end
pcall(vim.cmd, 'silent! only!')
if vim.api.nvim_get_current_buf() ~= buf then pcall(vim.api.nvim_set_current_buf, buf) end
";

/// The arguments that nvim starts with: no shada or swap files, ever; with
/// the user's config, `g:jotter` is set before it loads.
pub open spec fn args_of(user_config: bool) -> Seq<Seq<char>> {
    let always = seq!["--embed"@, "--headless"@, "-i"@, "NONE"@, "-n"@];
    if user_config {
        always + seq!["--cmd"@, "let g:jotter = 1"@]
    } else {
        always + seq!["-u"@, "NONE"@]
    }
}

pub fn nvim_args(user_config: bool) -> (r: Vec<String>)
    ensures
        views(r@) == args_of(user_config),
{
    let mut r: Vec<String> = Vec::new();
    r.push("--embed".to_owned());
    r.push("--headless".to_owned());
    r.push("-i".to_owned());
    r.push("NONE".to_owned());
    r.push("-n".to_owned());
    if user_config {
        r.push("--cmd".to_owned());
        r.push("let g:jotter = 1".to_owned());
    } else {
        r.push("-u".to_owned());
        r.push("NONE".to_owned());
    }
    assert(views(r@) =~= args_of(user_config));
    r
}

/// A quit spelling is rewritten before it runs.
pub open spec fn abbreviation(ab: Seq<char>, cmd: Seq<char>) -> Seq<char> {
    "cnoreabbrev <expr> "@ + ab + " (getcmdtype() ==# ':' && getcmdline() ==# '"@ + ab + "') ? '"@
        + cmd + "' : '"@ + ab + "'\n"@
}

/// The script that turns writes and quits inside nvim into notifications on
/// a channel.
pub open spec fn setup_script(chan: u64, user_config: bool) -> Seq<char> {
    let n = decimal(chan as int);
    "autocmd BufWriteCmd jotter://* call rpcnotify("@ + n
        + ", 'jotter_write') | setlocal nomodified\ncommand! -bang JotterQ call rpcnotify("@ + n
        + ", <bang>0 ? 'jotter_bail' : 'jotter_quit')\ncommand! -bang JotterWq call rpcnotify("@ + n
        + ", 'jotter_quit')\nnnoremap ZZ <Cmd>JotterWq<CR>\nnnoremap ZQ <Cmd>JotterQ!<CR>\n"@ + (
    if user_config {
        ""@
    } else {
        "set expandtab tabstop=4 shiftwidth=4 softtabstop=4\n"@
    }) + abbreviation("q"@, "JotterQ"@) + abbreviation("qa"@, "JotterQ"@) + abbreviation(
        "qall"@,
        "JotterQ"@,
    ) + abbreviation("quit"@, "JotterQ"@) + abbreviation("wq"@, "JotterWq"@) + abbreviation(
        "wqa"@,
        "JotterWq"@,
    ) + abbreviation("x"@, "JotterWq"@) + abbreviation("exit"@, "JotterWq"@)
}

fn abbreviate(ab: &str, cmd: &str) -> (r: String)
    ensures
        r@ == abbreviation(ab@, cmd@),
{
    let mut s = "cnoreabbrev <expr> ".to_owned();
    s.append(ab);
    s.append(" (getcmdtype() ==# ':' && getcmdline() ==# '");
    s.append(ab);
    s.append("') ? '");
    s.append(cmd);
    s.append("' : '");
    s.append(ab);
    s.append("'\n");
    s
}

fn setup_text(chan: u64, user_config: bool) -> (r: String)
    ensures
        r@ == setup_script(chan, user_config),
{
    let n = text::decimal_string(chan);
    let mut s = "autocmd BufWriteCmd jotter://* call rpcnotify(".to_owned();
    s.append(n.as_str());
    s.append(", 'jotter_write') | setlocal nomodified\ncommand! -bang JotterQ call rpcnotify(");
    s.append(n.as_str());
    s.append(
        ", <bang>0 ? 'jotter_bail' : 'jotter_quit')\ncommand! -bang JotterWq call rpcnotify(",
    );
    s.append(n.as_str());
    s.append(", 'jotter_quit')\nnnoremap ZZ <Cmd>JotterWq<CR>\nnnoremap ZQ <Cmd>JotterQ!<CR>\n");
    s.append(if user_config {
        ""
    } else {
        "set expandtab tabstop=4 shiftwidth=4 softtabstop=4\n"
    });
    s.append(abbreviate("q", "JotterQ").as_str());
    s.append(abbreviate("qa", "JotterQ").as_str());
    s.append(abbreviate("qall", "JotterQ").as_str());
    s.append(abbreviate("quit", "JotterQ").as_str());
    s.append(abbreviate("wq", "JotterWq").as_str());
    s.append(abbreviate("wqa", "JotterWq").as_str());
    s.append(abbreviate("x", "JotterWq").as_str());
    s.append(abbreviate("exit", "JotterWq").as_str());
    s
}

/// The channel in an answer to `ApiInfo`.
pub open spec fn channel_of(info: Value) -> Option<u64> {
    match info {
        Value::Array(a) => if a@.len() > 0 {
            a@[0].uint_of()
        } else {
            None
        },
        _ => None,
    }
}

/// What follows the answer to `ApiInfo`: the setup script.
pub fn set_up(info: &Value, user_config: bool) -> (r: Result<Request, String>)
    ensures
        match (channel_of(*info), r) {
            (Some(chan), Ok(q)) => q@ == RequestView::Exec(setup_script(chan, user_config)),
            (None, Err(e)) => e@ == "bad nvim_get_api_info reply"@,
            _ => false,
        },
{
    if let Value::Array(a) = info {
        if a.len() > 0 {
            if let Some(chan) = a[0].as_u64() {
                return Ok(Request::Exec(setup_text(chan, user_config)));
            }
        }
    }
    Err("bad nvim_get_api_info reply".to_owned())
}

// ---------------------------------------------------------------------------
// Opening a cell's buffer
// ---------------------------------------------------------------------------

/// The buffers of an nvim: which belongs to which cell, and how many were
/// made.
pub struct NvimSession {
    pub buffers: IdMap<usize>,
    pub made: usize,
}

pub struct NvimSessionView {
    pub buffers: Seq<(Seq<char>, usize)>,
    pub made: usize,
}

impl View for NvimSession {
    type V = NvimSessionView;

    open spec fn view(&self) -> NvimSessionView {
        NvimSessionView { buffers: self.buffers@, made: self.made }
    }
}

impl NvimSession {
    pub fn new() -> (r: NvimSession)
        ensures
            r@ == (NvimSessionView { buffers: Seq::empty(), made: 0 }),
    {
        NvimSession { buffers: IdMap::new(), made: 0 }
    }
}

/// The cell that is opened.
pub struct Opening {
    pub key: String,
    pub lines: Vec<String>,
    /// The cell's language, letters and digits only.
    pub filetype: String,
}

pub struct OpeningView {
    pub key: Seq<char>,
    pub lines: Seq<Seq<char>>,
    pub filetype: Seq<char>,
}

impl View for Opening {
    type V = OpeningView;

    open spec fn view(&self) -> OpeningView {
        OpeningView { key: self.key@, lines: views(self.lines@), filetype: self.filetype@ }
    }
}

/// Which request's answer is awaited.
#[derive(Clone, Copy, Debug, PartialEq, Eq, Structural)]
pub enum OpenStage {
    /// Is the cell's buffer still there?
    Checking(usize),
    /// A buffer from before is entered.
    Entering(usize),
    /// Its text is read.
    Reading(usize),
    /// Its text is brought up to the cell's.
    Updating(usize),
    Updated,
    /// A buffer is made.
    Making,
    EnteringNew(usize),
    Naming(usize),
    /// A new buffer's options are set.
    Preparing(usize),
    Typed(usize),
    Filling(usize),
    Filled(usize),
    /// The buffer's number is asked for.
    Numbering,
}

/// What comes next.
pub enum OpenNext {
    Ask(Request, OpenStage),
    /// The cell's buffer has this number.
    Ready(u64),
    Failed(String),
}

pub enum OpenNextView {
    Ask(RequestView, OpenStage),
    Ready(u64),
    Failed(Seq<char>),
}

impl View for OpenNext {
    type V = OpenNextView;

    open spec fn view(&self) -> OpenNextView {
        match *self {
            OpenNext::Ask(q, s) => OpenNextView::Ask(q@, s),
            OpenNext::Ready(n) => OpenNextView::Ready(n),
            OpenNext::Failed(e) => OpenNextView::Failed(e@),
        }
    }
}

/// The letters and digits of a text.
pub open spec fn plain_letters(s: Seq<char>) -> Seq<char>
    decreases s.len(),
{
    if s.len() == 0 {
        s
    } else {
        let r = plain_letters(s.drop_last());
        if is_plain(s.last()) {
            r.push(s.last())
        } else {
            r
        }
    }
}

pub open spec fn is_plain(c: char) -> bool {
    'a' <= c <= 'z' || 'A' <= c <= 'Z' || '0' <= c <= '9'
}

fn plain(s: &str) -> (r: String)
    ensures
        r@ == plain_letters(s@),
{
    let chars = text::chars_of(s);
    let mut r = String::new();
    let mut i: usize = 0;
    assert(r@ =~= plain_letters(s@.take(0)));
    while i < chars.len()
        invariant
            i <= chars@.len(),
            chars@ == s@,
            r@ == plain_letters(s@.take(i as int)),
        decreases chars@.len() - i,
    {
        assert(s@.take(i + 1).drop_last() =~= s@.take(i as int));
        let c = chars[i];
        if ('a' <= c && c <= 'z') || ('A' <= c && c <= 'Z') || ('0' <= c && c <= '9') {
            r.push(c);
        }
        i += 1;
    }
    assert(s@.take(i as int) =~= s@);
    r
}

/// Whether a buffer's lines are these.
pub open spec fn holds_lines(v: Value, lines: Seq<Seq<char>>) -> bool {
    match v {
        Value::Array(a) => a@.len() == lines.len() && forall|k: int|
            0 <= k < a@.len() ==> (#[trigger] a@[k]).str_of() == Some(lines[k]),
        _ => false,
    }
}

fn has_lines(v: &Value, lines: &Vec<String>) -> (r: bool)
    ensures
        r == holds_lines(*v, views(lines@)),
{
    let a = match v {
        Value::Array(a) => a,
        _ => {
            return false;
        },
    };
    if a.len() != lines.len() {
        return false;
    }
    let mut i: usize = 0;
    while i < a.len()
        invariant
            i <= a@.len(),
            a@.len() == lines@.len(),
            *v == Value::Array(*a),
            forall|k: int| 0 <= k < i ==> (#[trigger] a@[k]).str_of() == Some(views(lines@)[k]),
        decreases a@.len() - i,
    {
        assert(views(lines@)[i as int] == lines@[i as int]@);
        let same = match &a[i] {
            Value::Str(s) => text::same(s.as_str(), lines[i].as_str()),
            _ => false,
        };
        if !same {
            assert(a@[i as int].str_of() != Some(views(lines@)[i as int]));
            return false;
        }
        i += 1;
    }
    true
}

impl NvimSessionView {
    /// The first request for a cell.
    pub open spec fn open_start(self, key: Seq<char>) -> (RequestView, OpenStage) {
        match value_of(self.buffers, key) {
            Some(b) => (RequestView::IsValid(b), OpenStage::Checking(b)),
            None => (RequestView::CreateBuf, OpenStage::Making),
        }
    }

    /// What an answer leads to. A buffer from before tracks the cell; where
    /// their texts agree it stays exactly as it is. A new one gets its name,
    /// options and text, none of which can be undone.
    pub open spec fn open_next(self, o: OpeningView, stage: OpenStage, v: Value) -> OpenNextView {
        match stage {
            OpenStage::Checking(b) => if v == Value::Bool(true) {
                OpenNextView::Ask(RequestView::Enter(b), OpenStage::Entering(b))
            } else {
                OpenNextView::Ask(RequestView::CreateBuf, OpenStage::Making)
            },
            OpenStage::Entering(b) => OpenNextView::Ask(
                RequestView::GetLines(b),
                OpenStage::Reading(b),
            ),
            OpenStage::Reading(b) => if holds_lines(v, o.lines) {
                numbering()
            } else {
                OpenNextView::Ask(RequestView::SetLines(b, o.lines), OpenStage::Updating(b))
            },
            OpenStage::Updating(b) => OpenNextView::Ask(
                RequestView::Command("setlocal nomodified"@),
                OpenStage::Updated,
            ),
            OpenStage::Updated => numbering(),
            OpenStage::Making => OpenNextView::Ask(
                RequestView::Enter(self.made),
                OpenStage::EnteringNew(self.made),
            ),
            OpenStage::EnteringNew(b) => OpenNextView::Ask(
                RequestView::SetName(b, "jotter://"@ + o.key),
                OpenStage::Naming(b),
            ),
            OpenStage::Naming(b) => OpenNextView::Ask(
                RequestView::Command("setlocal buftype=acwrite undolevels=-1"@),
                OpenStage::Preparing(b),
            ),
            OpenStage::Preparing(b) => if o.filetype.len() > 0 {
                OpenNextView::Ask(
                    RequestView::Command("setlocal filetype="@ + o.filetype),
                    OpenStage::Typed(b),
                )
            } else {
                OpenNextView::Ask(RequestView::SetLines(b, o.lines), OpenStage::Filling(b))
            },
            OpenStage::Typed(b) => OpenNextView::Ask(
                RequestView::SetLines(b, o.lines),
                OpenStage::Filling(b),
            ),
            OpenStage::Filling(b) => OpenNextView::Ask(
                RequestView::Command("setlocal undolevels< nomodified"@),
                OpenStage::Filled(b),
            ),
            OpenStage::Filled(b) => numbering(),
            OpenStage::Numbering => match v.uint_of() {
                Some(n) => OpenNextView::Ready(n),
                None => OpenNextView::Failed("bad bufnr reply"@),
            },
        }
    }

    /// The session after an answer: a made buffer is counted, and belongs to
    /// its cell when it is filled.
    pub open spec fn opened(self, o: OpeningView, stage: OpenStage) -> NvimSessionView {
        match stage {
            OpenStage::Making => NvimSessionView { made: (self.made + 1) as usize, ..self },
            OpenStage::Filled(b) => NvimSessionView {
                buffers: with_id(self.buffers, o.key, b),
                ..self
            },
            _ => self,
        }
    }
}

pub open spec fn numbering() -> OpenNextView {
    OpenNextView::Ask(RequestView::Eval("bufnr('%')"@), OpenStage::Numbering)
}

fn ask_number() -> (r: OpenNext)
    ensures
        r@ == numbering(),
{
    OpenNext::Ask(Request::Eval("bufnr('%')".to_owned()), OpenStage::Numbering)
}

impl NvimSession {
    /// Switch to a cell's buffer, which is made on the first edit: buffers
    /// keep undo history and marks across cell switches.
    pub fn open(&self, key: String, source: &str, filetype: &str) -> (r: (
        Opening,
        Request,
        OpenStage,
    ))
        ensures
            r.0@ == (OpeningView {
                key: key@,
                lines: split_on(source@, '\n'),
                filetype: plain_letters(filetype@),
            }),
            (r.1@, r.2) == self@.open_start(key@),
    {
        let (q, stage) = match self.buffers.get(key.as_str()) {
            Some(b) => (Request::IsValid(b), OpenStage::Checking(b)),
            None => (Request::CreateBuf, OpenStage::Making),
        };
        (Opening { key, lines: text::split(source, '\n'), filetype: plain(filetype) }, q, stage)
    }

    fn fill(o: &Opening, b: usize, stage: OpenStage) -> (r: OpenNext)
        ensures
            r@ == OpenNextView::Ask(RequestView::SetLines(b, o@.lines), stage),
    {
        OpenNext::Ask(Request::SetLines(b, text::clone_strings(&o.lines)), stage)
    }

    fn command(s: &str, stage: OpenStage) -> (r: OpenNext)
        ensures
            r@ == OpenNextView::Ask(RequestView::Command(s@), stage),
    {
        OpenNext::Ask(Request::Command(s.to_owned()), stage)
    }

    /// What an answer leads to. An error ends the attempt.
    pub fn opening(
        &mut self,
        o: &Opening,
        stage: OpenStage,
        reply: Result<Value, String>,
    ) -> (r: OpenNext)
        requires
            old(self)@.made < usize::MAX,
        ensures
            match reply {
                Ok(v) => r@ == old(self)@.open_next(o@, stage, v) && final(self)@ == old(
                    self,
                )@.opened(o@, stage),
                Err(e) => r@ == OpenNextView::Failed(e@) && final(self)@ == old(self)@,
            },
    {
        let v = match reply {
            Ok(v) => v,
            Err(e) => {
                return OpenNext::Failed(e);
            },
        };
        match stage {
            OpenStage::Checking(b) => if matches!(v, Value::Bool(true)) {
                OpenNext::Ask(Request::Enter(b), OpenStage::Entering(b))
            } else {
                OpenNext::Ask(Request::CreateBuf, OpenStage::Making)
            },
            OpenStage::Entering(b) => OpenNext::Ask(Request::GetLines(b), OpenStage::Reading(b)),
            OpenStage::Reading(b) => if has_lines(&v, &o.lines) {
                ask_number()
            } else {
                Self::fill(o, b, OpenStage::Updating(b))
            },
            OpenStage::Updating(_) => Self::command("setlocal nomodified", OpenStage::Updated),
            OpenStage::Updated => ask_number(),
            OpenStage::Making => {
                let b = self.made;
                self.made = b + 1;
                OpenNext::Ask(Request::Enter(b), OpenStage::EnteringNew(b))
            },
            OpenStage::EnteringNew(b) => OpenNext::Ask(
                Request::SetName(b, text::concat("jotter://", o.key.as_str())),
                OpenStage::Naming(b),
            ),
            OpenStage::Naming(b) => Self::command(
                "setlocal buftype=acwrite undolevels=-1",
                OpenStage::Preparing(b),
            ),
            OpenStage::Preparing(b) => if o.filetype.as_str().unicode_len() > 0 {
                Self::command(
                    text::concat("setlocal filetype=", o.filetype.as_str()).as_str(),
                    OpenStage::Typed(b),
                )
            } else {
                Self::fill(o, b, OpenStage::Filling(b))
            },
            OpenStage::Typed(b) => Self::fill(o, b, OpenStage::Filling(b)),
            OpenStage::Filling(b) => Self::command(
                "setlocal undolevels< nomodified",
                OpenStage::Filled(b),
            ),
            OpenStage::Filled(b) => {
                self.buffers.insert(o.key.clone(), b);
                ask_number()
            },
            OpenStage::Numbering => match v.as_u64() {
                Some(n) => OpenNext::Ready(n),
                None => OpenNext::Failed("bad bufnr reply".to_owned()),
            },
        }
    }
}

// ---------------------------------------------------------------------------
// State
// ---------------------------------------------------------------------------

/// The state query: the cell buffer's text (by number, never "whatever is
/// current"), cursor, mode, cmdline, visual anchor, and where nvim is.
pub open spec fn state_query(bufnr: u64) -> Seq<char> {
    "[getbufline("@ + decimal(bufnr as int)
        + ", 1, '$'), getpos('.'), mode(1), getcmdtype() .. getcmdline(), getpos('v'), bufnr('%'), win_gettype()]"@
}

/// Whether a state shows nvim outside the cell: another buffer is current, or
/// the current window is a float, preview or cmdline window.
pub open spec fn foreign(v: Value, bufnr: u64) -> bool {
    match v {
        Value::Array(a) => a@.len() >= 2 && (a@[a@.len() - 2].uint_of() != Some(bufnr) || (
        a@.last().str_of() matches Some(t) && t.len() > 0)),
        _ => false,
    }
}

/// The lines of a `getbufline` answer; a buffer has at least one.
pub open spec fn lines_in(a: Seq<Value>) -> Seq<Seq<char>> {
    if a.len() == 0 {
        seq![Seq::empty()]
    } else {
        Seq::new(a.len(), |k: int| text_in(a[k]))
    }
}

pub open spec fn text_in(v: Value) -> Seq<char> {
    match v.str_of() {
        Some(s) => s,
        None => Seq::empty(),
    }
}

/// A number in a `getpos` answer.
pub open spec fn pos_number(pos: Value, i: int) -> u64 {
    match pos {
        Value::Array(a) => if i < a@.len() {
            match a@[i].uint_of() {
                Some(n) => n,
                None => 1,
            }
        } else {
            1
        },
        _ => 1,
    }
}

/// How many characters from the `k`th on start before a byte column.
pub open spec fn column_at(line: Seq<char>, bcol: u64, k: int) -> int
    decreases line.len() - k,
{
    if 0 <= k < line.len() && byte_len(line.take(k)) + 1 < bcol {
        column_at(line, bcol, k + 1)
    } else {
        k
    }
}

/// (row, col) of a `getpos` answer: [bufnum, lnum, col, off], row and column
/// from 1, the column in bytes.
pub open spec fn position_of(lines: Seq<Seq<char>>, pos: Value) -> (usize, usize) {
    let row = pos_number(pos, 1);
    let r = if row == 0 {
        0
    } else if row - 1 < lines.len() {
        row - 1
    } else {
        lines.len() - 1
    };
    (r as usize, column_at(lines[r], pos_number(pos, 2), 0) as usize)
}

/// Why an answer to the state query cannot be read.
pub open spec fn state_error(v: Value) -> Option<Seq<char>> {
    match v {
        Value::Array(a) => if a@.len() < 5 {
            Some("bad state reply shape"@)
        } else if a@[0] is Array {
            None
        } else {
            Some("bad getline reply"@)
        },
        _ => Some("bad state reply"@),
    }
}

impl NvimView {
    /// The cell after a state that can be read.
    pub open spec fn with_state(self, v: Value) -> NvimView {
        let a = v->Array_0@;
        let lines = lines_in(a[0]->Array_0@);
        NvimView {
            lines,
            mode: match a[2].str_of() {
                Some(s) => s,
                None => "n"@,
            },
            cmdline: text_in(a[3]),
            cursor: position_of(lines, a[1]),
            anchor: position_of(lines, a[4]),
            ..self
        }
    }

    /// A cell whose state is not known yet.
    pub open spec fn fresh(bufnr: u64) -> NvimView {
        NvimView {
            lines: seq![Seq::empty()],
            cursor: (0, 0),
            mode: "n"@,
            anchor: (0, 0),
            cmdline: Seq::empty(),
            bufnr,
            notice: None,
            write_requested: false,
            quit_requested: 0,
        }
    }
}

proof fn lemma_column_at(line: Seq<char>, bcol: u64, k: int)
    requires
        0 <= k <= line.len(),
    ensures
        k <= column_at(line, bcol, k) <= line.len(),
    decreases line.len() - k,
{
    if k < line.len() && byte_len(line.take(k)) + 1 < bcol {
        lemma_column_at(line, bcol, k + 1);
    }
}

fn number_at(pos: &Value, i: usize) -> (r: u64)
    ensures
        r == pos_number(*pos, i as int),
{
    if let Value::Array(a) = pos {
        if i < a.len() {
            if let Some(n) = a[i].as_u64() {
                return n;
            }
        }
    }
    1
}

/// `getpos()` -> (row, col) in characters.
pub fn pos_to_rc(lines: &Vec<String>, pos: &Value) -> (r: (usize, usize))
    requires
        lines@.len() > 0,
    ensures
        r == position_of(views(lines@), *pos),
        cursor_in(views(lines@), r.0 as int, r.1 as int),
{
    let lnum = number_at(pos, 1);
    let bcol = number_at(pos, 2);
    let last = lines.len() - 1;
    let row = if lnum == 0 {
        0
    } else if lnum - 1 < last as u64 {
        (lnum - 1) as usize
    } else {
        last
    };
    assert(views(lines@).len() == lines@.len());
    let ghost line = views(lines@)[row as int];
    let s = lines[row].as_str();
    assert(line == s@);
    let n = s.unicode_len();
    let mut k: usize = 0;
    while k < n && (text::take(s, k).as_str().len() as u64) < bcol.saturating_sub(1)
        invariant
            k <= n,
            n == s@.len(),
            line == s@,
            column_at(line, bcol, 0) == column_at(line, bcol, k as int),
        decreases n - k,
    {
        k += 1;
    }
    proof {
        lemma_column_at(line, bcol, 0);
    }
    (row, k)
}

fn text_of(v: &Value) -> (r: String)
    ensures
        r@ == text_in(*v),
{
    match v {
        Value::Str(s) => s.clone(),
        _ => {
            let none = String::new();
            assert(none@ =~= Seq::<char>::empty());
            none
        },
    }
}

fn lines_from(a: &Vec<Value>) -> (r: Vec<String>)
    ensures
        views(r@) == lines_in(a@),
        r@.len() > 0,
{
    let mut r: Vec<String> = Vec::new();
    let mut i: usize = 0;
    while i < a.len()
        invariant
            i <= a@.len(),
            r@.len() == i,
            forall|k: int| 0 <= k < i ==> (#[trigger] r@[k])@ == text_in(a@[k]),
        decreases a@.len() - i,
    {
        r.push(text_of(&a[i]));
        i += 1;
    }
    if r.len() == 0 {
        r.push(String::new());
        assert(r@[0]@ =~= Seq::<char>::empty());
    }
    assert(views(r@) =~= lines_in(a@));
    r
}

impl NvimCell {
    /// A cell whose state is not known yet.
    pub fn fresh(bufnr: u64) -> (r: NvimCell)
        ensures
            r@ == NvimView::fresh(bufnr),
            r@.wf(),
    {
        let mut lines: Vec<String> = Vec::new();
        lines.push(String::new());
        assert(lines@[0]@ =~= Seq::<char>::empty());
        assert(views(lines@) =~= seq![Seq::<char>::empty()]);
        let cmdline = String::new();
        assert(cmdline@ =~= Seq::<char>::empty());
        NvimCell {
            lines,
            cursor: (0, 0),
            mode: "n".to_owned(),
            anchor: (0, 0),
            cmdline,
            bufnr,
            notice: None,
            write_requested: false,
            quit_requested: 0,
        }
    }

    /// The per-key state query.
    pub fn state_expr(&self) -> (r: String)
        ensures
            r@ == state_query(self@.bufnr),
    {
        let mut s = "[getbufline(".to_owned();
        s.append(text::decimal_string(self.bufnr).as_str());
        s.append(
            ", 1, '$'), getpos('.'), mode(1), getcmdtype() .. getcmdline(), getpos('v'), bufnr('%'), win_gettype()]",
        );
        s
    }

    /// Whether a state shows nvim outside the cell.
    pub fn is_foreign(v: &Value, bufnr: u64) -> (r: bool)
        ensures
            r == foreign(*v, bufnr),
    {
        if let Value::Array(a) = v {
            let n = a.len();
            if n >= 2 {
                let elsewhere = match a[n - 2].as_u64() {
                    Some(b) => b != bufnr,
                    None => true,
                };
                return elsewhere || match &a[n - 1] {
                    Value::Str(t) => t.as_str().unicode_len() > 0,
                    _ => false,
                };
            }
        }
        false
    }

    /// Take the state that nvim is in; a state that cannot be read changes
    /// nothing.
    pub fn apply_state(&mut self, v: &Value) -> (r: Option<String>)
        ensures
            opt_view(r) == state_error(*v),
            final(self)@ == (if state_error(*v) is None {
                old(self)@.with_state(*v)
            } else {
                old(self)@
            }),
            old(self)@.wf() ==> final(self)@.wf(),
    {
        let a = match v {
            Value::Array(a) => a,
            _ => {
                return Some("bad state reply".to_owned());
            },
        };
        if a.len() < 5 {
            return Some("bad state reply shape".to_owned());
        }
        let lines = match &a[0] {
            Value::Array(l) => lines_from(l),
            _ => {
                return Some("bad getline reply".to_owned());
            },
        };
        let cursor = pos_to_rc(&lines, &a[1]);
        let anchor = pos_to_rc(&lines, &a[4]);
        let mode = match &a[2] {
            Value::Str(s) => s.clone(),
            _ => "n".to_owned(),
        };
        self.lines = lines;
        self.mode = mode;
        self.cmdline = text_of(&a[3]);
        self.cursor = cursor;
        self.anchor = anchor;
        None
    }
}

// ---------------------------------------------------------------------------
// Talking
// ---------------------------------------------------------------------------

/// Which request's answer is awaited.
pub enum TalkStage {
    /// A click's cursor was placed; the answer does not matter.
    Placing { insert: bool },
    /// Text was replaced; the cursor is to follow.
    Replacing { cursor: (usize, usize) },
    Moving,
    /// Keys were fed.
    Typing,
    /// The state was asked for.
    Reading,
    /// A foreign window is being closed.
    Reclaiming,
    Rereading,
    /// The state query failed with this error: is nvim there at all?
    Probing(String),
}

pub enum TalkStageView {
    Placing { insert: bool },
    Replacing { cursor: (usize, usize) },
    Moving,
    Typing,
    Reading,
    Reclaiming,
    Rereading,
    Probing(Seq<char>),
}

impl View for TalkStage {
    type V = TalkStageView;

    open spec fn view(&self) -> TalkStageView {
        match *self {
            TalkStage::Placing { insert } => TalkStageView::Placing { insert },
            TalkStage::Replacing { cursor } => TalkStageView::Replacing { cursor },
            TalkStage::Moving => TalkStageView::Moving,
            TalkStage::Typing => TalkStageView::Typing,
            TalkStage::Reading => TalkStageView::Reading,
            TalkStage::Reclaiming => TalkStageView::Reclaiming,
            TalkStage::Rereading => TalkStageView::Rereading,
            TalkStage::Probing(e) => TalkStageView::Probing(e@),
        }
    }
}

/// What comes next.
pub enum TalkNext {
    Ask(Request, TalkStage),
    /// The cell is as far as nvim could say.
    Done,
    Failed(String),
}

pub enum TalkNextView {
    Ask(RequestView, TalkStageView),
    Done,
    Failed(Seq<char>),
}

impl View for TalkNext {
    type V = TalkNextView;

    open spec fn view(&self) -> TalkNextView {
        match *self {
            TalkNext::Ask(q, s) => TalkNextView::Ask(q@, s@),
            TalkNext::Done => TalkNextView::Done,
            TalkNext::Failed(e) => TalkNextView::Failed(e@),
        }
    }
}

/// The mode in an answer to `GetMode`: what stands after the first `mode`
/// from the `k`th entry on.
pub open spec fn mode_in(a: Seq<Value>, k: int) -> Option<Seq<char>>
    decreases a.len() - k,
{
    if 0 <= k && k + 1 < a.len() {
        if a[k].str_of() == Some("mode"@) {
            a[k + 1].str_of()
        } else {
            mode_in(a, k + 2)
        }
    } else {
        None
    }
}

pub open spec fn notice_text() -> Seq<char> {
    "nvim opened a window/picker — jotter can't draw nvim UI, so it was closed"@
}

impl NvimMoveView {
    /// The first request of a move.
    pub open spec fn first_request(self) -> (RequestView, TalkStageView) {
        match self {
            NvimMoveView::Click { row, byte, insert } => (
                RequestView::SetCursor { row: next_row(row), col: byte },
                TalkStageView::Placing { insert },
            ),
            NvimMoveView::Replace { from, to, text, cursor } => (
                RequestView::SetText { from, to, lines: split_on(text, '\n') },
                TalkStageView::Replacing { cursor },
            ),
            NvimMoveView::Keys(s) => (RequestView::Input(s), TalkStageView::Typing),
        }
    }
}

/// A row counted from 1.
pub open spec fn next_row(row: usize) -> usize {
    if row < usize::MAX {
        (row + 1) as usize
    } else {
        row
    }
}

fn from_one(row: usize) -> (r: usize)
    ensures
        r == next_row(row),
{
    if row < usize::MAX {
        row + 1
    } else {
        row
    }
}

/// The first request of a move.
pub fn begin(m: NvimMove) -> (r: (Request, TalkStage))
    ensures
        (r.0@, r.1@) == m@.first_request(),
{
    match m {
        NvimMove::Click { row, byte, insert } => (
            Request::SetCursor { row: from_one(row), col: byte },
            TalkStage::Placing { insert },
        ),
        NvimMove::Replace { from, to, text, cursor } => (
            Request::SetText { from, to, lines: text::split(text.as_str(), '\n') },
            TalkStage::Replacing { cursor },
        ),
        NvimMove::Keys(s) => (Request::Input(s), TalkStage::Typing),
    }
}

/// An answer: a value or an error.
pub enum Reply {
    Value(Value),
    Error(Seq<char>),
}

pub open spec fn reply_view(r: Result<Value, String>) -> Reply {
    match r {
        Ok(v) => Reply::Value(v),
        Err(e) => Reply::Error(e@),
    }
}

impl NvimView {
    pub open spec fn reading(self, stage: TalkStageView) -> TalkNextView {
        TalkNextView::Ask(RequestView::Eval(state_query(self.bufnr)), stage)
    }

    pub open spec fn read(self, v: Value) -> (TalkNextView, NvimView) {
        match state_error(v) {
            None => (TalkNextView::Done, self.with_state(v)),
            Some(e) => (TalkNextView::Failed(e), self),
        }
    }

    /// What an answer leads to, and the cell after it. Where nvim is outside
    /// the cell, it is put back and the text read again. Where the state
    /// query fails, nvim may sit in a blocking prompt: if it still answers
    /// what mode it is in, the last known state stays.
    pub open spec fn talked(self, stage: TalkStageView, reply: Reply) -> (TalkNextView, NvimView) {
        match (stage, reply) {
            (TalkStageView::Placing { insert }, _) => (
                if insert {
                    TalkNextView::Ask(RequestView::Input("i"@), TalkStageView::Typing)
                } else {
                    self.reading(TalkStageView::Reading)
                },
                self,
            ),
            (TalkStageView::Reading, Reply::Error(e)) => (
                TalkNextView::Ask(RequestView::GetMode, TalkStageView::Probing(e)),
                self,
            ),
            (TalkStageView::Probing(e), Reply::Error(_)) => (TalkNextView::Failed(e), self),
            (_, Reply::Error(e)) => (TalkNextView::Failed(e), self),
            (TalkStageView::Replacing { cursor }, Reply::Value(_)) => (
                TalkNextView::Ask(
                    RequestView::SetCursor { row: next_row(cursor.0), col: cursor.1 },
                    TalkStageView::Moving,
                ),
                self,
            ),
            (TalkStageView::Moving, Reply::Value(_)) => (
                self.reading(TalkStageView::Reading),
                self,
            ),
            (TalkStageView::Typing, Reply::Value(_)) => (
                self.reading(TalkStageView::Reading),
                self,
            ),
            (TalkStageView::Reading, Reply::Value(v)) => if foreign(v, self.bufnr) {
                (
                    TalkNextView::Ask(
                        RequestView::Reclaim(self.bufnr),
                        TalkStageView::Reclaiming,
                    ),
                    self,
                )
            } else {
                self.read(v)
            },
            (TalkStageView::Reclaiming, Reply::Value(_)) => (
                self.reading(TalkStageView::Rereading),
                NvimView { notice: Some(notice_text()), ..self },
            ),
            (TalkStageView::Rereading, Reply::Value(v)) => self.read(v),
            (TalkStageView::Probing(_), Reply::Value(v)) => (
                TalkNextView::Done,
                match (v, mode_in(v->Table_0@, 0)) {
                    (Value::Table(_), Some(m)) => NvimView { mode: m, ..self },
                    _ => self,
                },
            ),
        }
    }
}

fn find_mode(a: &Vec<Value>) -> (r: Option<String>)
    ensures
        opt_view(r) == mode_in(a@, 0),
{
    let mut k: usize = 0;
    while a.len() >= 1 && k < a.len() - 1
        invariant
            mode_in(a@, 0) == mode_in(a@, k as int),
            k <= a@.len() + 1,
        decreases a@.len() + 1 - k,
    {
        if let Value::Str(s) = &a[k] {
            if text::same(s.as_str(), "mode") {
                return a[k + 1].as_str();
            }
        }
        k = k + 2;
    }
    None
}

impl NvimCell {
    fn ask_state(&self, stage: TalkStage) -> (r: TalkNext)
        ensures
            r@ == self@.reading(stage@),
    {
        TalkNext::Ask(Request::Eval(self.state_expr()), stage)
    }

    fn take_state(&mut self, v: &Value) -> (r: TalkNext)
        ensures
            (r@, final(self)@) == old(self)@.read(*v),
            old(self)@.wf() ==> final(self)@.wf(),
    {
        match self.apply_state(v) {
            None => TalkNext::Done,
            Some(e) => TalkNext::Failed(e),
        }
    }

    fn set_notice(&mut self)
        ensures
            final(self)@ == (NvimView { notice: Some(notice_text()), ..old(self)@ }),
    {
        self.notice = Some(
            "nvim opened a window/picker — jotter can't draw nvim UI, so it was closed".to_owned(),
        );
    }

    fn set_mode(&mut self, mode: String)
        ensures
            final(self)@ == (NvimView { mode: mode@, ..old(self)@ }),
    {
        self.mode = mode;
    }

    /// Feed keys.
    pub fn feed(keys: String) -> (r: (Request, TalkStage))
        ensures
            (r.0@, r.1@) == (RequestView::Input(keys@), TalkStageView::Typing),
    {
        (Request::Input(keys), TalkStage::Typing)
    }

    /// What an answer leads to.
    pub fn talk(&mut self, stage: TalkStage, reply: Result<Value, String>) -> (r: TalkNext)
        ensures
            (r@, final(self)@) == old(self)@.talked(stage@, reply_view(reply)),
            old(self)@.wf() ==> final(self)@.wf(),
    {
        if let TalkStage::Placing { insert } = stage {
            return if insert {
                TalkNext::Ask(Request::Input("i".to_owned()), TalkStage::Typing)
            } else {
                self.ask_state(TalkStage::Reading)
            };
        }
        let v = match reply {
            Ok(v) => v,
            Err(e) => {
                return match stage {
                    TalkStage::Reading => TalkNext::Ask(Request::GetMode, TalkStage::Probing(e)),
                    TalkStage::Probing(first) => TalkNext::Failed(first),
                    _ => TalkNext::Failed(e),
                };
            },
        };
        match stage {
            TalkStage::Placing { insert: _ } => TalkNext::Done,
            TalkStage::Replacing { cursor } => TalkNext::Ask(
                Request::SetCursor { row: from_one(cursor.0), col: cursor.1 },
                TalkStage::Moving,
            ),
            TalkStage::Moving => self.ask_state(TalkStage::Reading),
            TalkStage::Typing => self.ask_state(TalkStage::Reading),
            TalkStage::Reading => {
                if Self::is_foreign(&v, self.bufnr) {
                    return TalkNext::Ask(Request::Reclaim(self.bufnr), TalkStage::Reclaiming);
                }
                self.take_state(&v)
            },
            TalkStage::Reclaiming => {
                let next = self.ask_state(TalkStage::Rereading);
                self.set_notice();
                next
            },
            TalkStage::Rereading => self.take_state(&v),
            TalkStage::Probing(_) => {
                if let Value::Table(a) = &v {
                    if let Some(m) = find_mode(a) {
                        self.set_mode(m);
                    }
                }
                TalkNext::Done
            },
        }
    }
}

/// A plugin window's text is never taken for the cell's: where nvim is
/// outside the cell, the cell keeps its text.
pub proof fn law_a_foreign_window_never_touches_the_text(c: NvimView, v: Value)
    requires
        foreign(v, c.bufnr),
    ensures
        c.talked(TalkStageView::Reading, Reply::Value(v)).1 == c,
{
}

/// An nvim that still answers what mode it is in is not given up, and the
/// cell keeps its last known text.
pub proof fn law_a_blocked_nvim_keeps_the_text(c: NvimView, e: Seq<char>, v: Value)
    ensures
        c.talked(TalkStageView::Reading, Reply::Error(e)).0 == TalkNextView::Ask(
            RequestView::GetMode,
            TalkStageView::Probing(e),
        ),
        c.talked(TalkStageView::Probing(e), Reply::Value(v)).0 == TalkNextView::Done,
        c.talked(TalkStageView::Probing(e), Reply::Value(v)).1.lines == c.lines,
{
}

} // verus!
