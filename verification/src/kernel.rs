//! Kernel lifecycle and wire protocol: how a kernel is found and launched,
//! what its messages mean, and how requests to it are numbered.

use vstd::prelude::*;

use crate::json::Json;
#[allow(unused_imports)]
use crate::json::JsonView;
use crate::markdown;
#[allow(unused_imports)]
use crate::markdown::joined_path;
use crate::text;
#[allow(unused_imports)]
use crate::text::{decimal, has_prefix, join, opt_view, trim, views};

verus! {

// ---------------------------------------------------------------------------
// Running kernels
// ---------------------------------------------------------------------------

/// A running kernel.
pub struct Kernel {
    /// Resolved kernelspec name (may differ from the requested one).
    pub name: String,
    pub display_name: String,
    pub language: String,
    /// Directory the kernelspec was found in — disambiguates venv vs global.
    pub spec_dir: String,
    pub session: String,
    /// Which launch it came from.
    pub launch: u64,
    pub pid: Option<u32>,
    /// kernelspec interrupt_mode == "message"; otherwise SIGINT the process.
    pub interrupt_via_message: bool,
    /// Requests sent so far.
    pub sent: u64,
}

#[verifier::ext_equal]
pub struct KernelView {
    pub name: Seq<char>,
    pub display_name: Seq<char>,
    pub language: Seq<char>,
    pub spec_dir: Seq<char>,
    pub session: Seq<char>,
    pub launch: u64,
    pub pid: Option<u32>,
    pub interrupt_via_message: bool,
    pub sent: u64,
}

impl View for Kernel {
    type V = KernelView;

    open spec fn view(&self) -> KernelView {
        KernelView {
            name: self.name@,
            display_name: self.display_name@,
            language: self.language@,
            spec_dir: self.spec_dir@,
            session: self.session@,
            launch: self.launch,
            pid: self.pid,
            interrupt_via_message: self.interrupt_via_message,
            sent: self.sent,
        }
    }
}

/// How a kernel is interrupted.
#[derive(Clone, Copy, Debug, PartialEq, Eq, Structural)]
pub enum Interrupt {
    /// An interrupt_request on the control channel.
    Message,
    /// SIGINT to the process.
    Signal(u32),
    Nothing,
}

impl KernelView {
    /// The id of the next request.
    pub open spec fn next_id(self) -> Seq<char> {
        self.session + "_"@ + decimal(self.sent as int)
    }

    /// With one more request sent.
    pub open spec fn after_request(self) -> KernelView {
        KernelView { sent: self.sent.wrapping_add(1), ..self }
    }

    pub open spec fn interrupt(self) -> Interrupt {
        if self.interrupt_via_message {
            Interrupt::Message
        } else {
            match self.pid {
                Some(pid) => Interrupt::Signal(pid),
                None => Interrupt::Nothing,
            }
        }
    }
}

impl Kernel {
    /// Numbers a request.
    pub fn request_id(&mut self) -> (r: String)
        ensures
            r@ == old(self)@.next_id(),
            final(self)@ == old(self)@.after_request(),
    {
        let mut id = self.session.clone();
        id.append("_");
        id.append(text::decimal_string(self.sent).as_str());
        self.sent = self.sent.wrapping_add(1);
        id
    }

    /// How this kernel is interrupted.
    pub fn interrupt(&self) -> (r: Interrupt)
        ensures
            r == self@.interrupt(),
    {
        if self.interrupt_via_message {
            Interrupt::Message
        } else {
            match self.pid {
                Some(pid) => Interrupt::Signal(pid),
                None => Interrupt::Nothing,
            }
        }
    }

    pub fn is_python(&self) -> (r: bool)
        ensures
            r == same_ignoring_case(self@.language, "python"@),
    {
        equal_ignoring_case(self.language.as_str(), "python")
    }
}

/// The lower-case form of an ASCII letter; any other character itself.
pub open spec fn ascii_lower(c: char) -> char {
    if text::is_ascii_upper(c) {
        ((c as u32) + 32) as char
    } else {
        c
    }
}

/// Equal but for the case of ASCII letters.
pub open spec fn same_ignoring_case(a: Seq<char>, b: Seq<char>) -> bool {
    a.len() == b.len() && forall|i: int|
        0 <= i < a.len() ==> ascii_lower(#[trigger] a[i]) == ascii_lower(b[i])
}

fn lower(c: char) -> (r: char)
    ensures
        r == ascii_lower(c),
{
    if 'A' <= c && c <= 'Z' {
        ((c as u8) + 32) as char
    } else {
        c
    }
}

/// Equal but for the case of ASCII letters.
pub fn equal_ignoring_case(a: &str, b: &str) -> (r: bool)
    ensures
        r == same_ignoring_case(a@, b@),
{
    let x = text::chars_of(a);
    let y = text::chars_of(b);
    if x.len() != y.len() {
        return false;
    }
    let mut i: usize = 0;
    while i < x.len()
        invariant
            i <= x@.len(),
            x@ == a@,
            y@ == b@,
            x@.len() == y@.len(),
            forall|k: int| 0 <= k < i ==> ascii_lower(#[trigger] a@[k]) == ascii_lower(b@[k]),
        decreases x@.len() - i,
    {
        if lower(x[i]) != lower(y[i]) {
            assert(ascii_lower(a@[i as int]) != ascii_lower(b@[i as int]));
            return false;
        }
        i += 1;
    }
    true
}

// ---------------------------------------------------------------------------
// Events
// ---------------------------------------------------------------------------

/// Kernel-side happenings, applied to app state in the main loop.
pub enum Event {
    /// Background launch finished.
    Ready(Kernel),
    /// Background launch failed.
    LaunchFailed { launch: u64, reason: String },
    /// nbformat-shaped output object for the cell that sent `parent`.
    Output { parent: String, output: Json },
    /// New contents for every output with this display id.
    UpdateDisplay { display_id: String, output: Json },
    /// `execute_input` arrived: the kernel assigned an execution count.
    ExecutionCount { parent: String, count: i64 },
    /// clear_output arrived; with `wait` the clear is deferred to next output.
    Clear { parent: String, wait: bool },
    /// The kernel asked for user input (`input()`); `request` is the id of
    /// the request to answer.
    Input { request: String, prompt: String, password: bool },
    /// iopub status: kernel busy/idle.
    Status { parent: String, busy: bool },
    /// execute_reply arrived.
    Done { parent: String },
    /// Completion matches, the char offset that they replace from, and what
    /// is known of some of them: name, kind, signature.
    Complete {
        parent: String,
        matches: Vec<String>,
        start: usize,
        types: Vec<(String, String, String)>,
    },
    /// Documentation, if any was found.
    Inspect { parent: String, text: Option<String> },
    /// The kernel process exited on its own (reason includes last stderr line).
    Dead(String),
    /// Human-readable status.
    Info(String),
}

pub enum EventView {
    Ready(KernelView),
    LaunchFailed { launch: u64, reason: Seq<char> },
    Output { parent: Seq<char>, output: JsonView },
    UpdateDisplay { display_id: Seq<char>, output: JsonView },
    ExecutionCount { parent: Seq<char>, count: i64 },
    Clear { parent: Seq<char>, wait: bool },
    Input { request: Seq<char>, prompt: Seq<char>, password: bool },
    Status { parent: Seq<char>, busy: bool },
    Done { parent: Seq<char> },
    Complete {
        parent: Seq<char>,
        matches: Seq<Seq<char>>,
        start: usize,
        types: Seq<(Seq<char>, Seq<char>, Seq<char>)>,
    },
    Inspect { parent: Seq<char>, text: Option<Seq<char>> },
    Dead(Seq<char>),
    Info(Seq<char>),
}

pub open spec fn type_views(v: Seq<(String, String, String)>) -> Seq<
    (Seq<char>, Seq<char>, Seq<char>),
> {
    v.map_values(|t: (String, String, String)| (t.0@, t.1@, t.2@))
}

impl View for Event {
    type V = EventView;

    open spec fn view(&self) -> EventView {
        match *self {
            Event::Ready(k) => EventView::Ready(k@),
            Event::LaunchFailed { launch, reason } => EventView::LaunchFailed {
                launch,
                reason: reason@,
            },
            Event::Output { parent, output } => EventView::Output {
                parent: parent@,
                output: output@,
            },
            Event::UpdateDisplay { display_id, output } => EventView::UpdateDisplay {
                display_id: display_id@,
                output: output@,
            },
            Event::ExecutionCount { parent, count } => EventView::ExecutionCount {
                parent: parent@,
                count,
            },
            Event::Clear { parent, wait } => EventView::Clear { parent: parent@, wait },
            Event::Input { request, prompt, password } => EventView::Input {
                request: request@,
                prompt: prompt@,
                password,
            },
            Event::Status { parent, busy } => EventView::Status { parent: parent@, busy },
            Event::Done { parent } => EventView::Done { parent: parent@ },
            Event::Complete { parent, matches, start, types } => EventView::Complete {
                parent: parent@,
                matches: views(matches@),
                start,
                types: type_views(types@),
            },
            Event::Inspect { parent, text } => EventView::Inspect {
                parent: parent@,
                text: opt_view(text),
            },
            Event::Dead(s) => EventView::Dead(s@),
            Event::Info(s) => EventView::Info(s@),
        }
    }
}

// ---------------------------------------------------------------------------
// Messages
// ---------------------------------------------------------------------------

/// The content of a message from the kernel, as far as it matters here.
/// Outputs are the content objects as JSON.
pub enum Content {
    Stream(Json),
    ExecuteResult(Json),
    DisplayData(Json),
    UpdateDisplayData(Json),
    Error(Json),
    ClearOutput { wait: bool },
    ExecuteInput { count: Option<i64> },
    Status { busy: bool },
    ExecuteReply,
    CompleteReply { matches: Vec<String>, start: usize, metadata: Json },
    InspectReply { found: bool, data: Json },
    InputRequest { prompt: String, password: bool },
    Other,
}

pub enum ContentView {
    Stream(JsonView),
    ExecuteResult(JsonView),
    DisplayData(JsonView),
    UpdateDisplayData(JsonView),
    Error(JsonView),
    ClearOutput { wait: bool },
    ExecuteInput { count: Option<i64> },
    Status { busy: bool },
    ExecuteReply,
    CompleteReply { matches: Seq<Seq<char>>, start: usize, metadata: JsonView },
    InspectReply { found: bool, data: JsonView },
    InputRequest { prompt: Seq<char>, password: bool },
    Other,
}

impl View for Content {
    type V = ContentView;

    open spec fn view(&self) -> ContentView {
        match *self {
            Content::Stream(j) => ContentView::Stream(j@),
            Content::ExecuteResult(j) => ContentView::ExecuteResult(j@),
            Content::DisplayData(j) => ContentView::DisplayData(j@),
            Content::UpdateDisplayData(j) => ContentView::UpdateDisplayData(j@),
            Content::Error(j) => ContentView::Error(j@),
            Content::ClearOutput { wait } => ContentView::ClearOutput { wait },
            Content::ExecuteInput { count } => ContentView::ExecuteInput { count },
            Content::Status { busy } => ContentView::Status { busy },
            Content::ExecuteReply => ContentView::ExecuteReply,
            Content::CompleteReply { matches, start, metadata } => ContentView::CompleteReply {
                matches: views(matches@),
                start,
                metadata: metadata@,
            },
            Content::InspectReply { found, data } => ContentView::InspectReply {
                found,
                data: data@,
            },
            Content::InputRequest { prompt, password } => ContentView::InputRequest {
                prompt: prompt@,
                password,
            },
            Content::Other => ContentView::Other,
        }
    }
}

/// A message from the kernel.
pub struct Message {
    pub id: String,
    /// Id of the request that it answers.
    pub parent: Option<String>,
    pub content: Content,
}

/// The id that an answer belongs to; empty where it answers nothing.
pub open spec fn parent_of(parent: Option<Seq<char>>) -> Seq<char> {
    match parent {
        Some(s) => s,
        None => ""@,
    }
}

fn parent_id(parent: Option<String>) -> (r: String)
    ensures
        r@ == parent_of(opt_view(parent)),
{
    match parent {
        Some(s) => s,
        None => "".to_owned(),
    }
}

/// A content object stamped with its nbformat output type.
pub open spec fn stamped(content: JsonView, ty: Seq<char>) -> JsonView {
    content.set("output_type"@, JsonView::Str(ty))
}

pub open spec fn output_event(parent: Seq<char>, content: JsonView, ty: Seq<char>) -> EventView {
    EventView::Output { parent, output: stamped(content, ty) }
}

/// The display id that an update names.
pub open spec fn display_id_of(content: JsonView) -> Option<Seq<char>> {
    content.at("transient"@).at("display_id"@).as_str()
}

/// What a message on the iopub channel means.
pub open spec fn iopub_event(parent: Option<Seq<char>>, c: ContentView) -> Option<EventView> {
    let parent = parent_of(parent);
    match c {
        ContentView::Stream(j) => Some(output_event(parent, j, "stream"@)),
        ContentView::ExecuteResult(j) => Some(output_event(parent, j, "execute_result"@)),
        ContentView::DisplayData(j) => Some(output_event(parent, j, "display_data"@)),
        ContentView::Error(j) => Some(output_event(parent, j, "error"@)),
        ContentView::UpdateDisplayData(j) => match display_id_of(j) {
            Some(display_id) => Some(EventView::UpdateDisplay { display_id, output: j }),
            None => None,
        },
        ContentView::ClearOutput { wait } => Some(EventView::Clear { parent, wait }),
        ContentView::ExecuteInput { count } => match count {
            Some(count) => Some(EventView::ExecutionCount { parent, count }),
            None => None,
        },
        ContentView::Status { busy } => Some(EventView::Status { parent, busy }),
        _ => None,
    }
}

fn nb_output(parent: String, ty: &str, content: Json) -> (r: Event)
    ensures
        r@ == output_event(parent@, content@, ty@),
{
    let mut output = content;
    output.set("output_type", Json::string(ty));
    Event::Output { parent, output }
}

/// What a message on the iopub channel means.
pub fn translate_iopub(msg: Message) -> (r: Option<Event>)
    ensures
        opt_view(r) == iopub_event(opt_view(msg.parent), msg.content@),
{
    let parent = parent_id(msg.parent);
    match msg.content {
        Content::Stream(j) => Some(nb_output(parent, "stream", j)),
        Content::ExecuteResult(j) => Some(nb_output(parent, "execute_result", j)),
        Content::DisplayData(j) => Some(nb_output(parent, "display_data", j)),
        Content::Error(j) => Some(nb_output(parent, "error", j)),
        Content::UpdateDisplayData(j) => {
            let id = display_id(&j);
            match id {
                Some(display_id) => Some(Event::UpdateDisplay { display_id, output: j }),
                None => None,
            }
        },
        Content::ClearOutput { wait } => Some(Event::Clear { parent, wait }),
        Content::ExecuteInput { count } => match count {
            Some(count) => Some(Event::ExecutionCount { parent, count }),
            None => None,
        },
        Content::Status { busy } => Some(Event::Status { parent, busy }),
        _ => None,
    }
}

/// The display id of an output.
pub fn display_id(content: &Json) -> (r: Option<String>)
    ensures
        opt_view(r) == display_id_of(content@),
{
    match content.get("transient") {
        Some(t) => match t.get("display_id") {
            Some(Json::Str(s)) => Some(s.clone()),
            _ => None,
        },
        None => None,
    }
}

/// A string member; empty where there is none.
pub open spec fn string_or_empty(v: JsonView, k: Seq<char>) -> Seq<char> {
    match v.at(k).as_str() {
        Some(s) => s,
        None => Seq::empty(),
    }
}

/// What completion metadata says of each match: name, kind, signature.
pub open spec fn match_types(metadata: JsonView) -> Seq<(Seq<char>, Seq<char>, Seq<char>)> {
    match metadata.at("_jupyter_types_experimental"@) {
        JsonView::Arr(a) => a.map_values(
            |v: JsonView|
                (
                    string_or_empty(v, "text"@),
                    string_or_empty(v, "type"@),
                    string_or_empty(v, "signature"@),
                ),
        ),
        _ => Seq::empty(),
    }
}

fn string_at(v: &Json, k: &str) -> (r: String)
    ensures
        r@ == string_or_empty(v@, k@),
{
    match v.str_at(k) {
        Some(s) => s.to_owned(),
        None => String::new(),
    }
}

fn types_in(metadata: &Json) -> (r: Vec<(String, String, String)>)
    ensures
        type_views(r@) == match_types(metadata@),
{
    let mut r: Vec<(String, String, String)> = Vec::new();
    match metadata.get("_jupyter_types_experimental") {
        Some(Json::Arr(a)) => {
            proof {
                crate::json::lemma_array_view(a@);
            }
            let ghost want = match_types(metadata@);
            let mut i: usize = 0;
            while i < a.len()
                invariant
                    i <= a@.len(),
                    want == match_types(metadata@),
                    metadata@.at("_jupyter_types_experimental"@) == JsonView::Arr(views(a@)),
                    r@.len() == i,
                    forall|k: int| 0 <= k < i ==> type_views(r@)[k] == #[trigger] want[k],
                decreases a@.len() - i,
            {
                let ghost r0 = r@;
                let v = &a[i];
                assert(views(a@)[i as int] == v@);
                let t = (string_at(v, "text"), string_at(v, "type"), string_at(v, "signature"));
                r.push(t);
                assert(type_views(r@) =~= type_views(r0).push((t.0@, t.1@, t.2@)));
                i += 1;
            }
            assert(type_views(r@) =~= want);
        },
        _ => {
            assert(type_views(r@) =~= match_types(metadata@));
        },
    }
    r
}

/// What a reply on the shell channel means.
pub open spec fn shell_event(parent: Option<Seq<char>>, c: ContentView) -> Option<EventView> {
    let parent = parent_of(parent);
    match c {
        ContentView::ExecuteReply => Some(EventView::Done { parent }),
        ContentView::CompleteReply { matches, start, metadata } => Some(
            EventView::Complete { parent, matches, start, types: match_types(metadata) },
        ),
        ContentView::InspectReply { found, data } => Some(
            EventView::Inspect {
                parent,
                text: if found {
                    data.at("text/plain"@).as_str()
                } else {
                    None
                },
            },
        ),
        _ => None,
    }
}

/// What a reply on the shell channel means.
pub fn translate_shell(msg: Message) -> (r: Option<Event>)
    ensures
        opt_view(r) == shell_event(opt_view(msg.parent), msg.content@),
{
    let parent = parent_id(msg.parent);
    match msg.content {
        Content::ExecuteReply => Some(Event::Done { parent }),
        Content::CompleteReply { matches, start, metadata } => {
            let types = types_in(&metadata);
            Some(Event::Complete { parent, matches, start, types })
        },
        Content::InspectReply { found, data } => {
            let text = if found {
                match data.str_at("text/plain") {
                    Some(s) => Some(s.to_owned()),
                    None => None,
                }
            } else {
                None
            };
            Some(Event::Inspect { parent, text })
        },
        _ => None,
    }
}

/// What a message on the stdin channel means.
pub fn translate_stdin(msg: Message) -> (r: Option<Event>)
    ensures
        opt_view(r) == match msg.content@ {
            ContentView::InputRequest { prompt, password } => Some(
                EventView::Input { request: msg.id@, prompt, password },
            ),
            _ => None,
        },
{
    match msg.content {
        Content::InputRequest { prompt, password } => Some(
            Event::Input { request: msg.id, prompt, password },
        ),
        _ => None,
    }
}

// ---------------------------------------------------------------------------
// Death
// ---------------------------------------------------------------------------

/// The last line of the kernel's stderr that says anything: the diagnosis
/// when it dies.
pub fn note_stderr(last: String, line: String) -> (r: String)
    ensures
        r@ == if trim(line@).len() == 0 {
            last@
        } else {
            line@
        },
{
    if text::trimmed(line.as_str()).as_str().is_empty() {
        last
    } else {
        line
    }
}

/// What is reported when a kernel exits on its own.
pub fn death_event(status: &str, stderr: &str) -> (r: Event)
    ensures
        r@ == EventView::Dead("kernel died ("@ + status@ + "): "@ + stderr@),
{
    let mut s = "kernel died (".to_owned();
    s.append(status);
    s.append("): ");
    s.append(stderr);
    Event::Dead(s)
}

// ---------------------------------------------------------------------------
// Resolution
// ---------------------------------------------------------------------------

/// Names to look for: the requested one, then `python3`.
pub open spec fn candidate_names(requested: Seq<char>) -> Seq<Seq<char>> {
    if requested == "python3"@ {
        seq![requested]
    } else {
        seq![requested, "python3"@]
    }
}

fn candidates(requested: &str) -> (r: Vec<String>)
    ensures
        views(r@) == candidate_names(requested@),
{
    let mut r: Vec<String> = Vec::new();
    r.push(requested.to_owned());
    if !text::same(requested, "python3") {
        r.push("python3".to_owned());
    }
    assert(views(r@) =~= candidate_names(requested@));
    r
}

/// What `{:?}` prints of a string.
pub uninterp spec fn debug_text(s: Seq<char>) -> Seq<char>;

/// A printable ASCII character that stands for itself between double quotes.
pub open spec fn is_plain(c: char) -> bool {
    ' ' <= c && c <= '~' && c != '"' && c != '\\'
}

/// `format!("{:?}")` of a string: in double quotes, with what cannot be
/// printed, quotes and backslashes escaped. Other printable ASCII characters
/// stand for themselves.
#[verifier::external_body]
fn debug_string(s: &str) -> (r: String)
    ensures
        r@ == debug_text(s@),
        (forall|i: int| 0 <= i < s@.len() ==> is_plain(#[trigger] s@[i])) ==> r@ == seq!['"'] + s@
            + seq!['"'],
{
    format!("{:?}", s)
}

/// Strings in a list: quoted, in square brackets.
pub open spec fn listed(names: Seq<Seq<char>>) -> Seq<char> {
    "["@ + join(names.map_values(|n: Seq<char>| debug_text(n)), ", "@) + "]"@
}

fn list(names: &Vec<String>) -> (r: String)
    ensures
        r@ == listed(views(names@)),
{
    let ghost all = views(names@).map_values(|n: Seq<char>| debug_text(n));
    let mut quoted: Vec<String> = Vec::new();
    let mut i: usize = 0;
    while i < names.len()
        invariant
            i <= names@.len(),
            all == views(names@).map_values(|n: Seq<char>| debug_text(n)),
            quoted@.len() == i,
            forall|k: int| 0 <= k < i ==> (#[trigger] quoted@[k])@ == all[k],
        decreases names@.len() - i,
    {
        quoted.push(debug_string(names[i].as_str()));
        i += 1;
    }
    assert(views(quoted@) =~= all);
    let mut s = "[".to_owned();
    s.append(text::join_strings(&quoted, ", ").as_str());
    s.append("]");
    s
}

/// Environments to look in: the activated one, then `.venv` and `venv` next
/// to the notebook.
pub open spec fn environments(
    virtual_env: Option<Seq<char>>,
    conda_prefix: Option<Seq<char>>,
    notebook_dir: Seq<char>,
) -> Seq<Seq<char>> {
    let a = match virtual_env {
        Some(v) => seq![v],
        None => Seq::empty(),
    };
    let b = match conda_prefix {
        Some(v) => seq![v],
        None => Seq::empty(),
    };
    a + b + seq![joined_path(notebook_dir, ".venv"@), joined_path(notebook_dir, "venv"@)]
}

/// Environments to look in, given `$VIRTUAL_ENV` and `$CONDA_PREFIX`.
pub fn venv_dirs(
    virtual_env: Option<String>,
    conda_prefix: Option<String>,
    notebook_dir: &str,
) -> (r: Vec<String>)
    ensures
        views(r@) == environments(opt_view(virtual_env), opt_view(conda_prefix), notebook_dir@),
{
    let ghost want = environments(opt_view(virtual_env), opt_view(conda_prefix), notebook_dir@);
    let mut r: Vec<String> = Vec::new();
    if let Some(v) = virtual_env {
        r.push(v);
    }
    if let Some(v) = conda_prefix {
        r.push(v);
    }
    r.push(markdown::join_path(notebook_dir, ".venv"));
    r.push(markdown::join_path(notebook_dir, "venv"));
    assert(views(r@) =~= want);
    r
}

/// A place to look for a kernelspec.
pub enum Probe {
    /// In the kernels of an environment.
    Venv { name: String, venv: String },
    /// In the global directories.
    Global { name: String },
}

pub enum ProbeView {
    Venv { name: Seq<char>, venv: Seq<char> },
    Global { name: Seq<char> },
}

impl View for Probe {
    type V = ProbeView;

    open spec fn view(&self) -> ProbeView {
        match *self {
            Probe::Venv { name, venv } => ProbeView::Venv { name: name@, venv: venv@ },
            Probe::Global { name } => ProbeView::Global { name: name@ },
        }
    }
}

impl Probe {
    pub fn duplicate(&self) -> (r: Probe)
        ensures
            r@ == self@,
    {
        match self {
            Probe::Venv { name, venv } => Probe::Venv { name: name.clone(), venv: venv.clone() },
            Probe::Global { name } => Probe::Global { name: name.clone() },
        }
    }
}

/// The places to look for one name: the environments, then globally.
pub open spec fn rung(name: Seq<char>, venvs: Seq<Seq<char>>) -> Seq<ProbeView> {
    venvs.map_values(|v: Seq<char>| ProbeView::Venv { name, venv: v }).push(
        ProbeView::Global { name },
    )
}

/// The resolution ladder: every place for the first name, then for the next.
pub open spec fn ladder_of(names: Seq<Seq<char>>, venvs: Seq<Seq<char>>) -> Seq<ProbeView>
    decreases names.len(),
{
    if names.len() == 0 {
        Seq::empty()
    } else {
        ladder_of(names.drop_last(), venvs) + rung(names.last(), venvs)
    }
}

/// Kernelspec resolution ladder. For each candidate name (`requested`, then
/// `python3`): the kernels of the environments first, then global dirs.
pub fn ladder(requested: &str, venvs: &Vec<String>) -> (r: Vec<Probe>)
    ensures
        views(r@) == ladder_of(candidate_names(requested@), views(venvs@)),
        r@.len() > 0,
{
    let names = candidates(requested);
    let ghost ns = views(names@);
    let ghost vs = views(venvs@);
    let mut r: Vec<Probe> = Vec::new();
    let mut i: usize = 0;
    assert(views(r@) =~= ladder_of(ns.take(0), vs));
    while i < names.len()
        invariant
            i <= names@.len(),
            ns == views(names@),
            vs == views(venvs@),
            views(r@) == ladder_of(ns.take(i as int), vs),
            i > 0 ==> r@.len() > 0,
        decreases names@.len() - i,
    {
        let ghost r0 = views(r@);
        let name = &names[i];
        let ghost steps = rung(name@, vs);
        let mut j: usize = 0;
        assert(r0 + steps.take(0) =~= r0);
        while j < venvs.len()
            invariant
                j <= venvs@.len(),
                vs == views(venvs@),
                steps == rung(name@, vs),
                views(r@) == r0 + steps.take(j as int),
            decreases venvs@.len() - j,
        {
            let ghost r1 = r@;
            let p = Probe::Venv { name: name.clone(), venv: venvs[j].clone() };
            r.push(p);
            assert(views(r@) =~= views(r1).push(p@));
            assert(steps[j as int] == p@);
            j += 1;
            assert(r0 + steps.take(j as int) =~= (r0 + steps.take(j - 1)).push(p@));
        }
        let ghost r1 = r@;
        let p = Probe::Global { name: name.clone() };
        r.push(p);
        assert(views(r@) =~= views(r1).push(p@));
        assert(steps =~= steps.take(j as int).push(p@));
        assert(views(r@) =~= r0 + steps);
        i += 1;
        assert(ns.take(i as int).drop_last() =~= ns.take(i - 1));
        assert(ns.take(i as int).last() == name@);
    }
    assert(ns.take(i as int) =~= ns);
    r
}

/// A kernelspec that was found.
pub struct Spec {
    pub name: String,
    /// Directory that it was found in.
    pub dir: String,
    pub argv: Vec<String>,
    pub display_name: String,
    pub language: String,
    pub interrupt_mode: Option<String>,
}

#[verifier::ext_equal]
pub struct SpecView {
    pub name: Seq<char>,
    pub dir: Seq<char>,
    pub argv: Seq<Seq<char>>,
    pub display_name: Seq<char>,
    pub language: Seq<char>,
    pub interrupt_mode: Option<Seq<char>>,
}

impl View for Spec {
    type V = SpecView;

    open spec fn view(&self) -> SpecView {
        SpecView {
            name: self.name@,
            dir: self.dir@,
            argv: views(self.argv@),
            display_name: self.display_name@,
            language: self.language@,
            interrupt_mode: opt_view(self.interrupt_mode),
        }
    }
}

/// The kernelspec as it is launched from where it was found. ipykernel ships
/// argv[0] = "python" (relative); in an environment that is the environment's
/// own interpreter.
pub open spec fn launched_from(p: ProbeView, spec: SpecView) -> SpecView {
    match p {
        ProbeView::Venv { name, venv } => if spec.argv.len() > 0 && !spec.argv[0].contains('/')
            && has_prefix(spec.argv[0], "python"@) {
            SpecView { argv: spec.argv.update(0, joined_path(venv, "bin/python"@)), ..spec }
        } else {
            spec
        },
        ProbeView::Global { name } => spec,
    }
}

fn launch_from(p: &Probe, spec: Spec) -> (r: Spec)
    ensures
        r@ == launched_from(p@, spec@),
{
    let mut spec = spec;
    if let Probe::Venv { name: _, venv } = p {
        if spec.argv.len() > 0 {
            assert(views(spec.argv@)[0] == spec.argv@[0]@);
            if !text::contains_char(spec.argv[0].as_str(), '/') && text::starts_with(
                spec.argv[0].as_str(),
                "python",
            ) {
                let ghost a0 = spec.argv@;
                let python = markdown::join_path(venv.as_str(), "bin/python");
                spec.argv.set(0, python);
                assert(views(spec.argv@) =~= views(a0).update(0, python@));
            }
        }
    }
    spec
}

// ---------------------------------------------------------------------------
// Launching
// ---------------------------------------------------------------------------

/// What the kernel is told of its sockets.
pub struct Connection {
    pub ip: String,
    pub shell_port: u16,
    pub iopub_port: u16,
    pub stdin_port: u16,
    pub control_port: u16,
    pub hb_port: u16,
    pub key: String,
    pub signature_scheme: String,
    pub kernel_name: String,
}

#[verifier::ext_equal]
pub struct ConnectionView {
    pub ip: Seq<char>,
    pub shell_port: u16,
    pub iopub_port: u16,
    pub stdin_port: u16,
    pub control_port: u16,
    pub hb_port: u16,
    pub key: Seq<char>,
    pub signature_scheme: Seq<char>,
    pub kernel_name: Seq<char>,
}

impl View for Connection {
    type V = ConnectionView;

    open spec fn view(&self) -> ConnectionView {
        ConnectionView {
            ip: self.ip@,
            shell_port: self.shell_port,
            iopub_port: self.iopub_port,
            stdin_port: self.stdin_port,
            control_port: self.control_port,
            hb_port: self.hb_port,
            key: self.key@,
            signature_scheme: self.signature_scheme@,
            kernel_name: self.kernel_name@,
        }
    }
}

/// A socket to the kernel, in the order in which they are connected. stdin
/// shares the shell's identity, so that input requests are routed to it.
#[derive(Clone, Copy, Debug, PartialEq, Eq, Structural)]
pub enum Channel {
    Iopub,
    Shell,
    Stdin,
    Control,
}

impl Channel {
    pub open spec fn name(self) -> Seq<char> {
        match self {
            Channel::Iopub => "iopub"@,
            Channel::Shell => "shell"@,
            Channel::Stdin => "stdin"@,
            Channel::Control => "control"@,
        }
    }

    pub open spec fn after(self) -> Option<Channel> {
        match self {
            Channel::Iopub => Some(Channel::Shell),
            Channel::Shell => Some(Channel::Stdin),
            Channel::Stdin => Some(Channel::Control),
            Channel::Control => None,
        }
    }

    fn label(&self) -> (r: &'static str)
        ensures
            r@ == self.name(),
    {
        match self {
            Channel::Iopub => "iopub",
            Channel::Shell => "shell",
            Channel::Stdin => "stdin",
            Channel::Control => "control",
        }
    }

    fn next(&self) -> (r: Option<Channel>)
        ensures
            r == self.after(),
    {
        match self {
            Channel::Iopub => Some(Channel::Shell),
            Channel::Shell => Some(Channel::Stdin),
            Channel::Stdin => Some(Channel::Control),
            Channel::Control => None,
        }
    }
}

/// How far a launch has come.
#[derive(Clone, Copy, Debug, PartialEq, Eq, Structural)]
pub enum Stage {
    Resolving,
    FindingPorts,
    Writing,
    Spawning,
    Connecting(Channel),
    Over,
}

/// A launch under way.
pub struct Launch {
    /// Requested kernel name.
    pub name: String,
    /// Number of this launch.
    pub launch: u64,
    /// Directory that the kernel runs in.
    pub dir: String,
    pub session: String,
    /// Key that messages are signed with.
    pub key: String,
    /// Directory of connection files.
    pub runtime_dir: String,
    pub probes: Vec<Probe>,
    pub stage: Stage,
    /// Which of the probes is under way.
    pub probe: usize,
    pub spec: Option<Spec>,
    pub pid: Option<u32>,
}

#[verifier::ext_equal]
pub struct LaunchView {
    pub name: Seq<char>,
    pub launch: u64,
    pub dir: Seq<char>,
    pub session: Seq<char>,
    pub key: Seq<char>,
    pub runtime_dir: Seq<char>,
    pub probes: Seq<ProbeView>,
    pub stage: Stage,
    pub probe: int,
    pub spec: Option<SpecView>,
    pub pid: Option<u32>,
}

impl View for Launch {
    type V = LaunchView;

    open spec fn view(&self) -> LaunchView {
        LaunchView {
            name: self.name@,
            launch: self.launch,
            dir: self.dir@,
            session: self.session@,
            key: self.key@,
            runtime_dir: self.runtime_dir@,
            probes: views(self.probes@),
            stage: self.stage,
            probe: self.probe as int,
            spec: opt_view(self.spec),
            pid: self.pid,
        }
    }
}

/// What came of the last action of a launch.
pub enum LaunchEvent {
    SpecFound(Spec),
    SpecMissing,
    Ports(Vec<u16>),
    Written,
    Spawned(Option<u32>),
    Connected,
    /// The arguments make no command; the cause.
    BadArgv(String),
    /// The action failed; the cause.
    Failed(String),
}

pub enum LaunchEventView {
    SpecFound(SpecView),
    SpecMissing,
    Ports(Seq<u16>),
    Written,
    Spawned(Option<u32>),
    Connected,
    BadArgv(Seq<char>),
    Failed(Seq<char>),
}

impl View for LaunchEvent {
    type V = LaunchEventView;

    open spec fn view(&self) -> LaunchEventView {
        match *self {
            LaunchEvent::SpecFound(s) => LaunchEventView::SpecFound(s@),
            LaunchEvent::SpecMissing => LaunchEventView::SpecMissing,
            LaunchEvent::Ports(p) => LaunchEventView::Ports(p@),
            LaunchEvent::Written => LaunchEventView::Written,
            LaunchEvent::Spawned(p) => LaunchEventView::Spawned(p),
            LaunchEvent::Connected => LaunchEventView::Connected,
            LaunchEvent::BadArgv(e) => LaunchEventView::BadArgv(e@),
            LaunchEvent::Failed(e) => LaunchEventView::Failed(e@),
        }
    }
}

/// What is to be done next.
pub enum LaunchAction {
    /// Look for a kernelspec.
    Look(Probe),
    /// Find five free ports.
    FindPorts,
    /// Write the connection file.
    Write { path: String, info: Connection },
    /// Start the process: its arguments, the connection file, its directory.
    Spawn { argv: Vec<String>, file: String, dir: String },
    Connect(Channel),
    /// The launch is over; what is to be reported.
    Report(Event),
    /// The event does not belong to this stage.
    Nothing,
}

pub enum LaunchActionView {
    Look(ProbeView),
    FindPorts,
    Write { path: Seq<char>, info: ConnectionView },
    Spawn { argv: Seq<Seq<char>>, file: Seq<char>, dir: Seq<char> },
    Connect(Channel),
    Report(EventView),
    Nothing,
}

impl View for LaunchAction {
    type V = LaunchActionView;

    open spec fn view(&self) -> LaunchActionView {
        match *self {
            LaunchAction::Look(p) => LaunchActionView::Look(p@),
            LaunchAction::FindPorts => LaunchActionView::FindPorts,
            LaunchAction::Write { path, info } => LaunchActionView::Write {
                path: path@,
                info: info@,
            },
            LaunchAction::Spawn { argv, file, dir } => LaunchActionView::Spawn {
                argv: views(argv@),
                file: file@,
                dir: dir@,
            },
            LaunchAction::Connect(c) => LaunchActionView::Connect(c),
            LaunchAction::Report(e) => LaunchActionView::Report(e@),
            LaunchAction::Nothing => LaunchActionView::Nothing,
        }
    }
}

impl LaunchView {
    pub open spec fn wf(self) -> bool {
        &&& self.stage == Stage::Resolving ==> 0 <= self.probe < self.probes.len()
        &&& self.stage != Stage::Resolving && self.stage != Stage::FindingPorts && self.stage
            != Stage::Over ==> self.spec is Some
        &&& self.stage == Stage::FindingPorts ==> self.spec is Some
    }

    pub open spec fn connection_file(self) -> Seq<char> {
        joined_path(self.runtime_dir, "jotter-"@ + self.session + ".json"@)
    }

    pub open spec fn at(self, stage: Stage) -> LaunchView {
        LaunchView { stage, ..self }
    }

    /// The end of a launch that failed.
    pub open spec fn failed(self, why: Seq<char>) -> (LaunchView, LaunchActionView) {
        (
            self.at(Stage::Over),
            LaunchActionView::Report(
                EventView::LaunchFailed {
                    launch: self.launch,
                    reason: "kernel '"@ + self.name + "' failed: "@ + why,
                },
            ),
        )
    }

    pub open spec fn connection(self, p: Seq<u16>) -> ConnectionView {
        ConnectionView {
            ip: "127.0.0.1"@,
            shell_port: p[0],
            iopub_port: p[1],
            stdin_port: p[2],
            control_port: p[3],
            hb_port: p[4],
            key: self.key,
            signature_scheme: "hmac-sha256"@,
            kernel_name: self.name,
        }
    }

    /// The kernel that the launch made.
    pub open spec fn kernel(self) -> KernelView {
        let spec = self.spec->Some_0;
        KernelView {
            name: spec.name,
            display_name: spec.display_name,
            language: spec.language,
            spec_dir: spec.dir,
            session: self.session,
            launch: self.launch,
            pid: self.pid,
            interrupt_via_message: spec.interrupt_mode == Some("message"@),
            sent: 0,
        }
    }

    /// No kernelspec in any place.
    pub open spec fn not_found(self) -> Seq<char> {
        "no kernelspec found (tried "@ + listed(candidate_names(self.name))
            + "); pip install ipykernel in your venv, or pass --kernel"@
    }

    /// What is said of a failure at this stage.
    pub open spec fn cause(self, e: Seq<char>) -> Seq<char> {
        match self.stage {
            Stage::FindingPorts => "free ports: "@ + e,
            Stage::Writing => "writing "@ + self.connection_file() + ": "@ + e,
            Stage::Spawning => "spawning kernel process: "@ + e,
            Stage::Connecting(c) => c.name() + " connect: "@ + e,
            _ => e,
        }
    }

    /// The next state and action after an event.
    pub open spec fn stepped(self, ev: LaunchEventView) -> (LaunchView, LaunchActionView) {
        match (self.stage, ev) {
            (Stage::Over, _) => (self, LaunchActionView::Nothing),
            (Stage::Resolving, LaunchEventView::SpecFound(s)) => (
                LaunchView {
                    spec: Some(launched_from(self.probes[self.probe], s)),
                    ..self.at(Stage::FindingPorts)
                },
                LaunchActionView::FindPorts,
            ),
            (Stage::Resolving, LaunchEventView::SpecMissing) => if self.probe + 1
                < self.probes.len() {
                (
                    LaunchView { probe: self.probe + 1, ..self },
                    LaunchActionView::Look(self.probes[self.probe + 1]),
                )
            } else {
                self.failed(self.not_found())
            },
            (Stage::FindingPorts, LaunchEventView::Ports(p)) => (
                self.at(Stage::Writing),
                LaunchActionView::Write { path: self.connection_file(), info: self.connection(p) },
            ),
            (Stage::Writing, LaunchEventView::Written) => (
                self.at(Stage::Spawning),
                LaunchActionView::Spawn {
                    argv: self.spec->Some_0.argv,
                    file: self.connection_file(),
                    dir: self.dir,
                },
            ),
            (Stage::Spawning, LaunchEventView::Spawned(pid)) => (
                LaunchView { pid, ..self.at(Stage::Connecting(Channel::Iopub)) },
                LaunchActionView::Connect(Channel::Iopub),
            ),
            (Stage::Connecting(c), LaunchEventView::Connected) => match c.after() {
                Some(n) => (self.at(Stage::Connecting(n)), LaunchActionView::Connect(n)),
                None => (
                    self.at(Stage::Over),
                    LaunchActionView::Report(EventView::Ready(self.kernel())),
                ),
            },
            (Stage::Spawning, LaunchEventView::BadArgv(e)) => self.failed("kernel argv: "@ + e),
            (_, LaunchEventView::Failed(e)) => self.failed(self.cause(e)),
            _ => (self, LaunchActionView::Nothing),
        }
    }
}

impl Launch {
    /// A launch at its start, and the first place to look.
    pub fn new(
        name: String,
        launch: u64,
        dir: String,
        session: String,
        key: String,
        runtime_dir: String,
        venvs: &Vec<String>,
    ) -> (r: (Launch, LaunchAction))
        ensures
            r.0@ == (LaunchView {
                name: name@,
                launch,
                dir: dir@,
                session: session@,
                key: key@,
                runtime_dir: runtime_dir@,
                probes: ladder_of(candidate_names(name@), views(venvs@)),
                stage: Stage::Resolving,
                probe: 0,
                spec: None,
                pid: None,
            }),
            r.0@.wf(),
            r.1@ == LaunchActionView::Look(r.0@.probes[0]),
    {
        let probes = ladder(name.as_str(), venvs);
        let first = probes[0].duplicate();
        assert(views(probes@)[0] == probes@[0]@);
        (
            Launch {
                name,
                launch,
                dir,
                session,
                key,
                runtime_dir,
                probes,
                stage: Stage::Resolving,
                probe: 0,
                spec: None,
                pid: None,
            },
            LaunchAction::Look(first),
        )
    }

    fn connection_file(&self) -> (r: String)
        ensures
            r@ == self@.connection_file(),
    {
        let mut s = "jotter-".to_owned();
        s.append(self.session.as_str());
        s.append(".json");
        markdown::join_path(self.runtime_dir.as_str(), s.as_str())
    }

    fn fail(&mut self, why: &str) -> (r: LaunchAction)
        ensures
            (final(self)@, r@) == old(self)@.failed(why@),
    {
        self.stage = Stage::Over;
        let mut reason = "kernel '".to_owned();
        reason.append(self.name.as_str());
        reason.append("' failed: ");
        reason.append(why);
        LaunchAction::Report(Event::LaunchFailed { launch: self.launch, reason })
    }

    fn cause(&self, e: &str) -> (r: String)
        ensures
            r@ == self@.cause(e@),
    {
        match self.stage {
            Stage::FindingPorts => text::concat("free ports: ", e),
            Stage::Writing => {
                let mut s = text::concat("writing ", self.connection_file().as_str());
                s.append(": ");
                s.append(e);
                s
            },
            Stage::Spawning => text::concat("spawning kernel process: ", e),
            Stage::Connecting(c) => {
                let mut s = text::concat(c.label(), " connect: ");
                s.append(e);
                s
            },
            _ => e.to_owned(),
        }
    }

    fn not_found(&self) -> (r: String)
        ensures
            r@ == self@.not_found(),
    {
        let names = candidates(self.name.as_str());
        let mut s = "no kernelspec found (tried ".to_owned();
        s.append(list(&names).as_str());
        s.append("); pip install ipykernel in your venv, or pass --kernel");
        s
    }

    fn finish(&self) -> (r: Kernel)
        requires
            self@.spec is Some,
        ensures
            r@ == self@.kernel(),
    {
        match &self.spec {
            Some(spec) => Kernel {
                name: spec.name.clone(),
                display_name: spec.display_name.clone(),
                language: spec.language.clone(),
                spec_dir: spec.dir.clone(),
                session: self.session.clone(),
                launch: self.launch,
                pid: self.pid,
                interrupt_via_message: text::opt_same(&spec.interrupt_mode, "message"),
                sent: 0,
            },
            None => Kernel {
                name: String::new(),
                display_name: String::new(),
                language: String::new(),
                spec_dir: String::new(),
                session: String::new(),
                launch: 0,
                pid: None,
                interrupt_via_message: false,
                sent: 0,
            },
        }
    }

    /// Takes what came of the last action and says what is next: the spec is
    /// looked for down the ladder, then ports are found, the connection file
    /// is written, the process started and its sockets connected one by one.
    pub fn step(&mut self, ev: LaunchEvent) -> (r: LaunchAction)
        requires
            old(self)@.wf(),
            ev matches LaunchEvent::Ports(p) ==> p@.len() >= 5,
        ensures
            (final(self)@, r@) == old(self)@.stepped(ev@),
            final(self)@.wf(),
    {
        match (self.stage, ev) {
            (Stage::Over, _) => LaunchAction::Nothing,
            (Stage::Resolving, LaunchEvent::SpecFound(s)) => {
                assert(self@.probes[self.probe as int] == self.probes@[self.probe as int]@);
                let spec = launch_from(&self.probes[self.probe], s);
                self.spec = Some(spec);
                self.stage = Stage::FindingPorts;
                LaunchAction::FindPorts
            },
            (Stage::Resolving, LaunchEvent::SpecMissing) => {
                if self.probes.len() - self.probe > 1 {
                    self.probe = self.probe + 1;
                    assert(self@.probes[self.probe as int] == self.probes@[self.probe as int]@);
                    LaunchAction::Look(self.probes[self.probe].duplicate())
                } else {
                    let why = self.not_found();
                    self.fail(why.as_str())
                }
            },
            (Stage::FindingPorts, LaunchEvent::Ports(p)) => {
                self.stage = Stage::Writing;
                LaunchAction::Write {
                    path: self.connection_file(),
                    info: Connection {
                        ip: "127.0.0.1".to_owned(),
                        shell_port: p[0],
                        iopub_port: p[1],
                        stdin_port: p[2],
                        control_port: p[3],
                        hb_port: p[4],
                        key: self.key.clone(),
                        signature_scheme: "hmac-sha256".to_owned(),
                        kernel_name: self.name.clone(),
                    },
                }
            },
            (Stage::Writing, LaunchEvent::Written) => {
                self.stage = Stage::Spawning;
                let argv = match &self.spec {
                    Some(s) => text::clone_strings(&s.argv),
                    None => Vec::new(),
                };
                LaunchAction::Spawn { argv, file: self.connection_file(), dir: self.dir.clone() }
            },
            (Stage::Spawning, LaunchEvent::Spawned(pid)) => {
                self.pid = pid;
                self.stage = Stage::Connecting(Channel::Iopub);
                LaunchAction::Connect(Channel::Iopub)
            },
            (Stage::Connecting(c), LaunchEvent::Connected) => match c.next() {
                Some(n) => {
                    self.stage = Stage::Connecting(n);
                    LaunchAction::Connect(n)
                },
                None => {
                    let kernel = self.finish();
                    self.stage = Stage::Over;
                    LaunchAction::Report(Event::Ready(kernel))
                },
            },
            (Stage::Spawning, LaunchEvent::BadArgv(e)) => {
                let why = text::concat("kernel argv: ", e.as_str());
                self.fail(why.as_str())
            },
            (_, LaunchEvent::Failed(e)) => {
                let why = self.cause(e.as_str());
                self.fail(why.as_str())
            },
            _ => LaunchAction::Nothing,
        }
    }
}

/// A launch that is over stays over.
pub proof fn law_a_launch_ends_once(l: LaunchView, ev: LaunchEventView)
    requires
        l.stage == Stage::Over,
    ensures
        l.stepped(ev) == (l, LaunchActionView::Nothing),
{
}

/// The requested name is looked for everywhere before `python3` is.
pub proof fn law_requested_name_comes_first(name: Seq<char>, venvs: Seq<Seq<char>>)
    requires
        name != "python3"@,
    ensures
        ladder_of(candidate_names(name), venvs) == rung(name, venvs) + rung("python3"@, venvs),
{
    let c = candidate_names(name);
    assert(c.drop_last() =~= seq![name]);
    assert(c.drop_last().drop_last() =~= Seq::empty());
    assert(ladder_of(c.drop_last().drop_last(), venvs) =~= Seq::empty());
    assert(ladder_of(c.drop_last(), venvs) =~= rung(name, venvs));
}

/// Requests of one session get different ids.
pub proof fn law_request_ids_differ(a: KernelView, b: KernelView)
    requires
        a.session == b.session,
        a.sent != b.sent,
    ensures
        a.next_id() != b.next_id(),
{
    text::lemma_decimal_injective(a.sent as int, b.sent as int);
    let n = (a.session + "_"@).len() as int;
    assert(a.next_id().skip(n) =~= decimal(a.sent as int));
    assert(b.next_id().skip(n) =~= decimal(b.sent as int));
}

} // verus!
