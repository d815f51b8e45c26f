//! Kernel completion and docs inside the cell editor: filtering as you type,
//! auto-open after `.`, the jedi retry, lazy kind/signature lookups, and the
//! Shift+Tab docs pager.

use vstd::prelude::*;

#[allow(unused_imports)]
use crate::app::{AppView, EffectView, InputView, OverlayView, PagerView};
use crate::app::{App, Effect, Pager};
use crate::completion;
use crate::completion::{Candidate, Completion};
#[allow(unused_imports)]
use crate::completion::{
    dot_completes, filtered, ident, identifiers_of, inspected, law_offsets_cut_the_text, lookup_of,
    name_start, offset_after, spliced, text_before, with_matches, with_words, CandidateView,
    CompletionView,
};
#[allow(unused_imports)]
use crate::kernel::{same_ignoring_case, type_views};
use crate::keys::{KeyCode, KeyEvent};
#[allow(unused_imports)]
use crate::keys::no_modifiers;
use crate::log::Level;
use crate::notebook::Cell;
#[allow(unused_imports)]
use crate::notebook::CellView;
use crate::nvim::{ModeKind, NvimMove};
#[allow(unused_imports)]
use crate::nvim::BackendView;
use crate::text;
#[allow(unused_imports)]
use crate::text::{after, decimal, first, opt_view, split_on, trim, views};
use crate::ui;
#[allow(unused_imports)]
use crate::ui::language_of;

verus! {

/// The cursor as an offset into the text.
pub open spec fn cursor_offset(e: BackendView) -> usize {
    text_before(e.source(), e.row(), e.col()).len() as usize
}

/// Lookups for the rows `from..to`: candidate, and the code to inspect as if
/// it were accepted.
pub open spec fn lookups(c: CompletionView, source: Seq<char>, from: int, to: int) -> Seq<
    (Seq<char>, Seq<char>, usize),
>
    decreases to - from,
{
    if from >= to {
        Seq::empty()
    } else {
        let before = lookups(c, source, from, to - 1);
        let it = c.items[to - 1];
        if it.resolved {
            before
        } else {
            before.push(
                (
                    it.text,
                    spliced(source, c.start as int, c.end as int, it.text),
                    offset_after(c.start as int, it.text.len() as int) as usize,
                ),
            )
        }
    }
}

/// The names in the code cells but one.
pub open spec fn other_names(cells: Seq<CellView>, selected: int) -> Seq<Seq<char>>
    decreases cells.len(),
{
    if cells.len() == 0 {
        Seq::empty()
    } else {
        let before = other_names(cells.drop_last(), selected);
        if cells.len() - 1 != selected && cells.last().is_code() {
            before + identifiers_of(cells.last().source)
        } else {
            before
        }
    }
}

/// All candidates for a reply: plain names get this cell's identifiers first
/// (nearest the cursor first), then the kernel's, then other cells' — what you
/// just named beats a builtin. Attributes get the kernel's alone.
pub open spec fn candidates(
    c: CompletionView,
    matches: Seq<Seq<char>>,
    start: usize,
    types: Seq<(Seq<char>, Seq<char>, Seq<char>)>,
    cells: Seq<CellView>,
    selected: int,
) -> Seq<CandidateView> {
    let token = c.source.take(c.at as int);
    let k = name_start(token);
    let attribute = k > 0 && token[k - 1] == '.';
    let words = !attribute && (matches.len() == 0 || start == k);
    let typed = token.skip(k);
    let own = if words {
        with_words(Seq::empty(), identifiers_of(token.take(k)).reverse(), typed)
    } else {
        Seq::empty()
    };
    let known = with_matches(own, matches, types);
    if words {
        with_words(known, other_names(cells, selected), typed)
    } else {
        known
    }
}

/// Where the replacement starts: the kernel's token start, or the name when
/// only notebook words matched.
pub open spec fn replacement_start(c: CompletionView, kernel_empty: bool, start: usize) -> usize {
    if kernel_empty {
        name_start(c.source.take(c.at as int)) as usize
    } else {
        start
    }
}

/// A character after which Tab completes instead of indenting.
pub open spec fn completes_after(c: char) -> bool {
    ident(c) || c == '.' || c == '[' || c == '"' || c == '\'' || c == '/'
}

/// What asked for a completion: the key, or a dot.
pub open spec fn how_asked(explicit: bool) -> Seq<char> {
    if explicit {
        "Tab"@
    } else {
        "auto"@
    }
}

fn asked_by(explicit: bool) -> (r: &'static str)
    ensures
        r@ == how_asked(explicit),
{
    if explicit {
        "Tab"
    } else {
        "auto"
    }
}

impl AppView {
    pub open spec fn with_completion(self, completion: Option<CompletionView>) -> AppView {
        AppView { completion, ..self }
    }

    /// Kernel docs asked for.
    pub open spec fn docs_requested(self, code: Seq<char>, pos: usize) -> AppView {
        if self.run.kernel is Some {
            let id = self.next_request();
            let a = self.requested().emitting(EffectView::Inspect { msg_id: id, code, pos });
            AppView { input: InputView { pending_inspect: Some(id), ..a.input }, ..a }
        } else {
            self.said("no kernel — docs need one"@)
        }
    }

    /// Lookups sent one after the other.
    pub open spec fn looked_up(self, asks: Seq<(Seq<char>, Seq<char>, usize)>) -> AppView
        decreases asks.len(),
    {
        if asks.len() == 0 {
            self
        } else {
            self.looked_up(asks.drop_last()).looked_up_one(asks.last())
        }
    }

    pub open spec fn looked_up_one(self, ask: (Seq<char>, Seq<char>, usize)) -> AppView {
        let id = self.next_request();
        match self.completion {
            Some(c) => self.requested().with_completion(
                Some(c.looking_up(id, ask.0)),
            ).emitting(EffectView::Inspect { msg_id: id, code: ask.1, pos: ask.2 }),
            None => self,
        }
    }

    /// Candidates on screen without a kind/signature yet are looked up.
    pub open spec fn resolving(self) -> AppView {
        match (self.completion, self.editor) {
            (Some(c), Some(e)) => if self.run.kernel is Some {
                let asks = lookups(c, e.source(), c.visible().0, c.visible().1);
                let a = if asks.len() > 0 {
                    self.logged(
                        Level::Debug,
                        "jotter::app::completion"@,
                        "completion: resolving "@ + decimal(asks.len() as int)
                            + " visible candidate(s)"@,
                    )
                } else {
                    self
                };
                a.looked_up(asks)
            } else {
                self
            },
            _ => self,
        }
    }

    /// A completion asked for.
    pub open spec fn completion_requested(
        self,
        source: Seq<char>,
        offset: usize,
        explicit: bool,
    ) -> AppView {
        if self.run.kernel is Some {
            let id = self.next_request();
            let a = self.requested().emitting(
                EffectView::Complete { msg_id: id, code: source, pos: offset },
            ).logged(
                Level::Debug,
                "jotter::app::completion"@,
                "completion: request "@ + id + " at char "@ + decimal(offset as int) + " ("@
                    + how_asked(explicit) + ")"@,
            );
            let b = if explicit {
                a.said("completing…"@)
            } else {
                a
            };
            b.with_completion(Some(CompletionView::asked(id, source, offset, explicit)))
        } else if explicit {
            self.said("no kernel — completion needs one"@)
        } else {
            self
        }
    }

    /// The visible items from what was typed since `start`; closed when the
    /// cursor left the token, the text before it changed, or nothing matches
    /// any more.
    pub open spec fn refiltered(self) -> AppView {
        match (self.completion, self.editor) {
            (Some(c), Some(e)) => {
                let source = e.source();
                let cur = cursor_offset(e);
                if cur < c.start || first(source, c.start as int) != first(
                    c.source,
                    c.start as int,
                ) || e.mode() != ModeKind::Insert {
                    self.with_completion(None)
                } else if !c.replied {
                    self.with_completion(Some(CompletionView { end: cur, ..c }))
                } else {
                    let typed = first(after(source, c.start as int), cur - c.start);
                    let items = filtered(c.all, typed);
                    if items.len() == 0 {
                        self.with_completion(None)
                    } else {
                        let sel = if c.sel < items.len() {
                            c.sel
                        } else {
                            (items.len() - 1) as usize
                        };
                        self.with_completion(
                            Some(CompletionView { end: cur, items, sel, ..c }),
                        ).resolving()
                    }
                }
            },
            _ => self,
        }
    }

    /// Text put in place of a range of the editor's.
    pub open spec fn accepting(self, start: usize, end: usize, text: Seq<char>) -> AppView {
        match self.editor {
            Some(e) => {
                let a = AppView {
                    editor: Some(e.spliced(start as int, end as int, text)),
                    ..self
                };
                match e.splice_move(start as int, end as int, text) {
                    Some(m) => a.emitting(EffectView::Nvim(m)),
                    None => a,
                }
            },
            None => self,
        }
    }

    /// Whether an empty reply is asked for again, with static analysis: the
    /// live completer only knows executed names.
    pub open spec fn jedi_retries(self, c: CompletionView, matches: Seq<Seq<char>>) -> bool {
        &&& matches.len() == 0
        &&& !c.jedi_retry
        &&& !self.config.jedi
        &&& self.run.kernel matches Some(k) && same_ignoring_case(k.language, "python"@)
    }

    /// Shell requests run in order, so on, complete, off switches jedi for
    /// exactly this one request.
    pub open spec fn jedi_retried(self, c: CompletionView) -> AppView {
        let a = self.requested().emitting(
            EffectView::ExecuteSilent {
                msg_id: self.next_request(),
                code: "get_ipython().Completer.use_jedi = True"@,
            },
        );
        let id = a.next_request();
        let b = a.requested().emitting(
            EffectView::Complete { msg_id: id, code: c.source, pos: c.at },
        );
        b.requested().emitting(
            EffectView::ExecuteSilent {
                msg_id: b.next_request(),
                code: "get_ipython().Completer.use_jedi = False"@,
            },
        ).with_completion(Some(CompletionView { request: id, jedi_retry: true, ..c }))
    }

    /// How many matches came, and how long they took.
    pub open spec fn reply_logged(self, c: CompletionView, n: nat) -> AppView {
        self.emitting(
            EffectView::LogSince {
                msg_id: c.request,
                target: "jotter::app::completion"@,
                before: "completion: "@ + decimal(n as int) + " matches in "@,
                after: " ("@ + how_asked(c.explicit) + (if c.jedi_retry {
                    ", jedi"@
                } else {
                    ""@
                }) + ")"@,
            },
        )
    }

    /// After a reply was filtered: a single match of an explicit request is
    /// put in.
    pub open spec fn reply_shown(self, explicit: bool) -> AppView {
        match self.completion {
            None => if explicit {
                self.said("no completions"@)
            } else {
                self
            },
            Some(c) => {
                let a = if self.message == Some("completing…"@) {
                    AppView { message: None, ..self }
                } else {
                    self
                };
                if explicit && c.items.len() == 1 {
                    a.with_completion(None).accepting(c.start, c.end, c.items[0].text)
                } else {
                    a
                }
            },
        }
    }

    /// The kernel's reply to a completion request.
    #[verifier::opaque]
    pub open spec fn completion_replied(
        self,
        parent: Seq<char>,
        matches: Seq<Seq<char>>,
        start: usize,
        types: Seq<(Seq<char>, Seq<char>, Seq<char>)>,
    ) -> AppView {
        match self.completion {
            None => self,
            Some(c) => if c.request != parent {
                self // stale: a newer request replaced it
            } else if self.jedi_retries(c, matches) {
                self.reply_logged(c, matches.len()).jedi_retried(c)
            } else {
                self.reply_logged(c, matches.len()).with_completion(
                    Some(
                        CompletionView {
                            start: replacement_start(c, matches.len() == 0, start),
                            all: candidates(
                                c,
                                matches,
                                start,
                                types,
                                self.notebook.cells,
                                self.selected,
                            ),
                            replied: true,
                            ..c
                        },
                    ),
                ).refiltered().reply_shown(c.explicit)
            },
        }
    }

    /// The kernel's reply to an inspection: details of a candidate, or docs.
    #[verifier::opaque]
    pub open spec fn inspect_replied(self, parent: Seq<char>, text: Option<Seq<char>>) -> AppView {
        match self.completion {
            Some(c) => match lookup_of(c.detail_reqs, parent) {
                Some(item) => {
                    let (kind, detail) = match text {
                        Some(t) => inspected(t),
                        None => (Seq::empty(), Seq::empty()),
                    };
                    self.with_completion(Some(c.learned(parent, item, kind, detail)))
                },
                None => self.docs_replied(parent, text),
            },
            None => self.docs_replied(parent, text),
        }
    }

    pub open spec fn docs_replied(self, parent: Seq<char>, text: Option<Seq<char>>) -> AppView {
        if self.input.pending_inspect != Some(parent) {
            self
        } else {
            let a = AppView { input: InputView { pending_inspect: None, ..self.input }, ..self };
            match text {
                Some(t) => if trim(t).len() > 0 {
                    AppView {
                        overlay: OverlayView {
                            pager: Some(PagerView { title: "docs"@, text: t, top: 0 }),
                            ..a.overlay
                        },
                        ..a
                    }
                } else {
                    a.said(
                        "no documentation found — the kernel only knows names from cells that ran"@,
                    )
                },
                None => a.said(
                    "no documentation found — the kernel only knows names from cells that ran"@,
                ),
            }
        }
    }

    /// Whether a key just typed asks for completion: a `.` after a name, in a
    /// Python code cell.
    pub open spec fn dot_asks(self, key: KeyEvent) -> bool {
        &&& self.editor matches Some(e) && {
            &&& self.config.complete_on_dot
            &&& key.code == KeyCode::Char('.')
            &&& e.mode() == ModeKind::Insert
            &&& language_of(self.notebook) == "python"@
            &&& self.current() matches Some(c) && c.is_code()
            &&& {
                let rows = split_on(e.source(), '\n');
                let line = if 0 <= e.row() < rows.len() {
                    rows[e.row()]
                } else {
                    Seq::empty()
                };
                dot_completes(first(line, e.col()))
            }
        }
    }

    /// After the editor handled a key.
    pub open spec fn after_key(self, key: KeyEvent) -> AppView {
        if self.completion is Some {
            self.refiltered()
        } else if self.dot_asks(key) {
            let e = self.editor->Some_0;
            self.completion_requested(e.source(), cursor_offset(e), false)
        } else {
            self
        }
    }

    /// Completion keys with the popup open or pending, and whether the key is
    /// taken; `None` where it is a Tab that asks again.
    pub open spec fn popup_key(self, c: CompletionView, key: KeyEvent) -> Option<(AppView, bool)> {
        let n = c.items.len() as int;
        let ctrl = key.modifiers.control;
        let next = self.with_completion(
            Some(CompletionView { sel: ((c.sel + 1) % n) as usize, ..c }),
        ).resolving();
        let previous = self.with_completion(
            Some(CompletionView { sel: ((c.sel + n - 1) % n) as usize, ..c }),
        ).resolving();
        let closed = self.with_completion(None);
        match key.code {
            KeyCode::Tab => if n > 0 {
                Some((next, true))
            } else {
                None
            },
            KeyCode::Down => if n > 0 {
                Some((next, true))
            } else {
                Some((closed, false))
            },
            KeyCode::Up => if n > 0 {
                Some((previous, true))
            } else {
                Some((closed, false))
            },
            KeyCode::Char(ch) => if ch == 'n' && ctrl && n > 0 {
                Some((next, true))
            } else if ch == 'p' && ctrl && n > 0 {
                Some((previous, true))
            } else if ident(ch) && !ctrl {
                Some((self, false)) // filters on
            } else {
                Some((closed, false))
            },
            // Shift+Tab is always docs: here, for the highlighted candidate
            KeyCode::BackTab => if n > 0 {
                match self.editor {
                    Some(e) => Some(
                        (
                            self.docs_requested(
                                spliced(
                                    e.source(),
                                    c.start as int,
                                    c.end as int,
                                    c.items[c.sel as int].text,
                                ),
                                offset_after(
                                    c.start as int,
                                    c.items[c.sel as int].text.len() as int,
                                ) as usize,
                            ),
                            true,
                        ),
                    ),
                    None => Some((self, true)),
                }
            } else {
                Some((closed, false))
            },
            KeyCode::Enter => if key.modifiers == no_modifiers() && n > 0 {
                Some((closed.accepting(c.start, c.end, c.items[c.sel as int].text), true))
            } else {
                Some((closed, false))
            },
            KeyCode::Esc => Some((closed, n > 0)),
            KeyCode::Backspace => Some((self, false)),
            _ => Some((closed, false)),
        }
    }

    /// Keys that ask for completion or docs, and whether the key is taken.
    pub open spec fn asking_key(self, key: KeyEvent) -> (AppView, bool) {
        match self.editor {
            None => (self, false),
            Some(e) => {
                let source = e.source();
                let offset = cursor_offset(e);
                match key.code {
                    KeyCode::Tab => if key.modifiers == no_modifiers() && e.mode()
                        == ModeKind::Insert && offset > 0 && completes_after(source[offset - 1]) {
                        (self.completion_requested(source, offset, true), true)
                    } else {
                        (self, false) // indentation
                    },
                    KeyCode::BackTab => (self.docs_requested(source, offset), true),
                    _ => (self, false),
                }
            },
        }
    }

    /// Completion/inspection keys inside the editor; true = consumed.
    pub open spec fn completion_key(self, key: KeyEvent) -> (AppView, bool) {
        match self.completion {
            Some(c) => match self.popup_key(c, key) {
                Some(r) => r,
                None => self.asking_key(key),
            },
            None => self.asking_key(key),
        }
    }
}

// ---------------------------------------------------------------------------

pub open spec fn ask_views(v: Seq<(String, String, usize)>) -> Seq<(Seq<char>, Seq<char>, usize)> {
    v.map_values(|t: (String, String, usize)| (t.0@, t.1@, t.2))
}

fn collect_lookups(c: &Completion, source: &str, from: usize, to: usize) -> (r: Vec<
    (String, String, usize),
>)
    requires
        from <= to <= c@.items.len(),
    ensures
        ask_views(r@) == lookups(c@, source@, from as int, to as int),
{
    let mut r: Vec<(String, String, usize)> = Vec::new();
    let mut i: usize = from;
    assert(ask_views(r@) =~= Seq::empty());
    while i < to
        invariant
            from <= i <= to <= c@.items.len(),
            ask_views(r@) == lookups(c@, source@, from as int, i as int),
        decreases to - i,
    {
        let it = &c.items[i];
        assert(c@.items[i as int] == it@);
        if !it.resolved {
            let ghost r0 = r@;
            let (code, pos) = completion::splice(source, c.start, c.end, it.text.as_str());
            let t = (it.text.clone(), code, pos);
            r.push(t);
            assert(ask_views(r@) =~= ask_views(r0).push((t.0@, t.1@, t.2)));
        }
        i += 1;
    }
    r
}

/// The names in the code cells but one.
fn names_elsewhere(cells: &Vec<Cell>, selected: usize) -> (r: Vec<String>)
    ensures
        views(r@) == other_names(views(cells@), selected as int),
{
    let ghost all = views(cells@);
    let mut r: Vec<String> = Vec::new();
    let mut i: usize = 0;
    assert(all.take(0) =~= Seq::<CellView>::empty());
    assert(views(r@) =~= Seq::<Seq<char>>::empty());
    while i < cells.len()
        invariant
            i <= cells@.len(),
            all == views(cells@),
            views(r@) == other_names(all.take(i as int), selected as int),
        decreases cells@.len() - i,
    {
        assert(all.take(i + 1).drop_last() =~= all.take(i as int));
        assert(all.take(i + 1).last() == cells@[i as int]@);
        if i != selected && cells[i].is_code() {
            let ghost r0 = r@;
            let mut names = completion::identifiers(cells[i].source.as_str());
            let ghost n0 = names@;
            r.append(&mut names);
            assert(views(r@) =~= views(r0) + views(n0));
        }
        i += 1;
    }
    assert(all.take(i as int) =~= all);
    r
}

fn reversed(v: Vec<String>) -> (r: Vec<String>)
    ensures
        views(r@) == views(v@).reverse(),
{
    let mut r: Vec<String> = Vec::new();
    let mut i: usize = v.len();
    while i > 0
        invariant
            i <= v@.len(),
            r@.len() == v@.len() - i,
            forall|k: int| 0 <= k < r@.len() ==> (#[trigger] r@[k])@ == v@[v@.len() - 1 - k]@,
        decreases i,
    {
        i -= 1;
        r.push(v[i].clone());
    }
    assert(views(r@) =~= views(v@).reverse());
    r
}

/// All candidates for a reply.
fn collect_candidates(
    c: &Completion,
    matches: &Vec<String>,
    start: usize,
    types: &Vec<(String, String, String)>,
    cells: &Vec<Cell>,
    selected: usize,
) -> (r: (Vec<Candidate>, usize))
    requires
        c@.wf(),
    ensures
        views(r.0@) == candidates(
            c@,
            views(matches@),
            start,
            type_views(types@),
            views(cells@),
            selected as int,
        ),
        r.1 == replacement_start(c@, matches@.len() == 0, start),
{
    let token = text::take(c.source.as_str(), c.at);
    assert(token@ =~= c@.source.take(c@.at as int));
    let v = text::chars_of(token.as_str());
    let n = v.len();
    assert(v@.take(n as int) =~= token@);
    let k = completion::find_name_start(&v, n);
    let attribute = k > 0 && v[k - 1] == '.';
    let kernel_empty = matches.len() == 0;
    let words = !attribute && (kernel_empty || start == k);
    let typed = text::string_between(&v, k, n);
    assert(typed@ =~= token@.skip(k as int));
    let mut all: Vec<Candidate> = Vec::new();
    assert(views(all@) =~= Seq::<CandidateView>::empty());
    if words {
        let before = text::string_between(&v, 0, k);
        assert(before@ =~= token@.take(k as int));
        let own = reversed(completion::identifiers(before.as_str()));
        completion::add_words(&mut all, &own, typed.as_str());
    }
    completion::add_matches(&mut all, matches, types);
    if words {
        let others = names_elsewhere(cells, selected);
        completion::add_words(&mut all, &others, typed.as_str());
    }
    let from = if kernel_empty {
        k
    } else {
        start
    };
    (all, from)
}

fn is_completed_after(c: char) -> (r: bool)
    ensures
        r == completes_after(c),
{
    completion::is_ident(c) || c == '.' || c == '[' || c == '"' || c == '\'' || c == '/'
}

impl App {
    fn set_completion(&mut self, c: Option<Completion>)
        ensures
            final(self)@ == old(self)@.with_completion(opt_view(c)),
    {
        self.completion = c;
    }

    fn take_completion(&mut self) -> (r: Option<Completion>)
        ensures
            opt_view(r) == old(self)@.completion,
            final(self)@ == old(self)@.with_completion(None),
            r is None ==> final(self)@ == old(self)@,
    {
        self.completion.take()
    }

    /// The editor's text and cursor offset.
    pub fn editor_text(&self) -> (r: Option<(String, usize)>)
        ensures
            match r {
                Some(t) => self@.editor matches Some(e) && t.0@ == e.source() && t.1
                    == cursor_offset(e),
                None => self@.editor is None,
            },
    {
        match &self.editor {
            Some(e) => {
                let source = e.source();
                let offset = completion::char_offset(source.as_str(), e.cursor());
                Some((source, offset))
            },
            None => None,
        }
    }

    /// Shift+Tab: kernel docs for the name at `pos` of `code`, into the pager.
    pub fn request_docs(&mut self, code: String, pos: usize)
        requires
            old(self)@.wf(),
        ensures
            final(self)@ == old(self)@.docs_requested(code@, pos),
            final(self)@.wf(),
            final(self)@.notebook == old(self)@.notebook,
    {
        if self.kernel.is_none() {
            self.say("no kernel — docs need one");
            return;
        }
        let id = self.request();
        self.emit(Effect::Inspect { msg_id: id.clone(), code, pos });
        self.pending_inspect = Some(id);
    }

    fn look_up(&mut self, text: String, code: String, pos: usize)
        requires
            old(self)@.wf(),
        ensures
            final(self)@ == old(self)@.looked_up_one((text@, code@, pos)),
            final(self)@.wf(),
            final(self)@.notebook == old(self)@.notebook,
    {
        if self.completion.is_none() {
            return;
        }
        let id = self.request();
        self.mark_lookup(id.clone(), text.as_str());
        self.emit(Effect::Inspect { msg_id: id, code, pos });
    }

    fn mark_lookup(&mut self, id: String, text: &str)
        ensures
            final(self)@ == old(self)@.with_completion(
                match old(self)@.completion {
                    Some(c) => Some(c.looking_up(id@, text@)),
                    None => None,
                },
            ),
    {
        if let Some(c) = &mut self.completion {
            c.look_up(id, text);
        }
    }

    /// Candidates on screen without a kind/signature yet: look each up with
    /// a (fast, live-object) inspect, as if it were accepted. Each is asked
    /// once; replies fill in as they land.
    pub fn resolve_visible(&mut self)
        requires
            old(self)@.wf(),
        ensures
            final(self)@ == old(self)@.resolving(),
            final(self)@.wf(),
            final(self)@.notebook == old(self)@.notebook,
    {
        if self.kernel.is_none() {
            return;
        }
        let asks = match (&self.completion, &self.editor) {
            (Some(c), Some(e)) => {
                let (from, to) = c.visible_rows();
                let source = e.source();
                collect_lookups(c, source.as_str(), from, to)
            },
            _ => {
                return;
            },
        };
        if asks.len() > 0 {
            let mut msg = "completion: resolving ".to_owned();
            msg.append(text::decimal_string(asks.len() as u64).as_str());
            msg.append(" visible candidate(s)");
            self.log(Level::Debug, "jotter::app::completion", msg);
        }
        let ghost start = self@;
        let ghost all = ask_views(asks@);
        let mut i: usize = 0;
        assert(all.take(0) =~= Seq::empty());
        while i < asks.len()
            invariant
                i <= asks@.len(),
                all == ask_views(asks@),
                self@ == start.looked_up(all.take(i as int)),
                self@.wf(),
                self@.notebook == start.notebook,
            decreases asks@.len() - i,
        {
            let (text, code, pos) = (asks[i].0.clone(), asks[i].1.clone(), asks[i].2);
            assert(all.take(i + 1).drop_last() =~= all.take(i as int));
            assert(all.take(i + 1).last() == (text@, code@, pos));
            self.look_up(text, code, pos);
            i += 1;
        }
        assert(all.take(i as int) =~= all);
    }

    pub fn request_completion(&mut self, source: String, offset: usize, explicit: bool)
        requires
            old(self)@.wf(),
            offset <= source@.len(),
        ensures
            final(self)@ == old(self)@.completion_requested(source@, offset, explicit),
            final(self)@.wf(),
            final(self)@.notebook == old(self)@.notebook,
    {
        if self.kernel.is_none() {
            if explicit {
                self.say("no kernel — completion needs one");
            }
            return;
        }
        let id = self.request();
        self.emit(Effect::Complete { msg_id: id.clone(), code: source.clone(), pos: offset });
        let mut msg = "completion: request ".to_owned();
        msg.append(id.as_str());
        msg.append(" at char ");
        msg.append(text::decimal_string(offset as u64).as_str());
        msg.append(" (");
        msg.append(asked_by(explicit));
        msg.append(")");
        self.log(Level::Debug, "jotter::app::completion", msg);
        if explicit {
            self.say("completing…");
        }
        self.set_completion(Some(Completion::asked(id, source, offset, explicit)));
    }
}

impl App {
    /// Put text in place of a range of the editor's.
    pub fn accept_completion(&mut self, start: usize, end: usize, text: &str)
        requires
            old(self)@.wf(),
        ensures
            final(self)@ == old(self)@.accepting(start, end, text@),
            final(self)@.wf(),
            final(self)@.notebook == old(self)@.notebook,
    {
        match self.replace_in_editor(start, end, text) {
            Some(m) => {
                self.emit(Effect::Nvim(m));
            },
            None => {},
        }
    }

    fn replace_in_editor(&mut self, start: usize, end: usize, text: &str) -> (r: Option<
        NvimMove,
    >)
        requires
            old(self)@.wf(),
        ensures
            match old(self)@.editor {
                Some(e) => {
                    &&& final(self)@ == (AppView {
                        editor: Some(e.spliced(start as int, end as int, text@)),
                        ..old(self)@
                    })
                    &&& opt_view(r) == e.splice_move(start as int, end as int, text@)
                },
                None => final(self)@ == old(self)@ && r is None,
            },
            final(self)@.wf(),
            final(self)@.notebook == old(self)@.notebook,
    {
        match &mut self.editor {
            Some(e) => e.replace_range(start, end, text),
            None => None,
        }
    }

    /// After the editor handled a key: an open (or pending) completion
    /// filters on what was typed; a `.` after a name auto-opens one.
    pub fn after_edit_key(&mut self, key: KeyEvent)
        requires
            old(self)@.wf(),
        ensures
            final(self)@ == old(self)@.after_key(key),
            final(self)@.wf(),
            final(self)@.notebook == old(self)@.notebook,
    {
        if self.completion.is_some() {
            self.refilter();
            return;
        }
        if self.wants_dot(key) {
            if let Some((source, offset)) = self.editor_text() {
                proof {
                    let e = self@.editor->Some_0;
                    law_offsets_cut_the_text(e.source(), e.row(), e.col());
                }
                self.request_completion(source, offset, false);
            }
        }
    }

    fn wants_dot(&self, key: KeyEvent) -> (r: bool)
        ensures
            r == self@.dot_asks(key),
            self@.editor matches Some(e) ==> e.row() >= 0 && e.col() >= 0,
    {
        match &self.editor {
            None => false,
            Some(e) => {
                let (row, col) = e.cursor();
                if !(self.config.complete_on_dot && key.code == KeyCode::Char('.') && e.mode()
                    == ModeKind::Insert) {
                    return false;
                }
                if !text::same(ui::notebook_language(&self.notebook).as_str(), "python") {
                    return false;
                }
                match self.current_cell() {
                    Some(c) => if !c.is_code() {
                        return false;
                    },
                    None => {
                        return false;
                    },
                }
                let source = e.source();
                let rows = text::split(source.as_str(), '\n');
                let line = if row < rows.len() {
                    rows[row].clone()
                } else {
                    String::new()
                };
                assert(row < rows@.len() ==> views(rows@)[row as int] == line@);
                assert(row >= rows@.len() ==> line@ =~= Seq::<char>::empty());
                completion::wants_dot_completion(text::take(line.as_str(), col).as_str())
            },
        }
    }

    /// Re-derive the visible items from what was typed since `start`; close
    /// when the cursor left the token, the text before it changed, or
    /// nothing matches any more.
    pub fn refilter(&mut self)
        requires
            old(self)@.wf(),
        ensures
            final(self)@ == old(self)@.refiltered(),
            final(self)@.wf(),
            final(self)@.notebook == old(self)@.notebook,
    {
        let (source, cur, insert) = match &self.editor {
            Some(e) => {
                let source = e.source();
                let cur = completion::char_offset(source.as_str(), e.cursor());
                (source, cur, e.mode() == ModeKind::Insert)
            },
            None => {
                return;
            },
        };
        match self.take_completion() {
            None => {},
            Some(c) => {
                match filter_typed(c, source.as_str(), cur, insert) {
                    Filtered::Closed => {},
                    Filtered::Waiting(c) => {
                        self.set_completion(Some(c));
                    },
                    Filtered::Open(c) => {
                        self.set_completion(Some(c));
                        self.resolve_visible();
                    },
                }
            },
        }
    }

    /// The kernel's reply to a completion request.
    pub fn on_complete_reply(
        &mut self,
        parent: &str,
        matches: Vec<String>,
        start: usize,
        types: Vec<(String, String, String)>,
    )
        requires
            old(self)@.wf(),
        ensures
            final(self)@ == old(self)@.completion_replied(
                parent@,
                views(matches@),
                start,
                type_views(types@),
            ),
            final(self)@.wf(),
            final(self)@.notebook == old(self)@.notebook,
    {
        proof {
            reveal(AppView::completion_replied);
        }
        let (explicit, retry) = match &self.completion {
            None => {
                return;
            },
            Some(c) => {
                if !text::same(c.request.as_str(), parent) {
                    return; // stale: a newer request replaced it
                }
                let python = match &self.kernel {
                    Some(k) => k.is_python(),
                    None => false,
                };
                (c.explicit, matches.len() == 0 && !c.jedi_retry && !self.config.jedi && python)
            },
        };
        self.log_reply(matches.len());
        if retry {
            self.retry_with_jedi();
            return;
        }
        self.take_reply(&matches, start, &types);
        self.refilter();
        self.show_reply(explicit);
    }

    fn log_reply(&mut self, n: usize)
        requires
            old(self)@.completion is Some,
        ensures
            final(self)@ == old(self)@.reply_logged(
                old(self)@.completion->Some_0,
                n as nat,
            ),
            final(self)@.frame() == old(self)@.frame(),
    {
        let (msg_id, explicit, retried) = match &self.completion {
            Some(c) => (c.request.clone(), c.explicit, c.jedi_retry),
            None => (String::new(), false, false),
        };
        let mut before = "completion: ".to_owned();
        before.append(text::decimal_string(n as u64).as_str());
        before.append(" matches in ");
        let mut after = " (".to_owned();
        after.append(asked_by(explicit));
        after.append(if retried {
            ", jedi"
        } else {
            ""
        });
        after.append(")");
        let target = "jotter::app::completion".to_owned();
        self.emit(Effect::LogSince { msg_id, target, before, after });
    }

    fn retry_with_jedi(&mut self)
        requires
            old(self)@.wf(),
            old(self)@.completion is Some,
        ensures
            final(self)@ == old(self)@.jedi_retried(old(self)@.completion->Some_0),
            final(self)@.wf(),
            final(self)@.notebook == old(self)@.notebook,
    {
        let (source, at) = match &self.completion {
            Some(c) => (c.source.clone(), c.at),
            None => (String::new(), 0),
        };
        let id = self.request();
        self.emit(
            Effect::ExecuteSilent {
                msg_id: id,
                code: "get_ipython().Completer.use_jedi = True".to_owned(),
            },
        );
        let again = self.request();
        self.emit(Effect::Complete { msg_id: again.clone(), code: source, pos: at });
        let id = self.request();
        self.emit(
            Effect::ExecuteSilent {
                msg_id: id,
                code: "get_ipython().Completer.use_jedi = False".to_owned(),
            },
        );
        self.note_retry(again);
    }

    fn note_retry(&mut self, id: String)
        requires
            old(self)@.completion is Some,
        ensures
            final(self)@ == old(self)@.with_completion(
                Some(
                    CompletionView {
                        request: id@,
                        jedi_retry: true,
                        ..old(self)@.completion->Some_0
                    },
                ),
            ),
    {
        if let Some(c) = &mut self.completion {
            c.request = id;
            c.jedi_retry = true;
        }
    }

    fn take_reply(
        &mut self,
        matches: &Vec<String>,
        start: usize,
        types: &Vec<(String, String, String)>,
    )
        requires
            old(self)@.wf(),
            old(self)@.completion is Some,
        ensures
            ({
                let c = old(self)@.completion->Some_0;
                final(self)@ == old(self)@.with_completion(
                    Some(
                        CompletionView {
                            start: replacement_start(c, matches@.len() == 0, start),
                            all: candidates(
                                c,
                                views(matches@),
                                start,
                                type_views(types@),
                                old(self)@.notebook.cells,
                                old(self)@.selected,
                            ),
                            replied: true,
                            ..c
                        },
                    ),
                )
            }),
            final(self)@.wf(),
            final(self)@.notebook == old(self)@.notebook,
    {
        let found = match &self.completion {
            Some(c) => Some(
                collect_candidates(
                    c,
                    matches,
                    start,
                    types,
                    &self.notebook.cells,
                    self.selected,
                ),
            ),
            None => None,
        };
        if let Some((all, from)) = found {
            if let Some(c) = &mut self.completion {
                c.start = from;
                c.all = all;
                c.replied = true;
            }
        }
    }

    fn show_reply(&mut self, explicit: bool)
        requires
            old(self)@.wf(),
        ensures
            final(self)@ == old(self)@.reply_shown(explicit),
            final(self)@.wf(),
            final(self)@.notebook == old(self)@.notebook,
    {
        if self.completion.is_none() {
            if explicit {
                self.say("no completions");
            }
            return;
        }
        if text::opt_same(&self.message, "completing…") {
            self.message = None;
        }
        let single = match &self.completion {
            Some(c) => if explicit && c.items.len() == 1 {
                assert(self@.completion->Some_0.items[0] == c.items@[0]@);
                Some((c.start, c.end, c.items[0].text.clone()))
            } else {
                None
            },
            None => None,
        };
        if let Some((start, end, text)) = single {
            self.set_completion(None);
            self.accept_completion(start, end, text.as_str());
        }
    }

    /// The kernel's reply to an inspection: details of a candidate, or docs.
    pub fn on_inspect_reply(&mut self, parent: &str, text: Option<String>)
        requires
            old(self)@.wf(),
        ensures
            final(self)@ == old(self)@.inspect_replied(parent@, opt_view(text)),
            final(self)@.wf(),
            final(self)@.notebook == old(self)@.notebook,
    {
        proof {
            reveal(AppView::inspect_replied);
        }
        let item = match &self.completion {
            Some(c) => c.lookup_text(parent),
            None => None,
        };
        if let Some(item) = item {
            let (kind, detail) = match &text {
                Some(t) => completion::parse_inspect(t.as_str()),
                None => (String::new(), String::new()),
            };
            assert(text is None ==> kind@ =~= Seq::<char>::empty() && detail@ =~= Seq::<
                char,
            >::empty());
            if let Some(c) = &mut self.completion {
                c.learn(parent, item.as_str(), kind.as_str(), detail.as_str());
            }
            return;
        }
        self.show_docs(parent, text);
    }

    fn show_docs(&mut self, parent: &str, text: Option<String>)
        requires
            old(self)@.wf(),
        ensures
            final(self)@ == old(self)@.docs_replied(parent@, opt_view(text)),
            final(self)@.wf(),
            final(self)@.notebook == old(self)@.notebook,
    {
        if !text::opt_same(&self.pending_inspect, parent) {
            return;
        }
        self.pending_inspect = None;
        if let Some(t) = text {
            if text::trimmed(t.as_str()).as_str().unicode_len() > 0 {
                self.pager = Some(Pager { title: "docs".to_owned(), text: t, top: 0 });
                return;
            }
        }
        self.say("no documentation found — the kernel only knows names from cells that ran");
    }

    /// Completion/inspection keys inside the editor; true = consumed.
    /// With the popup open: Tab/↑↓/Ctrl+n/p pick, Enter accepts, Esc closes;
    /// name chars and Backspace go to the editor and the popup filters on
    /// (see `after_edit_key`); anything else closes it and is handled
    /// normally. Tab after a name char asks the kernel; Shift+Tab: docs.
    pub fn on_key_completion(&mut self, key: KeyEvent) -> (r: bool)
        requires
            old(self)@.wf(),
        ensures
            (final(self)@, r) == old(self)@.completion_key(key),
            final(self)@.wf(),
            final(self)@.notebook == old(self)@.notebook,
    {
        if self.completion.is_some() {
            if let Some(taken) = self.on_key_popup(key) {
                return taken;
            }
        }
        self.on_key_asking(key)
    }

    /// Moves the highlighted candidate down or up, round the end.
    fn step_candidate(&mut self, down: bool)
        requires
            old(self)@.wf(),
            old(self)@.completion matches Some(c) && c.items.len() > 0,
        ensures
            ({
                let c = old(self)@.completion->Some_0;
                let n = c.items.len() as int;
                let sel = if down {
                    (c.sel + 1) % n
                } else {
                    (c.sel + n - 1) % n
                };
                final(self)@ == old(self)@.with_completion(
                    Some(CompletionView { sel: sel as usize, ..c }),
                ).resolving()
            }),
            final(self)@.wf(),
            final(self)@.notebook == old(self)@.notebook,
    {
        self.turn_selection(down);
        self.resolve_visible();
    }

    fn turn_selection(&mut self, down: bool)
        requires
            old(self)@.wf(),
            old(self)@.completion matches Some(c) && c.items.len() > 0,
        ensures
            ({
                let c = old(self)@.completion->Some_0;
                let n = c.items.len() as int;
                let sel = if down {
                    (c.sel + 1) % n
                } else {
                    (c.sel + n - 1) % n
                };
                final(self)@ == old(self)@.with_completion(
                    Some(CompletionView { sel: sel as usize, ..c }),
                )
            }),
            final(self)@.wf(),
            final(self)@.notebook == old(self)@.notebook,
    {
        if let Some(c) = &mut self.completion {
            c.sel = turned(c.sel, c.items.len(), down);
        }
    }

    /// A key with the popup open or pending; `None` where it is a Tab that
    /// asks again.
    fn on_key_popup(&mut self, key: KeyEvent) -> (r: Option<bool>)
        requires
            old(self)@.wf(),
            old(self)@.completion is Some,
        ensures
            match old(self)@.popup_key(old(self)@.completion->Some_0, key) {
                Some(t) => final(self)@ == t.0 && r == Some(t.1),
                None => final(self)@ == old(self)@ && r is None,
            },
            final(self)@.wf(),
            final(self)@.notebook == old(self)@.notebook,
    {
        let ctrl = key.modifiers.control;
        let n = match &self.completion {
            Some(c) => c.items.len(),
            None => 0,
        };
        match key.code {
            KeyCode::Tab => {
                if n > 0 {
                    self.step_candidate(true);
                    return Some(true);
                }
                None
            },
            KeyCode::Down => {
                if n > 0 {
                    self.step_candidate(true);
                    return Some(true);
                }
                self.set_completion(None);
                Some(false)
            },
            KeyCode::Up => {
                if n > 0 {
                    self.step_candidate(false);
                    return Some(true);
                }
                self.set_completion(None);
                Some(false)
            },
            KeyCode::Char(ch) => {
                if ch == 'n' && ctrl && n > 0 {
                    self.step_candidate(true);
                    return Some(true);
                }
                if ch == 'p' && ctrl && n > 0 {
                    self.step_candidate(false);
                    return Some(true);
                }
                if completion::is_ident(ch) && !ctrl {
                    return Some(false); // filters on
                }
                self.set_completion(None);
                Some(false)
            },
            KeyCode::BackTab => {
                if n == 0 {
                    self.set_completion(None);
                    return Some(false);
                }
                self.candidate_docs();
                Some(true)
            },
            KeyCode::Enter => {
                let chosen = match &self.completion {
                    Some(c) => if key.modifiers.is_empty() && n > 0 {
                        assert(self@.completion->Some_0.items[c.sel as int]
                            == c.items@[c.sel as int]@);
                        Some((c.start, c.end, c.items[c.sel].text.clone()))
                    } else {
                        None
                    },
                    None => None,
                };
                self.set_completion(None);
                match chosen {
                    Some((start, end, text)) => {
                        self.accept_completion(start, end, text.as_str());
                        Some(true)
                    },
                    None => Some(false),
                }
            },
            KeyCode::Esc => {
                self.set_completion(None);
                Some(n > 0)
            },
            KeyCode::Backspace => Some(false),
            _ => {
                self.set_completion(None);
                Some(false)
            },
        }
    }

    /// Docs for the highlighted candidate, as if it were accepted.
    fn candidate_docs(&mut self)
        requires
            old(self)@.wf(),
            old(self)@.completion matches Some(c) && c.items.len() > 0,
        ensures
            ({
                let c = old(self)@.completion->Some_0;
                let t = c.items[c.sel as int].text;
                final(self)@ == match old(self)@.editor {
                    Some(e) => old(self)@.docs_requested(
                        spliced(e.source(), c.start as int, c.end as int, t),
                        offset_after(c.start as int, t.len() as int) as usize,
                    ),
                    None => old(self)@,
                }
            }),
            final(self)@.wf(),
            final(self)@.notebook == old(self)@.notebook,
    {
        let ask = match (&self.completion, &self.editor) {
            (Some(c), Some(e)) => {
                assert(self@.completion->Some_0.items[c.sel as int] == c.items@[c.sel as int]@);
                Some(
                    completion::splice(
                        e.source().as_str(),
                        c.start,
                        c.end,
                        c.items[c.sel].text.as_str(),
                    ),
                )
            },
            _ => None,
        };
        if let Some((code, pos)) = ask {
            self.request_docs(code, pos);
        }
    }

    /// A key that may ask for completion or docs.
    fn on_key_asking(&mut self, key: KeyEvent) -> (r: bool)
        requires
            old(self)@.wf(),
        ensures
            (final(self)@, r) == old(self)@.asking_key(key),
            final(self)@.wf(),
            final(self)@.notebook == old(self)@.notebook,
    {
        let (source, offset, insert) = match &self.editor {
            None => {
                return false;
            },
            Some(e) => {
                let source = e.source();
                let pos = e.cursor();
                let offset = completion::char_offset(source.as_str(), pos);
                proof {
                    law_offsets_cut_the_text(source@, pos.0 as int, pos.1 as int);
                }
                (source, offset, e.mode() == ModeKind::Insert)
            },
        };
        match key.code {
            KeyCode::Tab => {
                if !key.modifiers.is_empty() || !insert || offset == 0 {
                    return false;
                }
                let v = text::chars_of(source.as_str());
                if !is_completed_after(v[offset - 1]) {
                    return false; // indentation
                }
                self.request_completion(source, offset, true);
                true
            },
            KeyCode::BackTab => {
                self.request_docs(source, offset);
                true
            },
            _ => false,
        }
    }
}

/// The next or previous of `n` positions, round the end.
fn turned(sel: usize, n: usize, down: bool) -> (r: usize)
    requires
        sel < n,
    ensures
        r == if down {
            (sel + 1) % n as int
        } else {
            (sel + n - 1) % n as int
        },
        r < n,
{
    if down {
        if sel + 1 < n {
            assert((sel + 1) % n as int == sel + 1) by (nonlinear_arith)
                requires
                    0 <= sel + 1 < n,
            ;
            sel + 1
        } else {
            assert((sel + 1) % n as int == 0) by (nonlinear_arith)
                requires
                    sel + 1 == n,
            ;
            0
        }
    } else if sel > 0 {
        assert((sel + n - 1) % n as int == sel - 1) by (nonlinear_arith)
            requires
                0 < sel < n,
        ;
        sel - 1
    } else {
        assert((sel + n - 1) % n as int == n - 1) by (nonlinear_arith)
            requires
                sel == 0,
                n > 0,
        ;
        n - 1
    }
}

/// A completion after typing.
enum Filtered {
    Closed,
    /// No reply yet.
    Waiting(Completion),
    Open(Completion),
}

fn filter_typed(c: Completion, source: &str, cur: usize, insert: bool) -> (r: Filtered)
    requires
        c@.wf(),
    ensures
        ({
            let items = filtered(
                c@.all,
                first(after(source@, c@.start as int), cur - c@.start),
            );
            if cur < c@.start || first(source@, c@.start as int) != first(
                c@.source,
                c@.start as int,
            ) || !insert {
                r is Closed
            } else if !c@.replied {
                r matches Filtered::Waiting(d) && d@ == (CompletionView { end: cur, ..c@ })
            } else if items.len() == 0 {
                r is Closed
            } else {
                r matches Filtered::Open(d) && d@ == (CompletionView {
                    end: cur,
                    items,
                    sel: if c@.sel < items.len() {
                        c@.sel
                    } else {
                        (items.len() - 1) as usize
                    },
                    ..c@
                })
            }
        }),
{
    let mut c = c;
    let same = text::same(
        text::take(source, c.start).as_str(),
        text::take(c.source.as_str(), c.start).as_str(),
    );
    if cur < c.start || !same || !insert {
        return Filtered::Closed;
    }
    c.end = cur;
    if !c.replied {
        return Filtered::Waiting(c);
    }
    let typed = text::take(text::skip(source, c.start).as_str(), cur - c.start);
    let items = completion::filter_candidates(&c.all, typed.as_str());
    let n = items.len();
    if n == 0 {
        return Filtered::Closed;
    }
    c.items = items;
    if c.sel >= n {
        c.sel = n - 1;
    }
    Filtered::Open(c)
}

/// Static analysis is asked once: when its reply is empty too, the popup
/// closes or shows the notebook's own names.
pub proof fn law_jedi_is_asked_once(a: AppView, c: CompletionView, matches: Seq<Seq<char>>)
    requires
        a.completion == Some(c),
        a.jedi_retries(c, matches),
    ensures
        a.completion_replied(c.request, matches, c.start, Seq::empty()).completion matches Some(d)
            && d.jedi_retry && !a.jedi_retried(c).jedi_retries(d, Seq::empty()),
{
    reveal(AppView::completion_replied);
}

/// A reply to another request changes nothing.
pub proof fn law_stale_completions_are_dropped(
    a: AppView,
    parent: Seq<char>,
    matches: Seq<Seq<char>>,
    start: usize,
    types: Seq<(Seq<char>, Seq<char>, Seq<char>)>,
)
    requires
        a.completion matches Some(c) ==> c.request != parent,
    ensures
        a.completion_replied(parent, matches, start, types) == a,
{
    reveal(AppView::completion_replied);
}

} // verus!
