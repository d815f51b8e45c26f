//! Keys, wherever they go: overlays, prompts, questions, the cell editor, the
//! notebook.

use vstd::prelude::*;

use crate::app::{AfterSave, App, Confirm, Effect, PromptKind, ReloadCause};
#[allow(unused_imports)]
use crate::app::{
    state, AfterSaveView, AppView, ConfirmView, EffectView, FileView, InputView, OverlayView,
    PagerView, PromptView, RunView, State, StdinView,
};
use crate::keys::{KeyCode, KeyEvent};
use crate::notebook::Cell;
#[allow(unused_imports)]
use crate::notebook::{differing, longer, CellView, NotebookView};
use crate::text;
#[allow(unused_imports)]
use crate::text::{has_infix, opt_view, unicode_lowercase, views};
use crate::ui::Rendered;

verus! {

// ---------------------------------------------------------------------------
// Searching
// ---------------------------------------------------------------------------

/// The first position with a match, `step` and more steps of `dir` away from
/// `from`, round the end.
pub open spec fn match_from(
    texts: Seq<Seq<char>>,
    q: Seq<char>,
    from: int,
    dir: int,
    step: int,
) -> Option<int>
    decreases texts.len() + 1 - step,
{
    if step > texts.len() || texts.len() == 0 {
        None
    } else {
        let i = (from + dir * step) % (texts.len() as int);
        if has_infix(texts[i], q) {
            Some(i)
        } else {
            match_from(texts, q, from, dir, step + 1)
        }
    }
}

/// The next text that contains `q` after `from` (or before it), wrapping.
pub fn next_match(texts: &Vec<String>, q: &str, from: usize, back: bool) -> (r: Option<usize>)
    requires
        from < texts@.len() || texts@.len() == 0,
    ensures
        ({
            let dir: int = if back {
                -1
            } else {
                1
            };
            match r {
                Some(i) => match_from(views(texts@), q@, from as int, dir, 1) == Some(i as int)
                    && i < texts@.len(),
                None => match_from(views(texts@), q@, from as int, dir, 1) is None,
            }
        }),
{
    let ghost dir: int = if back {
        -1
    } else {
        1
    };
    let ghost all = views(texts@);
    let n = texts.len();
    if n == 0 {
        return None;
    }
    let mut i: usize = from;
    let mut step: usize = 0;
    proof {
        lemma_small(from as int, n as int);
    }
    while step < n
        invariant
            step <= n,
            n == texts@.len(),
            all == views(texts@),
            i < n,
            dir == if back {
                -1int
            } else {
                1
            },
            i == (from + dir * step) % (n as int),
            match_from(all, q@, from as int, dir, 1) == match_from(
                all,
                q@,
                from as int,
                dir,
                step + 1,
            ),
        decreases n - step,
    {
        proof {
            lemma_turn(from + dir * step, n as int);
            assert(from + dir * (step + 1) == from + dir * step + dir) by (nonlinear_arith);
        }
        i = if back {
            if i > 0 {
                i - 1
            } else {
                n - 1
            }
        } else if i + 1 < n {
            i + 1
        } else {
            0
        };
        step += 1;
        assert(all[i as int] == texts@[i as int]@);
        if text::contains(texts[i].as_str(), q) {
            return Some(i);
        }
    }
    None
}

proof fn lemma_small(x: int, n: int)
    requires
        0 <= x < n,
    ensures
        x % n == x,
{
    vstd::arithmetic::div_mod::lemma_small_mod(x as nat, n as nat);
}

/// One step up or down of a remainder.
proof fn lemma_turn(x: int, n: int)
    requires
        n > 0,
    ensures
        (x + 1) % n == if x % n + 1 < n {
            x % n + 1
        } else {
            0
        },
        (x - 1) % n == if x % n > 0 {
            x % n - 1
        } else {
            n - 1
        },
{
    let r = x % n;
    let k = x / n;
    vstd::arithmetic::div_mod::lemma_fundamental_div_mod(x, n);
    vstd::arithmetic::div_mod::lemma_mod_bound(x, n);
    if r + 1 < n {
        vstd::arithmetic::div_mod::lemma_fundamental_div_mod_converse(x + 1, n, k, r + 1);
    } else {
        assert(n * (k + 1) == n * k + n) by (nonlinear_arith);
        vstd::arithmetic::div_mod::lemma_fundamental_div_mod_converse(x + 1, n, k + 1, 0);
    }
    if r > 0 {
        vstd::arithmetic::div_mod::lemma_fundamental_div_mod_converse(x - 1, n, k, r - 1);
    } else {
        assert(n * (k - 1) == n * k - n) by (nonlinear_arith);
        vstd::arithmetic::div_mod::lemma_fundamental_div_mod_converse(x - 1, n, k - 1, n - 1);
    }
}

pub open spec fn lowered(cells: Seq<CellView>) -> Seq<Seq<char>> {
    cells.map_values(|c: CellView| unicode_lowercase(c.source))
}

fn lower_sources(cells: &Vec<Cell>) -> (r: Vec<String>)
    ensures
        views(r@) == lowered(views(cells@)),
        r@.len() == cells@.len(),
{
    let ghost want = lowered(views(cells@));
    let mut r: Vec<String> = Vec::new();
    let mut i: usize = 0;
    while i < cells.len()
        invariant
            i <= cells@.len(),
            want == lowered(views(cells@)),
            r@.len() == i,
            forall|k: int| 0 <= k < i ==> (#[trigger] r@[k])@ == want[k],
        decreases cells@.len() - i,
    {
        assert(want[i as int] == unicode_lowercase(cells@[i as int]@.source));
        r.push(cells[i].source.as_str().to_lowercase());
        i += 1;
    }
    assert(views(r@) =~= want);
    r
}

impl AppView {
    /// The next cell (dir = ±1, wrapping) whose source contains the query,
    /// case-insensitively, selected.
    pub open spec fn found(self, dir: int) -> AppView {
        match self.input.search {
            None => self.said("no search — / to start one"@),
            Some(search) => {
                let q = unicode_lowercase(search);
                match match_from(lowered(self.notebook.cells), q, self.selected, dir, 1) {
                    Some(i) => self.at_cell(i),
                    None => self.said("no match: "@ + q),
                }
            },
        }
    }
}

impl App {
    /// Select the next cell (or the previous one, wrapping) whose source
    /// contains the query, case-insensitively.
    pub fn find(&mut self, back: bool)
        requires
            old(self)@.wf(),
        ensures
            final(self)@ == old(self)@.found(
                if back {
                    -1int
                } else {
                    1
                },
            ),
            final(self)@.wf(),
            final(self)@.notebook == old(self)@.notebook,
    {
        let q = match &self.search {
            None => {
                self.say("no search — / to start one");
                return;
            },
            Some(s) => s.as_str().to_lowercase(),
        };
        let texts = lower_sources(&self.notebook.cells);
        let at = self.selected;
        match next_match(&texts, q.as_str(), at, back) {
            Some(i) => {
                self.select(i);
            },
            None => {
                self.say(text::concat("no match: ", q.as_str()).as_str());
            },
        }
    }
}

// ---------------------------------------------------------------------------
// Overlays
// ---------------------------------------------------------------------------

/// Half a page of a body of this height.
pub open spec fn half_page(height: u16) -> usize {
    if height / 2 >= 1 {
        (height / 2) as usize
    } else {
        1
    }
}

fn page_of(height: u16) -> (r: usize)
    ensures
        r == half_page(height),
{
    let h = (height / 2) as usize;
    if h >= 1 {
        h
    } else {
        1
    }
}

/// Where a key scrolls the log to (rows up from the newest entry); `None`
/// where it closes it.
pub open spec fn log_scrolled(up: usize, key: KeyEvent, page: usize) -> Option<usize> {
    let ctrl = key.modifiers.control;
    match key.code {
        KeyCode::Up => Some(up.saturating_add(1)),
        KeyCode::Down => Some(up.saturating_sub(1)),
        KeyCode::PageUp => Some(up.saturating_add(page)),
        KeyCode::PageDown => Some(up.saturating_sub(page)),
        KeyCode::Home => Some(usize::MAX),
        KeyCode::End => Some(0),
        KeyCode::Char(c) => if c == 'k' {
            Some(up.saturating_add(1))
        } else if c == 'j' {
            Some(up.saturating_sub(1))
        } else if c == 'u' && ctrl {
            Some(up.saturating_add(page))
        } else if c == 'd' && ctrl {
            Some(up.saturating_sub(page))
        } else if c == 'g' {
            Some(usize::MAX)
        } else if c == 'G' {
            Some(0)
        } else {
            None
        },
        _ => None,
    }
}

/// Where a key scrolls the pager to (its first line); `None` where it closes
/// it.
pub open spec fn pager_scrolled(top: usize, key: KeyEvent, page: usize) -> Option<usize> {
    let ctrl = key.modifiers.control;
    match key.code {
        KeyCode::Down => Some(top.saturating_add(1)),
        KeyCode::Up => Some(top.saturating_sub(1)),
        KeyCode::PageDown => Some(top.saturating_add(page)),
        KeyCode::PageUp => Some(top.saturating_sub(page)),
        KeyCode::Home => Some(0),
        KeyCode::End => Some(usize::MAX),
        KeyCode::Char(c) => if c == 'j' {
            Some(top.saturating_add(1))
        } else if c == 'k' {
            Some(top.saturating_sub(1))
        } else if c == 'd' && ctrl {
            Some(top.saturating_add(page))
        } else if c == 'u' && ctrl {
            Some(top.saturating_sub(page))
        } else if c == ' ' {
            Some(top.saturating_add(page))
        } else if c == 'g' {
            Some(0)
        } else if c == 'G' {
            Some(usize::MAX)
        } else {
            None
        },
        _ => None,
    }
}

fn scroll_log(up: usize, key: KeyEvent, page: usize) -> (r: Option<usize>)
    ensures
        r == log_scrolled(up, key, page),
{
    let ctrl = key.modifiers.control;
    match key.code {
        KeyCode::Up => Some(up.saturating_add(1)),
        KeyCode::Down => Some(up.saturating_sub(1)),
        KeyCode::PageUp => Some(up.saturating_add(page)),
        KeyCode::PageDown => Some(up.saturating_sub(page)),
        KeyCode::Home => Some(usize::MAX),
        KeyCode::End => Some(0),
        KeyCode::Char(c) => if c == 'k' {
            Some(up.saturating_add(1))
        } else if c == 'j' {
            Some(up.saturating_sub(1))
        } else if c == 'u' && ctrl {
            Some(up.saturating_add(page))
        } else if c == 'd' && ctrl {
            Some(up.saturating_sub(page))
        } else if c == 'g' {
            Some(usize::MAX)
        } else if c == 'G' {
            Some(0)
        } else {
            None
        },
        _ => None,
    }
}

fn scroll_pager(top: usize, key: KeyEvent, page: usize) -> (r: Option<usize>)
    ensures
        r == pager_scrolled(top, key, page),
{
    let ctrl = key.modifiers.control;
    match key.code {
        KeyCode::Down => Some(top.saturating_add(1)),
        KeyCode::Up => Some(top.saturating_sub(1)),
        KeyCode::PageDown => Some(top.saturating_add(page)),
        KeyCode::PageUp => Some(top.saturating_sub(page)),
        KeyCode::Home => Some(0),
        KeyCode::End => Some(usize::MAX),
        KeyCode::Char(c) => if c == 'j' {
            Some(top.saturating_add(1))
        } else if c == 'k' {
            Some(top.saturating_sub(1))
        } else if c == 'd' && ctrl {
            Some(top.saturating_add(page))
        } else if c == 'u' && ctrl {
            Some(top.saturating_sub(page))
        } else if c == ' ' {
            Some(top.saturating_add(page))
        } else if c == 'g' {
            Some(0)
        } else if c == 'G' {
            Some(usize::MAX)
        } else {
            None
        },
        _ => None,
    }
}

impl AppView {
    pub open spec fn with_overlay(self, overlay: OverlayView) -> AppView {
        AppView { overlay, ..self }
    }

    /// The log while it is open.
    #[verifier::opaque]
    pub open spec fn log_key(self, up: usize, key: KeyEvent) -> AppView {
        self.with_overlay(
            OverlayView {
                logs: log_scrolled(up, key, half_page(self.screen.body.height)),
                ..self.overlay
            },
        )
    }

    /// The pager while it is open.
    #[verifier::opaque]
    pub open spec fn pager_key(self, p: PagerView, key: KeyEvent) -> AppView {
        self.with_overlay(
            OverlayView {
                pager: match pager_scrolled(p.top, key, half_page(self.screen.body.height)) {
                    Some(top) => Some(PagerView { top, ..p }),
                    None => None,
                },
                ..self.overlay
            },
        )
    }

    /// Whether an overlay is open that any key closes.
    pub open spec fn covered(self) -> bool {
        self.overlay.show_help || self.overlay.debug is Some || self.overlay.zoom is Some
    }

    #[verifier::opaque]
    pub open spec fn uncovered(self) -> AppView {
        self.with_overlay(
            OverlayView { show_help: false, debug: None, zoom: None, ..self.overlay },
        )
    }
}

impl App {
    pub fn on_key_logs(&mut self, up: usize, key: KeyEvent)
        ensures
            final(self)@ == old(self)@.log_key(up, key),
            final(self)@.frame() == old(self)@.frame(),
    {
        proof {
            reveal(AppView::log_key);
        }
        self.logs = scroll_log(up, key, page_of(self.body.height));
    }

    pub fn on_key_pager(&mut self, key: KeyEvent)
        requires
            old(self)@.overlay.pager is Some,
        ensures
            final(self)@ == old(self)@.pager_key(old(self)@.overlay.pager->Some_0, key),
            final(self)@.frame() == old(self)@.frame(),
    {
        proof {
            reveal(AppView::pager_key);
        }
        let page = page_of(self.body.height);
        let top = match &self.pager {
            Some(p) => p.top,
            None => 0,
        };
        match scroll_pager(top, key, page) {
            Some(top) => {
                if let Some(p) = &mut self.pager {
                    p.top = top;
                }
            },
            None => {
                self.pager = None;
            },
        }
    }

    pub fn uncover(&mut self)
        ensures
            final(self)@ == old(self)@.uncovered(),
            final(self)@.frame() == old(self)@.frame(),
    {
        proof {
            reveal(AppView::uncovered);
        }
        self.show_help = false;
        self.debug = None;
        self.zoom = None;
    }
}

// ---------------------------------------------------------------------------
// Text input
// ---------------------------------------------------------------------------

/// Without the last character.
pub open spec fn shortened(s: Seq<char>) -> Seq<char> {
    if s.len() > 0 {
        s.drop_last()
    } else {
        s
    }
}

fn shorten(s: &str) -> (r: String)
    ensures
        r@ == shortened(s@),
{
    let n = s.unicode_len();
    if n > 0 {
        let r = text::take(s, n - 1);
        assert(r@ =~= s@.drop_last());
        r
    } else {
        s.to_owned()
    }
}

fn lengthen(s: &str, c: char) -> (r: String)
    ensures
        r@ == s@.push(c),
{
    let n = s.unicode_len();
    let r = text::insert_char(s, n, c);
    assert(r@ =~= s@.push(c));
    r
}

impl AppView {
    pub open spec fn with_stdin(self, stdin_req: Option<StdinView>) -> AppView {
        AppView { run: RunView { stdin_req, ..self.run }, ..self }
    }

    /// The kernel interrupted, if there is one.
    pub open spec fn interrupting(self) -> AppView {
        match self.run.kernel {
            Some(k) => self.emitting(EffectView::Interrupt(k.interrupt())).said(
                "interrupt sent"@,
            ),
            None => self,
        }
    }

    /// A key while the kernel waits on `input()`.
    #[verifier::opaque]
    pub open spec fn stdin_key(self, req: StdinView, key: KeyEvent) -> AppView {
        match key.code {
            KeyCode::Char(c) => if c == 'c' && key.modifiers.control {
                self.with_stdin(None).interrupting()
            } else {
                self.with_stdin(Some(StdinView { buf: req.buf.push(c), ..req }))
            },
            KeyCode::Enter => self.input_sent(req, req.buf),
            KeyCode::Esc => self.input_sent(req, Seq::empty()),
            KeyCode::Backspace => self.with_stdin(
                Some(StdinView { buf: shortened(req.buf), ..req }),
            ),
            _ => self,
        }
    }

    /// The answer to `input()` sent, if there is a kernel.
    pub open spec fn input_sent(self, req: StdinView, value: Seq<char>) -> AppView {
        let a = self.with_stdin(None);
        if self.run.kernel is Some {
            a.emitting(EffectView::ReplyInput { request: req.request, value })
        } else {
            a
        }
    }

    pub open spec fn with_prompt(self, prompt: Option<PromptView>) -> AppView {
        self.with_overlay(OverlayView { prompt, ..self.overlay })
    }

    /// A search entered.
    pub open spec fn searching(self, buf: Seq<char>) -> AppView {
        let a = self.with_prompt(None);
        if buf.len() > 0 {
            AppView { input: InputView { search: Some(buf), ..a.input }, ..a }.found(1)
        } else {
            a
        }
    }

    /// A path entered to save as.
    pub open spec fn naming(self, buf: Seq<char>, exists: bool) -> AppView {
        let a = self.saving_as(buf, exists);
        if self.save_as_waits(buf, exists) {
            a
        } else {
            a.with_prompt(None)
        }
    }

    /// A key while a status-line prompt is open.
    #[verifier::opaque]
    pub open spec fn prompt_key(self, p: PromptView, key: KeyEvent, exists: bool) -> AppView {
        match key.code {
            KeyCode::Esc => self.with_prompt(None),
            KeyCode::Backspace => self.with_prompt(
                Some(PromptView { buf: shortened(p.buf), ..p }),
            ),
            KeyCode::Char(c) => self.with_prompt(Some(PromptView { buf: p.buf.push(c), ..p })),
            KeyCode::Enter => match p.kind {
                PromptKind::Search => self.searching(p.buf),
                PromptKind::SaveAs => self.naming(p.buf, exists),
            },
            _ => self,
        }
    }
}

impl App {
    /// Interrupt the kernel, if there is one.
    pub fn interrupt(&mut self)
        ensures
            final(self)@ == old(self)@.interrupting(),
    {
        let how = match &self.kernel {
            Some(k) => Some(k.interrupt()),
            None => None,
        };
        if let Some(i) = how {
            self.emit(Effect::Interrupt(i));
            self.say("interrupt sent");
        }
    }

    fn send_input(&mut self, empty: bool)
        requires
            old(self)@.run.stdin_req is Some,
        ensures
            ({
                let req = old(self)@.run.stdin_req->Some_0;
                final(self)@ == old(self)@.input_sent(
                    req,
                    if empty {
                        Seq::empty()
                    } else {
                        req.buf
                    },
                )
            }),
    {
        let taken = self.stdin_req.take();
        if let Some(req) = taken {
            if self.kernel.is_some() {
                let value = if empty {
                    let none = String::new();
                    assert(none@ =~= Seq::<char>::empty());
                    none
                } else {
                    req.buf
                };
                self.emit(Effect::ReplyInput { request: req.request, value });
            }
        }
    }

    fn edit_stdin(&mut self, typed: Option<char>)
        requires
            old(self)@.run.stdin_req is Some,
        ensures
            ({
                let req = old(self)@.run.stdin_req->Some_0;
                final(self)@ == old(self)@.with_stdin(
                    Some(
                        StdinView {
                            buf: match typed {
                                Some(c) => req.buf.push(c),
                                None => shortened(req.buf),
                            },
                            ..req
                        },
                    ),
                )
            }),
    {
        if let Some(r) = &mut self.stdin_req {
            r.buf = match typed {
                Some(c) => lengthen(r.buf.as_str(), c),
                None => shorten(r.buf.as_str()),
            };
        }
    }

    /// Keys while the kernel waits on `input()`: typed into the prompt.
    pub fn on_key_stdin(&mut self, key: KeyEvent)
        requires
            old(self)@.run.stdin_req is Some,
        ensures
            final(self)@ == old(self)@.stdin_key(old(self)@.run.stdin_req->Some_0, key),
            final(self)@.frame() == old(self)@.frame(),
    {
        proof {
            reveal(AppView::stdin_key);
        }
        match key.code {
            KeyCode::Char(c) => {
                if c == 'c' && key.modifiers.control {
                    self.stdin_req = None;
                    self.interrupt();
                } else {
                    self.edit_stdin(Some(c));
                }
            },
            KeyCode::Enter => {
                self.send_input(false);
            },
            KeyCode::Esc => {
                self.send_input(true);
            },
            KeyCode::Backspace => {
                self.edit_stdin(None);
            },
            _ => {},
        }
    }

    fn edit_prompt(&mut self, typed: Option<char>)
        requires
            old(self)@.overlay.prompt is Some,
        ensures
            ({
                let p = old(self)@.overlay.prompt->Some_0;
                final(self)@ == old(self)@.with_prompt(
                    Some(
                        PromptView {
                            buf: match typed {
                                Some(c) => p.buf.push(c),
                                None => shortened(p.buf),
                            },
                            ..p
                        },
                    ),
                )
            }),
    {
        if let Some(p) = &mut self.prompt {
            p.buf = match typed {
                Some(c) => lengthen(p.buf.as_str(), c),
                None => shorten(p.buf.as_str()),
            };
        }
    }

    /// The path that an open save-as prompt names, for the host to look at.
    pub fn save_target(&self) -> (r: Option<String>)
        ensures
            opt_view(r) == match self@.overlay.prompt {
                Some(p) => match p.kind {
                    PromptKind::SaveAs => Some(self@.typed_path(p.buf)),
                    PromptKind::Search => None,
                },
                None => None,
            },
    {
        match &self.prompt {
            Some(p) => match p.kind {
                PromptKind::SaveAs => Some(self.typed_path(p.buf.as_str())),
                PromptKind::Search => None,
            },
            None => None,
        }
    }

    fn search_for(&mut self, buf: String)
        requires
            old(self)@.wf(),
        ensures
            final(self)@ == old(self)@.searching(buf@),
            final(self)@.wf(),
            final(self)@.notebook == old(self)@.notebook,
    {
        self.prompt = None;
        if buf.as_str().unicode_len() > 0 {
            self.search = Some(buf);
            self.find(false);
        }
    }

    fn save_under(&mut self, buf: String, exists: bool)
        requires
            old(self)@.wf(),
        ensures
            final(self)@ == old(self)@.naming(buf@, exists),
            final(self)@.wf(),
            final(self)@.notebook == old(self)@.notebook,
    {
        if self.save_as(buf.as_str(), exists) {
            self.prompt = None;
        }
    }

    /// Keys while a status-line prompt (`/` search, `S` save as) is open.
    pub fn on_key_prompt(&mut self, key: KeyEvent, exists: bool)
        requires
            old(self)@.wf(),
            old(self)@.overlay.prompt is Some,
        ensures
            final(self)@ == old(self)@.prompt_key(old(self)@.overlay.prompt->Some_0, key, exists),
            final(self)@.wf(),
            final(self)@.notebook == old(self)@.notebook,
    {
        proof {
            reveal(AppView::prompt_key);
        }
        match key.code {
            KeyCode::Esc => {
                self.prompt = None;
            },
            KeyCode::Backspace => {
                self.edit_prompt(None);
            },
            KeyCode::Char(c) => {
                self.edit_prompt(Some(c));
            },
            KeyCode::Enter => {
                let (kind, buf) = match &self.prompt {
                    Some(p) => (p.kind, p.buf.clone()),
                    None => {
                        return;
                    },
                };
                match kind {
                    PromptKind::Search => {
                        self.search_for(buf);
                    },
                    PromptKind::SaveAs => {
                        self.save_under(buf, exists);
                    },
                }
            },
            _ => {},
        }
    }
}

// ---------------------------------------------------------------------------
// Questions
// ---------------------------------------------------------------------------

impl State {
    /// The key answering a pending question.
    #[verifier::opaque]
    pub open spec fn answered(self, confirm: ConfirmView, key: KeyEvent, on_disk: Option<u64>) ->
        State {
        let k = key.code;
        match confirm {
            ConfirmView::Quit => if k == KeyCode::Char('q') {
                // discard; the autosave stays behind as a safety net
                self.on(AppView { should_quit: true, ..self.app })
            } else if k == KeyCode::Char('s') || k == KeyCode::Char('w') {
                self.on(self.app.saving(false, on_disk, AfterSaveView::Quit))
            } else {
                self.said("quit cancelled"@)
            },
            ConfirmView::Reload => if k == KeyCode::Char('l') {
                self.on(self.app.emitting(EffectView::Reload(ReloadCause::Asked)))
            } else {
                // keep mine: accept the divergence; a plain w now overwrites
                self.on(
                    AppView {
                        file: FileView { disk_mtime: on_disk, ..self.app.file },
                        ..self.app
                    },
                ).said("keeping this buffer — w will overwrite the file"@)
            },
            ConfirmView::Restart => if k == KeyCode::Char('R') {
                self.on(self.app.restarting(false))
            } else if k == KeyCode::Char('a') {
                self.on(self.app.restarting(true))
            } else {
                self.said("restart cancelled"@)
            },
            ConfirmView::Recover(saved, _) => if k == KeyCode::Char('r') {
                self.recovered(saved)
            } else if k == KeyCode::Char('d') {
                self.on(
                    self.app.emitting(EffectView::RemoveFile(self.app.autosave_path())).said(
                        "autosave deleted"@,
                    ),
                )
            } else {
                self.said("autosave kept — the next autosave (after any change) replaces it"@)
            },
        }
    }
}

impl App {
    /// The key answering a pending `Confirm` question.
    pub fn answer(
        &mut self,
        confirm: Confirm,
        key: KeyEvent,
        on_disk: Option<u64>,
        rendered: &mut Rendered,
    )
        requires
            state(old(self), old(rendered)).wf(),
        ensures
            state(final(self), final(rendered)) == state(old(self), old(rendered)).answered(
                confirm@,
                key,
                on_disk,
            ),
            state(final(self), final(rendered)).wf(),
    {
        proof {
            reveal(State::answered);
        }
        let k = key.code;
        match confirm {
            Confirm::Quit => {
                if k == KeyCode::Char('q') {
                    self.should_quit = true;
                } else if k == KeyCode::Char('s') || k == KeyCode::Char('w') {
                    let _ = self.save_notebook(false, on_disk, AfterSave::Quit);
                } else {
                    self.say("quit cancelled");
                }
            },
            Confirm::Reload => {
                if k == KeyCode::Char('l') {
                    self.emit(Effect::Reload(ReloadCause::Asked));
                } else {
                    self.disk_mtime = on_disk;
                    self.say("keeping this buffer — w will overwrite the file");
                }
            },
            Confirm::Restart => {
                if k == KeyCode::Char('R') {
                    self.restart_kernel(false);
                } else if k == KeyCode::Char('a') {
                    self.restart_kernel(true);
                } else {
                    self.say("restart cancelled");
                }
            },
            Confirm::Recover(saved, _) => {
                if k == KeyCode::Char('r') {
                    self.recover(saved, rendered);
                } else if k == KeyCode::Char('d') {
                    let side = self.autosave_path();
                    self.emit(Effect::RemoveFile(side));
                    self.say("autosave deleted");
                } else {
                    self.say("autosave kept — the next autosave (after any change) replaces it");
                }
            },
        }
    }
}

/// The index that is `step` steps of `dir` away.
spec fn index_at(n: int, from: int, dir: int, step: int) -> int {
    (from + dir * step) % n
}

proof fn lemma_match_found(
    texts: Seq<Seq<char>>,
    q: Seq<char>,
    from: int,
    dir: int,
    step: int,
    hit: int,
)
    requires
        1 <= step <= hit <= texts.len(),
        has_infix(texts[index_at(texts.len() as int, from, dir, hit)], q),
    ensures
        match_from(texts, q, from, dir, step) matches Some(i) && has_infix(texts[i], q),
    decreases hit - step,
{
    let i = (from + dir * step) % (texts.len() as int);
    if !has_infix(texts[i], q) {
        assert(step != hit);
        lemma_match_found(texts, q, from, dir, step + 1, hit);
    }
}

/// A search finds a text with the query if there is one, wherever it starts
/// and whichever way it goes.
pub proof fn law_a_search_finds_what_is_there(
    texts: Seq<Seq<char>>,
    q: Seq<char>,
    from: int,
    back: bool,
    k: int,
)
    requires
        0 <= from < texts.len(),
        0 <= k < texts.len(),
        has_infix(texts[k], q),
    ensures
        match_from(
            texts,
            q,
            from,
            if back {
                -1
            } else {
                1
            },
            1,
        ) matches Some(i) && has_infix(texts[i], q),
{
    let n = texts.len() as int;
    let dir: int = if back {
        -1
    } else {
        1
    };
    let ahead = if back {
        from - k
    } else {
        k - from
    };
    let hit = if ahead >= 1 {
        ahead
    } else {
        ahead + n
    };
    if back {
        assert(dir * hit == -hit) by (nonlinear_arith)
            requires
                dir == -1,
        ;
    } else {
        assert(dir * hit == hit) by (nonlinear_arith)
            requires
                dir == 1,
        ;
    }
    let at = from + dir * hit;
    assert(at == k || at == k + n || at == k - n);
    assert(at % n == k) by (nonlinear_arith)
        requires
            0 <= k < n,
            at == k || at == k + n || at == k - n,
    ;
    assert(index_at(n, from, dir, hit) == k);
    lemma_match_found(texts, q, from, dir, 1, hit);
}

/// A session that died with unsaved work is offered back, and `r` restores it
/// as unsaved work.
pub proof fn law_a_crashed_session_comes_back(
    s: State,
    age: u64,
    saved: NotebookView,
    key: KeyEvent,
    on_disk: Option<u64>,
)
    requires
        differing(
            saved.cells,
            s.app.notebook.cells,
            longer(saved.cells.len(), s.app.notebook.cells.len()),
        ) != 0,
        key.code == KeyCode::Char('r'),
    ensures
        s.app.recovery_offered(age, Ok(saved)).overlay.confirm matches Some(
            ConfirmView::Recover(n, _),
        ) && n == saved,
        ({
            let offered = s.app.recovery_offered(age, Ok(saved));
            let t = s.on(offered.with_confirm(None)).answered(
                offered.overlay.confirm->Some_0,
                key,
                on_disk,
            );
            t.app.notebook == saved && t.app.file.dirty
        }),
{
    reveal(State::answered);
}

/// An autosave that holds nothing new is removed without a question.
pub proof fn law_a_stale_autosave_is_removed(a: AppView, age: u64, saved: NotebookView)
    requires
        differing(
            saved.cells,
            a.notebook.cells,
            longer(saved.cells.len(), a.notebook.cells.len()),
        ) == 0,
    ensures
        a.recovery_offered(age, Ok(saved)) == a.emitting(
            EffectView::RemoveFile(a.autosave_path()),
        ),
{
}

} // verus!
