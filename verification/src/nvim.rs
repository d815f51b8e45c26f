//! An embedded `nvim --embed --headless` as the cell editor's modal engine.
//! nvim owns buffer text, cursor, mode, registers, and macros; its state is
//! read back after every key.

use vstd::prelude::*;

use crate::editor;
use crate::editor::{Editor, Mode, Outcome};
#[allow(unused_imports)]
use crate::editor::{cursor_in, EditorView};
use crate::keys::{KeyCode, KeyEvent};
use crate::text;
#[allow(unused_imports)]
use crate::text::{byte_len, decimal, first, has_prefix, join, opt_view, split_on, views};

verus! {

/// Editor mode, coarse enough for rendering (chip, cursor shape, selection).
#[derive(Clone, Copy, Debug, PartialEq, Eq, Structural)]
pub enum ModeKind {
    Normal,
    Insert,
    Visual,
    VisualLine,
    VisualBlock,
    Replace,
    Pending,
    Cmdline,
}

// ---------------------------------------------------------------------------
// Key notation
// ---------------------------------------------------------------------------

/// nvim's name for a key, and whether it is written in angle brackets.
pub open spec fn key_name(code: KeyCode) -> Option<(Seq<char>, bool)> {
    match code {
        KeyCode::Char(c) => if c == ' ' {
            Some(("Space"@, true))
        } else if c == '<' {
            Some(("lt"@, true))
        } else {
            Some((seq![c], false))
        },
        KeyCode::Enter => Some(("CR"@, true)),
        KeyCode::Esc => Some(("Esc"@, true)),
        KeyCode::Backspace => Some(("BS"@, true)),
        KeyCode::Tab => Some(("Tab"@, true)),
        KeyCode::BackTab => Some(("Tab"@, true)),
        KeyCode::Left => Some(("Left"@, true)),
        KeyCode::Right => Some(("Right"@, true)),
        KeyCode::Up => Some(("Up"@, true)),
        KeyCode::Down => Some(("Down"@, true)),
        KeyCode::Home => Some(("Home"@, true)),
        KeyCode::End => Some(("End"@, true)),
        KeyCode::PageUp => Some(("PageUp"@, true)),
        KeyCode::PageDown => Some(("PageDown"@, true)),
        KeyCode::Delete => Some(("Del"@, true)),
        KeyCode::Insert => Some(("Insert"@, true)),
        KeyCode::F(n) => Some(("F"@ + decimal(n as int), true)),
        KeyCode::Other => None,
    }
}

/// The modifiers of a key in nvim's notation. Shift is already in a
/// character; it only matters for special keys.
pub open spec fn key_modifiers(key: KeyEvent, special: bool) -> Seq<char> {
    let c = if key.modifiers.control {
        "C-"@
    } else {
        ""@
    };
    let m = if key.modifiers.alt {
        "M-"@
    } else {
        ""@
    };
    let s = if special && (key.modifiers.shift || key.code == KeyCode::BackTab) {
        "S-"@
    } else {
        ""@
    };
    c + m + s
}

/// A key in nvim's notation.
pub open spec fn key_notation(key: KeyEvent) -> Option<Seq<char>> {
    match key_name(key.code) {
        None => None,
        Some((name, special)) => {
            let mods = key_modifiers(key, special);
            if special || mods.len() > 0 {
                Some("<"@ + mods + name + ">"@)
            } else {
                Some(name)
            }
        },
    }
}

fn name_of_key(code: KeyCode) -> (r: Option<(String, bool)>)
    ensures
        match r {
            Some(p) => key_name(code) == Some((p.0@, p.1)),
            None => key_name(code) is None,
        },
{
    let name = match code {
        KeyCode::Char(c) => {
            if c == ' ' {
                "Space"
            } else if c == '<' {
                "lt"
            } else {
                let mut s = String::new();
                s.push(c);
                assert(s@ =~= seq![c]);
                return Some((s, false));
            }
        },
        KeyCode::Enter => "CR",
        KeyCode::Esc => "Esc",
        KeyCode::Backspace => "BS",
        KeyCode::Tab => "Tab",
        KeyCode::BackTab => "Tab",
        KeyCode::Left => "Left",
        KeyCode::Right => "Right",
        KeyCode::Up => "Up",
        KeyCode::Down => "Down",
        KeyCode::Home => "Home",
        KeyCode::End => "End",
        KeyCode::PageUp => "PageUp",
        KeyCode::PageDown => "PageDown",
        KeyCode::Delete => "Del",
        KeyCode::Insert => "Insert",
        KeyCode::F(n) => {
            let mut s = "F".to_owned();
            s.append(text::decimal_string(n as u64).as_str());
            return Some((s, true));
        },
        KeyCode::Other => {
            return None;
        },
    };
    Some((name.to_owned(), true))
}

/// A key event in nvim key notation for `nvim_input()`. None: a key nvim has
/// no notation for (media keys, caps lock, ...).
pub fn key_to_nvim(key: KeyEvent) -> (r: Option<String>)
    ensures
        opt_view(r) == key_notation(key),
{
    let (name, special) = match name_of_key(key.code) {
        Some(p) => p,
        None => {
            return None;
        },
    };
    let mut mods = "".to_owned();
    let mut any = false;
    proof {
        reveal_strlit("");
        reveal_strlit("C-");
        reveal_strlit("M-");
        reveal_strlit("S-");
        assert(""@ + ""@ =~= ""@);
    }
    if key.modifiers.control {
        mods.append("C-");
        any = true;
    }
    if key.modifiers.alt {
        mods.append("M-");
        any = true;
    }
    if special && (key.modifiers.shift || key.code == KeyCode::BackTab) {
        mods.append("S-");
        any = true;
    }
    assert(mods@ =~= key_modifiers(key, special));
    assert(any == (mods@.len() > 0));
    if special || any {
        let mut s = "<".to_owned();
        s.append(mods.as_str());
        s.append(name.as_str());
        s.append(">");
        Some(s)
    } else {
        Some(name)
    }
}

// ---------------------------------------------------------------------------
// Cell state
// ---------------------------------------------------------------------------

/// What is known of an editing session on one cell: the state nvim was in
/// after the last key.
pub struct NvimCell {
    pub lines: Vec<String>,
    /// (row, col) in characters.
    pub cursor: (usize, usize),
    /// Raw `mode(1)` string, e.g. "n", "i", "no", "v", "V".
    pub mode: String,
    /// Visual anchor; equals cursor outside visual mode.
    pub anchor: (usize, usize),
    /// Command line being typed; empty outside cmdline mode.
    pub cmdline: String,
    /// nvim buffer number of this cell, to notice when a plugin switched away
    /// from it.
    pub bufnr: u64,
    /// One-shot status message (a foreign window was closed).
    pub notice: Option<String>,
    /// `:w` was typed.
    pub write_requested: bool,
    /// Quit intent from inside nvim (0 none, 1 commit+exit, 2 discard+exit).
    pub quit_requested: u8,
}

#[verifier::ext_equal]
pub struct NvimView {
    pub lines: Seq<Seq<char>>,
    pub cursor: (usize, usize),
    pub mode: Seq<char>,
    pub anchor: (usize, usize),
    pub cmdline: Seq<char>,
    pub bufnr: u64,
    pub notice: Option<Seq<char>>,
    pub write_requested: bool,
    pub quit_requested: u8,
}

impl View for NvimCell {
    type V = NvimView;

    open spec fn view(&self) -> NvimView {
        NvimView {
            lines: views(self.lines@),
            cursor: self.cursor,
            mode: self.mode@,
            anchor: self.anchor,
            cmdline: self.cmdline@,
            bufnr: self.bufnr,
            notice: opt_view(self.notice),
            write_requested: self.write_requested,
            quit_requested: self.quit_requested,
        }
    }
}

/// The mode that nvim's mode string stands for.
pub open spec fn mode_of(mode: Seq<char>) -> ModeKind {
    if has_prefix(mode, "no"@) {
        ModeKind::Pending
    } else if mode.len() == 0 {
        ModeKind::Normal
    } else if mode[0] == 'i' {
        ModeKind::Insert
    } else if mode[0] == 'R' {
        ModeKind::Replace
    } else if mode[0] == 'v' || mode[0] == 's' {
        ModeKind::Visual
    } else if mode[0] == 'V' || mode[0] == 'S' {
        ModeKind::VisualLine
    } else if mode[0] == '\x16' {
        ModeKind::VisualBlock
    } else if mode[0] == 'c' {
        ModeKind::Cmdline
    } else {
        ModeKind::Normal
    }
}

impl NvimView {
    /// Cursor and anchor lie in the text.
    pub open spec fn wf(self) -> bool {
        &&& cursor_in(self.lines, self.cursor.0 as int, self.cursor.1 as int)
        &&& cursor_in(self.lines, self.anchor.0 as int, self.anchor.1 as int)
    }

    pub open spec fn source(self) -> Seq<char> {
        join(self.lines, seq!['\n'])
    }
}

impl NvimCell {
    fn mode_kind(&self) -> (r: ModeKind)
        ensures
            r == mode_of(self@.mode),
    {
        if text::starts_with(self.mode.as_str(), "no") {
            return ModeKind::Pending;
        }
        let v = text::chars_of(self.mode.as_str());
        if v.len() == 0 {
            return ModeKind::Normal;
        }
        match v[0] {
            'i' => ModeKind::Insert,
            'R' => ModeKind::Replace,
            'v' | 's' => ModeKind::Visual,
            'V' | 'S' => ModeKind::VisualLine,
            '\x16' => ModeKind::VisualBlock,
            'c' => ModeKind::Cmdline,
            _ => ModeKind::Normal,
        }
    }

    pub fn duplicate(&self) -> (r: NvimCell)
        ensures
            r@ == self@,
    {
        NvimCell {
            lines: text::clone_strings(&self.lines),
            cursor: self.cursor,
            mode: self.mode.clone(),
            anchor: self.anchor,
            cmdline: self.cmdline.clone(),
            bufnr: self.bufnr,
            notice: text::clone_opt(&self.notice),
            write_requested: self.write_requested,
            quit_requested: self.quit_requested,
        }
    }
}

// ---------------------------------------------------------------------------
// Backends
// ---------------------------------------------------------------------------

/// The cell editor: the builtin vi subset, or a real nvim behind it.
pub enum Backend {
    Builtin(Editor),
    Nvim(NvimCell),
}

pub enum BackendView {
    Builtin(EditorView),
    Nvim(NvimView),
}

impl View for Backend {
    type V = BackendView;

    open spec fn view(&self) -> BackendView {
        match *self {
            Backend::Builtin(e) => BackendView::Builtin(e@),
            Backend::Nvim(c) => BackendView::Nvim(c@),
        }
    }
}

/// What a key does: it is handled, or is to be fed to nvim.
pub enum Reaction {
    Done(Outcome),
    Feed(String),
}

pub enum ReactionView {
    Done(Outcome),
    Feed(Seq<char>),
}

impl View for Reaction {
    type V = ReactionView;

    open spec fn view(&self) -> ReactionView {
        match *self {
            Reaction::Done(o) => ReactionView::Done(o),
            Reaction::Feed(s) => ReactionView::Feed(s@),
        }
    }
}

/// What nvim is to be told besides keys.
pub enum NvimMove {
    /// Place the cursor (row from 0, byte column); then enter insert mode.
    Click { row: usize, byte: usize, insert: bool },
    /// Replace text between two positions, then put the cursor at a third.
    Replace {
        from: (usize, usize),
        to: (usize, usize),
        text: String,
        cursor: (usize, usize),
    },
    /// Keys.
    Keys(String),
}

pub enum NvimMoveView {
    Click { row: usize, byte: usize, insert: bool },
    Replace { from: (usize, usize), to: (usize, usize), text: Seq<char>, cursor: (usize, usize) },
    Keys(Seq<char>),
}

impl View for NvimMove {
    type V = NvimMoveView;

    open spec fn view(&self) -> NvimMoveView {
        match *self {
            NvimMove::Click { row, byte, insert } => NvimMoveView::Click { row, byte, insert },
            NvimMove::Replace { from, to, text, cursor } => NvimMoveView::Replace {
                from,
                to,
                text: text@,
                cursor,
            },
            NvimMove::Keys(s) => NvimMoveView::Keys(s@),
        }
    }
}

pub open spec fn smaller_usize(a: usize, b: int) -> int {
    if a <= b {
        a as int
    } else {
        b
    }
}

/// The line that holds the character at an offset into the joined lines, and
/// what is left of the offset there; past the end it is the last line.
pub open spec fn locate(lines: Seq<Seq<char>>, row: int, left: int) -> (int, int)
    decreases lines.len() - row,
{
    if row + 1 >= lines.len() || left <= lines[row].len() {
        (row, left)
    } else {
        locate(lines, row + 1, left - lines[row].len() - 1)
    }
}

/// Char offset into the joined source -> (0-based row, byte col).
pub open spec fn byte_position(lines: Seq<Seq<char>>, offset: int) -> (usize, usize) {
    let (row, left) = locate(lines, 0, offset);
    (row as usize, byte_len(first(lines[row], left)))
}

/// Where the cursor stands after `text` was put in at a position.
pub open spec fn position_after(from: (usize, usize), text: Seq<char>) -> (usize, usize) {
    let parts = split_on(text, '\n');
    if parts.len() == 1 {
        (from.0, from.1.saturating_add(byte_len(parts.last())))
    } else {
        (from.0.saturating_add((parts.len() - 1) as usize), byte_len(parts.last()))
    }
}

impl BackendView {
    pub open spec fn wf(self) -> bool {
        match self {
            BackendView::Builtin(e) => e.wf(),
            BackendView::Nvim(c) => c.wf(),
        }
    }

    pub open spec fn source(self) -> Seq<char> {
        match self {
            BackendView::Builtin(e) => e.source(),
            BackendView::Nvim(c) => c.source(),
        }
    }

    pub open spec fn line_count(self) -> int {
        match self {
            BackendView::Builtin(e) => e.lines.len() as int,
            BackendView::Nvim(c) => c.lines.len() as int,
        }
    }

    pub open spec fn row(self) -> int {
        match self {
            BackendView::Builtin(e) => e.row,
            BackendView::Nvim(c) => c.cursor.0 as int,
        }
    }

    pub open spec fn col(self) -> int {
        match self {
            BackendView::Builtin(e) => e.col,
            BackendView::Nvim(c) => c.cursor.1 as int,
        }
    }

    pub open spec fn mode(self) -> ModeKind {
        match self {
            BackendView::Builtin(e) => match e.mode {
                Mode::Normal => ModeKind::Normal,
                Mode::Insert => ModeKind::Insert,
            },
            BackendView::Nvim(c) => mode_of(c.mode),
        }
    }

    pub open spec fn is_builtin(self) -> bool {
        self is Builtin
    }

    /// The editor after a key, as far as it handles it itself.
    pub open spec fn keyed(self, key: KeyEvent) -> BackendView {
        match self {
            BackendView::Builtin(e) => BackendView::Builtin(e.keyed(key)),
            BackendView::Nvim(c) => self,
        }
    }

    pub open spec fn reaction(self, key: KeyEvent) -> ReactionView {
        match self {
            BackendView::Builtin(e) => ReactionView::Done(e.outcome(key)),
            BackendView::Nvim(c) => if key.code == KeyCode::Enter && (key.modifiers.shift
                || key.modifiers.control) {
                ReactionView::Done(Outcome::Run { advance: key.modifiers.shift })
            } else if key.code == KeyCode::Esc && c.mode == "n"@ {
                ReactionView::Done(Outcome::Exit)
            } else {
                match key_notation(key) {
                    Some(keys) => ReactionView::Feed(keys),
                    None => ReactionView::Done(Outcome::Continue),
                }
            },
        }
    }

    pub open spec fn clicked(self, row: int, col: int, insert: bool) -> BackendView {
        match self {
            BackendView::Builtin(e) => BackendView::Builtin(e.clicked(row, col, insert)),
            BackendView::Nvim(c) => self,
        }
    }

    /// What nvim is told of a click.
    pub open spec fn click_move(self, row: usize, col: int, insert: bool) -> Option<NvimMoveView> {
        match self {
            BackendView::Builtin(_) => None,
            BackendView::Nvim(c) => {
                let r = smaller_usize(row, c.lines.len() - 1);
                Some(
                    NvimMoveView::Click {
                        row: r as usize,
                        byte: byte_len(first(c.lines[r], col)),
                        insert: insert && c.mode == "n"@,
                    },
                )
            },
        }
    }

    pub open spec fn appended(self) -> BackendView {
        match self {
            BackendView::Builtin(e) => BackendView::Builtin(e.appending()),
            BackendView::Nvim(c) => self,
        }
    }

    pub open spec fn spliced(self, start: int, end: int, text: Seq<char>) -> BackendView {
        match self {
            BackendView::Builtin(e) => BackendView::Builtin(e.spliced(start, end, text)),
            BackendView::Nvim(c) => self,
        }
    }

    /// What nvim is told of a replacement.
    pub open spec fn splice_move(self, start: int, end: int, text: Seq<char>) -> Option<
        NvimMoveView,
    > {
        match self {
            BackendView::Builtin(_) => None,
            BackendView::Nvim(c) => {
                let from = byte_position(c.lines, start);
                let to = byte_position(
                    c.lines,
                    if end >= start {
                        end
                    } else {
                        start
                    },
                );
                Some(NvimMoveView::Replace { from, to, text, cursor: position_after(from, text) })
            },
        }
    }

    /// Visual selection for rendering: (kind, anchor, cursor).
    pub open spec fn visual(self) -> Option<(ModeKind, (usize, usize), (usize, usize))> {
        match self {
            BackendView::Builtin(_) => None,
            BackendView::Nvim(c) => {
                let k = mode_of(c.mode);
                if k == ModeKind::Visual || k == ModeKind::VisualLine || k
                    == ModeKind::VisualBlock {
                    Some((k, c.anchor, c.cursor))
                } else {
                    None
                }
            },
        }
    }

    pub open spec fn cmdline(self) -> Option<Seq<char>> {
        match self {
            BackendView::Builtin(_) => None,
            BackendView::Nvim(c) => if c.cmdline.len() > 0 {
                Some(c.cmdline)
            } else {
                None
            },
        }
    }

    pub open spec fn notice(self) -> Option<Seq<char>> {
        match self {
            BackendView::Builtin(_) => None,
            BackendView::Nvim(c) => c.notice,
        }
    }

    pub open spec fn unnoticed(self) -> BackendView {
        match self {
            BackendView::Builtin(_) => self,
            BackendView::Nvim(c) => BackendView::Nvim(NvimView { notice: None, ..c }),
        }
    }

    pub open spec fn write_requested(self) -> bool {
        match self {
            BackendView::Builtin(_) => false,
            BackendView::Nvim(c) => c.write_requested,
        }
    }

    pub open spec fn write_taken(self) -> BackendView {
        match self {
            BackendView::Builtin(_) => self,
            BackendView::Nvim(c) => BackendView::Nvim(NvimView { write_requested: false, ..c }),
        }
    }

    /// Quit intent: `Some(true)` discards the edit.
    pub open spec fn quit_request(self) -> Option<bool> {
        match self {
            BackendView::Builtin(_) => None,
            BackendView::Nvim(c) => if c.quit_requested == 1 {
                Some(false)
            } else if c.quit_requested == 2 {
                Some(true)
            } else {
                None
            },
        }
    }

    pub open spec fn quit_taken(self) -> BackendView {
        match self {
            BackendView::Builtin(_) => self,
            BackendView::Nvim(c) => BackendView::Nvim(NvimView { quit_requested: 0, ..c }),
        }
    }
}

impl Backend {
    pub fn source(&self) -> (r: String)
        ensures
            r@ == self@.source(),
    {
        match self {
            Backend::Builtin(e) => e.source(),
            Backend::Nvim(c) => {
                proof {
                    reveal_strlit("\n");
                    assert("\n"@ =~= seq!['\n']);
                }
                text::join_strings(&c.lines, "\n")
            },
        }
    }

    pub fn line_count(&self) -> (r: usize)
        ensures
            r == self@.line_count(),
    {
        match self {
            Backend::Builtin(e) => e.lines.len(),
            Backend::Nvim(c) => c.lines.len(),
        }
    }

    /// (row, col) in characters.
    pub fn cursor(&self) -> (r: (usize, usize))
        ensures
            r.0 == self@.row(),
            r.1 == self@.col(),
    {
        match self {
            Backend::Builtin(e) => e.cursor,
            Backend::Nvim(c) => c.cursor,
        }
    }

    pub fn mode(&self) -> (r: ModeKind)
        ensures
            r == self@.mode(),
    {
        match self {
            Backend::Builtin(e) => match e.mode {
                Mode::Normal => ModeKind::Normal,
                Mode::Insert => ModeKind::Insert,
            },
            Backend::Nvim(c) => c.mode_kind(),
        }
    }

    pub fn is_builtin(&self) -> (r: bool)
        ensures
            r == self@.is_builtin(),
    {
        matches!(self, Backend::Builtin(_))
    }

    /// A key. The builtin editor handles it; for nvim, run and exit keys are
    /// taken out, and the rest is to be fed to it.
    pub fn input(&mut self, key: KeyEvent) -> (r: Reaction)
        requires
            old(self)@.wf(),
        ensures
            final(self)@ == old(self)@.keyed(key),
            r@ == old(self)@.reaction(key),
            final(self)@.wf(),
    {
        match self {
            Backend::Builtin(e) => Reaction::Done(e.input(key)),
            Backend::Nvim(c) => {
                if key.code == KeyCode::Enter && (key.modifiers.shift || key.modifiers.control) {
                    return Reaction::Done(Outcome::Run { advance: key.modifiers.shift });
                }
                // exactly "n": Esc must still reach nvim in "no" (cancel
                // operator), "niI" (back to insert), visual, cmdline, ...
                if key.code == KeyCode::Esc && text::same(c.mode.as_str(), "n") {
                    return Reaction::Done(Outcome::Exit);
                }
                match key_to_nvim(key) {
                    Some(keys) => Reaction::Feed(keys),
                    None => Reaction::Done(Outcome::Continue),
                }
            },
        }
    }

    /// Mouse click: place the cursor; optionally enter insert (double click).
    pub fn click(&mut self, row: usize, col: usize, insert: bool) -> (r: Option<NvimMove>)
        requires
            old(self)@.wf(),
        ensures
            final(self)@ == old(self)@.clicked(row as int, col as int, insert),
            opt_view(r) == old(self)@.click_move(row, col as int, insert),
            final(self)@.wf(),
    {
        match self {
            Backend::Builtin(e) => {
                e.click(row, col, insert);
                None
            },
            Backend::Nvim(c) => {
                let last = c.lines.len() - 1;
                let r = if row <= last {
                    row
                } else {
                    last
                };
                assert(views(c.lines@)[r as int] == c.lines@[r as int]@);
                Some(
                    NvimMove::Click {
                        row: r,
                        byte: editor::bidx(c.lines[r].as_str(), col),
                        insert: insert && text::same(c.mode.as_str(), "n"),
                    },
                )
            },
        }
    }

    /// `A` from cell-selection mode: cursor to last line's end, insert mode.
    pub fn append_end(&mut self) -> (r: Option<NvimMove>)
        requires
            old(self)@.wf(),
        ensures
            final(self)@ == old(self)@.appended(),
            opt_view(r) == if old(self)@.is_builtin() {
                None
            } else {
                Some(NvimMoveView::Keys("GA"@))
            },
            final(self)@.wf(),
    {
        match self {
            Backend::Builtin(e) => {
                e.append_end();
                None
            },
            Backend::Nvim(_) => Some(NvimMove::Keys("GA".to_owned())),
        }
    }

    /// Replace chars [start, end) of the source with `text` and put the
    /// cursor after it (kernel completions).
    pub fn replace_range(&mut self, start: usize, end: usize, text: &str) -> (r: Option<NvimMove>)
        requires
            old(self)@.wf(),
        ensures
            final(self)@ == old(self)@.spliced(start as int, end as int, text@),
            opt_view(r) == old(self)@.splice_move(start as int, end as int, text@),
            final(self)@.wf(),
    {
        match self {
            Backend::Builtin(e) => {
                e.replace_chars(start, end, text);
                None
            },
            Backend::Nvim(c) => {
                let from = byte_pos(&c.lines, start);
                let to = byte_pos(
                    &c.lines,
                    if end >= start {
                        end
                    } else {
                        start
                    },
                );
                let parts = text::split(text, '\n');
                proof {
                    text::lemma_split_nonempty(text@, '\n');
                }
                let n = parts.len() - 1;
                assert(views(parts@).last() == parts@[n as int]@);
                let last = parts[n].as_str().len();
                let cursor = if n == 0 {
                    (from.0, from.1.saturating_add(last))
                } else {
                    (from.0.saturating_add(n), last)
                };
                Some(NvimMove::Replace { from, to, text: text.to_owned(), cursor })
            },
        }
    }

    /// Visual selection for rendering: (kind, anchor, cursor) in char coords.
    pub fn visual(&self) -> (r: Option<(ModeKind, (usize, usize), (usize, usize))>)
        ensures
            r == self@.visual(),
    {
        match self {
            Backend::Builtin(_) => None,
            Backend::Nvim(c) => {
                let k = c.mode_kind();
                if k == ModeKind::Visual || k == ModeKind::VisualLine || k
                    == ModeKind::VisualBlock {
                    Some((k, c.anchor, c.cursor))
                } else {
                    None
                }
            },
        }
    }

    /// Command line being typed inside nvim (`:`/`/`/`?` + content), if any.
    pub fn cmdline(&self) -> (r: Option<String>)
        ensures
            opt_view(r) == self@.cmdline(),
    {
        match self {
            Backend::Builtin(_) => None,
            Backend::Nvim(c) => if !c.cmdline.as_str().is_empty() {
                Some(c.cmdline.clone())
            } else {
                None
            },
        }
    }

    /// Status message from the backend (nvim closed a foreign window).
    pub fn take_notice(&mut self) -> (r: Option<String>)
        ensures
            opt_view(r) == old(self)@.notice(),
            final(self)@ == old(self)@.unnoticed(),
    {
        match self {
            Backend::Builtin(_) => None,
            Backend::Nvim(c) => {
                let n = text::clone_opt(&c.notice);
                c.notice = None;
                n
            },
        }
    }

    /// `:w` inside the cell fired (BufWriteCmd): commit without exiting.
    pub fn take_write_request(&mut self) -> (r: bool)
        ensures
            r == old(self)@.write_requested(),
            final(self)@ == old(self)@.write_taken(),
    {
        match self {
            Backend::Builtin(_) => false,
            Backend::Nvim(c) => {
                let w = c.write_requested;
                c.write_requested = false;
                w
            },
        }
    }

    /// Quit intent from inside nvim (`:q`, `:wq`, `ZZ`, ...): leave the cell.
    /// `Some(true)` = discard the edit (`:q!`, `ZQ`) instead of committing.
    pub fn take_quit_request(&mut self) -> (r: Option<bool>)
        ensures
            r == old(self)@.quit_request(),
            final(self)@ == old(self)@.quit_taken(),
    {
        match self {
            Backend::Builtin(_) => None,
            Backend::Nvim(c) => {
                let q = c.quit_requested;
                c.quit_requested = 0;
                if q == 1 {
                    Some(false)
                } else if q == 2 {
                    Some(true)
                } else {
                    None
                }
            },
        }
    }
}

/// Char offset into the joined source -> (0-based row, byte col).
pub fn byte_pos(lines: &Vec<String>, offset: usize) -> (r: (usize, usize))
    requires
        lines@.len() > 0,
    ensures
        r == byte_position(views(lines@), offset as int),
{
    let ghost all = views(lines@);
    let mut left: usize = offset;
    let mut row: usize = 0;
    while row < lines.len() - 1 && left > lines[row].as_str().unicode_len()
        invariant
            row < lines@.len(),
            all == views(lines@),
            locate(all, 0, offset as int) == locate(all, row as int, left as int),
        decreases lines@.len() - row,
    {
        assert(all[row as int] == lines@[row as int]@);
        left = left - lines[row].as_str().unicode_len() - 1;
        row += 1;
    }
    assert(all[row as int] == lines@[row as int]@);
    (row, editor::bidx(lines[row].as_str(), left))
}

} // verus!
