//! The modal cell editor: a vi subset over a buffer of lines.

use vstd::prelude::*;

use crate::keys::{KeyCode, KeyEvent};
use crate::text;
#[allow(unused_imports)]
use crate::text::{byte_len, first, join, split_on, unicode_alphanumeric, unicode_whitespace, views};

verus! {

/// Snapshots kept for undo and redo.
pub const HISTORY: usize = 100;

#[derive(Clone, Copy, Debug, PartialEq, Eq, Structural)]
pub enum Mode {
    Normal,
    Insert,
}

/// What a key asks of the caller.
#[derive(Clone, Copy, Debug, PartialEq, Eq, Structural)]
pub enum Outcome {
    Continue,
    /// Esc in normal mode: commit the buffer back to the cell.
    Exit,
    /// Shift+Enter / Ctrl+Enter: commit and run the cell (advance on `true`).
    Run { advance: bool },
}

/// The buffer and the cursor at one moment.
pub struct Snapshot {
    pub lines: Vec<String>,
    pub cursor: (usize, usize),
}

/// Model of a `Snapshot`.
#[verifier::ext_equal]
pub struct SnapshotView {
    pub lines: Seq<Seq<char>>,
    pub row: int,
    pub col: int,
}

impl View for Snapshot {
    type V = SnapshotView;

    open spec fn view(&self) -> SnapshotView {
        SnapshotView {
            lines: views(self.lines@),
            row: self.cursor.0 as int,
            col: self.cursor.1 as int,
        }
    }
}

pub struct Editor {
    pub lines: Vec<String>,
    /// (row, col) in characters.
    pub cursor: (usize, usize),
    pub mode: Mode,
    pub yank: Vec<String>,
    pub pending: Option<char>,
    pub undo: Vec<Snapshot>,
    pub redo: Vec<Snapshot>,
}

/// Model of an `Editor`.
#[verifier::ext_equal]
pub struct EditorView {
    pub lines: Seq<Seq<char>>,
    pub row: int,
    pub col: int,
    pub mode: Mode,
    pub yank: Seq<Seq<char>>,
    pub pending: Option<char>,
    pub undo: Seq<SnapshotView>,
    pub redo: Seq<SnapshotView>,
}

impl View for Editor {
    type V = EditorView;

    open spec fn view(&self) -> EditorView {
        EditorView {
            lines: views(self.lines@),
            row: self.cursor.0 as int,
            col: self.cursor.1 as int,
            mode: self.mode,
            yank: views(self.yank@),
            pending: self.pending,
            undo: views(self.undo@),
            redo: views(self.redo@),
        }
    }
}

/// A cursor that lies in the buffer, at most one past the end of its line.
pub open spec fn cursor_in(lines: Seq<Seq<char>>, row: int, col: int) -> bool {
    0 <= row < lines.len() && 0 <= col <= lines[row].len()
}

impl SnapshotView {
    pub open spec fn wf(self) -> bool {
        cursor_in(self.lines, self.row, self.col)
    }
}

pub open spec fn smaller(a: int, b: int) -> int {
    if a <= b {
        a
    } else {
        b
    }
}

pub open spec fn less_one(a: int) -> int {
    if a > 0 {
        a - 1
    } else {
        0
    }
}

/// A letter, digit or underscore.
pub open spec fn word_char(c: char) -> bool {
    unicode_alphanumeric(c) || c == '_'
}

/// The end of the run of characters of word class `w` that starts at `i`.
pub open spec fn class_end(s: Seq<char>, i: int, w: bool) -> int
    decreases s.len() - i,
{
    if 0 <= i < s.len() && word_char(s[i]) == w && !unicode_whitespace(s[i]) {
        class_end(s, i + 1, w)
    } else {
        i
    }
}

/// The end of the run of whitespace that starts at `i`.
pub open spec fn space_end(s: Seq<char>, i: int) -> int
    decreases s.len() - i,
{
    if 0 <= i < s.len() && unicode_whitespace(s[i]) {
        space_end(s, i + 1)
    } else {
        i
    }
}

/// Back from `i` over whitespace, no further than 0.
pub open spec fn space_back(s: Seq<char>, i: int) -> int
    decreases i,
{
    if 0 < i < s.len() && unicode_whitespace(s[i]) {
        space_back(s, i - 1)
    } else {
        i
    }
}

/// Back from `i` to the start of the run of word class `w`.
pub open spec fn class_start(s: Seq<char>, i: int, w: bool) -> int
    decreases i,
{
    if 0 < i <= s.len() && word_char(s[i - 1]) == w && !unicode_whitespace(s[i - 1]) {
        class_start(s, i - 1, w)
    } else {
        i
    }
}

/// Column of the first character that is not whitespace; 0 if there is none.
pub open spec fn indent_col(s: Seq<char>) -> int {
    if space_end(s, 0) < s.len() {
        space_end(s, 0)
    } else {
        0
    }
}

impl EditorView {
    /// The buffer has a line, the cursor lies in it, and so do those of the
    /// history, which holds a bounded number of snapshots.
    pub open spec fn sound(self) -> bool {
        &&& cursor_in(self.lines, self.row, self.col)
        &&& forall|i: int| 0 <= i < self.undo.len() ==> (#[trigger] self.undo[i]).wf()
        &&& forall|i: int| 0 <= i < self.redo.len() ==> (#[trigger] self.redo[i]).wf()
        &&& self.undo.len() + self.redo.len() <= HISTORY
    }

    /// A sound editor whose cursor is within the columns of its mode.
    pub open spec fn wf(self) -> bool {
        &&& self.sound()
        &&& self.col <= self.max_col()
    }

    pub open spec fn line(self) -> Seq<char> {
        self.lines[self.row]
    }

    /// The whole text: the lines with `\n` between them.
    pub open spec fn source(self) -> Seq<char> {
        join(self.lines, seq!['\n'])
    }

    /// The last column that the cursor may take on its line.
    pub open spec fn max_col(self) -> int {
        match self.mode {
            Mode::Insert => self.line().len() as int,
            Mode::Normal => less_one(self.line().len() as int),
        }
    }

    pub open spec fn at(self, row: int, col: int) -> EditorView {
        EditorView { row, col, ..self }
    }

    pub open spec fn in_mode(self, mode: Mode) -> EditorView {
        EditorView { mode, ..self }
    }

    pub open spec fn with_lines(self, lines: Seq<Seq<char>>) -> EditorView {
        EditorView { lines, ..self }
    }

    pub open spec fn with_line(self, line: Seq<char>) -> EditorView {
        self.with_lines(self.lines.update(self.row, line))
    }

    pub open spec fn clamped(self) -> EditorView {
        self.at(self.row, smaller(self.col, self.max_col()))
    }

    pub open spec fn here(self) -> SnapshotView {
        SnapshotView { lines: self.lines, row: self.row, col: self.col }
    }

    /// The present state is recorded for undo; what could be redone is gone.
    pub open spec fn recorded(self) -> EditorView {
        let all = self.undo.push(self.here());
        EditorView {
            undo: if all.len() > HISTORY {
                all.skip(1)
            } else {
                all
            },
            redo: Seq::empty(),
            ..self
        }
    }

    pub open spec fn row_moved(self, down: bool) -> EditorView {
        let row = if down {
            smaller(self.row + 1, self.lines.len() - 1)
        } else {
            less_one(self.row)
        };
        self.at(row, self.col).clamped()
    }

    /// Insert mode, `offset` columns to the right.
    pub open spec fn inserting(self, offset: int) -> EditorView {
        let e = self.recorded();
        e.at(e.row, smaller(e.col + offset, e.line().len() as int)).in_mode(Mode::Insert)
    }

    /// To the next word, on the next line if this one holds no further word.
    pub open spec fn to_next_word(self) -> EditorView {
        let s = self.line();
        let run = if self.col < s.len() {
            class_end(s, self.col, word_char(s[self.col]))
        } else {
            self.col
        };
        let i = space_end(s, run);
        if i >= s.len() && self.row + 1 < self.lines.len() {
            self.at(self.row + 1, indent_col(self.lines[self.row + 1])).clamped()
        } else {
            self.at(self.row, i).clamped()
        }
    }

    /// To the start of this or the previous word; from column 0 to the end of
    /// the line above.
    pub open spec fn to_word_start(self) -> EditorView {
        let s = self.line();
        if self.col == 0 {
            if self.row > 0 {
                self.at(
                    self.row - 1,
                    less_one(self.lines[self.row - 1].len() as int),
                ).clamped()
            } else {
                self.clamped()
            }
        } else {
            let i = space_back(s, self.col - 1);
            self.at(self.row, class_start(s, i, word_char(s[i])))
        }
    }

    /// To the last character of the next word of the line, or to its end.
    pub open spec fn to_word_end(self) -> EditorView {
        let s = self.line();
        let i = space_end(s, smaller(self.col + 1, s.len() as int));
        if i < s.len() {
            self.at(self.row, class_end(s, i + 1, word_char(s[i])) - 1)
        } else {
            self.at(self.row, self.max_col())
        }
    }

    /// `dd`: the line is yanked and removed; a last line is emptied.
    pub open spec fn line_deleted(self) -> EditorView {
        let e = EditorView { yank: seq![self.line()], ..self.recorded() };
        let lines = if e.lines.len() == 1 {
            seq![Seq::<char>::empty()]
        } else {
            e.lines.remove(e.row)
        };
        e.with_lines(lines).at(smaller(e.row, lines.len() - 1), e.col).clamped()
    }

    /// The yanked lines are put in before line `at`, and the cursor there.
    pub open spec fn pasted(self, at: int) -> EditorView {
        if self.yank.len() == 0 {
            self
        } else {
            let e = self.recorded();
            e.with_lines(e.lines.take(at) + e.yank + e.lines.skip(at)).at(at, 0)
        }
    }

    /// An empty line is opened before line `at`, in insert mode.
    pub open spec fn opened(self, at: int) -> EditorView {
        let e = self.recorded();
        e.with_lines(e.lines.insert(at, Seq::empty())).at(at, 0).in_mode(Mode::Insert)
    }

    /// The last snapshot is back, its column within those of the mode.
    pub open spec fn undone(self) -> EditorView {
        if self.undo.len() == 0 {
            self
        } else {
            let s = self.undo.last();
            EditorView {
                lines: s.lines,
                row: s.row,
                col: s.col,
                undo: self.undo.drop_last(),
                redo: self.redo.push(self.here()),
                ..self
            }.clamped()
        }
    }

    /// What was undone last is back, its column within those of the mode.
    pub open spec fn redone(self) -> EditorView {
        if self.redo.len() == 0 {
            self
        } else {
            let s = self.redo.last();
            EditorView {
                lines: s.lines,
                row: s.row,
                col: s.col,
                redo: self.redo.drop_last(),
                undo: self.undo.push(self.here()),
                ..self
            }.clamped()
        }
    }

    /// A key in insert mode.
    pub open spec fn insert_key(self, code: KeyCode) -> EditorView {
        let (row, col) = (self.row, self.col);
        match code {
            KeyCode::Esc => self.in_mode(Mode::Normal).at(row, less_one(col)).clamped(),
            KeyCode::Enter => self.with_lines(
                self.lines.update(row, self.line().take(col)).insert(
                    row + 1,
                    self.line().skip(col),
                ),
            ).at(row + 1, 0),
            KeyCode::Backspace => if col > 0 {
                self.with_line(self.line().remove(col - 1)).at(row, col - 1)
            } else if row > 0 {
                self.with_lines(
                    self.lines.remove(row).update(row - 1, self.lines[row - 1] + self.line()),
                ).at(row - 1, self.lines[row - 1].len() as int)
            } else {
                self
            },
            KeyCode::Tab => self.with_line(
                self.line().take(col) + seq![' ', ' ', ' ', ' '] + self.line().skip(col),
            ).at(row, col + 4),
            KeyCode::Char(c) => self.with_line(self.line().insert(col, c)).at(row, col + 1),
            KeyCode::Left => self.at(row, less_one(col)),
            KeyCode::Right => self.at(row, smaller(col + 1, self.max_col())),
            KeyCode::Up => self.row_moved(false),
            KeyCode::Down => self.row_moved(true),
            _ => self,
        }
    }

    /// The second key of a chord that began with `first`.
    pub open spec fn chord(self, first: char, code: KeyCode) -> EditorView {
        if first == 'd' && code == KeyCode::Char('d') {
            self.line_deleted()
        } else if first == 'y' && code == KeyCode::Char('y') {
            EditorView { yank: seq![self.line()], ..self }
        } else if first == 'g' && code == KeyCode::Char('g') {
            self.at(0, 0)
        } else {
            self
        }
    }

    /// A character key in normal mode, with no chord begun.
    pub open spec fn command(self, c: char, control: bool) -> EditorView {
        let (row, col) = (self.row, self.col);
        if c == 'd' || c == 'y' || c == 'g' {
            EditorView { pending: Some(c), ..self }
        } else if c == 'h' {
            self.at(row, less_one(col))
        } else if c == 'l' {
            self.at(row, smaller(col + 1, self.max_col()))
        } else if c == 'j' {
            self.row_moved(true)
        } else if c == 'k' {
            self.row_moved(false)
        } else if c == '0' {
            self.at(row, 0)
        } else if c == '$' {
            self.at(row, self.max_col())
        } else if c == '^' {
            self.at(row, indent_col(self.line()))
        } else if c == 'G' {
            self.at(self.lines.len() - 1, col).clamped()
        } else if c == 'w' {
            self.to_next_word()
        } else if c == 'b' {
            self.to_word_start()
        } else if c == 'e' {
            self.to_word_end()
        } else if c == 'i' {
            self.inserting(0)
        } else if c == 'a' {
            self.inserting(1)
        } else if c == 'I' {
            self.at(row, 0).inserting(0)
        } else if c == 'A' {
            self.at(row, self.line().len() as int).recorded().in_mode(Mode::Insert)
        } else if c == 'o' {
            self.opened(row + 1)
        } else if c == 'O' {
            self.opened(row)
        } else if c == 'x' {
            if self.line().len() == 0 {
                self
            } else {
                let e = self.recorded();
                e.with_line(e.line().remove(col)).clamped()
            }
        } else if c == 'D' {
            let e = self.recorded();
            e.with_line(e.line().take(col)).clamped()
        } else if c == 'p' {
            self.pasted(row + 1)
        } else if c == 'P' {
            self.pasted(row)
        } else if c == 'u' {
            self.undone()
        } else if c == 'r' && control {
            self.redone()
        } else {
            self
        }
    }

    /// A key in normal mode.
    pub open spec fn normal_key(self, key: KeyEvent) -> EditorView {
        let e = EditorView { pending: None, ..self };
        match self.pending {
            Some(first) => e.chord(first, key.code),
            None => match key.code {
                KeyCode::Char(c) => e.command(c, key.modifiers.control),
                KeyCode::Left => e.command('h', false),
                KeyCode::Right => e.command('l', false),
                KeyCode::Down => e.command('j', false),
                KeyCode::Up => e.command('k', false),
                _ => e,
            },
        }
    }

    /// Shift+Enter or Ctrl+Enter: runs the cell in either mode.
    pub open spec fn runs(key: KeyEvent) -> bool {
        key.code == KeyCode::Enter && (key.modifiers.shift || key.modifiers.control)
    }

    /// The editor after a key.
    pub open spec fn keyed(self, key: KeyEvent) -> EditorView {
        if Self::runs(key) {
            self
        } else {
            match self.mode {
                Mode::Insert => self.insert_key(key.code),
                Mode::Normal => self.normal_key(key),
            }
        }
    }

    /// What the caller is asked to do after a key.
    pub open spec fn outcome(self, key: KeyEvent) -> Outcome {
        if Self::runs(key) {
            Outcome::Run { advance: key.modifiers.shift }
        } else if self.mode == Mode::Normal && self.pending is None && key.code == KeyCode::Esc {
            Outcome::Exit
        } else {
            Outcome::Continue
        }
    }

    /// The cursor at the end of the last line, in insert mode.
    pub open spec fn appending(self) -> EditorView {
        self.recorded().at(self.lines.len() - 1, self.lines.last().len() as int).in_mode(
            Mode::Insert,
        )
    }

    /// The cursor at a place that was clicked.
    pub open spec fn clicked(self, row: int, col: int, insert: bool) -> EditorView {
        let e = if insert && self.mode == Mode::Normal {
            self.recorded().in_mode(Mode::Insert)
        } else {
            self
        };
        e.at(smaller(row, e.lines.len() - 1), col).clamped()
    }

    /// `new` in place of the characters [start, end) of the source, and the
    /// cursor right after it; in normal mode no further than the last character.
    pub open spec fn spliced(self, start: int, end: int, new: Seq<char>) -> EditorView {
        let src = self.source();
        let head = text::first(src, start) + new;
        let tail = text::after(src, if end >= start {
            end
        } else {
            start
        });
        let before = split_on(head, '\n');
        self.with_lines(split_on(head + tail, '\n')).at(
            before.len() - 1,
            before.last().len() as int,
        ).clamped()
    }
}

fn is_word(c: char) -> (r: bool)
    ensures
        r == word_char(c),
{
    c.is_alphanumeric() || c == '_'
}

/// Number of characters.
fn clen(s: &str) -> (r: usize)
    ensures
        r == s@.len(),
{
    s.unicode_len()
}

fn min(a: usize, b: usize) -> (r: usize)
    ensures
        r == smaller(a as int, b as int),
{
    if a <= b {
        a
    } else {
        b
    }
}

fn dec(a: usize) -> (r: usize)
    ensures
        r == less_one(a as int),
{
    if a > 0 {
        a - 1
    } else {
        0
    }
}

fn run_end(s: &Vec<char>, from: usize, w: bool) -> (r: usize)
    requires
        from <= s@.len(),
    ensures
        r == class_end(s@, from as int, w),
        from <= r <= s@.len(),
{
    let mut i: usize = from;
    while i < s.len() && is_word(s[i]) == w && !s[i].is_whitespace()
        invariant
            from <= i <= s@.len(),
            class_end(s@, from as int, w) == class_end(s@, i as int, w),
        decreases s@.len() - i,
    {
        i += 1;
    }
    i
}

fn skip_space(s: &Vec<char>, from: usize) -> (r: usize)
    requires
        from <= s@.len(),
    ensures
        r == space_end(s@, from as int),
        from <= r <= s@.len(),
{
    let mut i: usize = from;
    while i < s.len() && s[i].is_whitespace()
        invariant
            from <= i <= s@.len(),
            space_end(s@, from as int) == space_end(s@, i as int),
        decreases s@.len() - i,
    {
        i += 1;
    }
    i
}

fn indent(s: &str) -> (r: usize)
    ensures
        r == indent_col(s@),
        r <= s@.len(),
{
    let c = text::chars_of(s);
    let i = skip_space(&c, 0);
    if i < c.len() {
        i
    } else {
        0
    }
}

/// Replacing a line replaces its model.
proof fn lemma_set_line(lines: Seq<String>, i: int, s: String)
    requires
        0 <= i < lines.len(),
    ensures
        views(lines.update(i, s)) == views(lines).update(i, s@),
{
    assert(views(lines.update(i, s)) =~= views(lines).update(i, s@));
}

proof fn lemma_insert_line(lines: Seq<String>, i: int, s: String)
    requires
        0 <= i <= lines.len(),
    ensures
        views(lines.insert(i, s)) == views(lines).insert(i, s@),
{
    assert(views(lines.insert(i, s)) =~= views(lines).insert(i, s@));
}

proof fn lemma_remove_line(lines: Seq<String>, i: int)
    requires
        0 <= i < lines.len(),
    ensures
        views(lines.remove(i)) == views(lines).remove(i),
{
    assert(views(lines.remove(i)) =~= views(lines).remove(i));
}

impl Editor {
    /// The buffer, the cursor and the history are consistent.
    pub open spec fn wf(self) -> bool {
        self@.wf()
    }

    /// An editor on `source`, in normal mode at its start.
    pub fn new(source: &str) -> (r: Self)
        ensures
            r.wf(),
            r@ == (EditorView {
                lines: split_on(source@, '\n'),
                row: 0,
                col: 0,
                mode: Mode::Normal,
                yank: Seq::empty(),
                pending: None,
                undo: Seq::empty(),
                redo: Seq::empty(),
            }),
            r@.source() == source@,
    {
        proof {
            text::lemma_join_split(source@, '\n');
        }
        let r = Editor {
            lines: text::split(source, '\n'),
            cursor: (0, 0),
            mode: Mode::Normal,
            yank: Vec::new(),
            pending: None,
            undo: Vec::new(),
            redo: Vec::new(),
        };
        assert(r@.yank =~= Seq::empty());
        assert(r@.undo =~= Seq::empty());
        assert(r@.redo =~= Seq::empty());
        r
    }

    /// The text of the buffer.
    pub fn source(&self) -> (r: String)
        ensures
            r@ == self@.source(),
    {
        proof {
            reveal_strlit("\n");
            assert("\n"@ =~= seq!['\n']);
        }
        text::join_strings(&self.lines, "\n")
    }

    /// `A` from cell-selection mode: cursor to last line's end, insert mode.
    pub fn append_end(&mut self)
        requires
            old(self).wf(),
        ensures
            final(self).wf(),
            final(self)@ == old(self)@.appending(),
    {
        self.snapshot();
        self.cursor.0 = self.lines.len() - 1;
        self.mode = Mode::Insert;
        self.cursor.1 = clen(self.line());
    }

    /// Mouse click: place the cursor; optionally switch to insert (double click).
    pub fn click(&mut self, row: usize, col: usize, insert: bool)
        requires
            old(self).wf(),
        ensures
            final(self).wf(),
            final(self)@ == old(self)@.clicked(row as int, col as int, insert),
    {
        if insert && self.mode == Mode::Normal {
            self.snapshot();
            self.mode = Mode::Insert;
        }
        self.cursor.0 = min(row, self.lines.len() - 1);
        self.cursor.1 = col;
        self.clamp();
    }

    fn line(&self) -> (r: &str)
        requires
            self.cursor.0 < self.lines@.len(),
        ensures
            r@ == self@.line(),
    {
        self.lines[self.cursor.0].as_str()
    }

    /// Max cursor column on the current line for the current mode.
    fn max_col(&self) -> (r: usize)
        requires
            self.cursor.0 < self.lines@.len(),
        ensures
            r == self@.max_col(),
    {
        let len = clen(self.line());
        match self.mode {
            Mode::Insert => len,
            Mode::Normal => dec(len),
        }
    }

    fn clamp(&mut self)
        requires
            old(self).cursor.0 < old(self).lines@.len(),
        ensures
            final(self)@ == old(self)@.clamped(),
    {
        self.cursor.1 = min(self.cursor.1, self.max_col());
    }

    fn here(&self) -> (r: Snapshot)
        ensures
            r@ == self@.here(),
    {
        Snapshot { lines: text::clone_strings(&self.lines), cursor: self.cursor }
    }

    fn snapshot(&mut self)
        requires
            old(self)@.sound(),
        ensures
            final(self)@.sound(),
            final(self)@ == old(self)@.recorded(),
            final(self).lines == old(self).lines,
    {
        let now = self.here();
        let ghost undo0 = self.undo@;
        self.undo.push(now);
        assert(views(self.undo@) =~= views(undo0).push(now@));
        if self.undo.len() > HISTORY {
            let ghost undo1 = self.undo@;
            let _ = self.undo.remove(0);
            assert(views(self.undo@) =~= views(undo1).skip(1));
        }
        self.redo.clear();
        assert(views(self.redo@) =~= Seq::<SnapshotView>::empty());
    }

    fn set_line(&mut self, row: usize, line: String)
        requires
            row < old(self).lines@.len(),
        ensures
            final(self)@ == old(self)@.with_lines(old(self)@.lines.update(row as int, line@)),
            final(self).lines@.len() == old(self).lines@.len(),
    {
        proof {
            lemma_set_line(self.lines@, row as int, line);
        }
        self.lines[row] = line;
    }

    fn insert_line(&mut self, row: usize, line: String)
        requires
            row <= old(self).lines@.len(),
        ensures
            final(self)@ == old(self)@.with_lines(old(self)@.lines.insert(row as int, line@)),
            final(self).lines@.len() == old(self).lines@.len() + 1,
    {
        proof {
            lemma_insert_line(self.lines@, row as int, line);
        }
        self.lines.insert(row, line);
    }

    fn remove_line(&mut self, row: usize) -> (r: String)
        requires
            row < old(self).lines@.len(),
        ensures
            r@ == old(self)@.lines[row as int],
            final(self)@ == old(self)@.with_lines(old(self)@.lines.remove(row as int)),
            final(self).lines@.len() == old(self).lines@.len() - 1,
    {
        proof {
            lemma_remove_line(self.lines@, row as int);
        }
        self.lines.remove(row)
    }

    /// A key press.
    pub fn input(&mut self, key: KeyEvent) -> (r: Outcome)
        requires
            old(self).wf(),
        ensures
            final(self).wf(),
            final(self)@ == old(self)@.keyed(key),
            r == old(self)@.outcome(key),
    {
        // run bindings work in both modes
        if key.code == KeyCode::Enter && (key.modifiers.shift || key.modifiers.control) {
            return Outcome::Run { advance: key.modifiers.shift };
        }
        match self.mode {
            Mode::Insert => {
                self.input_insert(key);
                Outcome::Continue
            },
            Mode::Normal => self.input_normal(key),
        }
    }

    /// A key in insert mode that runs nothing.
    pub fn input_insert(&mut self, key: KeyEvent)
        requires
            old(self).wf(),
            old(self).mode == Mode::Insert,
        ensures
            final(self).wf(),
            final(self)@ == old(self)@.insert_key(key.code),
    {
        let code = key.code;
        let (row, col) = self.cursor;
        let _n = self.lines.len();
        match code {
            KeyCode::Esc => {
                self.mode = Mode::Normal;
                self.cursor.1 = dec(self.cursor.1);
                self.clamp();
            },
            KeyCode::Enter => {
                let line = self.line();
                let head = text::take(line, col);
                let rest = text::skip(line, col);
                self.set_line(row, head);
                self.insert_line(row + 1, rest);
                self.cursor = (row + 1, 0);
            },
            KeyCode::Backspace => {
                if col > 0 {
                    let line = text::remove_char(self.line(), col - 1);
                    self.set_line(row, line);
                    self.cursor.1 = col - 1;
                } else if row > 0 {
                    let cur = self.remove_line(row);
                    let prev = self.lines[row - 1].as_str();
                    assert(prev@ == self@.lines[row - 1]);
                    let prev_len = clen(prev);
                    let joined = text::concat(prev, cur.as_str());
                    self.set_line(row - 1, joined);
                    self.cursor = (row - 1, prev_len);
                }
            },
            KeyCode::Tab => {
                let line = self.line();
                let head = text::take(line, col);
                let tail = text::skip(line, col);
                proof {
                    reveal_strlit("    ");
                    assert("    "@ =~= seq![' ', ' ', ' ', ' ']);
                }
                let padded = text::concat(head.as_str(), "    ");
                let line = text::concat(padded.as_str(), tail.as_str());
                let _len = clen(line.as_str());
                self.set_line(row, line);
                self.cursor.1 = col + 4;
            },
            KeyCode::Char(c) => {
                let line = text::insert_char(self.line(), col, c);
                let _len = clen(line.as_str());
                self.set_line(row, line);
                self.cursor.1 = col + 1;
            },
            KeyCode::Left => self.cursor.1 = dec(col),
            KeyCode::Right => {
                let max = self.max_col();
                self.cursor.1 = if col < max {
                    col + 1
                } else {
                    max
                };
            },
            KeyCode::Up => self.move_row(false),
            KeyCode::Down => self.move_row(true),
            _ => {},
        }
    }

    fn move_row(&mut self, down: bool)
        requires
            old(self).wf(),
        ensures
            final(self).wf(),
            final(self)@ == old(self)@.row_moved(down),
    {
        if down {
            let last = self.lines.len() - 1;
            if self.cursor.0 < last {
                self.cursor.0 = self.cursor.0 + 1;
            }
        } else {
            self.cursor.0 = dec(self.cursor.0);
        }
        self.clamp();
    }

    /// A key in normal mode that runs nothing.
    pub fn input_normal(&mut self, key: KeyEvent) -> (r: Outcome)
        requires
            old(self).wf(),
            old(self).mode == Mode::Normal,
        ensures
            final(self).wf(),
            final(self)@ == old(self)@.normal_key(key),
            r == (if old(self)@.pending is None && key.code == KeyCode::Esc {
                Outcome::Exit
            } else {
                Outcome::Continue
            }),
    {
        let pending = self.pending.take();
        match pending {
            Some(first) => {
                self.second_key(first, key.code);
                Outcome::Continue
            },
            None => {
                match key.code {
                    KeyCode::Esc => {
                        return Outcome::Exit;
                    },
                    KeyCode::Char(c) => self.normal_char(c, key.modifiers.control),
                    KeyCode::Left => self.normal_char('h', false),
                    KeyCode::Right => self.normal_char('l', false),
                    KeyCode::Down => self.normal_char('j', false),
                    KeyCode::Up => self.normal_char('k', false),
                    _ => {},
                }
                Outcome::Continue
            },
        }
    }

    fn second_key(&mut self, first: char, code: KeyCode)
        requires
            old(self).wf(),
        ensures
            final(self).wf(),
            final(self)@ == old(self)@.chord(first, code),
    {
        if first == 'd' && code == KeyCode::Char('d') {
            self.delete_line();
        } else if first == 'y' && code == KeyCode::Char('y') {
            self.yank_line();
        } else if first == 'g' && code == KeyCode::Char('g') {
            self.cursor = (0, 0);
        }
        // anything else is an unknown combination: swallowed

    }

    fn yank_line(&mut self)
        requires
            old(self).wf(),
        ensures
            final(self).wf(),
            final(self)@ == (EditorView { yank: seq![old(self)@.line()], ..old(self)@ }),
    {
        let line = self.lines[self.cursor.0].clone();
        let mut yank: Vec<String> = Vec::new();
        yank.push(line);
        assert(views(yank@) =~= seq![self@.line()]);
        self.yank = yank;
    }

    fn delete_line(&mut self)
        requires
            old(self).wf(),
        ensures
            final(self).wf(),
            final(self)@ == old(self)@.line_deleted(),
    {
        let row = self.cursor.0;
        self.snapshot();
        self.yank_line();
        if self.lines.len() == 1 {
            self.set_line(0, String::new());
            assert(self@.lines =~= seq![Seq::<char>::empty()]);
        } else {
            let _ = self.remove_line(row);
        }
        self.cursor.0 = min(row, self.lines.len() - 1);
        self.clamp();
    }

    fn paste(&mut self, at: usize)
        requires
            old(self).wf(),
            at <= old(self).lines@.len(),
        ensures
            final(self).wf(),
            final(self)@ == old(self)@.pasted(at as int),
    {
        if self.yank.len() > 0 {
            self.snapshot();
            let ghost e = self@;
            let n = self.yank.len();
            let mut i: usize = 0;
            assert(e.lines =~= e.lines.take(at as int) + e.yank.take(0) + e.lines.skip(at as int));
            while i < n
                invariant
                    i <= n,
                    n == self.yank@.len(),
                    n == e.yank.len(),
                    at <= e.lines.len(),
                    self@ == e.with_lines(
                        e.lines.take(at as int) + e.yank.take(i as int) + e.lines.skip(at as int),
                    ),
                decreases n - i,
            {
                let line = self.yank[i].clone();
                assert(line@ == self@.yank[i as int]);
                assert(self.lines.len() == self@.lines.len());
                self.insert_line(at + i, line);
                i += 1;
                assert(self@.lines =~= e.lines.take(at as int) + e.yank.take(i as int)
                    + e.lines.skip(at as int));
            }
            assert(e.yank.take(n as int) =~= e.yank);
            self.cursor = (at, 0);
        }
    }

    fn open_line(&mut self, at: usize)
        requires
            old(self).wf(),
            at <= old(self).lines@.len(),
        ensures
            final(self).wf(),
            final(self)@ == old(self)@.opened(at as int),
    {
        self.snapshot();
        self.insert_line(at, String::new());
        self.cursor = (at, 0);
        self.mode = Mode::Insert;
    }

    fn normal_char(&mut self, c: char, control: bool)
        requires
            old(self).wf(),
            old(self).mode == Mode::Normal,
        ensures
            final(self).wf(),
            final(self)@ == old(self)@.command(c, control),
    {
        let (row, col) = self.cursor;
        let _n = self.lines.len();
        match c {
            'd' | 'y' | 'g' => self.pending = Some(c),
            'h' => self.cursor.1 = dec(col),
            'l' => {
                let max = self.max_col();
                self.cursor.1 = if col < max {
                    col + 1
                } else {
                    max
                };
            },
            'j' => self.move_row(true),
            'k' => self.move_row(false),
            '0' => self.cursor.1 = 0,
            '$' => self.cursor.1 = self.max_col(),
            '^' => self.cursor.1 = indent(self.line()),
            'G' => {
                self.cursor.0 = self.lines.len() - 1;
                self.clamp();
            },
            'w' => self.word_forward(),
            'b' => self.word_back(),
            'e' => self.word_end(),
            'i' => self.enter_insert(false),
            'a' => self.enter_insert(true),
            'I' => {
                self.cursor.1 = 0;
                self.enter_insert(false);
            },
            'A' => {
                self.cursor.1 = clen(self.line());
                self.snapshot();
                self.mode = Mode::Insert;
            },
            'o' => self.open_line(row + 1),
            'O' => self.open_line(row),
            'x' => {
                if !self.line().is_empty() {
                    self.snapshot();
                    let line = text::remove_char(self.line(), col);
                    self.set_line(row, line);
                    self.clamp();
                }
            },
            'D' => {
                self.snapshot();
                let line = text::take(self.line(), col);
                self.set_line(row, line);
                self.clamp();
            },
            'p' => self.paste(row + 1),
            'P' => self.paste(row),
            'u' => self.undo_once(),
            'r' => {
                if control {
                    self.redo_once();
                }
            },
            _ => {},
        }
    }

    fn undo_once(&mut self)
        requires
            old(self).wf(),
        ensures
            final(self).wf(),
            final(self)@ == old(self)@.undone(),
    {
        let now = self.here();
        let ghost undo0 = self.undo@;
        let ghost redo0 = self.redo@;
        match self.undo.pop() {
            Some(s) => {
                assert(s@ == views(undo0).last());
                assert(views(self.undo@) =~= views(undo0).drop_last());
                self.redo.push(now);
                assert(views(self.redo@) =~= views(redo0).push(now@));
                self.lines = s.lines;
                self.cursor = s.cursor;
                assert(old(self)@.undo[undo0.len() - 1].wf());
                self.clamp();
            },
            None => {},
        }
    }

    fn redo_once(&mut self)
        requires
            old(self).wf(),
        ensures
            final(self).wf(),
            final(self)@ == old(self)@.redone(),
    {
        let now = self.here();
        let ghost undo0 = self.undo@;
        let ghost redo0 = self.redo@;
        match self.redo.pop() {
            Some(s) => {
                assert(s@ == views(redo0).last());
                assert(views(self.redo@) =~= views(redo0).drop_last());
                self.undo.push(now);
                assert(views(self.undo@) =~= views(undo0).push(now@));
                self.lines = s.lines;
                self.cursor = s.cursor;
                assert(old(self)@.redo[redo0.len() - 1].wf());
                self.clamp();
            },
            None => {},
        }
    }

    fn enter_insert(&mut self, next: bool)
        requires
            old(self).wf(),
        ensures
            final(self).wf(),
            final(self)@ == old(self)@.inserting(if next {
                1
            } else {
                0
            }),
    {
        self.snapshot();
        let len = clen(self.line());
        if next && self.cursor.1 < len {
            self.cursor.1 = self.cursor.1 + 1;
        }
        self.mode = Mode::Insert;
    }

    fn word_forward(&mut self)
        requires
            old(self).wf(),
        ensures
            final(self).wf(),
            final(self)@ == old(self)@.to_next_word(),
    {
        let (row, col) = self.cursor;
        let _n = self.lines.len();
        let chars = text::chars_of(self.line());
        // skip current word/punct run, then whitespace
        let mut i: usize = col;
        if i < chars.len() {
            i = run_end(&chars, i, is_word(chars[i]));
        }
        i = skip_space(&chars, i);
        if i >= chars.len() && row + 1 < self.lines.len() {
            let next = indent(self.lines[row + 1].as_str());
            self.cursor = (row + 1, next);
        } else {
            self.cursor = (row, i);
        }
        self.clamp();
    }

    fn word_back(&mut self)
        requires
            old(self).wf(),
        ensures
            final(self).wf(),
            final(self)@ == old(self)@.to_word_start(),
    {
        let (row, col) = self.cursor;
        let _n = self.lines.len();
        if col == 0 {
            if row > 0 {
                let end = dec(clen(self.lines[row - 1].as_str()));
                self.cursor = (row - 1, end);
            }
            self.clamp();
            return;
        }
        let chars = text::chars_of(self.line());
        let mut i: usize = col - 1;
        while i > 0 && chars[i].is_whitespace()
            invariant
                i < chars@.len(),
                i < col,
                space_back(chars@, col - 1) == space_back(chars@, i as int),
            decreases i,
        {
            i -= 1;
        }
        let ghost mid = i;
        let w = is_word(chars[i]);
        while i > 0 && is_word(chars[i - 1]) == w && !chars[i - 1].is_whitespace()
            invariant
                i < chars@.len(),
                i < col,
                class_start(chars@, mid as int, w) == class_start(chars@, i as int, w),
            decreases i,
        {
            i -= 1;
        }
        self.cursor = (row, i);
    }

    fn word_end(&mut self)
        requires
            old(self).wf(),
        ensures
            final(self).wf(),
            final(self)@ == old(self)@.to_word_end(),
    {
        let (row, col) = self.cursor;
        let _n = self.lines.len();
        let chars = text::chars_of(self.line());
        let next = if col < chars.len() {
            col + 1
        } else {
            chars.len()
        };
        let i = skip_space(&chars, next);
        if i < chars.len() {
            let end = run_end(&chars, i + 1, is_word(chars[i]));
            self.cursor = (row, end - 1);
        } else {
            self.cursor.1 = self.max_col();
        }
    }

    /// Replaces the characters [start, end) of the source by `new` and puts
    /// the cursor right after it, or as near as the mode allows.
    pub fn replace_chars(&mut self, start: usize, end: usize, new: &str)
        requires
            old(self).wf(),
        ensures
            final(self).wf(),
            final(self)@ == old(self)@.spliced(start as int, end as int, new@),
    {
        let src = self.source();
        let kept = text::take(src.as_str(), start);
        let head = text::concat(kept.as_str(), new);
        let tail = text::skip(
            src.as_str(),
            if end >= start {
                end
            } else {
                start
            },
        );
        let whole = text::concat(head.as_str(), tail.as_str());
        let before = text::split(head.as_str(), '\n');
        let row = before.len() - 1;
        let col = clen(before[row].as_str());
        proof {
            text::lemma_split_prefix(head@, tail@, '\n');
            assert(views(before@).last() == before@[row as int]@);
        }
        self.lines = text::split(whole.as_str(), '\n');
        self.cursor = (row, col);
        self.clamp();
    }
}

/// Redo takes back an undo: text, cursor and what can still be redone are as
/// before, and so is what can be undone, but for a column of the last snapshot
/// that the undo brought within those of the mode.
pub proof fn law_redo_reverts_undo(e: EditorView)
    requires
        e.wf(),
        e.undo.len() > 0,
    ensures
        e.undone().redone() == (EditorView {
            undo: e.undo.drop_last().push(e.undone().here()),
            ..e
        }),
        e.undone().here() == e.undo.last() ==> e.undone().redone() == e,
{
    let u = e.undone();
    assert(u.redo.last() == e.here());
    assert(u.redo.drop_last() =~= e.redo);
    assert(e.undo.drop_last().push(e.undo.last()) =~= e.undo);
}

/// Undo takes back a redo: text, cursor and what can still be undone are as
/// before, and so is what can be redone, but for a column of the last snapshot
/// that the redo brought within those of the mode.
pub proof fn law_undo_reverts_redo(e: EditorView)
    requires
        e.wf(),
        e.redo.len() > 0,
    ensures
        e.redone().undone() == (EditorView {
            redo: e.redo.drop_last().push(e.redone().here()),
            ..e
        }),
        e.redone().here() == e.redo.last() ==> e.redone().undone() == e,
{
    let r = e.redone();
    assert(r.undo.last() == e.here());
    assert(r.undo.drop_last() =~= e.undo);
    assert(e.redo.drop_last().push(e.redo.last()) =~= e.redo);
}

/// A key that takes a change back, in normal mode.
pub open spec fn undo_key(key: KeyEvent) -> bool {
    key.code == KeyCode::Char('u')
}

/// A key that makes a change again, in normal mode.
pub open spec fn redo_key(key: KeyEvent) -> bool {
    key.code == KeyCode::Char('r') && key.modifiers.control
}

/// `u` after a change made in normal mode (`x`, `D`, `p`, `P`) gives back the
/// text and the cursor from before it, and Ctrl+r those from after it.
pub proof fn law_undo_restores_a_change(e: EditorView, key: KeyEvent, u: KeyEvent, r: KeyEvent)
    requires
        e.wf(),
        e.mode == Mode::Normal,
        e.pending is None,
        key.code == KeyCode::Char('x') || key.code == KeyCode::Char('D') || key.code
            == KeyCode::Char('p') || key.code == KeyCode::Char('P'),
        e.keyed(key).lines != e.lines,
        undo_key(u),
        redo_key(r),
    ensures
        e.keyed(key).keyed(u).here() == e.here(),
        e.keyed(key).keyed(u).keyed(r).here() == e.keyed(key).here(),
{
    assert(e.recorded().undo.last() == e.here());
    assert(e.keyed(key).keyed(u).redo.last() == e.keyed(key).here());
}

/// `u` after `dd` gives back the text and the cursor from before it, and
/// Ctrl+r those from after it.
pub proof fn law_undo_restores_a_deleted_line(
    e: EditorView,
    d: KeyEvent,
    d2: KeyEvent,
    u: KeyEvent,
    r: KeyEvent,
)
    requires
        e.wf(),
        e.mode == Mode::Normal,
        e.pending is None,
        d.code == KeyCode::Char('d'),
        d2.code == KeyCode::Char('d'),
        undo_key(u),
        redo_key(r),
    ensures
        e.keyed(d).keyed(d2).keyed(u).here() == e.here(),
        e.keyed(d).keyed(d2).keyed(u).keyed(r).here() == e.keyed(d).keyed(d2).here(),
{
    assert(e.recorded().undo.last() == e.here());
    assert(e.keyed(d).keyed(d2) == e.line_deleted());
    assert(e.line_deleted().keyed(u).redo.last() == e.line_deleted().here());
}

/// `u` after a line opened with `o` or `O` and left with Esc gives back the
/// text and the cursor from before it.
pub proof fn law_undo_closes_an_opened_line(
    e: EditorView,
    key: KeyEvent,
    esc: KeyEvent,
    u: KeyEvent,
)
    requires
        e.wf(),
        e.mode == Mode::Normal,
        e.pending is None,
        key.code == KeyCode::Char('o') || key.code == KeyCode::Char('O'),
        esc.code == KeyCode::Esc,
        undo_key(u),
    ensures
        e.keyed(key).keyed(esc).keyed(u).here() == e.here(),
{
    assert(e.recorded().undo.last() == e.here());
}

/// `dd` followed by `P` gives the text back, unless the line was the only
/// one, or the last one.
pub proof fn law_paste_brings_back_a_deleted_line(e: EditorView)
    requires
        e.wf(),
        e.row + 1 < e.lines.len(),
    ensures
        e.line_deleted().pasted(e.line_deleted().row).lines == e.lines,
{
    let d = e.line_deleted();
    assert(d.row == e.row);
    assert(d.lines.take(d.row) + d.yank + d.lines.skip(d.row) =~= e.lines);
}

/// Backspace takes back the character just typed.
pub proof fn law_backspace_reverts_typing(e: EditorView, key: KeyEvent, back: KeyEvent)
    requires
        e.wf(),
        e.mode == Mode::Insert,
        key.code is Char,
        back.code == KeyCode::Backspace,
    ensures
        e.keyed(key).keyed(back) == e,
{
    let c = key.code->Char_0;
    let t = e.keyed(key);
    assert(t.line() == e.line().insert(e.col, c));
    assert(t.line().remove(e.col) =~= e.line());
    assert(t.lines.update(e.row, e.line()) =~= e.lines);
}

/// Backspace takes back the line break just typed.
pub proof fn law_backspace_reverts_a_line_break(e: EditorView, key: KeyEvent, back: KeyEvent)
    requires
        e.wf(),
        e.mode == Mode::Insert,
        key.code == KeyCode::Enter,
        !EditorView::runs(key),
        back.code == KeyCode::Backspace,
    ensures
        e.keyed(key).keyed(back) == e,
{
    let t = e.keyed(key);
    assert(t.lines[e.row] == e.line().take(e.col));
    assert(t.line() == e.line().skip(e.col));
    assert(t.lines[e.row] + t.line() =~= e.line());
    assert(t.lines.remove(e.row + 1).update(e.row, e.line()) =~= e.lines);
}

/// A key that runs the cell or leaves it changes neither text nor cursor.
pub proof fn law_leaving_keeps_the_text(e: EditorView, key: KeyEvent)
    requires
        e.outcome(key) != Outcome::Continue,
    ensures
        e.keyed(key).here() == e.here(),
        e.keyed(key).source() == e.source(),
{
}

/// Byte index of the character at `ci`, or of the end.
pub fn bidx(s: &str, ci: usize) -> (r: usize)
    ensures
        r == byte_len(first(s@, ci as int)),
{
    text::take(s, ci).as_str().len()
}

} // verus!
