//! What the keys of the builtin editor are for: where they put the cursor and
//! what they leave of the text.

#[allow(unused_imports)]
use vstd::prelude::*;

#[allow(unused_imports)]
use crate::editor::{
    class_end, class_start, space_back, space_end, word_char, EditorView, Mode, Outcome,
};
#[allow(unused_imports)]
use crate::keys::{KeyCode, KeyEvent};
#[allow(unused_imports)]
use crate::text::{unicode_alphanumeric, unicode_whitespace};

verus! {

/// An editor that waits for a command.
pub open spec fn ready(e: EditorView) -> bool {
    e.wf() && e.mode == Mode::Normal && e.pending is None
}

/// An editor that takes text.
pub open spec fn typing(e: EditorView) -> bool {
    e.wf() && e.mode == Mode::Insert
}

/// The text and everything else but the cursor and the mode are as before.
pub open spec fn only_moved(e: EditorView, f: EditorView) -> bool {
    &&& f.lines == e.lines
    &&& f.yank == e.yank
    &&& f.pending == e.pending
    &&& f.mode == e.mode
    &&& f.undo == e.undo
    &&& f.redo == e.redo
}

// ---------------------------------------------------------------------------
// Words
// ---------------------------------------------------------------------------

/// Kinds of characters: blanks, those of names, and the rest.
pub enum Kind {
    Blank,
    Name,
    Sign,
}

pub open spec fn kind(c: char) -> Kind {
    if unicode_whitespace(c) {
        Kind::Blank
    } else if unicode_alphanumeric(c) || c == '_' {
        Kind::Name
    } else {
        Kind::Sign
    }
}

/// A word starts at `j`: a character that is no blank, after one of another
/// kind or none.
pub open spec fn word_starts(s: Seq<char>, j: int) -> bool {
    0 <= j < s.len() && kind(s[j]) != Kind::Blank && (j == 0 || kind(s[j - 1]) != kind(s[j]))
}

/// A word ends at `j`: a character that is no blank, before one of another
/// kind or none.
pub open spec fn word_ends(s: Seq<char>, j: int) -> bool {
    0 <= j < s.len() && kind(s[j]) != Kind::Blank && (j == s.len() - 1 || kind(s[j + 1]) != kind(
        s[j],
    ))
}

proof fn lemma_space_back(s: Seq<char>, i: int)
    requires
        0 <= i < s.len(),
    ensures
        0 <= space_back(s, i) <= i,
        forall|k: int| space_back(s, i) < k <= i ==> kind(#[trigger] s[k]) == Kind::Blank,
        space_back(s, i) > 0 ==> kind(s[space_back(s, i)]) != Kind::Blank,
    decreases i,
{
    if 0 < i && unicode_whitespace(s[i]) {
        lemma_space_back(s, i - 1);
    }
}

proof fn lemma_class_start(s: Seq<char>, i: int, at: int)
    requires
        0 <= i <= at < s.len(),
        kind(s[at]) != Kind::Blank,
        forall|k: int| i <= k <= at ==> kind(#[trigger] s[k]) == kind(s[at]),
    ensures
        ({
            let r = class_start(s, i, word_char(s[at]));
            &&& 0 <= r <= i
            &&& forall|k: int| r <= k <= at ==> kind(#[trigger] s[k]) == kind(s[at])
            &&& r == 0 || kind(s[r - 1]) != kind(s[at])
        }),
    decreases i,
{
    if 0 < i && word_char(s[i - 1]) == word_char(s[at]) && !unicode_whitespace(s[i - 1]) {
        assert(kind(s[i - 1]) == kind(s[at]));
        lemma_class_start(s, i - 1, at);
    }
}

proof fn lemma_class_end(s: Seq<char>, i: int, at: int)
    requires
        0 <= at <= i <= s.len(),
        at < s.len(),
        kind(s[at]) != Kind::Blank,
        forall|k: int| at <= k < i ==> kind(#[trigger] s[k]) == kind(s[at]),
    ensures
        ({
            let r = class_end(s, i, word_char(s[at]));
            &&& i <= r <= s.len()
            &&& forall|k: int| at <= k < r ==> kind(#[trigger] s[k]) == kind(s[at])
            &&& r == s.len() || kind(s[r]) != kind(s[at])
        }),
    decreases s.len() - i,
{
    if i < s.len() && word_char(s[i]) == word_char(s[at]) && !unicode_whitespace(s[i]) {
        assert(kind(s[i]) == kind(s[at]));
        lemma_class_end(s, i + 1, at);
    }
}

proof fn lemma_space_end(s: Seq<char>, i: int)
    requires
        0 <= i <= s.len(),
    ensures
        i <= space_end(s, i) <= s.len(),
        forall|k: int| i <= k < space_end(s, i) ==> kind(#[trigger] s[k]) == Kind::Blank,
        space_end(s, i) < s.len() ==> kind(s[space_end(s, i)]) != Kind::Blank,
    decreases s.len() - i,
{
    if i < s.len() && unicode_whitespace(s[i]) {
        lemma_space_end(s, i + 1);
    }
}

/// `b` goes back to the nearest start of a word before the cursor; where only
/// blanks are before it, to the start of the line.
pub proof fn law_b_goes_to_a_word_start(e: EditorView, key: KeyEvent)
    requires
        ready(e),
        key.code == KeyCode::Char('b'),
        e.col > 0,
    ensures
        ({
            let f = e.keyed(key);
            let s = e.lines[e.row];
            &&& only_moved(e, f)
            &&& f.row == e.row
            &&& 0 <= f.col < e.col
            &&& forall|j: int| f.col < j < e.col ==> !#[trigger] word_starts(s, j)
            &&& word_starts(s, f.col) || f.col == 0
            &&& (exists|k: int| 0 <= k < e.col && kind(#[trigger] s[k]) != Kind::Blank)
                ==> word_starts(s, f.col)
        }),
{
    let s = e.lines[e.row];
    let i = space_back(s, e.col - 1);
    lemma_space_back(s, e.col - 1);
    let f = e.keyed(key);
    if kind(s[i]) != Kind::Blank {
        lemma_class_start(s, i, i);
        assert(kind(s[f.col]) == kind(s[i]));
        assert forall|j: int| f.col < j < e.col implies !#[trigger] word_starts(s, j) by {
            if j <= i {
                assert(kind(s[j]) == kind(s[i]) && kind(s[j - 1]) == kind(s[i]));
            } else {
                assert(kind(s[j]) == Kind::Blank);
            }
        }
    } else {
        assert(i == 0);
        assert forall|k: int| 0 <= k < e.col implies kind(#[trigger] s[k]) == Kind::Blank by {}
    }
}

/// `b` at the start of a line goes to the last character of the line above.
pub proof fn law_b_goes_to_the_line_above(e: EditorView, key: KeyEvent)
    requires
        ready(e),
        key.code == KeyCode::Char('b'),
        e.col == 0,
    ensures
        only_moved(e, e.keyed(key)),
        e.row == 0 ==> e.keyed(key).row == 0 && e.keyed(key).col == 0,
        e.row > 0 ==> e.keyed(key).row == e.row - 1 && e.keyed(key).col == (if e.lines[e.row
            - 1].len() > 0 {
            e.lines[e.row - 1].len() - 1
        } else {
            0
        }),
{
}

/// `w` goes to the nearest start of a word after the cursor; where the line
/// has none, to the first character of the next line that is no blank; on the
/// last line, to its last character.
pub proof fn law_w_goes_to_a_word_start(e: EditorView, key: KeyEvent)
    requires
        ready(e),
        key.code == KeyCode::Char('w'),
    ensures
        ({
            let f = e.keyed(key);
            let s = e.lines[e.row];
            &&& only_moved(e, f)
            &&& forall|j: int|
                e.col < j < s.len() && (f.row != e.row || j < f.col) ==> !#[trigger] word_starts(
                    s,
                    j,
                )
            &&& f.row == e.row ==> word_starts(s, f.col) && f.col > e.col || {
                &&& e.row == e.lines.len() - 1
                &&& f.col == (if s.len() > 0 {
                    s.len() - 1
                } else {
                    0
                })
                &&& forall|j: int| e.col < j < s.len() ==> !#[trigger] word_starts(s, j)
            }
            &&& f.row != e.row ==> f.row == e.row + 1 && {
                let t = e.lines[e.row + 1];
                &&& forall|k: int| 0 <= k < f.col ==> kind(#[trigger] t[k]) == Kind::Blank
                &&& kind(t[f.col]) != Kind::Blank || f.col == 0
            }
        }),
{
    let s = e.lines[e.row];
    let f = e.keyed(key);
    let run = if e.col < s.len() {
        class_end(s, e.col, word_char(s[e.col]))
    } else {
        e.col
    };
    if e.col < s.len() {
        if kind(s[e.col]) != Kind::Blank {
            lemma_class_end(s, e.col, e.col);
        } else {
            assert(run == e.col);
        }
    }
    let i = space_end(s, run);
    lemma_space_end(s, run);
    assert forall|j: int| e.col < j < s.len() && j < i implies !#[trigger] word_starts(s, j) by {
        if j < run {
            assert(kind(s[j]) == kind(s[e.col]) && kind(s[j - 1]) == kind(s[e.col]));
        } else {
            assert(kind(s[j]) == Kind::Blank);
        }
    }
    if i < s.len() {
        assert(i > e.col);
        if i == run {
            assert(kind(s[i - 1]) == kind(s[e.col]));
        } else {
            assert(kind(s[i - 1]) == Kind::Blank);
        }
        assert(word_starts(s, i));
    } else if e.row + 1 < e.lines.len() {
        lemma_space_end(e.lines[e.row + 1], 0);
    }
}

/// `e` goes to the nearest end of a word after the cursor; where the line has
/// none, to its last character.
pub proof fn law_e_goes_to_a_word_end(e: EditorView, key: KeyEvent)
    requires
        ready(e),
        key.code == KeyCode::Char('e'),
    ensures
        ({
            let f = e.keyed(key);
            let s = e.lines[e.row];
            &&& only_moved(e, f)
            &&& f.row == e.row
            &&& forall|j: int| e.col < j < f.col ==> !#[trigger] word_ends(s, j)
            &&& word_ends(s, f.col) && f.col > e.col || {
                &&& f.col == (if s.len() > 0 {
                    s.len() - 1
                } else {
                    0
                })
                &&& forall|j: int| e.col < j < s.len() ==> !#[trigger] word_ends(s, j)
            }
        }),
{
    let s = e.lines[e.row];
    let f = e.keyed(key);
    let from = if e.col + 1 <= s.len() {
        e.col + 1
    } else {
        s.len() as int
    };
    let i = space_end(s, from);
    lemma_space_end(s, from);
    if i < s.len() {
        lemma_class_end(s, i + 1, i);
        let r = class_end(s, i + 1, word_char(s[i]));
        assert(kind(s[r - 1]) == kind(s[i]));
        assert(word_ends(s, r - 1));
        assert forall|j: int| e.col < j < r - 1 implies !#[trigger] word_ends(s, j) by {
            if j < i {
                assert(kind(s[j]) == Kind::Blank);
            } else {
                assert(kind(s[j]) == kind(s[i]) && kind(s[j + 1]) == kind(s[i]));
            }
        }
    } else {
        assert forall|j: int| e.col < j < s.len() implies !#[trigger] word_ends(s, j) by {
            assert(kind(s[j]) == Kind::Blank);
        }
    }
}

// ---------------------------------------------------------------------------
// Other motions
// ---------------------------------------------------------------------------

/// `h` and the left arrow go one column back, `l` and the right arrow one on,
/// within the line.
pub proof fn law_h_and_l_go_by_columns(e: EditorView, key: KeyEvent)
    requires
        ready(e),
    ensures
        key.code == KeyCode::Char('h') || key.code == KeyCode::Left ==> {
            let f = e.keyed(key);
            &&& only_moved(e, f)
            &&& f.row == e.row
            &&& f.col == (if e.col > 0 {
                e.col - 1
            } else {
                0
            })
        },
        key.code == KeyCode::Char('l') || key.code == KeyCode::Right ==> {
            let f = e.keyed(key);
            &&& only_moved(e, f)
            &&& f.row == e.row
            &&& f.col == (if e.col + 1 < e.lines[e.row].len() {
                e.col + 1
            } else {
                e.col
            })
        },
{
}

/// `j` and the down arrow go one line down, `k` and the up arrow one up, within
/// the text and the line that is reached.
pub proof fn law_j_and_k_go_by_lines(e: EditorView, key: KeyEvent)
    requires
        ready(e),
    ensures
        key.code == KeyCode::Char('j') || key.code == KeyCode::Down ==> {
            let f = e.keyed(key);
            &&& only_moved(e, f)
            &&& f.row == (if e.row + 1 < e.lines.len() {
                e.row + 1
            } else {
                e.row
            })
            &&& f.col == e.col || f.col < e.col && f.col == last_col(e.lines[f.row])
        },
        key.code == KeyCode::Char('k') || key.code == KeyCode::Up ==> {
            let f = e.keyed(key);
            &&& only_moved(e, f)
            &&& f.row == (if e.row > 0 {
                e.row - 1
            } else {
                0
            })
            &&& f.col == e.col || f.col < e.col && f.col == last_col(e.lines[f.row])
        },
{
}

/// The column of a line's last character.
pub open spec fn last_col(s: Seq<char>) -> int {
    if s.len() > 0 {
        s.len() - 1
    } else {
        0
    }
}

/// `0` goes to the start of the line, `$` to its last character, `^` to the
/// first that is no blank.
pub proof fn law_line_motions(e: EditorView, key: KeyEvent)
    requires
        ready(e),
    ensures
        key.code == KeyCode::Char('0') || key.code == KeyCode::Char('$') || key.code
            == KeyCode::Char('^') ==> only_moved(e, e.keyed(key)) && e.keyed(key).row == e.row,
        key.code == KeyCode::Char('0') ==> e.keyed(key).col == 0,
        key.code == KeyCode::Char('$') ==> e.keyed(key).col == last_col(e.lines[e.row]),
        key.code == KeyCode::Char('^') ==> {
            let c = e.keyed(key).col;
            let s = e.lines[e.row];
            ||| 0 <= c < s.len() && kind(s[c]) != Kind::Blank && forall|k: int|
                0 <= k < c ==> kind(#[trigger] s[k]) == Kind::Blank
            ||| c == 0 && forall|k: int| 0 <= k < s.len() ==> kind(#[trigger] s[k]) == Kind::Blank
        },
{
    lemma_space_end(e.lines[e.row], 0);
}

/// `gg` goes to the first line, `G` to the last one.
pub proof fn law_g_goes_to_the_ends(e: EditorView, g: KeyEvent, g2: KeyEvent, last: KeyEvent)
    requires
        ready(e),
        g.code == KeyCode::Char('g'),
        g2.code == KeyCode::Char('g'),
        last.code == KeyCode::Char('G'),
    ensures
        ({
            let f = e.keyed(g).keyed(g2);
            only_moved(e, f) && f.row == 0 && f.col == 0
        }),
        ({
            let f = e.keyed(last);
            only_moved(e, f) && f.row == e.lines.len() - 1 && (f.col == e.col || f.col < e.col
                && f.col == last_col(e.lines[f.row]))
        }),
{
}

// ---------------------------------------------------------------------------
// Changes
// ---------------------------------------------------------------------------

/// `i`, `a`, `I` and `A` start typing: before the cursor, after it, at the start
/// of the line, at its end. The text stays.
pub proof fn law_typing_starts(e: EditorView, key: KeyEvent)
    requires
        ready(e),
        key.code == KeyCode::Char('i') || key.code == KeyCode::Char('a') || key.code
            == KeyCode::Char('I') || key.code == KeyCode::Char('A'),
    ensures
        ({
            let f = e.keyed(key);
            let n = e.lines[e.row].len() as int;
            &&& f.mode == Mode::Insert
            &&& f.lines == e.lines
            &&& f.yank == e.yank
            &&& f.row == e.row
            &&& key.code == KeyCode::Char('i') ==> f.col == e.col
            &&& key.code == KeyCode::Char('a') ==> f.col == (if n > 0 {
                e.col + 1
            } else {
                0
            })
            &&& key.code == KeyCode::Char('I') ==> f.col == 0
            &&& key.code == KeyCode::Char('A') ==> f.col == n
        }),
{
}

/// `o` opens an empty line below the cursor's, `O` one above it, and typing
/// starts there; the other lines stay.
pub proof fn law_lines_are_opened(e: EditorView, key: KeyEvent)
    requires
        ready(e),
        key.code == KeyCode::Char('o') || key.code == KeyCode::Char('O'),
    ensures
        ({
            let f = e.keyed(key);
            let at = if key.code == KeyCode::Char('o') {
                e.row + 1
            } else {
                e.row
            };
            &&& f.mode == Mode::Insert
            &&& f.row == at && f.col == 0
            &&& f.lines.len() == e.lines.len() + 1
            &&& f.lines[at].len() == 0
            &&& forall|k: int| 0 <= k < at ==> #[trigger] f.lines[k] == e.lines[k]
            &&& forall|k: int| at < k < f.lines.len() ==> #[trigger] f.lines[k] == e.lines[k - 1]
            &&& f.yank == e.yank
        }),
{
}

/// Esc ends typing: the text stays, the cursor steps back to a character.
pub proof fn law_esc_ends_typing(e: EditorView, key: KeyEvent)
    requires
        typing(e),
        key.code == KeyCode::Esc,
    ensures
        e.keyed(key).mode == Mode::Normal,
        e.keyed(key).lines == e.lines,
        e.keyed(key).row == e.row,
        e.keyed(key).col == (if e.col > 0 {
            e.col - 1
        } else {
            0
        }),
        e.outcome(key) == Outcome::Continue,
{
}

/// A typed character stands where the cursor was, the cursor after it; nothing
/// else changes.
pub proof fn law_a_typed_character_is_put_in(e: EditorView, key: KeyEvent)
    requires
        typing(e),
        key.code is Char,
    ensures
        ({
            let f = e.keyed(key);
            let (s, t) = (e.lines[e.row], f.lines[e.row]);
            &&& f.mode == Mode::Insert
            &&& f.row == e.row && f.col == e.col + 1
            &&& f.lines.len() == e.lines.len()
            &&& forall|k: int|
                0 <= k < e.lines.len() && k != e.row ==> #[trigger] f.lines[k] == e.lines[k]
            &&& t.len() == s.len() + 1
            &&& t[e.col] == key.code->Char_0
            &&& forall|k: int| 0 <= k < e.col ==> #[trigger] t[k] == s[k]
            &&& forall|k: int| e.col < k < t.len() ==> #[trigger] t[k] == s[k - 1]
            &&& f.yank == e.yank
        }),
{
}

/// Enter breaks the line at the cursor, Tab puts in four blanks.
pub proof fn law_enter_and_tab(e: EditorView, key: KeyEvent)
    requires
        typing(e),
    ensures
        key.code == KeyCode::Enter && !key.modifiers.shift && !key.modifiers.control ==> {
            let f = e.keyed(key);
            &&& f.row == e.row + 1 && f.col == 0
            &&& f.lines.len() == e.lines.len() + 1
            &&& f.lines[e.row] + f.lines[e.row + 1] == e.lines[e.row]
            &&& f.lines[e.row].len() == e.col
            &&& forall|k: int| 0 <= k < e.row ==> #[trigger] f.lines[k] == e.lines[k]
            &&& forall|k: int|
                e.row + 1 < k < f.lines.len() ==> #[trigger] f.lines[k] == e.lines[k - 1]
        },
        key.code == KeyCode::Tab ==> {
            let f = e.keyed(key);
            let (s, t) = (e.lines[e.row], f.lines[e.row]);
            &&& f.row == e.row && f.col == e.col + 4
            &&& t.len() == s.len() + 4
            &&& forall|k: int| 0 <= k < e.col ==> #[trigger] t[k] == s[k]
            &&& forall|k: int| e.col <= k < e.col + 4 ==> #[trigger] t[k] == ' '
            &&& forall|k: int| e.col + 4 <= k < t.len() ==> #[trigger] t[k] == s[k - 4]
            &&& forall|k: int|
                0 <= k < e.lines.len() && k != e.row ==> #[trigger] f.lines[k] == e.lines[k]
        },
{
    if key.code == KeyCode::Enter && !key.modifiers.shift && !key.modifiers.control {
        let f = e.keyed(key);
        assert(f.lines[e.row] == e.lines[e.row].take(e.col));
        assert(f.lines[e.row + 1] == e.lines[e.row].skip(e.col));
        assert(f.lines[e.row] + f.lines[e.row + 1] =~= e.lines[e.row]);
    }
}

/// Backspace removes the character before the cursor; at the start of a line
/// the line goes on with the one above.
pub proof fn law_backspace_removes(e: EditorView, key: KeyEvent)
    requires
        typing(e),
        key.code == KeyCode::Backspace,
    ensures
        e.col > 0 ==> {
            let f = e.keyed(key);
            &&& f.row == e.row && f.col == e.col - 1
            &&& f.lines == e.lines.update(e.row, e.lines[e.row].remove(e.col - 1))
        },
        e.col == 0 && e.row > 0 ==> {
            let f = e.keyed(key);
            &&& f.row == e.row - 1 && f.col == e.lines[e.row - 1].len()
            &&& f.lines.len() == e.lines.len() - 1
            &&& f.lines[e.row - 1] == e.lines[e.row - 1] + e.lines[e.row]
            &&& forall|k: int| 0 <= k < e.row - 1 ==> #[trigger] f.lines[k] == e.lines[k]
            &&& forall|k: int| e.row <= k < f.lines.len() ==> #[trigger] f.lines[k] == e.lines[k
                + 1]
        },
        e.col == 0 && e.row == 0 ==> e.keyed(key) == e,
{
}

/// The arrow keys move while typing too.
pub proof fn law_arrows_move_while_typing(e: EditorView, key: KeyEvent)
    requires
        typing(e),
    ensures
        key.code == KeyCode::Left ==> only_moved(e, e.keyed(key)) && e.keyed(key).row == e.row
            && e.keyed(key).col == (if e.col > 0 {
            e.col - 1
        } else {
            0
        }),
        key.code == KeyCode::Right ==> only_moved(e, e.keyed(key)) && e.keyed(key).row == e.row
            && e.keyed(key).col == (if e.col < e.lines[e.row].len() {
            e.col + 1
        } else {
            e.col
        }),
        key.code == KeyCode::Up ==> only_moved(e, e.keyed(key)) && e.keyed(key).row == (if e.row
            > 0 {
            e.row - 1
        } else {
            0
        }),
        key.code == KeyCode::Down ==> only_moved(e, e.keyed(key)) && e.keyed(key).row == (if e.row
            + 1 < e.lines.len() {
            e.row + 1
        } else {
            e.row
        }),
{
}

/// `x` removes the character under the cursor, `D` the rest of the line; the
/// other lines stay.
pub proof fn law_x_and_d_cut_the_line(e: EditorView, key: KeyEvent)
    requires
        ready(e),
    ensures
        key.code == KeyCode::Char('x') && e.lines[e.row].len() > 0 ==> {
            let f = e.keyed(key);
            &&& f.lines == e.lines.update(e.row, e.lines[e.row].remove(e.col))
            &&& f.row == e.row
            &&& f.mode == Mode::Normal
            &&& f.col == e.col || f.col == e.col - 1 && e.col == e.lines[e.row].len() - 1
        },
        key.code == KeyCode::Char('x') && e.lines[e.row].len() == 0 ==> e.keyed(key) == e,
        key.code == KeyCode::Char('D') ==> {
            let f = e.keyed(key);
            &&& f.lines == e.lines.update(e.row, e.lines[e.row].take(e.col))
            &&& f.row == e.row
            &&& f.mode == Mode::Normal
            &&& f.col == last_col(f.lines[e.row])
        },
{
}

/// `dd` takes the line out and keeps it for pasting; the only line is emptied.
pub proof fn law_dd_takes_the_line(e: EditorView, d: KeyEvent, d2: KeyEvent)
    requires
        ready(e),
        d.code == KeyCode::Char('d'),
        d2.code == KeyCode::Char('d'),
    ensures
        ({
            let f = e.keyed(d).keyed(d2);
            &&& f.yank == seq![e.lines[e.row]]
            &&& f.mode == Mode::Normal
            &&& f.pending is None
            &&& e.lines.len() > 1 ==> f.lines == e.lines.remove(e.row) && f.row == (if e.row
                < e.lines.len() - 1 {
                e.row
            } else {
                e.row - 1
            })
            &&& e.lines.len() == 1 ==> f.lines.len() == 1 && f.lines[0].len() == 0 && f.row == 0
        }),
        e.keyed(d).lines == e.lines,
{
}

/// `yy` keeps the line for pasting and changes nothing else.
pub proof fn law_yy_keeps_the_line(e: EditorView, y: KeyEvent, y2: KeyEvent)
    requires
        ready(e),
        y.code == KeyCode::Char('y'),
        y2.code == KeyCode::Char('y'),
    ensures
        e.keyed(y).keyed(y2) == (EditorView { yank: seq![e.lines[e.row]], ..e }),
{
}

/// `p` puts what was kept below the cursor's line, `P` above it.
pub proof fn law_paste_puts_lines_in(e: EditorView, key: KeyEvent)
    requires
        ready(e),
        key.code == KeyCode::Char('p') || key.code == KeyCode::Char('P'),
        e.yank.len() > 0,
    ensures
        ({
            let f = e.keyed(key);
            let n = e.yank.len() as int;
            let at = if key.code == KeyCode::Char('p') {
                e.row + 1
            } else {
                e.row
            };
            &&& f.row == at && f.col == 0
            &&& f.yank == e.yank
            &&& f.lines.len() == e.lines.len() + n
            &&& forall|k: int| 0 <= k < at ==> #[trigger] f.lines[k] == e.lines[k]
            &&& forall|k: int| at <= k < at + n ==> #[trigger] f.lines[k] == e.yank[k - at]
            &&& forall|k: int| at + n <= k < f.lines.len() ==> #[trigger] f.lines[k] == e.lines[k
                - n]
        }),
{
}

/// Every change made from normal mode can be undone: what was there is on top
/// of the history, up to its limit.
pub proof fn law_changes_are_recorded(e: EditorView, key: KeyEvent)
    requires
        ready(e),
        e.keyed(key).lines != e.lines,
        key.code != KeyCode::Char('u'),
        !(key.code == KeyCode::Char('r') && key.modifiers.control),
    ensures
        e.keyed(key).undo.len() > 0,
        e.keyed(key).undo.last().lines == e.lines,
        e.keyed(key).redo.len() == 0,
{
}

/// Esc in normal mode leaves the editor; Shift+Enter and Ctrl+Enter run the
/// cell, with Shift the next one is selected; any other key goes on editing.
pub proof fn law_what_leaves_the_editor(e: EditorView, key: KeyEvent)
    requires
        e.wf(),
    ensures
        key.code == KeyCode::Enter && key.modifiers.shift ==> e.outcome(key) == (Outcome::Run {
            advance: true,
        }),
        key.code == KeyCode::Enter && key.modifiers.control && !key.modifiers.shift ==> e.outcome(
            key,
        ) == (Outcome::Run { advance: false }),
        key.code == KeyCode::Esc ==> (e.outcome(key) == Outcome::Exit <==> e.mode == Mode::Normal
            && e.pending is None),
        key.code != KeyCode::Esc && key.code != KeyCode::Enter ==> e.outcome(key)
            == Outcome::Continue,
        e.outcome(key) == Outcome::Continue || e.keyed(key).lines == e.lines,
{
}

} // verus!
