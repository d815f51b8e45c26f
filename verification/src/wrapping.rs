//! Where long lines are broken, and where offsets and keys go in nvim.

#[allow(unused_imports)]
use vstd::prelude::*;

#[allow(unused_imports)]
use crate::keys::{no_modifiers, KeyCode, KeyEvent, KeyModifiers};
#[allow(unused_imports)]
use crate::nvim::{key_notation, locate};
#[allow(unused_imports)]
use crate::wrap::{breakable, last_space, row_end, row_of, row_starts};

verus! {

proof fn lemma_last_space(chars: Seq<char>, s: int, k: int)
    requires
        0 <= s <= k <= chars.len(),
    ensures
        match last_space(chars, Seq::empty(), s, k) {
            Some(e) => s < e <= k && chars[e - 1] == ' ' && forall|i: int|
                e <= i < k ==> #[trigger] chars[i] != ' ',
            None => forall|i: int| s <= i < k ==> #[trigger] chars[i] != ' ',
        },
    decreases k - s,
{
    if k > s {
        lemma_last_space(chars, s, k - 1);
    }
}

/// A line that fits is one row. One that does not is broken behind the last
/// blank that fits, and only where there is none, at the edge; so no word that
/// fits is cut.
pub proof fn law_lines_break_at_blanks(chars: Seq<char>, w: int, s: int)
    requires
        0 <= s < chars.len(),
        w > 0,
    ensures
        ({
            let e = row_end(chars, Seq::empty(), w, s);
            let n = chars.len() as int;
            &&& n - s <= w ==> e == n
            &&& n - s > w ==> s < e <= s + w
            &&& n - s > w && (exists|i: int| s <= i < s + w && #[trigger] chars[i] == ' ')
                ==> chars[e - 1] == ' ' && forall|i: int| e <= i < s + w ==> #[trigger] chars[i]
                != ' '
            &&& n - s > w && (forall|i: int| s <= i < s + w ==> #[trigger] chars[i] != ' ') ==> e
                == s + w
        }),
{
    if chars.len() - s > w {
        lemma_last_space(chars, s, s + w);
        assert(breakable(Seq::<(usize, usize)>::empty(), s + w));
    }
}

/// The rows of a line follow one another without gap: each starts where the
/// one before it ends.
pub proof fn law_rows_follow_one_another(
    chars: Seq<char>,
    held: Seq<(usize, usize)>,
    w: int,
    s: int,
    k: int,
)
    requires
        0 <= s <= chars.len() <= usize::MAX,
        0 <= k < row_starts(chars, held, w, s).len(),
    ensures
        ({
            let starts = row_starts(chars, held, w, s);
            &&& starts[0] == s
            &&& k + 1 < starts.len() ==> starts[k + 1] == row_end(chars, held, w, starts[k] as int)
        }),
    decreases chars.len() - s,
{
    let e = row_end(chars, held, w, s);
    if s < e && e < chars.len() {
        let rest = row_starts(chars, held, w, e);
        if k > 0 {
            law_rows_follow_one_another(chars, held, w, e, k - 1);
        } else {
            lemma_first_start(chars, held, w, e);
        }
    }
}

proof fn lemma_first_start(chars: Seq<char>, held: Seq<(usize, usize)>, w: int, s: int)
    requires
        0 <= s <= chars.len() <= usize::MAX,
    ensures
        row_starts(chars, held, w, s).len() > 0,
        row_starts(chars, held, w, s)[0] == s,
{
}

/// A column is on the last row that starts at or before it.
pub proof fn law_a_column_is_on_its_row(starts: Seq<usize>, col: int)
    requires
        starts.len() > 0,
        starts[0] == 0,
        col >= 0,
    ensures
        ({
            let r = row_of(starts, col);
            &&& 0 <= r < starts.len()
            &&& starts[r] <= col
            &&& forall|k: int| r < k < starts.len() ==> #[trigger] starts[k] > col
        }),
    decreases starts.len(),
{
    if starts.len() > 1 && starts.last() > col {
        let d = starts.drop_last();
        law_a_column_is_on_its_row(d, col);
        let r = row_of(d, col);
        assert forall|k: int| r < k < starts.len() implies #[trigger] starts[k] > col by {
            if k < d.len() {
                assert(d[k] == starts[k]);
            }
        }
    }
}

/// The characters of the lines before a row, each with a line break.
pub open spec fn before(lines: Seq<Seq<char>>, row: int) -> int
    decreases row,
{
    if row <= 0 {
        0
    } else {
        before(lines, row - 1) + lines[row - 1].len() + 1
    }
}

proof fn lemma_locate(lines: Seq<Seq<char>>, row: int, left: int)
    requires
        0 <= row < lines.len(),
        left >= 0,
    ensures
        ({
            let (r, l) = locate(lines, row, left);
            &&& row <= r < lines.len()
            &&& l >= 0
            &&& before(lines, r) + l == before(lines, row) + left
            &&& r + 1 < lines.len() ==> l <= lines[r].len()
        }),
    decreases lines.len() - row,
{
    if !(row + 1 >= lines.len() || left <= lines[row].len()) {
        lemma_locate(lines, row + 1, left - lines[row].len() - 1);
    }
}

/// An offset into a text is found on the line and the column where as many
/// characters, line breaks with them, stand before it.
pub proof fn law_offsets_are_located(lines: Seq<Seq<char>>, offset: int)
    requires
        lines.len() > 0,
        offset >= 0,
    ensures
        ({
            let (row, col) = locate(lines, 0, offset);
            &&& 0 <= row < lines.len()
            &&& before(lines, row) + col == offset
            &&& 0 <= col
            &&& offset <= before(lines, lines.len() - 1) + lines.last().len() ==> col
                <= lines[row].len()
        }),
{
    lemma_locate(lines, 0, offset);
}

/// nvim gets a plain character as it is, a blank and `<` by their names, and
/// with Ctrl in angle brackets; Enter, Esc and the others by name.
pub proof fn law_keys_are_named_for_nvim(c: char)
    ensures
        c != ' ' && c != '<' ==> key_notation(
            KeyEvent { code: KeyCode::Char(c), modifiers: no_modifiers() },
        ) == Some(seq![c]),
        key_notation(KeyEvent { code: KeyCode::Char('<'), modifiers: no_modifiers() }) == Some(
            seq!['<', 'l', 't', '>'],
        ),
        key_notation(KeyEvent { code: KeyCode::Char(' '), modifiers: no_modifiers() }) == Some(
            seq!['<', 'S', 'p', 'a', 'c', 'e', '>'],
        ),
        c != ' ' && c != '<' ==> key_notation(
            KeyEvent {
                code: KeyCode::Char(c),
                modifiers: KeyModifiers { control: true, ..no_modifiers() },
            },
        ) == Some(seq!['<', 'C', '-', c, '>']),
        key_notation(KeyEvent { code: KeyCode::Enter, modifiers: no_modifiers() }) == Some(
            seq!['<', 'C', 'R', '>'],
        ),
        key_notation(KeyEvent { code: KeyCode::Esc, modifiers: no_modifiers() }) == Some(
            seq!['<', 'E', 's', 'c', '>'],
        ),
        key_notation(KeyEvent { code: KeyCode::Backspace, modifiers: no_modifiers() }) == Some(
            seq!['<', 'B', 'S', '>'],
        ),
        key_notation(KeyEvent { code: KeyCode::Left, modifiers: no_modifiers() }) == Some(
            seq!['<', 'L', 'e', 'f', 't', '>'],
        ),
        key_notation(KeyEvent { code: KeyCode::Right, modifiers: no_modifiers() }) == Some(
            seq!['<', 'R', 'i', 'g', 'h', 't', '>'],
        ),
        key_notation(KeyEvent { code: KeyCode::Up, modifiers: no_modifiers() }) == Some(
            seq!['<', 'U', 'p', '>'],
        ),
        key_notation(KeyEvent { code: KeyCode::Down, modifiers: no_modifiers() }) == Some(
            seq!['<', 'D', 'o', 'w', 'n', '>'],
        ),
{
    reveal_strlit("<");
    reveal_strlit(">");
    reveal_strlit("lt");
    reveal_strlit("Space");
    reveal_strlit("C-");
    reveal_strlit("");
    reveal_strlit("CR");
    reveal_strlit("Esc");
    reveal_strlit("BS");
    reveal_strlit("Left");
    reveal_strlit("Right");
    reveal_strlit("Up");
    reveal_strlit("Down");
    let none = no_modifiers();
    let n = |code: KeyCode| key_notation(KeyEvent { code, modifiers: none })->Some_0;
    assert(n(KeyCode::Char('<')) =~= seq!['<', 'l', 't', '>']);
    assert(n(KeyCode::Char(' ')) =~= seq!['<', 'S', 'p', 'a', 'c', 'e', '>']);
    assert(n(KeyCode::Enter) =~= seq!['<', 'C', 'R', '>']);
    assert(n(KeyCode::Esc) =~= seq!['<', 'E', 's', 'c', '>']);
    assert(n(KeyCode::Backspace) =~= seq!['<', 'B', 'S', '>']);
    assert(n(KeyCode::Left) =~= seq!['<', 'L', 'e', 'f', 't', '>']);
    assert(n(KeyCode::Right) =~= seq!['<', 'R', 'i', 'g', 'h', 't', '>']);
    assert(n(KeyCode::Up) =~= seq!['<', 'U', 'p', '>']);
    assert(n(KeyCode::Down) =~= seq!['<', 'D', 'o', 'w', 'n', '>']);
    if c != ' ' && c != '<' {
        let k = KeyEvent {
            code: KeyCode::Char(c),
            modifiers: KeyModifiers { control: true, ..no_modifiers() },
        };
        assert(key_notation(k)->Some_0 =~= seq!['<', 'C', '-', c, '>']);
    }
}

} // verus!
