//! What is asked of nvim, and what its answers mean.

#[allow(unused_imports)]
use vstd::prelude::*;

#[allow(unused_imports)]
use crate::nvim::{mode_of, ModeKind, NvimMoveView, NvimView};
#[allow(unused_imports)]
use crate::rpc::{holds_lines, lines_in, Reply, RequestView, TalkNextView, TalkStageView, Value};
#[allow(unused_imports)]
use crate::text::split_on;

verus! {

/// A replacement puts the text in, line by line, between the two places, then
/// the cursor behind it, and reads the cell again. A click puts the cursor on
/// its place, and types `i` where it is to insert. Keys are typed as they are.
pub proof fn law_moves_are_asked_of_nvim(
    c: NvimView,
    from: (usize, usize),
    to: (usize, usize),
    text: Seq<char>,
    cursor: (usize, usize),
    row: usize,
    byte: usize,
    v: Value,
)
    requires
        cursor.0 < usize::MAX,
        row < usize::MAX,
    ensures
        ({
            let (ask, stage) = (NvimMoveView::Replace { from, to, text, cursor }).first_request();
            let (next, d) = c.talked(stage, Reply::Value(v));
            &&& ask == (RequestView::SetText { from, to, lines: split_on(text, '\n') })
            &&& d == c
            &&& next matches TalkNextView::Ask(then, moving) && {
                &&& then == (RequestView::SetCursor {
                    row: (cursor.0 + 1) as usize,
                    col: cursor.1,
                })
                &&& c.talked(moving, Reply::Value(v)).0 matches TalkNextView::Ask(
                    RequestView::Eval(_),
                    TalkStageView::Reading,
                )
            }
        }),
        ({
            let (ask, stage) = (NvimMoveView::Click { row, byte, insert: true }).first_request();
            &&& ask == (RequestView::SetCursor { row: (row + 1) as usize, col: byte })
            &&& c.talked(stage, Reply::Value(v)).0 matches TalkNextView::Ask(
                RequestView::Input(keys),
                TalkStageView::Typing,
            ) && keys == seq!['i']
        }),
        ({
            let (ask, stage) = (NvimMoveView::Click { row, byte, insert: false }).first_request();
            &&& ask == (RequestView::SetCursor { row: (row + 1) as usize, col: byte })
            &&& c.talked(stage, Reply::Value(v)).0 matches TalkNextView::Ask(
                RequestView::Eval(_),
                TalkStageView::Reading,
            )
        }),
        NvimMoveView::Keys(text).first_request().0 == RequestView::Input(text),
{
    reveal_strlit("i");
    assert("i"@ =~= seq!['i']);
}

/// A state of the cell's own buffer is taken over: its lines, all of them and
/// in order, its mode, and the cursor on its line.
pub proof fn law_a_state_is_read(c: NvimView, v: Value, lines: Seq<Seq<char>>, mode: Seq<char>)
    requires
        v matches Value::Array(a) && a@.len() >= 7 && holds_lines(a@[0], lines)
            && a@[2].str_of() == Some(mode) && a@[a@.len() - 2].uint_of() == Some(c.bufnr)
            && a@.last().str_of() == Some(Seq::<char>::empty()),
        lines.len() > 0,
    ensures
        ({
            let (next, d) = c.talked(TalkStageView::Reading, Reply::Value(v));
            &&& next == TalkNextView::Done
            &&& d.lines == lines
            &&& d.mode == mode
            &&& d.bufnr == c.bufnr
            &&& d.write_requested == c.write_requested
            &&& d.cursor.0 < lines.len() || lines.len() > usize::MAX
        }),
{
    let a = v->Array_0@;
    assert(lines_in(a[0]->Array_0@) =~= lines);
    let (next, d) = c.talked(TalkStageView::Reading, Reply::Value(v));
    assert(d.lines == lines);
}

/// An answer that is no list, or too short, is an error, and the cell stays.
pub proof fn law_a_bad_state_is_refused(c: NvimView)
    ensures
        c.talked(TalkStageView::Reading, Reply::Value(Value::Nil)).0 is Failed,
        c.talked(TalkStageView::Reading, Reply::Value(Value::Nil)).1 == c,
{
}

/// nvim's modes by their letters.
pub proof fn law_modes_by_letter(rest: Seq<char>)
    ensures
        mode_of(seq!['i'] + rest) == ModeKind::Insert,
        mode_of(seq!['R'] + rest) == ModeKind::Replace,
        mode_of(seq!['v'] + rest) == ModeKind::Visual,
        mode_of(seq!['V'] + rest) == ModeKind::VisualLine,
        mode_of(seq!['\x16'] + rest) == ModeKind::VisualBlock,
        mode_of(seq!['c'] + rest) == ModeKind::Cmdline,
        mode_of(seq!['n']) == ModeKind::Normal,
        mode_of(seq!['n', 'o'] + rest) == ModeKind::Pending,
{
    reveal_strlit("no");
    assert("no"@ =~= seq!['n', 'o']);
    assert((seq!['n', 'o'] + rest).subrange(0, 2) =~= "no"@);
    assert forall|c: char| c != 'n' implies !#[trigger] crate::text::has_prefix(
        seq![c] + rest,
        "no"@,
    ) by {
        if crate::text::has_prefix(seq![c] + rest, "no"@) {
            assert((seq![c] + rest).subrange(0, 2)[0] == c);
        }
    }
}

} // verus!
