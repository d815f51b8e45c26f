//! The builtin modal editor and the nvim backend.

use jotter::editor::{bidx, Editor, Outcome};
use jotter::keys::{KeyCode, KeyEvent, KeyModifiers};
use jotter::nvim::{byte_pos, key_to_nvim, Backend, ModeKind, NvimCell, NvimMove, Reaction};
use jotter::rpc::{
    begin, classify, nvim_args, pos_to_rc, set_up, Incoming, NvimSession, OpenNext, OpenStage,
    Request, TalkNext, TalkStage, Value,
};

fn key(c: char) -> KeyEvent {
    KeyEvent::new(KeyCode::Char(c), KeyModifiers::none())
}

fn code(c: KeyCode) -> KeyEvent {
    KeyEvent::new(c, KeyModifiers::none())
}

const NONE: KeyModifiers =
    KeyModifiers { shift: false, control: false, alt: false, other: false };
const SHIFT: KeyModifiers =
    KeyModifiers { shift: true, control: false, alt: false, other: false };
const CONTROL: KeyModifiers =
    KeyModifiers { shift: false, control: true, alt: false, other: false };
const ALT: KeyModifiers = KeyModifiers { shift: false, control: false, alt: true, other: false };

#[test]
fn insert_and_exit() {
    let mut e = Editor::new("ab");
    e.input(key('i'));
    e.input(key('x'));
    e.input(code(KeyCode::Esc));
    assert_eq!(e.source(), "xab");
    assert!(matches!(e.input(code(KeyCode::Esc)), Outcome::Exit));
}

#[test]
fn undo_and_redo_keep_the_cursor_in_its_columns() {
    let mut e = Editor::new("ab");
    for k in [key('A'), code(KeyCode::Esc), key('u')] {
        e.input(k);
    }
    assert_eq!(e.cursor, (0, 1));
    e.input(key('x'));
    assert_eq!((e.source().as_str(), e.cursor), ("a", (0, 0)));
    e.input(key('u'));
    assert_eq!((e.source().as_str(), e.cursor), ("ab", (0, 1)));
    e.input(KeyEvent::new(KeyCode::Char('r'), CONTROL));
    assert_eq!((e.source().as_str(), e.cursor), ("a", (0, 0)));
}

#[test]
fn dd_p_undo() {
    let mut e = Editor::new("one\ntwo\nthree");
    e.input(key('j'));
    e.input(key('d'));
    e.input(key('d')); // delete "two"
    assert_eq!(e.source(), "one\nthree");
    e.input(key('p')); // paste below
    assert_eq!(e.source(), "one\nthree\ntwo");
    e.input(key('u'));
    e.input(key('u'));
    assert_eq!(e.source(), "one\ntwo\nthree");
}

#[test]
fn open_line_and_words() {
    let mut e = Editor::new("foo bar");
    e.input(key('w'));
    assert_eq!(e.cursor, (0, 4));
    e.input(key('o'));
    e.input(key('z'));
    e.input(code(KeyCode::Esc));
    assert_eq!(e.source(), "foo bar\nz");
}

#[test]
fn shift_enter_runs() {
    let mut e = Editor::new("x");
    let ev = KeyEvent::new(KeyCode::Enter, SHIFT);
    assert!(matches!(e.input(ev), Outcome::Run { advance: true }));
}

#[test]
fn undo_then_redo_restores_the_text() {
    let mut e = Editor::new("abc");
    e.input(key('x'));
    assert_eq!(e.source(), "bc");
    e.input(key('u'));
    assert_eq!(e.source(), "abc");
    e.input(KeyEvent::new(KeyCode::Char('r'), CONTROL));
    assert_eq!(e.source(), "bc");
}

#[test]
fn replacing_characters_puts_the_cursor_after_them() {
    let mut e = Editor::new("hé lo\nx");
    e.replace_chars(1, 4, "ey\nyou");
    assert_eq!(e.source(), "hey\nyouo\nx");
    assert_eq!(e.cursor, (1, 3));
    assert_eq!(bidx("hé!", 2), 3);
    assert_eq!(bidx("hé!", 9), 4);
}

#[test]
fn key_notation_table() {
    let k = |c, m| key_to_nvim(KeyEvent::new(c, m)).unwrap();
    assert_eq!(k(KeyCode::Char('a'), NONE), "a");
    assert_eq!(k(KeyCode::Char('A'), SHIFT), "A"); // shift baked into the char
    assert_eq!(k(KeyCode::Char('<'), NONE), "<lt>");
    assert_eq!(k(KeyCode::Char(' '), NONE), "<Space>");
    assert_eq!(k(KeyCode::Char('r'), CONTROL), "<C-r>");
    assert_eq!(k(KeyCode::Char('x'), ALT), "<M-x>");
    assert_eq!(k(KeyCode::Esc, NONE), "<Esc>");
    assert_eq!(k(KeyCode::Enter, NONE), "<CR>");
    assert_eq!(k(KeyCode::Backspace, NONE), "<BS>");
    assert_eq!(k(KeyCode::BackTab, NONE), "<S-Tab>");
    assert_eq!(k(KeyCode::F(5), NONE), "<F5>");
    let both = KeyModifiers { shift: true, control: true, alt: false, other: false };
    assert_eq!(k(KeyCode::Left, both), "<C-S-Left>");
    assert_eq!(key_to_nvim(KeyEvent::new(KeyCode::Other, NONE)), None);
}

fn text(s: &str) -> Value {
    Value::Str(s.to_string())
}

fn uints(v: &[u64]) -> Value {
    Value::Array(v.iter().map(|n| Value::Uint(*n)).collect())
}

/// nvim's answer to a state query.
fn state(lines: &[&str], cursor: [u64; 4], mode: &str, buf: u64, window: &str) -> Value {
    Value::Array(vec![
        Value::Array(lines.iter().map(|l| text(l)).collect()),
        uints(&cursor),
        text(mode),
        text(""),
        uints(&cursor),
        Value::Uint(buf),
        text(window),
    ])
}

fn ask(n: TalkNext) -> (Request, TalkStage) {
    match n {
        TalkNext::Ask(q, s) => (q, s),
        TalkNext::Done => panic!("done"),
        TalkNext::Failed(e) => panic!("{e}"),
    }
}

#[test]
fn fed_keys_bring_the_state_back() {
    let mut c = NvimCell::fresh(4);
    let (q, s) = NvimCell::feed("dw".to_string());
    assert!(matches!(q, Request::Input(k) if k == "dw"));
    let (q, s) = ask(c.talk(s, Ok(Value::Uint(2))));
    assert!(matches!(q, Request::Eval(e) if e.starts_with("[getbufline(4, 1, '$')")));
    let reply = state(&["één", "two"], [0, 1, 4, 0], "no", 4, "");
    assert!(matches!(c.talk(s, Ok(reply)), TalkNext::Done));
    assert_eq!(c.lines, ["één", "two"]);
    assert_eq!(c.cursor, (0, 2), "columns are bytes in nvim, characters here");
    assert_eq!(c.mode, "no");
    let b = Backend::Nvim(c);
    assert_eq!(b.mode(), ModeKind::Pending);
    assert_eq!(b.source(), "één\ntwo");
}

#[test]
fn a_foreign_window_is_closed_and_the_text_kept() {
    let mut c = NvimCell::fresh(4);
    c.lines = vec!["mine".to_string()];
    let (q, s) = ask(c.talk(TalkStage::Reading, Ok(state(&["PICKER"], [0, 1, 1, 0], "i", 9, "popup"))));
    assert!(matches!(q, Request::Reclaim(4)));
    assert_eq!(c.lines, ["mine"]);
    let (_, s) = ask(c.talk(s, Ok(Value::Nil)));
    assert!(c.notice.is_some());
    let reply = state(&["mine"], [0, 1, 1, 0], "n", 4, "");
    assert!(matches!(c.talk(s, Ok(reply)), TalkNext::Done));
    assert_eq!(c.lines, ["mine"]);
    assert_eq!(c.mode, "n");
}

#[test]
fn a_blocked_nvim_is_probed_and_a_dead_one_given_up() {
    let mut c = NvimCell::fresh(4);
    c.lines = vec!["kept".to_string()];
    let (q, s) = ask(c.talk(TalkStage::Reading, Err("timeout".to_string())));
    assert!(matches!(q, Request::GetMode));
    let mode = Value::Table(vec![text("blocking"), Value::Bool(true), text("mode"), text("r?")]);
    assert!(matches!(c.talk(s, Ok(mode)), TalkNext::Done));
    assert_eq!((c.mode.as_str(), c.lines[0].as_str()), ("r?", "kept"));
    let (_, s) = ask(c.talk(TalkStage::Reading, Err("timeout".to_string())));
    let end = c.talk(s, Err("nvim exited".to_string()));
    assert!(matches!(end, TalkNext::Failed(e) if e == "timeout"), "the first error counts");
}

#[test]
fn unreadable_states_are_errors() {
    let mut c = NvimCell::fresh(1);
    let failed = |c: &mut NvimCell, v: Value| match c.talk(TalkStage::Reading, Ok(v)) {
        TalkNext::Failed(e) => e,
        _ => panic!("accepted"),
    };
    assert_eq!(failed(&mut c, Value::Nil), "bad state reply");
    assert_eq!(failed(&mut c, Value::Array(vec![Value::Nil])), "bad state reply shape");
    let odd = vec![text(""), text(""), text(""), text(""), text(""), Value::Uint(1), text("")];
    assert_eq!(failed(&mut c, Value::Array(odd)), "bad getline reply");
}

#[test]
fn a_new_cell_gets_a_buffer_and_an_old_one_its_text() {
    let mut s = NvimSession::new();
    let (o, q, mut stage) = s.open("id-a".to_string(), "x\ny", "c++");
    assert!(matches!(q, Request::CreateBuf));
    let mut asked = Vec::new();
    let number = loop {
        match s.opening(&o, stage, Ok(Value::Uint(7))) {
            OpenNext::Ask(q, next) => {
                asked.push(match q {
                    Request::Command(c) => c,
                    Request::SetName(0, n) => n,
                    Request::SetLines(0, l) => l.join("|"),
                    Request::Enter(0) => "enter".to_string(),
                    Request::Eval(e) => e,
                    _ => panic!("unexpected"),
                });
                stage = next;
            }
            OpenNext::Ready(n) => break n,
            OpenNext::Failed(e) => panic!("{e}"),
        }
    };
    assert_eq!(number, 7);
    assert_eq!(
        asked,
        [
            "enter",
            "jotter://id-a",
            "setlocal buftype=acwrite undolevels=-1",
            "setlocal filetype=c",
            "x|y",
            "setlocal undolevels< nomodified",
            "bufnr('%')"
        ]
    );
    // the buffer is known now; equal text is left alone
    let (o, q, stage) = s.open("id-a".to_string(), "x\ny", "c");
    assert!(matches!(q, Request::IsValid(0)));
    let OpenNext::Ask(q, stage) = s.opening(&o, stage, Ok(Value::Bool(true))) else { panic!() };
    assert!(matches!(q, Request::Enter(0)));
    let OpenNext::Ask(q, stage) = s.opening(&o, stage, Ok(Value::Nil)) else { panic!() };
    assert!(matches!(q, Request::GetLines(0)));
    let same = Value::Array(vec![text("x"), text("y")]);
    let OpenNext::Ask(q, stage) = s.opening(&o, stage, Ok(same)) else { panic!() };
    assert!(matches!(q, Request::Eval(_)));
    assert!(matches!(s.opening(&o, stage, Ok(Value::Nil)), OpenNext::Failed(e) if e == "bad bufnr reply"));
    let other = Value::Array(vec![text("x"), text("z")]);
    let OpenNext::Ask(q, _) = s.opening(&o, OpenStage::Reading(0), Ok(other)) else { panic!() };
    assert!(matches!(q, Request::SetLines(0, l) if l == ["x", "y"]));
    assert!(matches!(
        s.opening(&o, OpenStage::Numbering, Err("nvim exited".to_string())),
        OpenNext::Failed(e) if e == "nvim exited"
    ));
}

#[test]
fn frames_are_told_apart() {
    let response = |err: Value| Value::Array(vec![Value::Uint(1), Value::Uint(5), err, text("ok")]);
    assert!(matches!(
        classify(response(Value::Nil), String::new()),
        Incoming::Response(5, Ok(Value::Str(s))) if s == "ok"
    ));
    let err = Value::Array(vec![Value::Uint(0), text("E32"), Value::Nil]);
    assert!(matches!(
        classify(response(err), String::new()),
        Incoming::Response(5, Err(e)) if e == "E32"
    ));
    assert!(matches!(
        classify(response(Value::Uint(3)), "3".to_string()),
        Incoming::Response(5, Err(e)) if e == "3"
    ));
    let note = |m: &str| {
        let frame = Value::Array(vec![Value::Uint(2), text(m), Value::Array(vec![])]);
        classify(frame, String::new())
    };
    assert!(matches!(note("jotter_write"), Incoming::Write));
    assert!(matches!(note("jotter_quit"), Incoming::Quit));
    assert!(matches!(note("jotter_bail"), Incoming::Bail));
    assert!(matches!(note("redraw"), Incoming::Nothing));
    assert!(matches!(classify(Value::Nil, String::new()), Incoming::Nothing));
}

#[test]
fn nvim_starts_without_files_and_with_its_hooks() {
    assert_eq!(nvim_args(false), ["--embed", "--headless", "-i", "NONE", "-n", "-u", "NONE"]);
    assert_eq!(nvim_args(true)[5..], ["--cmd", "let g:jotter = 1"]);
    let info = Value::Array(vec![Value::Uint(3), Value::Nil]);
    let Ok(Request::Exec(script)) = set_up(&info, false) else { panic!() };
    assert!(script.starts_with(
        "autocmd BufWriteCmd jotter://* call rpcnotify(3, 'jotter_write') | setlocal nomodified\n"
    ));
    assert!(script.contains("\nset expandtab tabstop=4 shiftwidth=4 softtabstop=4\n"));
    assert!(script.contains(
        "\ncnoreabbrev <expr> wq (getcmdtype() ==# ':' && getcmdline() ==# 'wq') ? 'JotterWq' : 'wq'\n"
    ));
    let Ok(Request::Exec(own)) = set_up(&info, true) else { panic!() };
    assert!(!own.contains("expandtab"));
    assert!(matches!(set_up(&Value::Nil, true), Err(e) if e == "bad nvim_get_api_info reply"));
}

#[test]
fn keys_that_the_host_keeps_from_nvim() {
    let mut cell = NvimCell::fresh(1);
    cell.lines = vec!["abc".to_string()];
    let mut b = Backend::Nvim(cell);
    assert!(matches!(
        b.input(KeyEvent::new(KeyCode::Enter, SHIFT)),
        Reaction::Done(Outcome::Run { advance: true })
    ));
    assert!(matches!(b.input(code(KeyCode::Esc)), Reaction::Done(Outcome::Exit)));
    assert!(matches!(b.input(key('x')), Reaction::Feed(k) if k == "x"));
    if let Backend::Nvim(c) = &mut b {
        c.mode = "i".to_string();
        c.write_requested = true;
        c.quit_requested = 2;
        c.cmdline = ":w".to_string();
    }
    assert!(matches!(b.input(code(KeyCode::Esc)), Reaction::Feed(k) if k == "<Esc>"));
    assert_eq!(b.cmdline().as_deref(), Some(":w"));
    assert!(b.take_write_request() && !b.take_write_request());
    assert_eq!(b.take_quit_request(), Some(true));
    assert_eq!(b.take_quit_request(), None);
}

#[test]
fn moves_speak_in_bytes() {
    let lines = vec!["né".to_string(), "xy".to_string()];
    assert_eq!(byte_pos(&lines, 2), (0, 3));
    assert_eq!(byte_pos(&lines, 4), (1, 1));
    let mut c = NvimCell::fresh(1);
    c.lines = lines.clone();
    let mut b = Backend::Nvim(c);
    let m = b.replace_range(1, 2, "a\nbé").unwrap();
    match m {
        NvimMove::Replace { from, to, ref text, cursor } => {
            assert_eq!((from, to, text.as_str(), cursor), ((0, 1), (0, 3), "a\nbé", (1, 3)));
        }
        _ => panic!(),
    }
    let (q, s) = begin(m);
    assert!(matches!(q, Request::SetText { from: (0, 1), to: (0, 3), lines } if lines == ["a", "bé"]));
    let mut c = NvimCell::fresh(1);
    let (q, _) = ask(c.talk(s, Ok(Value::Nil)));
    assert!(matches!(q, Request::SetCursor { row: 2, col: 3 }));
    let (q, s) = begin(b.click(9, 1, true).unwrap());
    assert!(matches!(q, Request::SetCursor { row: 2, col: 1 }));
    // a click's own failure does not matter
    let (q, _) = ask(c.talk(s, Err("gone".to_string())));
    assert!(matches!(q, Request::Input(k) if k == "i"));
    assert_eq!(pos_to_rc(&lines, &uints(&[0, 9, 2, 0])), (1, 1));
    assert_eq!(pos_to_rc(&lines, &Value::Nil), (0, 0));
}
