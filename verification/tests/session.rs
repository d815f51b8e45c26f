//! The notebook session: runs, events, files and cell operations.

use jotter::app::{
    Action, AfterOpen, AfterSave, App, Confirm, Effect, Hit, HitKind, Moment,
};
use jotter::config;
use jotter::files::Place;
use jotter::json::{Json, Object};
use jotter::kernel::{Event, Interrupt, Kernel};
use jotter::keys::{KeyCode, KeyEvent, KeyModifiers, MouseEvent, MouseKind, Rect};
use jotter::log::Level;
use jotter::notebook::{differing_cells, new_cell_id, Notebook};
use jotter::paths::{age, autosave_path_for, file_name};
use jotter::pictures::Gallery;
use jotter::ui::Rendered;

fn from_value(v: serde_json::Value) -> Json {
    match v {
        serde_json::Value::Null => Json::Null,
        serde_json::Value::Bool(b) => Json::Bool(b),
        serde_json::Value::Number(n) => match n.as_i64() {
            Some(i) => Json::Int(i),
            None => Json::Num(n.to_string()),
        },
        serde_json::Value::String(s) => Json::Str(s),
        serde_json::Value::Array(a) => Json::Arr(a.into_iter().map(from_value).collect()),
        serde_json::Value::Object(m) => Json::Obj(Object {
            entries: m.into_iter().map(|(k, v)| (k, from_value(v))).collect(),
        }),
    }
}

fn json(text: &str) -> Json {
    from_value(serde_json::from_str(text).expect("valid JSON"))
}

fn place() -> Place {
    Place {
        state_dir: Some("/state/jotter".to_string()),
        cwd: "/work".to_string(),
        home: Some("/home/u".to_string()),
        version: "0.1.0".to_string(),
    }
}

fn notebook(text: &str) -> Notebook {
    Notebook::from_json(json(text)).expect("a notebook")
}

fn open(nb: Notebook) -> (App, Rendered) {
    let app = App::open(
        "/work/nb.ipynb".to_string(),
        Some(nb),
        "fresh",
        None,
        Some(1),
        config::get(None),
        place(),
    );
    let rendered = Rendered::build(&app.notebook, "base16-ocean.dark", 15, Gallery::new(None, 18, ""));
    (app, rendered)
}

/// App over a one-code-cell notebook, plus its render cache.
fn one_cell_app() -> (App, Rendered) {
    open(notebook(
        r#"{"cells": [{"cell_type": "code", "id": "c1", "metadata": {}, "execution_count": null,
            "outputs": [], "source": ["x"]}],
            "metadata": {}, "nbformat": 4, "nbformat_minor": 5}"#,
    ))
}

fn moment() -> Moment {
    Moment { now: 0, on_disk: Some(1), target_exists: false, fresh_id: new_cell_id() }
}

fn key(c: char) -> KeyEvent {
    KeyEvent::new(KeyCode::Char(c), KeyModifiers::none())
}

fn press(app: &mut App, r: &mut Rendered, k: KeyEvent) -> Action {
    app.on_key(k, &moment(), r)
}

fn ctrl(c: char) -> KeyEvent {
    KeyEvent::new(
        KeyCode::Char(c),
        KeyModifiers { shift: false, control: true, alt: false, other: false },
    )
}

fn sources(app: &App) -> Vec<&str> {
    app.notebook.cells.iter().map(|c| c.source.as_str()).collect()
}

fn stream(text: &str) -> Json {
    let mut o = json(r#"{"output_type": "stream", "name": "stdout"}"#);
    o.set("text", Json::Str(text.to_string()));
    o
}

fn outputs(app: &App, i: usize) -> usize {
    app.notebook.cells[i].outputs.as_ref().unwrap().len()
}

#[test]
fn runs_during_startup_are_queued_and_dropped_on_launch_failure() {
    let (mut app, mut r) = one_cell_app();
    app.kernel_starting = true;
    app.launch = 3;
    app.run_cell(0, &mut r);
    app.run_cell(0, &mut r);
    assert_eq!(app.deferred, ["c1"], "queued once, by cell id");
    // a stale launch's failure is ignored
    app.apply_kernel_event(Event::LaunchFailed { launch: 2, reason: "old".into() }, 0, &mut r);
    assert_eq!(app.deferred.len(), 1);
    app.apply_kernel_event(Event::LaunchFailed { launch: 3, reason: "boom".into() }, 0, &mut r);
    assert!(app.deferred.is_empty() && !app.kernel_starting);
    assert!(app.message.as_deref().unwrap().contains("1 queued run(s) dropped"));
}

#[test]
fn restart_asks_first_when_a_kernel_could_be_alive() {
    let (mut app, mut r) = one_cell_app();
    app.kernel_starting = true; // as if a kernel were coming up
    press(&mut app, &mut r, key('R'));
    assert!(matches!(app.confirm, Some(Confirm::Restart)));
    press(&mut app, &mut r, key('x'));
    assert!(app.confirm.is_none());
    assert_eq!(app.message.as_deref(), Some("restart cancelled"));
}

#[test]
fn update_display_data_replaces_matching_outputs_everywhere() {
    let (mut app, mut r) = one_cell_app();
    let disp = |v: &str| {
        let mut o = json(
            r#"{"output_type": "display_data", "data": {}, "metadata": {},
                "transient": {"display_id": "d1"}}"#,
        );
        let mut data = Object::new();
        data.insert("text/plain", Json::Str(v.to_string()));
        o.set("data", Json::Obj(data));
        o
    };
    app.notebook.cells[0].push_output(disp("old"));
    let copy = app.notebook.cells[0].duplicate();
    app.notebook.cells.push(copy);
    r.rebuild_all(&app.notebook);
    app.apply_kernel_event(
        Event::UpdateDisplay { display_id: "d1".into(), output: disp("new") },
        0,
        &mut r,
    );
    for c in &app.notebook.cells {
        let out = &c.outputs.as_ref().unwrap()[0];
        assert_eq!(out.get("data").unwrap().str_at("text/plain"), Some("new"));
    }
    assert!(app.dirty);
}

#[test]
fn run_all_follows_the_running_cell_until_manual_movement() {
    let (mut app, mut r) = one_cell_app();
    for _ in 0..2 {
        let copy = app.notebook.cells[0].duplicate();
        app.notebook.cells.push(copy);
    }
    r.rebuild_all(&app.notebook);
    let start = |app: &mut App, r: &mut Rendered, id: &str, idx: usize| {
        app.running.insert(id.into(), idx);
        app.apply_kernel_event(Event::ExecutionCount { parent: id.into(), count: 1 }, 0, r);
    };
    app.follow = true; // as run_range(0..3) sets it
    start(&mut app, &mut r, "m1", 1);
    assert_eq!(app.selected, 1, "selection jumps to the running cell");
    press(&mut app, &mut r, key('k')); // manual movement
    assert!(!app.follow);
    start(&mut app, &mut r, "m2", 2);
    assert_eq!(app.selected, 0, "no more jumping");
    // non-movement keys keep following
    app.follow = true;
    press(&mut app, &mut r, key('o'));
    assert!(app.follow);
}

#[test]
fn space_runs_x_runs_all_ctrl_r_redoes() {
    let (mut app, mut r) = one_cell_app();
    press(&mut app, &mut r, key(' '));
    assert_eq!(app.message.as_deref(), Some("no kernel — R to (re)start one"));
    press(&mut app, &mut r, key('a'));
    press(&mut app, &mut r, key('u'));
    assert_eq!(app.notebook.cells.len(), 1);
    press(&mut app, &mut r, ctrl('r'));
    assert_eq!(app.notebook.cells.len(), 2, "Ctrl+r redoes");
    press(&mut app, &mut r, key('X'));
    assert!(app.follow, "run all follows");
}

#[test]
fn missing_path_opens_a_new_notebook_and_recovery_restores() {
    let mut app = App::open(
        "/work/new.ipynb".to_string(),
        None,
        "fresh",
        None,
        None,
        config::get(None),
        place(),
    );
    assert!(app.effects.is_empty(), "nothing written until w");
    assert_eq!(sources(&app), [""]);
    assert!(app.message.as_deref().unwrap().starts_with("new notebook"));
    let mut r = Rendered::build(&app.notebook, "base16-ocean.dark", 15, Gallery::new(None, 18, ""));
    // recovery prompt: r swaps in the autosaved notebook as a dirty buffer
    let mut saved = app.notebook.duplicate();
    saved.cells[0].source = "unsaved work".into();
    assert_eq!(differing_cells(&saved, &app.notebook), 1);
    app.confirm = Some(Confirm::Recover(saved, "x".into()));
    press(&mut app, &mut r, key('r'));
    assert_eq!(sources(&app), ["unsaved work"]);
    assert!(app.dirty);
}

#[test]
fn autosave_paths_live_in_the_state_dir_keyed_by_absolute_path() {
    let state = Some("/home/u/.local/state/jotter".to_string());
    let p = autosave_path_for("/data/nb/a.ipynb", "/work", &state);
    assert!(p.ends_with("jotter/autosave/%data%nb%a.ipynb"), "{}", p);
    let long = format!("/{}/a.ipynb", "d".repeat(400));
    let name = autosave_path_for(&long, "/work", &state);
    assert!(file_name(&name).unwrap().len() <= 200);
}

#[test]
fn execution_ends_on_reply_and_idle_in_either_order() {
    let (mut app, mut r) = one_cell_app();
    for (first, second) in [
        (Event::Done { parent: "m".into() }, Event::Status { parent: "m".into(), busy: false }),
        (Event::Status { parent: "m".into(), busy: false }, Event::Done { parent: "m".into() }),
    ] {
        app.notebook.cells[0].outputs = Some(Vec::new());
        app.running.insert("m".into(), 0);
        app.apply_kernel_event(first, 0, &mut r);
        // output racing the reply (separate sockets) still lands
        let late = Event::Output { parent: "m".into(), output: stream("late\n") };
        app.apply_kernel_event(late, 0, &mut r);
        assert_eq!(outputs(&app, 0), 1);
        app.apply_kernel_event(second, 0, &mut r);
        assert!(app.running.is_empty() && app.half_done.is_empty());
    }
    // idle of a request we never sent (kernel_info) is ignored
    app.apply_kernel_event(Event::Status { parent: "other".into(), busy: false }, 0, &mut r);
    assert!(app.half_done.is_empty());
}

#[test]
fn non_code_cells_never_receive_kernel_output() {
    let (mut app, mut r) = one_cell_app();
    app.running.insert("m".into(), 0);
    app.toggle_type(&mut r); // code -> markdown mid-run
    app.apply_kernel_event(Event::ExecutionCount { parent: "m".into(), count: 3 }, 0, &mut r);
    app.apply_kernel_event(Event::Output { parent: "m".into(), output: stream("x\n") }, 0, &mut r);
    let cell = &app.notebook.cells[0];
    assert!(cell.outputs.is_none());
    assert!(!cell.extra.contains_key("execution_count"));
}

#[test]
fn wheel_gesture_latches_to_its_initial_target() {
    let text: String = (0..40).map(|i| format!("l{i}")).collect::<Vec<_>>().join("\n");
    let (mut app, mut rendered) = open(notebook(
        r#"{"cells": [{"cell_type": "code", "metadata": {}, "execution_count": null,
            "source": ["x"], "outputs": []}],
            "metadata": {}, "nbformat": 4, "nbformat_minor": 5}"#,
    ));
    app.notebook.cells[0].push_output(stream(&text));
    rendered.rebuild_all(&app.notebook);
    // fake a draw: row 0 is the prompt, rows 1.. are the output viewport
    app.body = Rect { x: 0, y: 0, width: 80, height: 30 };
    app.content_lines = 100;
    app.hit = (0..30)
        .map(|r| Hit { cell: 0, kind: if r == 0 { HitKind::Other } else { HitKind::Output } })
        .collect();
    assert!(rendered.blocks[0].output_scrollable());
    let wheel = |row: u16, up: bool| MouseEvent {
        kind: if up { MouseKind::ScrollUp } else { MouseKind::ScrollDown },
        column: 5,
        row,
    };

    // gesture starts over the prompt -> view; output sliding under the
    // pointer mid-gesture must NOT capture it
    app.on_mouse(wheel(0, false), 0, &mut rendered);
    let after_first = app.scroll;
    assert!(after_first > 0, "view scrolled");
    let out_pos = rendered.blocks[0].win_start();
    app.on_mouse(wheel(5, false), 0, &mut rendered); // now over the output
    assert!(app.scroll > after_first, "gesture stays with the view");
    assert_eq!(rendered.blocks[0].win_start(), out_pos, "output untouched");

    // after a pause, a gesture starting over the output scrolls the output
    app.wheel_latch = None; // simulate the pause
    let view_pos = app.scroll;
    app.on_mouse(wheel(5, true), 0, &mut rendered);
    assert!(rendered.blocks[0].win_start() < out_pos, "output scrolled");
    assert_eq!(app.scroll, view_pos, "view untouched");
}

/// The file's contents, as the host reads it on a reload.
fn reload(app: &mut App, rendered: &mut Rendered, nb: Notebook, stamp: u64) {
    let mut asked = 0;
    for e in app.take_effects() {
        if let Effect::Reload(cause) = e {
            app.reload(Ok(nb.duplicate()), Some(stamp), cause, rendered);
            asked += 1;
        }
    }
    assert_eq!(asked, 1, "the file is read once");
}

#[test]
fn external_change_reloads_when_clean_and_prompts_when_dirty() {
    let nb = |src: &str| {
        let mut n = notebook(
            r#"{"cells": [{"cell_type": "code", "metadata": {}, "execution_count": null,
                "outputs": [], "source": []}],
                "metadata": {}, "nbformat": 4, "nbformat_minor": 5}"#,
        );
        n.cells[0].source = src.to_string();
        n
    };
    let (mut app, mut rendered) = open(nb("a = 1"));

    // clean buffer: silent reload (nvim autoread)
    app.check_disk(Some(2));
    reload(&mut app, &mut rendered, nb("a = 2"), 2);
    assert_eq!(app.notebook.cells[0].source, "a = 2");
    assert!(app.confirm.is_none());

    // dirty buffer: prompt instead of clobbering local state
    app.notebook.cells[0].source = "local".into();
    app.touch();
    app.check_disk(Some(3));
    assert!(matches!(app.confirm, Some(Confirm::Reload)));
    assert_eq!(app.notebook.cells[0].source, "local");

    // "keep mine" (any key but l) accepts divergence: no re-prompt, w saves
    let m = Moment { on_disk: Some(3), ..moment() };
    app.on_key(key('k'), &m, &mut rendered);
    assert!(app.confirm.is_none());
    app.check_disk(Some(3));
    assert!(app.confirm.is_none(), "mtime accepted, no re-prompt");
    assert!(
        app.save_notebook(false, Some(3), AfterSave::Nothing),
        "plain w overwrites after keep-mine"
    );
    assert!(matches!(app.effects.last(), Some(Effect::Save { .. })));
}

#[test]
fn split_merge_clear_undo_redo_roundtrip() {
    let (mut app, mut r) = one_cell_app();
    app.notebook.cells[0].source = "a = 1\nb = 2".into();
    app.notebook.cells[0].push_output(stream("out\n"));
    r.rebuild_all(&app.notebook);
    // split at the start of row 1 (editor open, cursor there)
    app.open_editor(AfterOpen::Nothing);
    app.editor.as_mut().unwrap().click(1, 0, false);
    app.split_cell("n1", &mut r);
    assert_eq!(sources(&app), ["a = 1", "b = 2"]);
    assert_eq!(app.selected, 1);
    assert_eq!(outputs(&app, 1), 0);
    assert_ne!(app.notebook.cells[0].id(), app.notebook.cells[1].id());
    app.undo(&mut r);
    assert_eq!(sources(&app), ["a = 1\nb = 2"]);
    app.redo(&mut r);
    assert_eq!(sources(&app), ["a = 1", "b = 2"]);
    // merge back
    app.selected = 0;
    app.merge_below(&mut r);
    assert_eq!(sources(&app), ["a = 1\nb = 2"]);
    assert_eq!(r.blocks.len(), 1);
    // clear outputs, undo restores them, redo clears again
    app.clear_outputs(0, 1, &mut r);
    assert_eq!(outputs(&app, 0), 0);
    app.undo(&mut r);
    assert_eq!(outputs(&app, 0), 1);
    app.redo(&mut r);
    assert_eq!(outputs(&app, 0), 0);
    // a new op clears redo
    app.undo(&mut r);
    press(&mut app, &mut r, key('a'));
    app.redo(&mut r);
    assert_eq!(app.message.as_deref(), Some("nothing to redo"));
}

#[test]
fn yy_fills_the_paste_register_and_moves_undo() {
    let (mut app, mut r) = one_cell_app();
    press(&mut app, &mut r, key('y'));
    press(&mut app, &mut r, key('y'));
    press(&mut app, &mut r, key('p'));
    assert_eq!(sources(&app), ["x", "x"]);
    assert_ne!(app.notebook.cells[0].id(), app.notebook.cells[1].id());
    press(&mut app, &mut r, key('K')); // move the copy up
    assert_eq!(app.selected, 0);
    app.undo(&mut r);
    assert_eq!(app.selected, 1, "undoing a move follows the cell back");
}

#[test]
fn undoing_a_source_edit_keeps_newer_outputs() {
    let (mut app, mut r) = one_cell_app();
    app.update_cell_source("y".into(), &mut r);
    app.notebook.cells[0].push_output(stream("ran\n")); // re-run after the edit
    app.undo(&mut r);
    let cell = &app.notebook.cells[0];
    assert_eq!(cell.source, "x");
    assert_eq!(cell.outputs.as_ref().unwrap().len(), 1);
}

// ---------------------------------------------------------------------------

#[test]
fn the_undo_stack_is_bounded_and_undo_says_when_it_is_empty() {
    let (mut app, mut r) = one_cell_app();
    app.undo(&mut r);
    assert_eq!(app.message.as_deref(), Some("nothing to undo"));
    for i in 0..150 {
        app.update_cell_source(format!("v{i}"), &mut r);
    }
    let kept = app.undo_stack.len();
    assert_eq!(kept, 100);
    for _ in 0..kept {
        app.undo(&mut r);
    }
    assert_eq!(sources(&app), ["v49"]);
    app.undo(&mut r);
    assert_eq!(app.message.as_deref(), Some("nothing to undo"));
}

#[test]
fn a_waiting_clear_happens_with_the_next_output() {
    let (mut app, mut r) = one_cell_app();
    app.running.insert("m".into(), 0);
    let out = |t: &str| Event::Output { parent: "m".into(), output: stream(t) };
    app.apply_kernel_event(out("a\n"), 0, &mut r);
    app.apply_kernel_event(Event::Clear { parent: "m".into(), wait: true }, 0, &mut r);
    assert_eq!(outputs(&app, 0), 1, "the old output stays until then");
    app.apply_kernel_event(out("b\n"), 0, &mut r);
    let outs = app.notebook.cells[0].outputs.as_ref().unwrap();
    assert_eq!(outs.len(), 1);
    assert_eq!(outs[0].str_at("text"), Some("b\n"));
    app.apply_kernel_event(Event::Clear { parent: "m".into(), wait: false }, 0, &mut r);
    assert_eq!(outputs(&app, 0), 0);
}

#[test]
fn elapsed_time_runs_from_the_start_to_the_second_end_signal() {
    let (mut app, mut r) = one_cell_app();
    app.running.insert("m".into(), 0);
    app.apply_kernel_event(Event::ExecutionCount { parent: "m".into(), count: 7 }, 1000, &mut r);
    assert_eq!(app.notebook.cells[0].execution_count(), Some(7));
    app.apply_kernel_event(Event::Done { parent: "m".into() }, 2000, &mut r);
    app.apply_kernel_event(Event::Status { parent: "m".into(), busy: false }, 2500, &mut r);
    assert_eq!(r.blocks[0].elapsed, Some(1500));
}

#[test]
fn quitting_with_changes_asks_and_saves_first() {
    let (mut app, mut r) = one_cell_app();
    press(&mut app, &mut r, key('q'));
    assert!(app.should_quit, "nothing to lose");
    let (mut app, mut r) = one_cell_app();
    app.touch();
    press(&mut app, &mut r, key('q'));
    assert!(!app.should_quit);
    assert!(matches!(app.confirm, Some(Confirm::Quit)));
    press(&mut app, &mut r, key('s'));
    assert!(!app.should_quit, "not before the file is written");
    let mut saved = 0;
    for e in app.take_effects() {
        if let Effect::Save { path, next } = e {
            assert_eq!(path, "/work/nb.ipynb");
            app.saved(Ok(()), Some(9), next);
            saved += 1;
        }
    }
    assert_eq!(saved, 1);
    assert!(app.should_quit && !app.dirty);
    assert_eq!(app.disk_mtime, Some(9));
}

#[test]
fn a_changed_file_is_not_overwritten_unforced() {
    let (mut app, _r) = one_cell_app();
    app.touch();
    assert!(!app.save_notebook(false, Some(5), AfterSave::Nothing));
    assert!(app.effects.is_empty());
    assert!(app.save_notebook(true, Some(5), AfterSave::Nothing));
    assert!(matches!(app.effects.last(), Some(Effect::Save { .. })));
}

#[test]
fn save_as_asks_again_before_it_overwrites() {
    let (mut app, mut r) = one_cell_app();
    press(&mut app, &mut r, key('S'));
    let prompt = app.prompt.as_mut().unwrap();
    assert_eq!(prompt.buf, "/work/nb.ipynb", "starts at the path");
    prompt.buf.clear();
    for c in "~/b.ipynb".chars() {
        press(&mut app, &mut r, key(c));
    }
    let enter = KeyEvent::new(KeyCode::Enter, KeyModifiers::none());
    let there = Moment { target_exists: true, ..moment() };
    app.on_key(enter, &there, &mut r);
    assert!(!app.effects.iter().any(|e| matches!(e, Effect::Save { .. })), "armed first");
    app.on_key(enter, &there, &mut r);
    let paths: Vec<String> = app
        .take_effects()
        .into_iter()
        .filter_map(|e| match e {
            Effect::Save { path, .. } => Some(path),
            _ => None,
        })
        .collect();
    assert_eq!(paths, ["/home/u/b.ipynb"]);
}

fn kernel(launch: u64) -> Kernel {
    Kernel {
        name: "python3".into(),
        display_name: "Python 3".into(),
        language: "python".into(),
        spec_dir: "/k".into(),
        session: "s".into(),
        launch,
        pid: Some(7),
        interrupt_via_message: false,
        sent: 0,
    }
}

#[test]
fn a_ready_kernel_runs_what_was_queued_and_stale_ones_are_killed() {
    let (mut app, mut r) = one_cell_app();
    app.spawn_kernel();
    let launch = app.launch;
    app.run_cell(0, &mut r);
    app.take_effects();
    app.apply_kernel_event(Event::Ready(kernel(launch + 1)), 0, &mut r);
    assert!(app.kernel.is_none());
    let killed = app.take_effects();
    assert!(killed.iter().any(|e| matches!(e, Effect::KillKernel { launch: l } if *l == launch + 1)));
    assert!(logs(&killed).contains(&(
        Level::Info,
        format!("jotter::app: dropping stale kernel from launch {}", launch + 1)
    )));
    app.apply_kernel_event(Event::Ready(kernel(launch)), 0, &mut r);
    let ran = app.take_effects();
    assert!(ran.iter().any(|e| matches!(e, Effect::Execute { code, .. } if code == "x")));
    assert_eq!(app.running.len(), 1);
    // Ctrl+C interrupts it
    press(&mut app, &mut r, ctrl('c'));
    let sent = app.take_effects();
    assert!(sent.iter().any(|e| matches!(e, Effect::Interrupt(Interrupt::Signal(7)))));
}

#[test]
fn input_requests_are_answered() {
    let (mut app, mut r) = one_cell_app();
    app.kernel = Some(kernel(0));
    let ask = Event::Input { request: "q".into(), prompt: "name? ".into(), password: false };
    app.apply_kernel_event(ask, 0, &mut r);
    press(&mut app, &mut r, key('h'));
    press(&mut app, &mut r, key('i'));
    assert_eq!(app.stdin_req.as_ref().unwrap().buf, "hi");
    press(&mut app, &mut r, KeyEvent::new(KeyCode::Enter, KeyModifiers::none()));
    let sent = app.take_effects();
    assert!(sent.iter().any(
        |e| matches!(e, Effect::ReplyInput { request, value } if request == "q" && value == "hi")
    ));
    assert!(app.stdin_req.is_none());
}

#[test]
fn search_wraps_around_and_counts_select() {
    let (mut app, mut r) = one_cell_app();
    for s in ["alpha", "Beta", "alphabet"] {
        let mut c = app.notebook.cells[0].duplicate();
        c.source = s.into();
        app.notebook.cells.push(c);
    }
    r.rebuild_all(&app.notebook);
    press(&mut app, &mut r, key('/'));
    for c in "ALPHA".chars() {
        press(&mut app, &mut r, key(c));
    }
    press(&mut app, &mut r, KeyEvent::new(KeyCode::Enter, KeyModifiers::none()));
    assert_eq!(app.selected, 1, "case does not matter");
    press(&mut app, &mut r, key('n'));
    assert_eq!(app.selected, 3);
    press(&mut app, &mut r, key('n'));
    assert_eq!(app.selected, 1, "wraps");
    press(&mut app, &mut r, key('N'));
    assert_eq!(app.selected, 3);
    press(&mut app, &mut r, key('2'));
    press(&mut app, &mut r, key('G'));
    assert_eq!(app.selected, 1);
    press(&mut app, &mut r, key('g'));
    assert_eq!(app.selected, 0);
}

/// The log records among effects: level, then target and message.
fn logs(effects: &[Effect]) -> Vec<(Level, String)> {
    effects
        .iter()
        .filter_map(|e| match e {
            Effect::Log { level, target, msg } => Some((*level, format!("{target}: {msg}"))),
            _ => None,
        })
        .collect()
}

#[test]
fn completions_leave_debug_records() {
    let (mut app, mut r) = one_cell_app();
    app.spawn_kernel();
    let launch = app.launch;
    app.apply_kernel_event(Event::Ready(kernel(launch)), 0, &mut r);
    app.open_editor(AfterOpen::Nothing);
    app.take_effects();
    app.request_completion("x".to_string(), 1, true);
    let sent = app.take_effects();
    let Some(Effect::Complete { msg_id, .. }) = sent.first() else { panic!("nothing asked") };
    let msg = format!("jotter::app::completion: completion: request {msg_id} at char 1 (Tab)");
    assert_eq!(logs(&sent), [(Level::Debug, msg)]);
    let reply = Event::Complete {
        parent: msg_id.clone(),
        matches: vec!["xa".to_string(), "xb".to_string()],
        start: 0,
        types: Vec::new(),
    };
    app.editor.as_mut().unwrap().click(0, 1, true);
    app.apply_kernel_event(reply, 0, &mut r);
    let sent = app.take_effects();
    assert!(matches!(
        &sent[0],
        Effect::LogSince { msg_id: id, before, after, .. }
            if id == msg_id && before == "completion: 2 matches in " && after == " (Tab)"
    ));
    let asked = "jotter::app::completion: completion: resolving 2 visible candidate(s)";
    assert_eq!(logs(&sent), [(Level::Debug, asked.to_string())]);
}

#[test]
fn a_signal_is_logged_and_ends_the_session() {
    let (mut app, mut r) = one_cell_app();
    app.update_cell_source("z".into(), &mut r);
    app.take_effects();
    app.on_signal("SIGTERM");
    assert!(app.should_quit);
    let sent = app.take_effects();
    assert_eq!(
        logs(&sent),
        [(Level::Warn, "jotter::app: SIGTERM: autosaving and exiting".to_string())]
    );
    assert!(sent.iter().any(|e| matches!(e, Effect::Autosave { .. })));
}

#[test]
fn a_click_on_a_row_whose_cell_is_gone_does_nothing() {
    let (mut app, mut r) = one_cell_app();
    app.body = Rect { x: 0, y: 0, width: 40, height: 5 };
    app.hit = vec![Hit { cell: 7, kind: HitKind::Other }];
    app.on_mouse(
        MouseEvent { kind: MouseKind::DownLeft, column: 1, row: 0 },
        0,
        &mut r,
    );
    assert_eq!(app.selected, 0);
    assert!(app.last_click.is_none());
    // nor does an empty range of cells hold outputs
    app.clear_outputs(3, 1, &mut r);
    assert_eq!(app.message.as_deref(), Some("no outputs to clear"));
}

#[test]
fn the_debug_report_names_the_cell_and_goes_to_the_clipboard() {
    let (mut app, mut r) = one_cell_app();
    press(&mut app, &mut r, key('D'));
    let report = app.debug.clone().unwrap();
    assert!(report.contains("c1"), "{report}");
    let sent = app.take_effects();
    assert!(sent.iter().any(|e| matches!(e, Effect::Print(s) if s.starts_with("\x1b]52;c;"))));
    assert_eq!(
        logs(&sent),
        [(Level::Info, format!("debug: {}", report.replace('\n', " | ")))]
    );
    press(&mut app, &mut r, key('x'));
    assert!(app.debug.is_none(), "any key closes it");
}

#[test]
fn autosaves_go_to_the_state_dir_once_per_change() {
    let (mut app, mut r) = one_cell_app();
    app.maybe_autosave();
    assert!(app.effects.is_empty());
    app.update_cell_source("z".into(), &mut r);
    app.maybe_autosave();
    let sent = app.take_effects();
    assert!(sent.iter().any(
        |e| matches!(e, Effect::Autosave { path } if path == "/state/jotter/autosave/%work%nb.ipynb")
    ));
    app.autosaved(Ok(()));
    app.maybe_autosave();
    assert!(app.effects.is_empty(), "nothing new");
}

#[test]
fn ages_and_relative_paths() {
    assert_eq!(age(30), "30s");
    assert_eq!(age(150), "2m");
    assert_eq!(age(7200), "2h");
    assert_eq!(age(200000), "2d");
    let none = None;
    assert_eq!(autosave_path_for("nb.ipynb", "/work", &none), ".nb.ipynb.autosave");
    let state = Some("/s".to_string());
    assert_eq!(autosave_path_for("nb.ipynb", "/work", &state), "/s/autosave/%work%nb.ipynb");
}
