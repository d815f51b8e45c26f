//! Kernel completions: requests, filtering, lookups.

use jotter::app::{Action, AfterOpen, App, Moment};
use jotter::completion::{
    identifiers, parse_inspect, splice, wants_dot_completion, Completion,
};
use jotter::config;
use jotter::files::Place;
use jotter::json::{Json, Object};
use jotter::kernel::Event;
use jotter::keys::{KeyCode, KeyEvent, KeyModifiers};
use jotter::notebook::{new_cell_id, Notebook};
use jotter::nvim::{Backend, NvimCell};
use jotter::pictures::Gallery;
use jotter::ui::Rendered;

fn from_value(v: serde_json::Value) -> Json {
    match v {
        serde_json::Value::Null => Json::Null,
        serde_json::Value::Bool(b) => Json::Bool(b),
        serde_json::Value::Number(n) => match n.as_i64() {
            Some(i) => Json::Int(i),
            None => Json::Num(n.to_string()),
        },
        serde_json::Value::String(s) => Json::Str(s),
        serde_json::Value::Array(a) => Json::Arr(a.into_iter().map(from_value).collect()),
        serde_json::Value::Object(m) => Json::Obj(Object {
            entries: m.into_iter().map(|(k, v)| (k, from_value(v))).collect(),
        }),
    }
}

fn json(text: &str) -> Json {
    from_value(serde_json::from_str(text).expect("valid JSON"))
}

fn place() -> Place {
    Place {
        state_dir: Some("/state/jotter".to_string()),
        cwd: "/work".to_string(),
        home: Some("/home/u".to_string()),
        version: "0.1.0".to_string(),
    }
}

fn notebook(text: &str) -> Notebook {
    Notebook::from_json(json(text)).expect("a notebook")
}

fn open(nb: Notebook) -> (App, Rendered) {
    let app = App::open(
        "/work/nb.ipynb".to_string(),
        Some(nb),
        "fresh",
        None,
        Some(1),
        config::get(None),
        place(),
    );
    let rendered = Rendered::build(&app.notebook, "base16-ocean.dark", 15, Gallery::new(None, 18, ""));
    (app, rendered)
}

/// App over a one-code-cell notebook, plus its render cache.
fn one_cell_app() -> (App, Rendered) {
    open(notebook(
        r#"{"cells": [{"cell_type": "code", "id": "c1", "metadata": {}, "execution_count": null,
            "outputs": [], "source": ["x"]}],
            "metadata": {}, "nbformat": 4, "nbformat_minor": 5}"#,
    ))
}

fn moment() -> Moment {
    Moment { now: 0, on_disk: Some(1), target_exists: false, fresh_id: new_cell_id() }
}

fn key(c: char) -> KeyEvent {
    KeyEvent::new(KeyCode::Char(c), KeyModifiers::none())
}

fn press(app: &mut App, r: &mut Rendered, k: KeyEvent) -> Action {
    app.on_key(k, &moment(), r)
}

fn labels(app: &App) -> Vec<String> {
    app.completion.as_ref().unwrap().items.iter().map(|c| c.label()).collect()
}

fn src(app: &App) -> String {
    app.editor.as_ref().unwrap().source()
}

fn edit(app: &mut App, source: &str) {
    app.editor = None;
    app.notebook.cells[0].source = source.into();
    app.open_editor_for_test();
}

fn reply_types(
    app: &mut App,
    r: &mut Rendered,
    id: &str,
    m: &[&str],
    start: usize,
    types: Vec<(String, String, String)>,
) {
    let matches = m.iter().map(|s| s.to_string()).collect();
    app.apply_kernel_event(Event::Complete { parent: id.into(), matches, start, types }, 0, r);
}

fn reply(app: &mut App, r: &mut Rendered, id: &str, m: &[&str], start: usize) {
    reply_types(app, r, id, m, start, Vec::new());
}

#[test]
fn completion_applies_single_match_filters_while_typing_and_goes_stale() {
    let (mut app, mut r) = one_cell_app();
    edit(&mut app, "pr");
    let pending = |app: &mut App, id: &str| {
        app.completion = Some(Completion {
            request: id.into(),
            source: src(app),
            all: Vec::new(),
            items: Vec::new(),
            sel: 0,
            start: 2,
            end: 2,
            explicit: true,
            at: 2,
            replied: false,
            jedi_retry: false,
            top: 0,
            detail_reqs: Vec::new(),
        });
    };
    // several (deduplicated) matches open the popup
    pending(&mut app, "q1");
    reply(&mut app, &mut r, "q1", &["print", "property", "print", "pow"], 0);
    assert_eq!(labels(&app), ["print", "property"]);
    // typing keeps it open and filters; Enter accepts over what was typed
    press(&mut app, &mut r, key('o'));
    assert_eq!(src(&app), "pro");
    assert_eq!(labels(&app), ["property"]);
    press(&mut app, &mut r, KeyEvent::new(KeyCode::Enter, KeyModifiers::none()));
    assert_eq!(src(&app), "property");
    assert!(app.completion.is_none());
    // typing past every match closes it; a non-name key closes it too
    pending(&mut app, "q2");
    reply(&mut app, &mut r, "q2", &["property", "props"], 0);
    press(&mut app, &mut r, key('('));
    assert!(app.completion.is_none());
    // an explicit request with one match applies directly
    edit(&mut app, "pri");
    pending(&mut app, "q3");
    let c = app.completion.as_mut().unwrap();
    (c.start, c.at) = (3, 3);
    reply(&mut app, &mut r, "q3", &["print"], 0);
    assert_eq!(src(&app), "print");
    // a reply whose text before the token changed is dropped
    pending(&mut app, "q4");
    app.completion.as_mut().unwrap().source = "zzzzz".into();
    reply(&mut app, &mut r, "q4", &["pxxxx"], 0);
    assert_eq!(src(&app), "print");
    assert!(app.completion.is_none());
}

#[test]
fn empty_replies_close_and_notebook_names_complete_before_they_run() {
    let (mut app, mut r) = one_cell_app();
    let ask = |app: &mut App, source: &str| {
        edit(app, source);
        let at = source.chars().count();
        app.completion = Some(Completion {
            request: "q".into(),
            source: source.into(),
            all: Vec::new(),
            items: Vec::new(),
            sel: 0,
            start: at,
            end: at,
            explicit: true,
            at,
            replied: false,
            jedi_retry: false,
            top: 0,
            detail_reqs: Vec::new(),
        });
        at
    };
    // nothing anywhere: closes with a message
    let at = ask(&mut app, "zq.");
    app.message = Some("completing…".into());
    reply(&mut app, &mut r, "q", &[], at);
    assert!(app.completion.is_none());
    assert_eq!(app.message.as_deref(), Some("no completions"));
    // unexecuted import: notebook names first, then the kernel's
    let at = ask(&mut app, "import numpy as np\nn");
    reply(&mut app, &mut r, "q", &["next", "not"], at - 1);
    assert_eq!(labels(&app), ["np", "numpy", "next", "not"], "nearest name first");
    // words in strings and comments are not names
    assert_eq!(identifiers("x = 'never mind'  # nope\nyes_1 = \"a\\\"b\""), ["yes_1"]);
    // even when the kernel knows nothing, notebook names still come
    let at = ask(&mut app, "value_1 = 3\nval");
    reply(&mut app, &mut r, "q", &[], at);
    assert_eq!(src(&app), "value_1 = 3\nvalue_1", "single match applied");
    // attribute access: no notebook words mixed in
    let at = ask(&mut app, "np.n");
    reply(&mut app, &mut r, "q", &[], at);
    assert!(app.completion.is_none());
}

#[test]
fn inspect_text_yields_kind_and_signature() {
    let linspace = "\x1b[31mSignature:\x1b[39m\nnp.linspace(\n    start,\n    stop,\n    num=50,\n)\n\x1b[31mDocstring:\x1b[39m\nReturn evenly spaced numbers.\n\x1b[31mType:\x1b[39m      function";
    assert_eq!(
        parse_inspect(linspace),
        ("function".to_string(), "(start, stop, num=50)".to_string())
    );
    let int = "\x1b[31mType:\x1b[39m        int\n\x1b[31mString form:\x1b[39m 3\n\x1b[31mDocstring:\x1b[39m  int([x]) -> integer";
    assert_eq!(parse_inspect(int), ("instance".to_string(), "int".to_string()));
    let module = "\x1b[31mType:\x1b[39m        module\n\x1b[31mString form:\x1b[39m <module 'os'>";
    assert_eq!(parse_inspect(module).0, "module");
    assert_eq!(splice("np.lin", 2, 6, ".linspace"), ("np.linspace".to_string(), 11));
}

#[test]
fn shift_tab_in_the_popup_asks_for_docs_and_details_fill_in_lazily() {
    let (mut app, mut r) = one_cell_app();
    edit(&mut app, "np.");
    app.completion = Some(Completion {
        request: "q".into(),
        source: "np.".into(),
        all: Vec::new(),
        items: Vec::new(),
        sel: 0,
        start: 2,
        end: 3,
        explicit: false,
        at: 3,
        replied: false,
        jedi_retry: false,
        top: 0,
        detail_reqs: Vec::new(),
    });
    let types = vec![(".linspace".to_string(), "attribute".to_string(), String::new())];
    reply_types(&mut app, &mut r, "q", &[".linalg", ".linspace"], 2, types);
    assert_eq!(labels(&app), ["linalg", "linspace"], "shown without the dot");
    press(&mut app, &mut r, KeyEvent::new(KeyCode::Down, KeyModifiers::none()));
    // Shift+Tab: docs (here: no kernel), selection untouched, popup stays
    let shift = KeyModifiers { shift: true, control: false, alt: false, other: false };
    press(&mut app, &mut r, KeyEvent::new(KeyCode::BackTab, shift));
    assert_eq!(app.message.as_deref(), Some("no kernel — docs need one"));
    assert_eq!(app.completion.as_ref().unwrap().sel, 1);
    // a detail reply fills kind + signature of that candidate
    app.completion.as_mut().unwrap().detail_reqs.push(("i1".into(), ".linspace".into()));
    let doc = "Signature: np.linspace(start, stop)\nType:      function";
    let found = Event::Inspect { parent: "i1".into(), text: Some(doc.into()) };
    app.apply_kernel_event(found, 0, &mut r);
    let item = &app.completion.as_ref().unwrap().items[1];
    assert_eq!((item.kind.as_str(), item.detail.as_str()), ("function", "(start, stop)"));
}

#[test]
fn candidate_code_splices_into_the_live_text_and_visible_rows_follow_the_window() {
    let (mut app, _r) = one_cell_app();
    // request made at "np." — then the user typed "lin" before Shift+Tab
    app.notebook.cells[0].source = "np.lin\nplt.subplots(figsize=(10, 10))".into();
    app.open_editor(AfterOpen::Nothing);
    app.editor.as_mut().unwrap().click(0, 6, true);
    let mut c = Completion::for_test(2, 6);
    c.source = "np.\nplt.subplots(figsize=(10, 10))".into(); // request-time snapshot
    c.push_for_test(".linspace", "attribute", "");
    app.completion = Some(c);
    let live = src(&app);
    let c = app.completion.as_mut().unwrap();
    let (start, end) = c.span();
    assert_eq!(
        splice(&live, start, end, &c.items[0].text),
        ("np.linspace\nplt.subplots(figsize=(10, 10))".to_string(), 11),
        "the rest of the cell must survive intact"
    );
    // the resolve window is the draw's window
    for i in 0..29 {
        c.push_for_test(&format!(".x{i}"), "attribute", "");
    }
    c.sel = 13;
    assert_eq!(c.visible_rows(), (2, 14));
}

#[test]
fn dot_opens_completion_only_after_names_outside_strings() {
    for yes in ["np.", "  x.", "f().", "a[0].", "obj.attr."] {
        assert!(wants_dot_completion(yes), "{yes}");
    }
    for no in ["1.", "x..", ".", "'np.", "s = \"a.", "# np.", "x = 3."] {
        assert!(!wants_dot_completion(no), "{no}");
    }
    assert!(wants_dot_completion("s = 'a'; np."), "string closed before");
}

#[test]
fn a_lookup_resolves_its_candidate_once() {
    let mut c = Completion::for_test(0, 0);
    c.push_for_test("a", "", "");
    c.push_for_test("b", "", "");
    assert!(!c.items[0].resolved);
    c.look_up("i1".to_string(), "a");
    assert!(c.items[0].resolved && !c.items[1].resolved);
    assert_eq!(c.lookup_text("i1").as_deref(), Some("a"));
    c.learn("i1", "a", "function", "(x)");
    assert_eq!(c.items[0].detail, "(x)");
    assert_eq!(c.lookup_text("i1"), None);
}

#[test]
fn colors_do_not_matter_to_inspection() {
    let plain = "Signature: f(x, y)\nType:      function";
    let colored = "\x1b[0;31mSign\x1b[1mature:\x1b[0m f(x, y)\n\x1b[31mType\x1b[m:      function";
    assert_eq!(parse_inspect(colored), parse_inspect(plain));
    assert_eq!(parse_inspect(plain), ("function".to_string(), "(x, y)".to_string()));
}

#[test]
fn a_reply_to_another_request_is_dropped() {
    let (mut app, mut r) = one_cell_app();
    edit(&mut app, "pr");
    let mut c = Completion::for_test(0, 2);
    c.request = "new".into();
    c.push_for_test("print", "", "");
    c.push_for_test("property", "", "");
    app.completion = Some(c);
    reply(&mut app, &mut r, "old", &["prune"], 0);
    assert_eq!(labels(&app), ["print", "property"]);
    assert_eq!(src(&app), "pr");
}

#[test]
fn a_lost_nvim_leaves_its_text_in_the_builtin_editor() {
    let (mut app, mut r) = one_cell_app();
    app.nvim_opened(Err("not found".to_string()), AfterOpen::Nothing);
    assert!(matches!(app.editor, Some(Backend::Builtin(_))));
    assert_eq!(src(&app), "x");
    let mut cell = NvimCell::fresh(1);
    cell.lines = vec!["typed".to_string(), "so far".to_string()];
    app.editor = None;
    app.nvim_fed(cell, Some("nvim exited".to_string()), key('i'), &mut r);
    assert!(matches!(app.editor, Some(Backend::Builtin(_))));
    assert_eq!(src(&app), "typed\nso far");
}
