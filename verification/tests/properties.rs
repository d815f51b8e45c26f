//! Properties that hold throughout, on concrete values.

use jotter::app::{Action, AfterOpen, App, Confirm, Effect, Moment};
use jotter::completion::{char_offset, filter_candidates, identifiers, splice, Candidate};
use jotter::config;
use jotter::edits::{editor_command, Edited};
use jotter::editor::Editor;
use jotter::files::Place;
use jotter::ids::{IdMap, IdSet};
use jotter::input::next_match;
use jotter::json::{Json, Object};
use jotter::keys::{KeyCode, KeyEvent, KeyModifiers};
use jotter::latex::to_unicode_approx;
use jotter::markdown::{parse_md_image, render_table, take_link};
use jotter::notebook::{new_cell_id, Notebook};
use jotter::paths::autosave_path_for;
use jotter::pictures::{scale_down, Gallery};
use jotter::text;
use jotter::ui::Rendered;

fn from_value(v: serde_json::Value) -> Json {
    match v {
        serde_json::Value::Null => Json::Null,
        serde_json::Value::Bool(b) => Json::Bool(b),
        serde_json::Value::Number(n) => match n.as_i64() {
            Some(i) => Json::Int(i),
            None => Json::Num(n.to_string()),
        },
        serde_json::Value::String(s) => Json::Str(s),
        serde_json::Value::Array(a) => Json::Arr(a.into_iter().map(from_value).collect()),
        serde_json::Value::Object(m) => Json::Obj(Object {
            entries: m.into_iter().map(|(k, v)| (k, from_value(v))).collect(),
        }),
    }
}

fn json(text: &str) -> Json {
    from_value(serde_json::from_str(text).expect("valid JSON"))
}

fn place() -> Place {
    Place {
        state_dir: Some("/state/jotter".to_string()),
        cwd: "/work".to_string(),
        home: Some("/home/u".to_string()),
        version: "0.1.0".to_string(),
    }
}

fn notebook(text: &str) -> Notebook {
    Notebook::from_json(json(text)).expect("a notebook")
}

fn open(nb: Notebook) -> (App, Rendered) {
    let app = App::open(
        "/work/nb.ipynb".to_string(),
        Some(nb),
        "fresh",
        None,
        Some(1),
        config::get(None),
        place(),
    );
    let rendered = Rendered::build(&app.notebook, "base16-ocean.dark", 15, Gallery::new(None, 18, ""));
    (app, rendered)
}

/// App over a one-code-cell notebook, plus its render cache.
fn one_cell_app() -> (App, Rendered) {
    open(notebook(
        r#"{"cells": [{"cell_type": "code", "id": "c1", "metadata": {}, "execution_count": null,
            "outputs": [], "source": ["x"]}],
            "metadata": {}, "nbformat": 4, "nbformat_minor": 5}"#,
    ))
}

fn moment() -> Moment {
    Moment { now: 0, on_disk: Some(1), target_exists: false, fresh_id: new_cell_id() }
}

fn key(c: char) -> KeyEvent {
    KeyEvent::new(KeyCode::Char(c), KeyModifiers::none())
}

fn press(app: &mut App, r: &mut Rendered, k: KeyEvent) -> Action {
    app.on_key(k, &moment(), r)
}

fn code(c: KeyCode) -> KeyEvent {
    KeyEvent::new(c, KeyModifiers::none())
}

fn several(sources: &[&str]) -> (App, Rendered) {
    let (mut app, mut r) = one_cell_app();
    let first = app.notebook.cells.remove(0);
    for (i, s) in sources.iter().enumerate() {
        let mut c = first.duplicate();
        c.source = s.to_string();
        c.extra.insert("id", Json::Str(format!("c{i}")));
        app.notebook.cells.push(c);
    }
    r.rebuild_all(&app.notebook);
    (app, r)
}

fn sources(app: &App) -> Vec<&str> {
    app.notebook.cells.iter().map(|c| c.source.as_str()).collect()
}

#[test]
fn every_op_is_taken_back_by_undo_and_brought_back_by_redo() {
    let ops: [fn(&mut App, &mut Rendered); 6] = [
        |a, r| a.delete_cell(r),
        |a, r| a.insert_cell(1, "new", r),
        |a, r| a.move_cell(true, r),
        |a, r| a.update_cell_source("other".to_string(), r),
        |a, r| a.merge_below(r),
        |a, r| a.toggle_type(r),
    ];
    for op in ops {
        let (mut app, mut r) = several(&["a", "b", "c"]);
        app.selected = 1;
        let before = app.notebook.duplicate();
        op(&mut app, &mut r);
        let after = app.notebook.duplicate();
        assert!(!before.to_json().equal(&after.to_json()));
        assert_eq!(r.blocks.len(), app.notebook.cells.len());
        app.undo(&mut r);
        assert!(before.to_json().equal(&app.notebook.to_json()));
        assert_eq!(r.blocks.len(), app.notebook.cells.len());
        app.redo(&mut r);
        assert!(after.to_json().equal(&app.notebook.to_json()));
        assert!(app.selected < app.notebook.cells.len());
    }
}

#[test]
fn the_selection_stays_on_a_cell() {
    let (mut app, mut r) = several(&["a", "b"]);
    app.selected = 1;
    app.delete_cell(&mut r);
    assert_eq!(app.selected, 0);
    app.delete_cell(&mut r);
    assert!(app.notebook.cells.is_empty());
    app.delete_cell(&mut r); // nothing left
    assert_eq!(app.selected, 0);
    app.undo(&mut r);
    app.undo(&mut r);
    assert_eq!(sources(&app), ["a", "b"]);
}

#[test]
fn runs_move_with_their_cells() {
    let (mut app, mut r) = several(&["a", "b", "c"]);
    app.running.insert("m".to_string(), 2);
    app.selected = 0;
    app.delete_cell(&mut r);
    assert_eq!(app.running.get("m"), Some(1));
    app.insert_cell(0, "new", &mut r);
    assert_eq!(app.running.get("m"), Some(2));
    app.selected = 2;
    app.move_cell(false, &mut r);
    assert_eq!(app.running.get("m"), Some(1));
    app.delete_cell(&mut r);
    assert_eq!(app.running.get("m"), None, "its cell is gone");
}

#[test]
fn overlays_keep_keys_from_the_notebook() {
    let (mut app, mut r) = several(&["a", "b"]);
    press(&mut app, &mut r, key('?'));
    press(&mut app, &mut r, key('j'));
    assert_eq!(app.selected, 0);
    assert!(!app.show_help);
    press(&mut app, &mut r, key('L'));
    press(&mut app, &mut r, key('j'));
    assert_eq!(app.selected, 0);
    assert!(app.logs.is_some());
}

#[test]
fn autosaves_that_differ_are_offered_and_others_removed() {
    let (mut app, mut r) = several(&["a", "b"]);
    let same = app.notebook.duplicate();
    app.check_autosave(90, Ok(same));
    assert!(app.confirm.is_none());
    let gone = app.take_effects();
    assert!(matches!(&gone[..], [Effect::RemoveFile(p)] if p == "/state/jotter/autosave/%work%nb.ipynb"));
    let mut other = app.notebook.duplicate();
    other.cells[1].source = "lost".to_string();
    app.check_autosave(90, Ok(other));
    match &app.confirm {
        Some(Confirm::Recover(_, s)) => {
            assert_eq!(s, "unsaved autosave from 1m ago: 1 cell(s) differ (2 vs 2 cells)");
        }
        _ => panic!(),
    }
    press(&mut app, &mut r, key('r'));
    assert_eq!(sources(&app), ["a", "lost"]);
    app.check_autosave(1, Err("bad".to_string()));
    assert!(app.message.as_deref().unwrap().starts_with("unreadable autosave "));
}

#[test]
fn searches_find_what_is_there() {
    let texts: Vec<String> = ["x", "needle", "y", "needles"].map(String::from).to_vec();
    for from in 0..4 {
        for back in [false, true] {
            let i = next_match(&texts, "needle", from, back).unwrap();
            assert!(texts[i].contains("needle"));
        }
    }
    assert_eq!(next_match(&texts, "needle", 1, false), Some(3));
    assert_eq!(next_match(&texts, "needle", 1, true), Some(3));
    assert_eq!(next_match(&texts, "zzz", 0, false), None);
    assert_eq!(next_match(&vec![], "x", 0, false), None);
}

#[test]
fn candidates_filter_by_what_was_typed() {
    let all: Vec<Candidate> =
        ["print", "pow", "property"].iter().map(|t| Candidate::new(t.to_string(), "", "")).collect();
    let shown: Vec<String> = filter_candidates(&all, "pr").iter().map(|c| c.label()).collect();
    assert_eq!(shown, ["print", "property"]);
    assert_eq!(filter_candidates(&all, "").len(), 3);
}

#[test]
fn offsets_and_splices_count_characters() {
    assert_eq!(char_offset("aé\nbc", (1, 1)), 4);
    assert_eq!(char_offset("aé\nbc", (0, 9)), 2);
    assert_eq!(char_offset("aé\nbc", (7, 0)), 5);
    let (s, at) = splice("aé\nbc", 1, 4, "XY");
    assert_eq!((s.as_str(), at), ("aXYc", 3));
}

#[test]
fn backspace_takes_back_typing_and_line_breaks() {
    let mut e = Editor::new("ab");
    e.input(key('l'));
    e.input(key('i'));
    e.input(key('é'));
    assert_eq!(e.source(), "aéb");
    e.input(code(KeyCode::Backspace));
    assert_eq!(e.source(), "ab");
    e.input(code(KeyCode::Enter));
    assert_eq!(e.source(), "a\nb");
    e.input(code(KeyCode::Backspace));
    assert_eq!(e.source(), "ab");
    e.input(code(KeyCode::Esc));
    assert_eq!(e.source(), "ab", "leaving insert mode keeps the text");
}

#[test]
fn maps_by_id_keep_their_order() {
    let mut m: IdMap<usize> = IdMap::new();
    m.insert("a".to_string(), 1);
    m.insert("b".to_string(), 2);
    m.insert("a".to_string(), 3);
    assert_eq!((m.len(), m.get("a"), m.entry(0).1), (2, Some(3), 3));
    m.remap_insertion(2);
    assert_eq!((m.get("a"), m.get("b")), (Some(4), Some(3)));
    m.remap_removal(2);
    assert_eq!((m.get("a"), m.get("b")), (Some(3), Some(2)));
    m.remove("a");
    assert_eq!((m.get("a"), m.len()), (None, 1));
    let mut s = IdSet::new();
    assert!(s.insert("x".to_string()) && !s.insert("x".to_string()));
    assert!(s.remove("x") && !s.contains("x"));
}

#[test]
fn table_columns_line_up() {
    let rows = ["| a | bb |", "|---|---|", "| long | c |"].map(String::from).to_vec();
    let lines: Vec<String> = render_table(&rows).iter().map(|l| l.text()).collect();
    let bars = |s: &str| s.chars().position(|c| c == '│' || c == '┼');
    assert_eq!(bars(&lines[0]), bars(&lines[1]));
    assert_eq!(bars(&lines[0]), bars(&lines[2]));
}

#[test]
fn links_and_images_parse() {
    let chars = |s: &str| s.chars().collect::<Vec<char>>();
    let (link, used) = take_link(&chars("docs](https://x.y) more"));
    assert_eq!(link, Ok(("docs".to_string(), "https://x.y".to_string())));
    assert_eq!(used, "docs](https://x.y)".len());
    assert!(take_link(&chars("no link")).0.is_err());
    assert_eq!(parse_md_image("![alt](a.png)"), Some(("alt".to_string(), "a.png".to_string())));
    assert_eq!(parse_md_image("text"), None);
}

#[test]
fn no_tex_syntax_is_left() {
    let s = to_unicode_approx(r"\frac{\alpha}{\beta} \unknown $x$");
    assert!(!s.contains(['\\', '{', '}', '$']), "{s}");
    assert!(s.contains('α') && s.contains('β'));
}

#[test]
fn scaled_pictures_keep_within_the_cap() {
    assert_eq!(scale_down(640, 480, 288), (384, 288));
    assert_eq!(scale_down(1, 10_000, 288), (1, 288));
    assert_eq!(scale_down(640, 200, 288), (640, 200));
}

#[test]
fn editing_outside_reports_what_came_of_it() {
    let (mut app, mut r) = one_cell_app();
    let some = |s: &str| Some(s.to_string());
    assert_eq!(editor_command(some("a"), some("b")), "a");
    assert_eq!(editor_command(None, some("b")), "b");
    assert_eq!(editor_command(None, None), "vi");
    app.edited_outside("ed", Edited::Text("y = 1\n".to_string()), &mut r);
    assert_eq!(sources(&app), ["y = 1"], "the editor's last newline is not the cell's");
    app.edited_outside("ed", Edited::Status("exit status: 1".to_string()), &mut r);
    assert_eq!(app.message.as_deref(), Some("ed exited with exit status: 1"));
    app.edited_outside("ed", Edited::Unstarted("no such file".to_string()), &mut r);
    assert_eq!(app.message.as_deref(), Some("ed failed: no such file"));
    app.edited_outside("ed", Edited::Unreadable("gone".to_string()), &mut r);
    assert_eq!(app.message.as_deref(), Some("read-back failed: gone"));
    assert_eq!(sources(&app), ["y = 1"]);
}

#[test]
fn unicode_text_is_cut_between_characters() {
    assert_eq!(text::take("né!", 2), "né");
    assert_eq!(text::skip("né!", 2), "!");
    assert_eq!(text::trimmed("\u{a0} x\t"), "x", "every Unicode space counts");
    assert_eq!(text::words(" a\u{3000}b "), ["a", "b"]);
    assert_eq!(text::lines("a\r\nb\n"), ["a", "b"]);
    assert_eq!(text::replace("aaa", "aa", "b"), "ba");
}

#[test]
fn paths_are_made_absolute_and_names_may_be_any_letters() {
    let state = Some("/s".to_string());
    assert_eq!(
        autosave_path_for("./x//nb.ipynb", "/work/.", &state),
        "/s/autosave/%work%x%nb.ipynb"
    );
    assert_eq!(identifiers("naïve = Ω_1 + x"), ["naïve", "Ω_1"]);
    assert!(!autosave_path_for("/a/b", "/", &state)["/s/autosave/".len()..].contains('/'));
}

#[test]
fn autosaves_are_not_shared() {
    let state = Some("/s".to_string());
    let name = |p: &str| autosave_path_for(p, "/", &state)["/s/autosave/".len()..].to_string();
    assert_eq!(name("/a/%b"), r"%a%\%b");
    assert_eq!(name("/a%/b"), r"%a\%%b");
    assert_eq!(name(r"/a\/b"), r"%a\\%b");
    // a very deep path keeps what fits of its tail, whole characters
    let deep = name(&format!("/{}/nb.ipynb", "é".repeat(300)));
    assert_eq!(deep.len(), 199);
    assert!(deep.ends_with("é%nb.ipynb"));
}

#[test]
fn merging_reverts_a_split_between_lines() {
    let (mut app, mut r) = several(&["before", "a = 1\nb = 2", "after"]);
    app.selected = 1;
    app.open_editor(AfterOpen::Click { row: 1, col: 0, insert: false });
    app.split_cell("n1", &mut r);
    assert_eq!(sources(&app), ["before", "a = 1", "b = 2", "after"]);
    app.selected = 1;
    app.merge_below(&mut r);
    assert_eq!(sources(&app), ["before", "a = 1\nb = 2", "after"]);
}

#[test]
fn keys_without_anything_to_work_on_are_refused() {
    let (mut app, mut r) = one_cell_app();
    assert!(!app.refuses(key('m'), &r));
    app.toggle_type(&mut r);
    app.notebook.cells[0].extra.insert("metadata", Json::Int(3));
    assert!(app.refuses(key('m'), &r));
    assert!(!app.refuses(key('j'), &r));
}
