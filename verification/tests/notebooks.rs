//! Notebook files: cells, sources, outputs and ids.

use jotter::json::{Json, Object};
use jotter::notebook::{
    cap_lines, collapse_cr, differing_cells, join_multiline, new_cell_id, Cell, CellError,
    Notebook, NotebookError, MAX_STREAM_LINES,
};

fn from_value(v: serde_json::Value) -> Json {
    match v {
        serde_json::Value::Null => Json::Null,
        serde_json::Value::Bool(b) => Json::Bool(b),
        serde_json::Value::Number(n) => match n.as_i64() {
            Some(i) => Json::Int(i),
            None => Json::Num(n.to_string()),
        },
        serde_json::Value::String(s) => Json::Str(s),
        serde_json::Value::Array(a) => Json::Arr(a.into_iter().map(from_value).collect()),
        serde_json::Value::Object(m) => Json::Obj(Object {
            entries: m.into_iter().map(|(k, v)| (k, from_value(v))).collect(),
        }),
    }
}

fn json(text: &str) -> Json {
    from_value(serde_json::from_str(text).expect("valid JSON"))
}

fn to_value(j: &Json) -> serde_json::Value {
    match j {
        Json::Null => serde_json::Value::Null,
        Json::Bool(b) => serde_json::Value::Bool(*b),
        Json::Int(i) => serde_json::Value::from(*i),
        Json::Num(s) => serde_json::from_str(s).expect("a number"),
        Json::Str(s) => serde_json::Value::String(s.clone()),
        Json::Arr(a) => serde_json::Value::Array(a.iter().map(to_value).collect()),
        Json::Obj(o) => serde_json::Value::Object(
            o.entries.iter().map(|(k, v)| (k.clone(), to_value(v))).collect(),
        ),
    }
}

fn cell(text: &str) -> Cell {
    Cell::from_json(json(text)).expect("a cell")
}

/// Canonical jupyter-written form: list sources, cell ids, unknown metadata.
const NB: &str = r##"{
      "cells": [
        {
          "cell_type": "markdown",
          "id": "abc-123",
          "metadata": {"collapsed": false, "someToolField": [1, 2]},
          "source": ["# Title\n", "\n", "text"]
        },
        {
          "cell_type": "code",
          "execution_count": 2,
          "id": "def-456",
          "metadata": {},
          "outputs": [
            {"name": "stdout", "output_type": "stream", "text": ["hi\n"]},
            {"data": {"text/plain": ["42"]}, "execution_count": 2, "metadata": {}, "output_type": "execute_result"}
          ],
          "source": ["x = 42\n", "print(\"hi\")\n", "x"]
        },
        {
          "cell_type": "code",
          "execution_count": null,
          "id": "ghi-789",
          "metadata": {},
          "outputs": [],
          "source": []
        }
      ],
      "metadata": {"kernelspec": {"display_name": "phy", "language": "python", "name": "phy"}},
      "nbformat": 4,
      "nbformat_minor": 5
    }"##;

#[test]
fn roundtrip_is_lossless() {
    let nb = Notebook::from_json(json(NB)).unwrap();
    let orig: serde_json::Value = serde_json::from_str(NB).unwrap();
    assert_eq!(to_value(&nb.to_json()), orig);
}

#[test]
fn source_concatenates() {
    let nb = Notebook::from_json(json(NB)).unwrap();
    assert_eq!(nb.cells[0].source, "# Title\n\ntext");
    assert_eq!(nb.cells[1].execution_count(), Some(2));
    assert_eq!(nb.cells[2].execution_count(), None); // null in the JSON
    assert_eq!(nb.cells[2].source, "");
}

#[test]
fn stream_outputs_coalesce_with_cr_semantics() {
    let mut cell = cell(r#"{"cell_type": "code", "metadata": {}, "source": ""}"#);
    let stream = |name: &str, text: &str| {
        let mut o = json(r#"{"output_type": "stream"}"#);
        o.set("name", Json::Str(name.to_string()));
        o.set("text", Json::Str(text.to_string()));
        o
    };
    cell.push_output(stream("stdout", "10%\r"));
    cell.push_output(stream("stdout", "50%\r"));
    cell.push_output(stream("stdout", "100%\ndone\n"));
    cell.push_output(stream("stderr", "warn\n")); // different stream: own output
    cell.push_output(json(r#"{"output_type": "execute_result", "data": {}}"#));
    cell.push_output(stream("stdout", "after\n")); // not adjacent: not merged
    let outs = cell.outputs.as_ref().unwrap();
    assert_eq!(outs.len(), 4);
    assert_eq!(outs[0].str_at("text"), Some("100%\ndone\n")); // \r frames overwritten
    assert_eq!(outs[1].str_at("text"), Some("warn\n"));
    assert_eq!(outs[3].str_at("text"), Some("after\n"));
}

#[test]
fn stream_text_is_capped() {
    let long: String = "x\n".repeat(MAX_STREAM_LINES + 5);
    let capped = cap_lines(&long, MAX_STREAM_LINES);
    assert!(capped.starts_with("[... output truncated ...]\n"));
    assert_eq!(capped.split('\n').count(), MAX_STREAM_LINES + 1);
    // crlf is a newline, not an overwrite
    assert_eq!(collapse_cr("a\r\nb"), "a\nb");
    // a trailing \r stays visible, with the pending-overwrite marker kept
    // so the next merged chunk replaces it (print(x, end="\\r") idiom)
    assert_eq!(collapse_cr("42%\r"), "42%\r");
    // overwrite is positional: a shorter frame leaves the tail behind
    assert_eq!(collapse_cr("12345\rab"), "ab345");
    // chunk by chunk is as good as the whole stream
    for (a, b) in [("x\n12345\rab\r", "c"), ("12\r", "\n3"), ("1\r\n2\r", "\r\n3")] {
        let whole = collapse_cr(&format!("{a}{b}"));
        assert_eq!(collapse_cr(&format!("{}{b}", collapse_cr(a))), whole);
    }
}

#[test]
fn save_is_byte_identical_to_nbformat_write() {
    // json.dumps(nb, sort_keys=True, indent=1, ensure_ascii=False) + "\n"
    let canonical = "{\n \"cells\": [\n  {\n   \"cell_type\": \"code\",\n   \"execution_count\": null,\n   \"id\": \"a1\",\n   \"metadata\": {},\n   \"outputs\": [],\n   \"source\": [\n    \"x = 1\\n\",\n    \"é\"\n   ]\n  }\n ],\n \"metadata\": {},\n \"nbformat\": 4,\n \"nbformat_minor\": 5\n}\n";
    let mut nb = Notebook::from_json(json(canonical)).unwrap();
    nb.upgrade_to_4_5();
    let mut out = Vec::new();
    let indent = serde_json::ser::PrettyFormatter::with_indent(b" ");
    let mut ser = serde_json::Serializer::with_formatter(&mut out, indent);
    serde::Serialize::serialize(&to_value(&nb.to_json()), &mut ser).unwrap();
    out.push(b'\n');
    assert_eq!(String::from_utf8(out).unwrap(), canonical);
}

#[test]
fn pre_4_5_notebooks_upgrade_with_cell_ids() {
    let mut nb = Notebook::from_json(json(
        r#"{"cells": [{"cell_type": "code", "metadata": {}, "source": "", "outputs": []},
                      {"cell_type": "markdown", "id": "keep", "metadata": {}, "source": ""}],
            "metadata": {}, "nbformat": 4, "nbformat_minor": 4}"#,
    ))
    .unwrap();
    nb.upgrade_to_4_5();
    assert_eq!(nb.extra.get("nbformat_minor").unwrap().as_i64(), Some(5));
    assert!(nb.cells[0].id().is_some_and(|id| id.len() == 8));
    assert_eq!(nb.cells[1].id(), Some("keep"));
}

#[test]
fn string_form_source_accepted() {
    let cell = cell(r#"{"cell_type": "markdown", "metadata": {}, "source": "a\nb"}"#);
    assert_eq!(cell.source, "a\nb");
    // and re-serializes in list form
    let v = cell.to_json();
    assert!(v.get("source").unwrap().equal(&json(r#"["a\n", "b"]"#)));
}

#[test]
fn every_way_a_notebook_can_be_refused() {
    let err = |t: &str| Notebook::from_json(json(t)).err();
    assert_eq!(err("3"), Some(NotebookError::NotAnObject));
    assert_eq!(err("{}"), Some(NotebookError::NoCells));
    let cell = |t: &str| Cell::from_json(json(t)).err();
    assert_eq!(cell("[]"), Some(CellError::NotAnObject));
    assert_eq!(cell(r#"{"source": ""}"#), Some(CellError::NoCellType));
    assert_eq!(cell(r#"{"cell_type": "code"}"#), Some(CellError::NoSource));
    assert_eq!(cell(r#"{"cell_type": "code", "source": 3}"#), Some(CellError::BadSource));
    assert_eq!(
        cell(r#"{"cell_type": "code", "source": "", "outputs": 1}"#),
        Some(CellError::BadOutputs)
    );
    assert_eq!(
        err(r#"{"cells": [{"cell_type": "raw", "source": ""}, {"cell_type": "raw"}]}"#),
        Some(NotebookError::Cell { index: 1, error: CellError::NoSource })
    );
}

#[test]
fn ids_are_eight_hex_digits() {
    let a = new_cell_id();
    assert_eq!(a.len(), 8);
    assert!(a.chars().all(|c| c.is_ascii_hexdigit()));
}

#[test]
fn multiline_text_and_differences() {
    assert_eq!(join_multiline(&json(r#"["a\n", 3, "b"]"#)), "a\nb");
    assert_eq!(join_multiline(&json("\"ab\"")), "ab");
    assert_eq!(join_multiline(&json("4")), "");
    let a = Notebook::from_json(json(NB)).unwrap();
    let mut b = a.duplicate();
    assert_eq!(differing_cells(&a, &b), 0);
    b.cells[1].source.push('!');
    b.cells.pop();
    assert_eq!(differing_cells(&a, &b), 2);
}
