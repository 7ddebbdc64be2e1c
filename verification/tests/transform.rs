//! Notebooks turned into stripped notebooks and scripts.

use fuse_stripped_notebooks::json::{Json, JsonObject};
use fuse_stripped_notebooks::transform::{
    python_script, strip_notebook, strip_outputs, to_python_script, TransformError,
};

const SAMPLE: &str = r##"{
 "cells": [
  {
   "cell_type": "markdown",
   "metadata": {},
   "source": ["# Test notebook\n", "Sample for integration tests."]
  },
  {
   "cell_type": "code",
   "execution_count": 7,
   "metadata": {"collapsed": false},
   "outputs": [
    {"name": "stdout", "output_type": "stream", "text": ["hello\n"]}
   ],
   "source": ["msg = \"hello\"\n", "print(msg)"]
  }
 ],
 "metadata": {"kernelspec": {"name": "python3"}},
 "nbformat": 4,
 "nbformat_minor": 5
}
"##;

const EXPECTED_PYTHON_SCRIPT: &str =
    "\"\"\"\n# Test notebook\nSample for integration tests.\n\"\"\"\nmsg = \"hello\"\nprint(msg)\n# ---\n";

fn stripped(text: &str) -> String {
    String::from_utf8(strip_outputs(text.as_bytes()).unwrap()).unwrap()
}

fn script(text: &str) -> String {
    String::from_utf8(to_python_script(text.as_bytes()).unwrap()).unwrap()
}

fn object(fields: Vec<(&str, Json)>) -> Json {
    let mut o = JsonObject::new();
    for (key, value) in fields {
        o = o.insert(key.to_string(), value);
    }
    Json::Object(o)
}

fn text(s: &str) -> Json {
    Json::Text(s.to_string())
}

#[test]
fn sample_becomes_the_expected_script() {
    assert_eq!(script(SAMPLE), EXPECTED_PYTHON_SCRIPT);
}

#[test]
fn sample_is_stripped() {
    assert_eq!(
        stripped(SAMPLE),
        concat_lines(&[
            r##"{"cells":[{"cell_type":"markdown","metadata":{},"source":["# Test notebook\n","Sample for integration tests."]},"##,
            r##"{"cell_type":"code","execution_count":null,"metadata":{"collapsed":false},"outputs":[],"source":["msg = \"hello\"\n","print(msg)"]}],"##,
            r##""metadata":{"kernelspec":{"name":"python3"}},"nbformat":4,"nbformat_minor":5}"##,
        ])
    );
}

fn concat_lines(parts: &[&str]) -> String {
    parts.concat()
}

#[test]
fn stripped_sample_has_code_cells_without_outputs() {
    let bytes = strip_outputs(SAMPLE.as_bytes()).unwrap();
    let json: serde_json::Value = serde_json::from_slice(&bytes).unwrap();
    let cells = json["cells"].as_array().unwrap();
    assert_eq!(cells.len(), 2);
    assert_eq!(cells[1]["cell_type"], "code");
    assert_eq!(cells[1]["outputs"], serde_json::Value::Array(Vec::new()));
    assert!(cells[1]["execution_count"].is_null());
}

#[test]
fn strip_leaves_other_cells_and_fields_alone() {
    assert_eq!(
        stripped(r#"{"b":[1,{"c":true}],"cells":[{"cell_type":"raw","outputs":[1],"execution_count":2},3,null],"a":"x"}"#),
        r#"{"a":"x","b":[1,{"c":true}],"cells":[{"cell_type":"raw","execution_count":2,"outputs":[1]},3,null]}"#
    );
}

#[test]
fn strip_adds_missing_fields_to_code_cells() {
    assert_eq!(
        stripped(r#"{"cells":[{"cell_type":"code"}]}"#),
        r#"{"cells":[{"cell_type":"code","execution_count":null,"outputs":[]}]}"#
    );
}

#[test]
fn strip_is_idempotent() {
    let once = stripped(SAMPLE);
    assert_eq!(stripped(&once), once);
}

#[test]
fn strip_without_cells() {
    assert_eq!(stripped("{}"), r#"{"cells":null}"#);
    assert_eq!(stripped("null"), r#"{"cells":null}"#);
    assert_eq!(stripped(r#"{"cells":5}"#), r#"{"cells":5}"#);
    assert_eq!(stripped(r#"{"cells":[]}"#), r#"{"cells":[]}"#);
}

#[test]
fn strip_keeps_numbers_and_strings() {
    assert_eq!(
        stripped(r#"{"cells":null,"n":[0,-1,18446744073709551615,-9223372036854775808,1.5],"s":"é\n\"\\\u0001"}"#),
        "{\"cells\":null,\"n\":[0,-1,18446744073709551615,-9223372036854775808,1.5],\"s\":\"\u{e9}\\n\\\"\\\\\\u0001\"}"
    );
}

#[test]
fn the_last_of_two_fields_counts() {
    assert_eq!(stripped(r#"{"cells":1,"cells":2}"#), r#"{"cells":2}"#);
}

#[test]
fn strip_refuses_what_is_no_json() {
    assert!(matches!(
        strip_outputs(b"{\"cells\": ["),
        Err(TransformError::InvalidData(_))
    ));
    assert!(matches!(strip_outputs(b""), Err(TransformError::InvalidData(_))));
    assert!(matches!(strip_outputs(b"{} x"), Err(TransformError::InvalidData(_))));
}

#[test]
fn strip_refuses_what_is_no_notebook() {
    for raw in ["[1, 2]", "\"cells\"", "3", "true"] {
        assert!(matches!(
            strip_outputs(raw.as_bytes()),
            Err(TransformError::NotAnObject)
        ));
    }
}

#[test]
fn nesting_is_limited() {
    let deep = |n: usize| format!("{{\"a\":{}1{}}}", "[".repeat(n), "]".repeat(n));
    assert!(strip_outputs(deep(126).as_bytes()).is_ok());
    assert!(matches!(
        strip_outputs(deep(127).as_bytes()),
        Err(TransformError::InvalidData(_))
    ));
}

#[test]
fn script_refuses_what_is_no_json() {
    assert!(matches!(
        to_python_script(b"not json"),
        Err(TransformError::InvalidData(_))
    ));
}

#[test]
fn script_without_cells_is_empty() {
    assert_eq!(script("{}"), "");
    assert_eq!(script("[1]"), "");
    assert_eq!(script("null"), "");
    assert_eq!(script(r#"{"cells":{}}"#), "");
    assert_eq!(script(r#"{"cells":[]}"#), "");
}

#[test]
fn source_as_one_text() {
    assert_eq!(
        script(r#"{"cells":[{"cell_type":"code","source":"a\nb"}]}"#),
        "a\nb\n# ---\n"
    );
    assert_eq!(
        script(r#"{"cells":[{"cell_type":"code","source":"a\n\n\nb\n\n"}]}"#),
        "a\n\n\nb\n\n# ---\n"
    );
    assert_eq!(
        script(r#"{"cells":[{"cell_type":"markdown","source":""}]}"#),
        "\"\"\"\n\"\"\"\n"
    );
}

#[test]
fn source_as_a_list_of_lines() {
    assert_eq!(
        script(r#"{"cells":[{"cell_type":"code","source":["a\n\n","","b\nc",5,null,"d\n"]}]}"#),
        "a\n\nb\nc\nd\n# ---\n"
    );
}

#[test]
fn prose_becomes_docstrings() {
    assert_eq!(
        script(r#"{"cells":[{"cell_type":"raw","source":"x"},{"cell_type":"markdown","source":["y\n"]}]}"#),
        "\"\"\"\nx\n\"\"\"\n\"\"\"\ny\n\"\"\"\n"
    );
}

#[test]
fn cells_of_other_kinds_or_without_source_are_left_out() {
    assert_eq!(
        script(
            r#"{"cells":[{"cell_type":"heading","source":"h"},{"source":"s"},{"cell_type":"code"},
                {"cell_type":"code","source":7},5,{"cell_type":9,"source":"n"},
                {"cell_type":"code","source":"kept"}]}"#
        ),
        "kept\n# ---\n"
    );
}

#[test]
fn script_keeps_non_ascii_text() {
    assert_eq!(
        script("{\"cells\":[{\"cell_type\":\"code\",\"source\":[\"\u{e9}\u{4e16}\u{1f600}\\n\"]}]}"),
        "\u{e9}\u{4e16}\u{1f600}\n# ---\n"
    );
}

#[test]
fn script_of_a_stripped_notebook_is_the_same() {
    assert_eq!(script(&stripped(SAMPLE)), script(SAMPLE));
}

#[test]
fn strip_notebook_on_plain_data() {
    let cell = object(vec![
        ("cell_type", text("code")),
        ("outputs", Json::Array(vec![Json::integer(1)])),
        ("execution_count", Json::integer(-3)),
        ("source", text("x")),
    ]);
    let notebook = object(vec![("cells", Json::Array(vec![cell, Json::Bool(true)]))]);
    let result = strip_notebook(notebook).unwrap();
    assert_eq!(
        String::from_utf8(result.write()).unwrap(),
        r#"{"cells":[{"cell_type":"code","execution_count":null,"outputs":[],"source":"x"},true]}"#
    );
    assert!(strip_notebook(Json::Array(Vec::new())).is_none());
}

#[test]
fn python_script_on_plain_data() {
    let cell = object(vec![("cell_type", text("code")), ("source", text("x = 1"))]);
    let notebook = object(vec![("cells", Json::Array(vec![cell]))]);
    assert_eq!(python_script(&notebook), b"x = 1\n# ---\n".to_vec());
}

#[test]
fn object_fields() {
    let key = "k".to_string();
    let o = JsonObject::new().insert(key.clone(), Json::integer(1));
    let o = o.insert("l".to_string(), Json::Null).insert(key.clone(), Json::integer(2));
    assert_eq!(o.get(&key).and_then(|j| j.as_integer()), Some(2));
    let (o, removed) = o.remove(&key);
    assert_eq!(removed.and_then(|j| j.as_integer()), Some(2));
    assert!(o.get(&key).is_none());
    assert!(matches!(o.get(&"l".to_string()), Some(Json::Null)));
    let (o, removed) = o.remove(&key);
    assert!(removed.is_none());
    assert_eq!(Json::Object(o).write(), b"{\"l\":null}".to_vec());
}

#[test]
fn integers() {
    assert_eq!(Json::integer(i64::MIN).as_integer(), Some(i64::MIN as i128));
    assert_eq!(Json::parse(b"18446744073709551615").unwrap().as_integer(), Some(u64::MAX as i128));
    assert_eq!(Json::parse(b"1.0").unwrap().as_integer(), None);
    assert_eq!(Json::parse(b"18446744073709551616").unwrap().as_integer(), None);
    assert_eq!(text("1").as_integer(), None);
}

#[test]
fn what_is_written_is_read_again() {
    let raw = br#"{"a":[1,-2,{"b":"c\u0000"}],"d":null,"e":true,"f":{},"g":[]}"#;
    let bytes = Json::parse(raw).unwrap().write();
    assert_eq!(bytes, raw.to_vec());
    assert_eq!(Json::parse(&bytes).unwrap().write(), bytes);
}

#[test]
fn stripped_floats_are_read_again() {
    let source = "x = 0.1\n";
    for number in [
        "0.1", "-0.0", "1e22", "12345678901234567890.5", "5e-324", "1e-400", "9.7184255809572990e79",
        "1.7976931348623157e308", "-1.7976931348623157e308", "1.7976931348623155e308",
    ] {
        let raw = format!(
            r#"{{"cells":[{{"cell_type":"code","outputs":[{number}],"source":["x = 0.1\n"],"t":{number}}}]}}"#
        );
        let bytes = strip_outputs(raw.as_bytes()).unwrap();
        assert!(Json::parse(&bytes).is_ok(), "{number}");
        let script = to_python_script(&bytes).unwrap();
        assert_eq!(script, format!("{source}# ---\n").into_bytes());
        assert_eq!(script, to_python_script(raw.as_bytes()).unwrap());
    }
}

#[test]
fn every_large_float_is_read_again() {
    let largest: u64 = f64::MAX.to_bits();
    for below in 0..20000 {
        let f = f64::from_bits(largest - below);
        let bytes = Json::Number(serde_json::Number::from_f64(f).unwrap()).write();
        assert!(Json::parse(&bytes).is_ok(), "{f}");
    }
}

#[test]
fn outputs_make_no_difference() {
    let with = |outputs: &str| -> String {
        format!(r#"{{"cells":[{{"cell_type":"code",{outputs}"source":"x"}}],"nbformat":4}}"#)
    };
    let plain = with("");
    let full = with(r#""execution_count":3,"outputs":[{"text":"bartosz"}],"#);
    let stripped = strip_outputs(plain.as_bytes()).unwrap();
    assert_eq!(
        stripped,
        with(r#""execution_count":null,"outputs":[],"#).into_bytes()
    );
    assert_eq!(stripped, strip_outputs(full.as_bytes()).unwrap());
    assert_eq!(
        to_python_script(plain.as_bytes()).unwrap(),
        to_python_script(full.as_bytes()).unwrap()
    );
}

#[test]
fn source_as_text_or_lines() {
    let with = |source: &str| -> String {
        format!(r#"{{"cells":[{{"cell_type":"raw","source":{source}}}]}}"#)
    };
    let text = to_python_script(with(r#""a\n\nb""#).as_bytes()).unwrap();
    let lines = to_python_script(with(r#"["a\n","\n","b"]"#).as_bytes()).unwrap();
    assert_eq!(text, lines);
    assert_eq!(text, b"\"\"\"\na\n\nb\n\"\"\"\n".to_vec());
}
