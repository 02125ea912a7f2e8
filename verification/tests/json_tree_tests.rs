use music_text::json::JsonValue;
use music_text::tree_functions::{generate_syntax_tokens_from_json, generate_xml_representation};

fn s(t: &str) -> JsonValue {
    JsonValue::String(t.to_string())
}

fn obj(fields: Vec<(&str, JsonValue)>) -> JsonValue {
    JsonValue::Object(fields.into_iter().map(|(k, v)| (k.to_string(), v)).collect())
}

fn tagged(tag: &str, field: &str, value: &str) -> JsonValue {
    obj(vec![(tag, obj(vec![(field, s(value))]))])
}

fn document() -> JsonValue {
    let content = JsonValue::Array(vec![
        tagged("Note", "value", "S"),
        tagged("Whitespace", "value", "  "),
        tagged("Barline", "style", "|"),
        obj(vec![("Dash", JsonValue::Null)]),
        tagged("Rest", "value", "r"),
        obj(vec![("Breath", JsonValue::Bool(true))]),
        tagged("Newline", "value", "\n"),
        tagged("Unknown", "value", "<x>"),
        obj(vec![("Other", JsonValue::Number("3".to_string()))]),
    ]);
    let stave = obj(vec![(
        "Stave",
        obj(vec![(
            "lines",
            JsonValue::Array(vec![tagged("BlankLines", "content", "\n\n"), obj(vec![("Content", content)])]),
        )]),
    )]);
    obj(vec![("elements", JsonValue::Array(vec![tagged("BlankLines", "content", "\n"), stave]))])
}

#[test]
fn json_tokens_follow_byte_positions() {
    let tokens = generate_syntax_tokens_from_json(&document());
    let got: Vec<(&str, usize, usize, &str)> =
        tokens.iter().map(|t| (t.token_type.as_str(), t.start, t.end, t.content.as_str())).collect();
    assert_eq!(
        got,
        vec![
            ("blank_lines", 0, 1, "\n"),
            ("stave_blank_lines", 1, 3, "\n\n"),
            ("note", 3, 4, "S"),
            ("barline", 6, 7, "|"),
            ("dash", 7, 8, "-"),
            ("rest", 8, 9, "r"),
            ("breath", 9, 10, "'"),
            ("unknown", 11, 14, "<x>"),
        ]
    );
}

#[test]
fn json_tokens_of_other_values() {
    assert!(generate_syntax_tokens_from_json(&JsonValue::Null).is_empty());
    assert!(generate_syntax_tokens_from_json(&obj(vec![("elements", s("x"))])).is_empty());
}

#[test]
fn json_xml_escapes_and_closes_lines() {
    let xml = generate_xml_representation(&document());
    assert_eq!(
        xml,
        "<blank_lines>\n</blank_lines><stave_blank_lines>\n\n</stave_blank_lines></pre>\
<pre class=\"CodeMirror-line\" role=\"presentation\"><note>S</note><whitespace>  </whitespace><barline>|</barline>\
<dash>-</dash><rest>r</rest><breath>'</breath><newline>\n</newline><unknown>&lt;x&gt;</unknown></pre>"
    );
    assert_eq!(generate_xml_representation(&JsonValue::Array(vec![])), "");
}
