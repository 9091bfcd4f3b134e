use fast_yaml::json::{
    char_is_control, collect_pieces, pieces_of, write_escaped_char, write_int, write_nat,
    write_quoted, JsonPiece,
};
use fast_yaml::value::Value;

fn text(s: &str) -> Value {
    Value::String(s.to_string())
}

fn piece(s: &str) -> JsonPiece {
    JsonPiece::Text(s.to_string())
}

fn quoted(s: &str, key: bool) -> String {
    let mut output = String::new();
    write_quoted(s, key, &mut output);
    output
}

fn joined(pieces: &[JsonPiece]) -> String {
    let mut output = String::new();
    for p in pieces {
        match p {
            JsonPiece::Text(t) => output.push_str(t),
            other => panic!("no text for {:?}", other),
        }
    }
    output
}

#[test]
fn control_characters_are_what_unicode_says() {
    for code in 0..=0x10FFFFu32 {
        if let Some(c) = char::from_u32(code) {
            assert_eq!(char_is_control(c), c.is_control(), "{:?}", c);
        }
    }
}

#[test]
fn integers_in_decimal() {
    for number in [0, 1, 9, 10, 11, 99, 100, 12345, -1, -9, -10, -12345, i64::MAX, i64::MIN] {
        let mut output = String::new();
        write_int(number, &mut output);
        assert_eq!(output, format!("{}", number));
    }
    for number in [0, 7, 10, 1000, u64::MAX] {
        let mut output = "n=".to_string();
        write_nat(number, &mut output);
        assert_eq!(output, format!("n={}", number));
    }
}

#[test]
fn plain_text_is_quoted_as_it_is() {
    assert_eq!(quoted("", false), "\"\"");
    assert_eq!(quoted("abc", false), "\"abc\"");
    assert_eq!(quoted("h\u{e9}llo \u{1F600}", false), "\"h\u{e9}llo \u{1F600}\"");
    assert_eq!(quoted("a/b", false), "\"a/b\"");
    assert_eq!(quoted("it's", false), "\"it's\"");
}

#[test]
fn quotes_and_backslashes_are_escaped() {
    assert_eq!(quoted("say \"hi\"", false), "\"say \\\"hi\\\"\"");
    assert_eq!(quoted("a\\b", false), "\"a\\\\b\"");
    assert_eq!(quoted("say \"hi\"", true), "\"say \\\"hi\\\"\"");
    assert_eq!(quoted("a\\b", true), "\"a\\\\b\"");
}

#[test]
fn line_breaks_and_tabs_are_escaped() {
    assert_eq!(quoted("a\nb\rc\td", false), "\"a\\nb\\rc\\td\"");
    assert_eq!(quoted("a\nb\rc\td", true), "\"a\\nb\\rc\\td\"");
}

#[test]
fn control_characters_are_escaped_in_strings() {
    assert_eq!(quoted("\u{8}\u{c}", false), "\"\\b\\f\"");
    assert_eq!(quoted("\u{0}", false), "\"\\u0000\"");
    assert_eq!(quoted("\u{1}\u{b}\u{1f}", false), "\"\\u0001\\u000b\\u001f\"");
    assert_eq!(quoted("\u{7f}\u{80}\u{9f}", false), "\"\\u007f\\u0080\\u009f\"");
    assert_eq!(quoted("\u{a0}", false), "\"\u{a0}\"");
}

#[test]
fn control_characters_are_not_escaped_in_keys() {
    assert_eq!(quoted("\u{8}\u{c}", true), "\"\u{8}\u{c}\"");
    assert_eq!(quoted("\u{0}\u{1f}\u{7f}", true), "\"\u{0}\u{1f}\u{7f}\"");
}

#[test]
fn every_control_character_in_four_hexadecimal_digits() {
    for code in 0..=0x10FFFFu32 {
        if let Some(c) = char::from_u32(code) {
            let mut output = String::new();
            write_escaped_char(c, false, &mut output);
            let expected = match c {
                '"' => "\\\"".to_string(),
                '\\' => "\\\\".to_string(),
                '\n' => "\\n".to_string(),
                '\r' => "\\r".to_string(),
                '\t' => "\\t".to_string(),
                '\u{8}' => "\\b".to_string(),
                '\u{c}' => "\\f".to_string(),
                c if c.is_control() => format!("\\u{:04x}", c as u32),
                c => c.to_string(),
            };
            assert_eq!(output, expected, "{:?}", c);
        }
    }
}

#[test]
fn escaping_appends() {
    let mut output = "x".to_string();
    write_escaped_char('\n', false, &mut output);
    write_escaped_char('y', false, &mut output);
    assert_eq!(output, "x\\ny");
    write_quoted("z", false, &mut output);
    assert_eq!(output, "x\\ny\"z\"");
}

#[test]
fn scalars_have_one_piece() {
    assert_eq!(pieces_of(&Value::Null), vec![piece("null")]);
    assert_eq!(pieces_of(&Value::Bool(true)), vec![piece("true")]);
    assert_eq!(pieces_of(&Value::Bool(false)), vec![piece("false")]);
    assert_eq!(pieces_of(&Value::Int(-42)), vec![piece("-42")]);
    assert_eq!(pieces_of(&text("a\"b")), vec![piece("\"a\\\"b\"")]);
}

#[test]
fn floats_are_left_to_be_formatted() {
    assert_eq!(
        pieces_of(&Value::Float("1.50".to_string())),
        vec![JsonPiece::Float("1.50".to_string())]
    );
}

#[test]
fn aliases_and_invalid_values_have_no_text() {
    assert_eq!(pieces_of(&Value::Alias(3)), vec![JsonPiece::Alias]);
    assert_eq!(pieces_of(&Value::Invalid), vec![JsonPiece::Invalid]);
}

#[test]
fn sequences_between_brackets() {
    assert_eq!(pieces_of(&Value::Sequence(vec![])), vec![piece("["), piece("]")]);
    assert_eq!(
        pieces_of(&Value::Sequence(vec![Value::Int(1)])),
        vec![piece("["), piece("1"), piece("]")]
    );
    assert_eq!(
        pieces_of(&Value::Sequence(vec![Value::Int(1), Value::Null, text("x")])),
        vec![
            piece("["),
            piece("1"),
            piece(","),
            piece("null"),
            piece(","),
            piece("\"x\""),
            piece("]")
        ]
    );
}

#[test]
fn mappings_between_braces() {
    assert_eq!(pieces_of(&Value::Mapping(vec![])), vec![piece("{"), piece("}")]);
    assert_eq!(
        pieces_of(&Value::Mapping(vec![(text("a"), Value::Int(1)), (text("b"), Value::Bool(true))])),
        vec![
            piece("{"),
            piece("\"a\""),
            piece(":"),
            piece("1"),
            piece(","),
            piece("\"b\""),
            piece(":"),
            piece("true"),
            piece("}")
        ]
    );
}

#[test]
fn keys_that_are_no_strings_are_left_to_be_spelled() {
    let key = Value::Sequence(vec![Value::Int(1)]);
    assert_eq!(
        pieces_of(&Value::Mapping(vec![(Value::Int(5), Value::Null), (key.clone(), Value::Null)])),
        vec![
            piece("{"),
            JsonPiece::Key(Value::Int(5)),
            piece(":"),
            piece("null"),
            piece(","),
            JsonPiece::Key(key),
            piece(":"),
            piece("null"),
            piece("}")
        ]
    );
}

#[test]
fn keys_and_strings_are_escaped_differently() {
    let doc = Value::Mapping(vec![(text("k\u{8}"), text("v\u{8}"))]);
    assert_eq!(joined(&pieces_of(&doc)), "{\"k\u{8}\":\"v\\b\"}");
}

#[test]
fn nested_document_as_json_text() {
    let doc = Value::Mapping(vec![
        (
            text("store"),
            Value::Mapping(vec![(
                text("book"),
                Value::Sequence(vec![
                    Value::Mapping(vec![(text("title"), text("A \"B\"")), (text("price"), Value::Int(8))]),
                    Value::Mapping(vec![]),
                    Value::Sequence(vec![]),
                ]),
            )]),
        ),
        (text("n"), Value::Null),
    ]);
    assert_eq!(
        joined(&pieces_of(&doc)),
        "{\"store\":{\"book\":[{\"title\":\"A \\\"B\\\"\",\"price\":8},{},[]]},\"n\":null}"
    );
}

#[test]
fn pieces_come_in_the_order_of_the_document() {
    let doc = Value::Sequence(vec![
        Value::Float("x".to_string()),
        Value::Alias(1),
        Value::Float("2.5".to_string()),
        Value::Invalid,
    ]);
    assert_eq!(
        pieces_of(&doc),
        vec![
            piece("["),
            JsonPiece::Float("x".to_string()),
            piece(","),
            JsonPiece::Alias,
            piece(","),
            JsonPiece::Float("2.5".to_string()),
            piece(","),
            JsonPiece::Invalid,
            piece("]")
        ]
    );
}

#[test]
fn collecting_appends() {
    let mut pieces = vec![piece("x")];
    collect_pieces(&Value::Int(1), &mut pieces);
    collect_pieces(&Value::Sequence(vec![]), &mut pieces);
    assert_eq!(pieces, vec![piece("x"), piece("1"), piece("["), piece("]")]);
}
