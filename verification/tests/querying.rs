use fast_yaml::error::ParseError;
use fast_yaml::loader::load_documents;
use fast_yaml::query::{copy_values, query, query_documents, QueryError};
use fast_yaml::value::Value;
use yaml_rust2::{Yaml, YamlLoader};

fn text(s: &str) -> Value {
    Value::String(s.to_string())
}

fn map(entries: Vec<(&str, Value)>) -> Value {
    Value::Mapping(entries.into_iter().map(|(k, v)| (text(k), v)).collect())
}

#[test]
fn a_document_is_read_into_values() {
    let documents = load_documents("a: 1\nb: [x, 2.5, true, ~]\n").unwrap();
    assert_eq!(
        documents,
        vec![map(vec![
            ("a", Value::Int(1)),
            (
                "b",
                Value::Sequence(vec![
                    text("x"),
                    Value::Float("2.5".to_string()),
                    Value::Bool(true),
                    Value::Null
                ])
            ),
        ])]
    );
}

#[test]
fn mapping_entries_keep_their_order() {
    let documents = load_documents("z: 1\na: 2\nm: 3\n").unwrap();
    assert_eq!(
        documents,
        vec![map(vec![("z", Value::Int(1)), ("a", Value::Int(2)), ("m", Value::Int(3))])]
    );
}

#[test]
fn keys_need_not_be_strings() {
    let documents = load_documents("1: one\ntrue: yes\n").unwrap();
    assert_eq!(
        documents,
        vec![Value::Mapping(vec![
            (Value::Int(1), text("one")),
            (Value::Bool(true), text("yes")),
        ])]
    );
}

#[test]
fn several_documents_are_read_in_order() {
    let documents = load_documents("--- 1\n--- two\n--- [3]\n").unwrap();
    assert_eq!(
        documents,
        vec![Value::Int(1), text("two"), Value::Sequence(vec![Value::Int(3)])]
    );
}

#[test]
fn an_empty_text_has_no_document() {
    assert_eq!(load_documents(""), Ok(vec![]));
}

#[test]
fn malformed_yaml_is_reported_with_its_place() {
    for written in ["a: [1, 2\nb: 3\n", "a: b: c\n", "\"open", "- a\n b: [\n", "{a: 1, a: 2}"] {
        let error = load_documents(written).unwrap_err();
        let expected = YamlLoader::load_from_str(written).unwrap_err();
        assert_eq!(error.info, expected.info());
        assert_eq!(error.index, expected.marker().index());
        assert_eq!(error.line, expected.marker().line());
        assert_eq!(error.column, expected.marker().col());
        assert!(!error.info.is_empty());
    }
}

fn value_of(yaml: &Yaml) -> Value {
    match yaml {
        Yaml::Real(s) => Value::Float(s.clone()),
        Yaml::Integer(i) => Value::Int(*i),
        Yaml::String(s) => Value::String(s.clone()),
        Yaml::Boolean(b) => Value::Bool(*b),
        Yaml::Array(a) => Value::Sequence(a.iter().map(value_of).collect()),
        Yaml::Hash(h) => Value::Mapping(h.iter().map(|(k, v)| (value_of(k), value_of(v))).collect()),
        Yaml::Alias(n) => Value::Alias(*n),
        Yaml::Null => Value::Null,
        Yaml::BadValue => Value::Invalid,
    }
}

#[test]
fn documents_are_what_the_loader_reads() {
    for written in [
        "",
        "~",
        "42",
        "-1.5e3",
        ".inf",
        "plain text",
        "'quoted: text'",
        "[1, [2, [3, {a: b}]]]",
        "a:\n  b:\n    - c\n    - d: [e, f]\n  g: !!str 5\n",
        "? [1, 2]\n: pair\n? {k: v}\n: map\n",
        "anchor: &x [1, 2]\nalias: *x\n",
        "--- a\n--- b\n...\n--- c\n",
        "empty: {}\nnone: []\nnull: ~\ntrue: yes\n",
        "!!int notanumber",
        "---\n...\n",
    ] {
        let expected: Vec<Value> = YamlLoader::load_from_str(written)
            .unwrap()
            .iter()
            .map(value_of)
            .collect();
        assert_eq!(load_documents(written), Ok(expected), "{:?}", written);
    }
}

#[test]
fn query_selects_from_the_first_document() {
    let yaml = "store:\n  book:\n    - title: A\n      price: 8\n    - title: B\n      price: 12\n";
    assert_eq!(query(yaml, "$.store.book[*].title"), Ok(vec![text("A"), text("B")]));
    assert_eq!(query(yaml, "$.store.book[?(@.price>10)].title"), Ok(vec![text("B")]));
    assert_eq!(query(yaml, "$..price"), Ok(vec![Value::Int(8), Value::Int(12)]));
    assert_eq!(query("--- [1]\n--- [2]\n", "$[0]"), Ok(vec![Value::Int(1)]));
}

#[test]
fn query_without_a_match_is_empty() {
    assert_eq!(query("a: 1\n", "$.b"), Ok(vec![]));
    assert_eq!(query("a: 1\n", "$[0]"), Ok(vec![]));
}

#[test]
fn query_reports_a_malformed_path() {
    assert_eq!(query("a: 1\n", "x.a"), Err(QueryError::Path(ParseError::MissingRoot)));
    assert_eq!(query("a: 1\n", "$.a["), Err(QueryError::Path(ParseError::InvalidSelector)));
}

#[test]
fn query_of_an_empty_text_is_empty_whatever_the_path() {
    assert_eq!(query("", "$.a"), Ok(vec![]));
    assert_eq!(query("", "not a path"), Ok(vec![]));
}

#[test]
fn query_reports_malformed_yaml_before_the_path() {
    let written = "a: [1, 2\nb: 3\n";
    let expected = YamlLoader::load_from_str(written).unwrap_err();
    for path in ["$.a", "not a path", "$.a]"] {
        match query(written, path) {
            Err(QueryError::Yaml(error)) => {
                assert_eq!(error.info, expected.info());
                assert_eq!(error.index, expected.marker().index());
                assert_eq!(error.line, expected.marker().line());
                assert_eq!(error.column, expected.marker().col());
            }
            other => panic!("{:?}", other),
        }
    }
}

#[test]
fn query_rejects_a_path_that_goes_on_after_its_last_segment() {
    assert_eq!(
        query("a: 1\n", "$.a]"),
        Err(QueryError::Path(ParseError::ExpectedEnd { found: ']' }))
    );
    assert_eq!(
        query("a: 1\n", "$..a.b"),
        Err(QueryError::Path(ParseError::ExpectedEnd { found: '.' }))
    );
    assert_eq!(query("", "$.a]"), Ok(vec![]));
}

#[test]
fn query_documents_borrows_from_the_first_document() {
    let documents = vec![map(vec![("a", Value::Int(1))]), map(vec![("a", Value::Int(2))])];
    let found = query_documents(&documents, "$.a").unwrap();
    assert_eq!(found, vec![&Value::Int(1)]);
    let Value::Mapping(entries) = &documents[0] else { unreachable!() };
    assert!(std::ptr::eq(found[0], &entries[0].1));
    assert_eq!(query_documents(&documents, "$.a."), Err(ParseError::ExpectedIdentifier));
    assert_eq!(query_documents(&Vec::new(), "$.a."), Ok(vec![]));
}

#[test]
fn copies_of_found_values() {
    let a = Value::Int(1);
    let b = Value::Sequence(vec![text("x")]);
    assert_eq!(copy_values(&vec![&a, &b, &a]), vec![a.clone(), b.clone(), a.clone()]);
    assert_eq!(copy_values(&Vec::new()), Vec::<Value>::new());
}

#[test]
fn parse_lays_out_the_first_document() {
    let pieces = fast_yaml::parse::parse("a: [1, x]\n--- second\n").unwrap().unwrap();
    let written: Vec<String> = pieces
        .iter()
        .map(|p| match p {
            fast_yaml::json::JsonPiece::Text(t) => t.clone(),
            other => panic!("no text for {:?}", other),
        })
        .collect();
    assert_eq!(written.concat(), "{\"a\":[1,\"x\"]}");
}

#[test]
fn parse_of_a_text_without_a_document() {
    assert_eq!(fast_yaml::parse::parse(""), Ok(None));
    assert_eq!(fast_yaml::parse::parse_all(""), Ok(vec![]));
}

#[test]
fn parse_reports_malformed_yaml() {
    let expected = load_documents("a: [1, 2\nb: 3\n").unwrap_err();
    assert_eq!(fast_yaml::parse::parse("a: [1, 2\nb: 3\n"), Err(expected.clone()));
    assert_eq!(fast_yaml::parse::parse_all("a: [1, 2\nb: 3\n"), Err(expected));
}

#[test]
fn parse_all_lays_out_every_document() {
    let texts = fast_yaml::parse::parse_all("--- 1\n--- [a, 2.5]\n--- ~\n").unwrap();
    let expected: Vec<Vec<fast_yaml::json::JsonPiece>> = load_documents("--- 1\n--- [a, 2.5]\n--- ~\n")
        .unwrap()
        .iter()
        .map(fast_yaml::json::pieces_of)
        .collect();
    assert_eq!(texts, expected);
    assert_eq!(texts.len(), 3);
    assert_eq!(texts[0], vec![fast_yaml::json::JsonPiece::Text("1".to_string())]);
    assert_eq!(
        texts[1][3],
        fast_yaml::json::JsonPiece::Float("2.5".to_string())
    );
    assert_eq!(texts[2], vec![fast_yaml::json::JsonPiece::Text("null".to_string())]);
}
