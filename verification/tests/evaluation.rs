use fast_yaml::evaluator::{collect_recursive, evaluate_filter, evaluate_path, find_property};
use fast_yaml::parser::parse_path;
use fast_yaml::types::{FilterExpr, PathExpr};
use fast_yaml::value::Value;

fn text(s: &str) -> Value {
    Value::String(s.to_string())
}

fn float(s: &str) -> Value {
    Value::Float(s.to_string())
}

fn list(items: Vec<Value>) -> Value {
    Value::Sequence(items)
}

fn map(entries: Vec<(&str, Value)>) -> Value {
    Value::Mapping(entries.into_iter().map(|(k, v)| (text(k), v)).collect())
}

fn prop(name: &str) -> PathExpr {
    PathExpr::Property(name.to_string())
}

fn filter(f: FilterExpr) -> PathExpr {
    PathExpr::Filter(Box::new(f))
}

fn equals(path: PathExpr, literal: Value) -> FilterExpr {
    FilterExpr::Equals(Box::new(path), literal)
}

fn not_equals(path: PathExpr, literal: Value) -> FilterExpr {
    FilterExpr::NotEquals(Box::new(path), literal)
}

fn greater(path: PathExpr, literal: Value) -> FilterExpr {
    FilterExpr::GreaterThan(Box::new(path), literal)
}

fn less(path: PathExpr, literal: Value) -> FilterExpr {
    FilterExpr::LessThan(Box::new(path), literal)
}

fn every_kind() -> Vec<Value> {
    vec![
        Value::Null,
        Value::Bool(true),
        Value::Int(7),
        float("7.0"),
        text("7"),
        list(vec![Value::Int(7)]),
        map(vec![("a", Value::Int(7))]),
        Value::Alias(7),
        Value::Invalid,
    ]
}

fn select(doc: &Value, path: &str) -> Vec<Value> {
    let expr = parse_path(path).unwrap();
    evaluate_path(doc, &expr).into_iter().cloned().collect()
}

#[test]
fn root_selects_the_document() {
    for doc in every_kind() {
        assert_eq!(evaluate_path(&doc, &PathExpr::Root), vec![&doc]);
    }
}

#[test]
fn results_are_borrowed_from_the_document() {
    let doc = map(vec![("a", list(vec![Value::Int(1), Value::Int(2)]))]);
    let found = evaluate_path(&doc, &PathExpr::Root);
    assert!(std::ptr::eq(found[0], &doc));
    let expr = parse_path("$.a[1]").unwrap();
    let found = evaluate_path(&doc, &expr);
    let Value::Mapping(entries) = &doc else { unreachable!() };
    let Value::Sequence(items) = &entries[0].1 else { unreachable!() };
    assert_eq!(found.len(), 1);
    assert!(std::ptr::eq(found[0], &items[1]));
}

#[test]
fn index_inside_the_sequence() {
    let doc = list(vec![text("a"), text("b"), text("c")]);
    assert_eq!(evaluate_path(&doc, &PathExpr::Index(0)), vec![&text("a")]);
    assert_eq!(evaluate_path(&doc, &PathExpr::Index(2)), vec![&text("c")]);
}

#[test]
fn index_past_the_end_selects_nothing() {
    let doc = list(vec![text("a"), text("b"), text("c")]);
    for index in [3, 4, 100, usize::MAX] {
        assert!(evaluate_path(&doc, &PathExpr::Index(index)).is_empty());
    }
    assert!(evaluate_path(&list(vec![]), &PathExpr::Index(0)).is_empty());
}

#[test]
fn index_of_what_is_no_sequence_selects_nothing() {
    for doc in every_kind() {
        if !matches!(doc, Value::Sequence(_)) {
            assert!(evaluate_path(&doc, &PathExpr::Index(0)).is_empty());
        }
    }
}

#[test]
fn property_of_a_mapping() {
    let doc = map(vec![("a", Value::Int(1)), ("b", Value::Int(2))]);
    assert_eq!(evaluate_path(&doc, &prop("a")), vec![&Value::Int(1)]);
    assert_eq!(evaluate_path(&doc, &prop("b")), vec![&Value::Int(2)]);
}

#[test]
fn absent_property_selects_nothing() {
    let doc = map(vec![("a", Value::Int(1)), ("b", Value::Int(2))]);
    assert!(evaluate_path(&doc, &prop("c")).is_empty());
    assert!(evaluate_path(&doc, &prop("")).is_empty());
    assert!(evaluate_path(&doc, &prop("A")).is_empty());
    assert!(evaluate_path(&map(vec![]), &prop("a")).is_empty());
}

#[test]
fn property_of_what_is_no_mapping_selects_nothing() {
    for doc in every_kind() {
        if !matches!(doc, Value::Mapping(_)) {
            assert!(evaluate_path(&doc, &prop("a")).is_empty());
        }
    }
}

#[test]
fn property_finds_the_first_of_equal_keys() {
    let doc = map(vec![("a", Value::Int(1)), ("b", Value::Int(2)), ("a", Value::Int(3))]);
    assert_eq!(evaluate_path(&doc, &prop("a")), vec![&Value::Int(1)]);
}

#[test]
fn property_matches_string_keys_only() {
    let doc = Value::Mapping(vec![
        (Value::Int(1), text("number")),
        (Value::Bool(true), text("flag")),
        (float("1"), text("float")),
        (Value::Null, text("nothing")),
        (text("1"), text("string")),
    ]);
    assert_eq!(evaluate_path(&doc, &prop("1")), vec![&text("string")]);
    assert!(evaluate_path(&doc, &prop("true")).is_empty());
    assert!(evaluate_path(&doc, &prop("null")).is_empty());
}

#[test]
fn find_property_gives_the_first_match() {
    let entries = vec![
        (text("a"), Value::Int(1)),
        (Value::Int(5), Value::Int(2)),
        (text("a"), Value::Int(3)),
    ];
    assert_eq!(find_property(&entries, &"a".to_string()), Some(&Value::Int(1)));
    assert_eq!(find_property(&entries, &"5".to_string()), None);
    assert_eq!(find_property(&Vec::new(), &"a".to_string()), None);
}

#[test]
fn wildcard_keeps_the_order_of_a_sequence() {
    let doc = list(vec![text("a"), text("b"), text("c")]);
    assert_eq!(
        evaluate_path(&doc, &PathExpr::Wildcard),
        vec![&text("a"), &text("b"), &text("c")]
    );
    let doc = list(vec![Value::Int(3), Value::Int(1), Value::Int(3), Value::Int(2)]);
    assert_eq!(
        evaluate_path(&doc, &PathExpr::Wildcard),
        vec![&Value::Int(3), &Value::Int(1), &Value::Int(3), &Value::Int(2)]
    );
}

#[test]
fn wildcard_selects_the_values_of_a_mapping_in_stored_order() {
    let doc = map(vec![("z", Value::Int(1)), ("a", Value::Int(2)), ("m", Value::Int(3))]);
    assert_eq!(
        evaluate_path(&doc, &PathExpr::Wildcard),
        vec![&Value::Int(1), &Value::Int(2), &Value::Int(3)]
    );
}

#[test]
fn wildcard_of_a_scalar_or_an_empty_collection_selects_nothing() {
    for doc in every_kind() {
        if !matches!(doc, Value::Sequence(_) | Value::Mapping(_)) {
            assert!(evaluate_path(&doc, &PathExpr::Wildcard).is_empty());
        }
    }
    assert!(evaluate_path(&list(vec![]), &PathExpr::Wildcard).is_empty());
    assert!(evaluate_path(&map(vec![]), &PathExpr::Wildcard).is_empty());
}

#[test]
fn recursive_descent_is_complete_and_in_pre_order() {
    let inner = map(vec![("b", Value::Int(2))]);
    let items = list(vec![Value::Int(1), inner.clone()]);
    let doc = map(vec![("a", items.clone())]);
    assert_eq!(
        evaluate_path(&doc, &PathExpr::RecursiveDescent),
        vec![&doc, &items, &Value::Int(1), &inner, &Value::Int(2)]
    );
}

#[test]
fn recursive_descent_of_a_scalar_is_the_scalar() {
    for doc in every_kind() {
        if !matches!(doc, Value::Sequence(_) | Value::Mapping(_)) {
            assert_eq!(evaluate_path(&doc, &PathExpr::RecursiveDescent), vec![&doc]);
        }
    }
}

#[test]
fn recursive_descent_does_not_visit_keys() {
    let doc = Value::Mapping(vec![(list(vec![Value::Int(9)]), Value::Int(1))]);
    assert_eq!(
        evaluate_path(&doc, &PathExpr::RecursiveDescent),
        vec![&doc, &Value::Int(1)]
    );
}

#[test]
fn recursive_descent_goes_depth_first() {
    let left = list(vec![Value::Int(1), list(vec![Value::Int(2)])]);
    let right = list(vec![Value::Int(3)]);
    let doc = list(vec![left.clone(), right.clone()]);
    assert_eq!(
        evaluate_path(&doc, &PathExpr::RecursiveDescent),
        vec![
            &doc,
            &left,
            &Value::Int(1),
            &list(vec![Value::Int(2)]),
            &Value::Int(2),
            &right,
            &Value::Int(3)
        ]
    );
}

#[test]
fn collect_recursive_appends() {
    let first = Value::Int(0);
    let doc = list(vec![Value::Int(1), Value::Int(2)]);
    let mut results = vec![&first];
    collect_recursive(&doc, &mut results);
    assert_eq!(results, vec![&first, &doc, &Value::Int(1), &Value::Int(2)]);
}

#[test]
fn recursive_descent_then_property() {
    let doc = map(vec![
        ("a", Value::Int(1)),
        ("b", map(vec![("a", Value::Int(2)), ("c", list(vec![map(vec![("a", Value::Int(3))])]))])),
    ]);
    assert_eq!(select(&doc, "$..a"), vec![Value::Int(1), Value::Int(2), Value::Int(3)]);
}

#[test]
fn filter_excludes_on_equality_and_includes_on_inequality_when_the_property_is_absent() {
    let with = map(vec![("x", Value::Int(5))]);
    let other = map(vec![("x", Value::Int(6))]);
    let without = map(vec![("y", Value::Int(5))]);
    let doc = list(vec![with.clone(), other.clone(), without.clone()]);
    assert_eq!(
        evaluate_path(&doc, &filter(equals(prop("x"), Value::Int(5)))),
        vec![&with]
    );
    assert_eq!(
        evaluate_path(&doc, &filter(not_equals(prop("x"), Value::Int(5)))),
        vec![&other, &without]
    );
}

#[test]
fn filter_keeps_the_order_and_the_duplicates() {
    let doc = list(vec![
        map(vec![("n", Value::Int(1)), ("id", text("a"))]),
        map(vec![("n", Value::Int(2)), ("id", text("b"))]),
        map(vec![("n", Value::Int(1)), ("id", text("c"))]),
        map(vec![("n", Value::Int(1)), ("id", text("a"))]),
    ]);
    assert_eq!(
        select(&doc, "$[?(@.n==1)].id"),
        vec![text("a"), text("c"), text("a")]
    );
}

#[test]
fn filter_of_what_is_no_sequence_selects_nothing() {
    let always = not_equals(prop("none"), Value::Null);
    for doc in every_kind() {
        if !matches!(doc, Value::Sequence(_)) {
            assert!(evaluate_path(&doc, &filter(always.clone())).is_empty());
        }
    }
    assert!(evaluate_path(&list(vec![]), &filter(always)).is_empty());
}

#[test]
fn flat_map_keeps_the_order_of_the_inputs() {
    let doc = map(vec![(
        "a",
        list(vec![map(vec![("b", Value::Int(1))]), map(vec![("b", Value::Int(2))])]),
    )]);
    assert_eq!(select(&doc, ".a[*].b"), vec![Value::Int(1), Value::Int(2)]);
}

#[test]
fn each_input_is_finished_before_the_next() {
    let doc = list(vec![
        list(vec![Value::Int(1), Value::Int(2)]),
        list(vec![]),
        list(vec![Value::Int(3)]),
        Value::Int(4),
        list(vec![Value::Int(5), Value::Int(6)]),
    ]);
    assert_eq!(
        select(&doc, "$[*][*]"),
        vec![Value::Int(1), Value::Int(2), Value::Int(3), Value::Int(5), Value::Int(6)]
    );
}

#[test]
fn empty_chain_selects_the_value() {
    let doc = list(vec![Value::Int(1)]);
    assert_eq!(evaluate_path(&doc, &PathExpr::Sequence(vec![])), vec![&doc]);
}

#[test]
fn root_inside_a_chain_keeps_each_value() {
    let doc = list(vec![Value::Int(1), Value::Int(2)]);
    let path = PathExpr::Sequence(vec![PathExpr::Wildcard, PathExpr::Root]);
    assert_eq!(evaluate_path(&doc, &path), vec![&Value::Int(1), &Value::Int(2)]);
}

#[test]
fn a_step_that_selects_nothing_empties_the_chain() {
    let doc = map(vec![("a", list(vec![Value::Int(1)]))]);
    assert!(select(&doc, "$.b[*]").is_empty());
    assert!(select(&doc, "$.a[5].x").is_empty());
    assert!(select(&doc, "$.a.x").is_empty());
}

#[test]
fn a_value_may_be_selected_twice() {
    let doc = list(vec![Value::Int(1)]);
    let twice = PathExpr::Sequence(vec![
        PathExpr::RecursiveDescent,
        PathExpr::RecursiveDescent,
    ]);
    assert_eq!(
        evaluate_path(&doc, &twice),
        vec![&doc, &Value::Int(1), &Value::Int(1)]
    );
}

#[test]
fn integer_literal_does_not_match_a_string() {
    let number = map(vec![("n", Value::Int(5))]);
    let string = map(vec![("n", text("5"))]);
    let doc = list(vec![number.clone(), string.clone()]);
    assert_eq!(select(&doc, "$[?(@.n==5)]"), vec![number]);
    assert_eq!(select(&doc, "$[?(@.n==\"5\")]"), vec![string]);
}

#[test]
fn equality_is_by_kind_and_content() {
    let kinds = every_kind();
    for (i, a) in kinds.iter().enumerate() {
        for (j, b) in kinds.iter().enumerate() {
            let holds = evaluate_filter(a, &equals(PathExpr::Root, b.clone()));
            assert_eq!(holds, i == j);
            let differs = evaluate_filter(a, &not_equals(PathExpr::Root, b.clone()));
            assert_eq!(differs, i != j);
        }
    }
}

#[test]
fn float_literal_matches_by_its_text() {
    let doc = list(vec![
        map(vec![("v", float("1.50"))]),
        map(vec![("v", float("1.5"))]),
        map(vec![("v", Value::Int(1))]),
        map(vec![("v", text("1.5"))]),
    ]);
    assert_eq!(select(&doc, "$[?(@.v==1.5)].v"), vec![float("1.5")]);
    let holds = evaluate_filter(&float("1.5"), &equals(PathExpr::Root, float("1.5")));
    assert!(holds);
    let holds = evaluate_filter(&float("1.50"), &equals(PathExpr::Root, float("1.5")));
    assert!(!holds);
}

#[test]
fn equals_needs_one_match_and_not_equals_needs_none() {
    let candidate = list(vec![Value::Int(1), Value::Int(2)]);
    assert!(evaluate_filter(&candidate, &equals(PathExpr::Wildcard, Value::Int(2))));
    assert!(!evaluate_filter(&candidate, &not_equals(PathExpr::Wildcard, Value::Int(2))));
    assert!(!evaluate_filter(&candidate, &equals(PathExpr::Wildcard, Value::Int(3))));
    assert!(evaluate_filter(&candidate, &not_equals(PathExpr::Wildcard, Value::Int(3))));
    let empty = list(vec![]);
    assert!(!evaluate_filter(&empty, &equals(PathExpr::Wildcard, Value::Int(3))));
    assert!(evaluate_filter(&empty, &not_equals(PathExpr::Wildcard, Value::Int(3))));
}

#[test]
fn greater_and_less_on_integers() {
    let doc = list(vec![
        map(vec![("n", Value::Int(-3))]),
        map(vec![("n", Value::Int(5))]),
        map(vec![("n", Value::Int(10))]),
        map(vec![("m", Value::Int(10))]),
    ]);
    assert_eq!(select(&doc, "$[?(@.n>5)].n"), vec![Value::Int(10)]);
    assert_eq!(select(&doc, "$[?(@.n<5)].n"), vec![Value::Int(-3)]);
    assert_eq!(select(&doc, "$[?(@.n>-4)].n"), vec![Value::Int(-3), Value::Int(5), Value::Int(10)]);
    assert_eq!(select(&doc, "$[?(@.n<-3)].n"), vec![]);
}

#[test]
fn greater_and_less_on_strings() {
    let doc = list(
        ["apple", "b", "banana", "B", ""].into_iter().map(|s| map(vec![("s", text(s))])).collect(),
    );
    assert_eq!(select(&doc, "$[?(@.s>\"b\")].s"), vec![text("banana")]);
    assert_eq!(select(&doc, "$[?(@.s<\"b\")].s"), vec![text("apple"), text("B"), text("")]);
}

#[test]
fn strings_order_by_code_point() {
    let small = text("z");
    let large = text("\u{e9}");
    assert!(evaluate_filter(&large, &greater(PathExpr::Root, small.clone())));
    assert!(evaluate_filter(&small, &less(PathExpr::Root, large.clone())));
    let astral = text("\u{1F600}");
    let high = text("\u{FFFD}");
    assert!(evaluate_filter(&astral, &greater(PathExpr::Root, high.clone())));
    assert_eq!("\u{1F600}" > "\u{FFFD}", true);
}

#[test]
fn comparison_across_kinds_never_holds() {
    let kinds = every_kind();
    for (i, a) in kinds.iter().enumerate() {
        for (j, b) in kinds.iter().enumerate() {
            if i != j {
                assert!(!evaluate_filter(a, &greater(PathExpr::Root, b.clone())));
                assert!(!evaluate_filter(a, &less(PathExpr::Root, b.clone())));
            }
        }
    }
}

#[test]
fn nothing_is_greater_or_less_than_itself() {
    for a in every_kind() {
        assert!(!evaluate_filter(&a, &greater(PathExpr::Root, a.clone())));
        assert!(!evaluate_filter(&a, &less(PathExpr::Root, a.clone())));
    }
}

#[test]
fn integer_and_float_are_different_kinds() {
    assert!(!evaluate_filter(&Value::Int(2), &greater(PathExpr::Root, float("1.5"))));
    assert!(!evaluate_filter(&Value::Int(1), &less(PathExpr::Root, float("1.5"))));
    assert!(!evaluate_filter(&float("2.5"), &greater(PathExpr::Root, Value::Int(1))));
}

#[test]
fn conjunction_and_disjunction_of_filters() {
    let doc = list(vec![
        map(vec![("a", Value::Int(1)), ("b", Value::Int(1))]),
        map(vec![("a", Value::Int(1)), ("b", Value::Int(2))]),
        map(vec![("a", Value::Int(2)), ("b", Value::Int(1))]),
        map(vec![("a", Value::Int(2)), ("b", Value::Int(2))]),
    ]);
    assert_eq!(select(&doc, "$[?(@.a==1 && @.b==1)].b"), vec![Value::Int(1)]);
    assert_eq!(
        select(&doc, "$[?(@.a==1 || @.b==1)].b"),
        vec![Value::Int(1), Value::Int(2), Value::Int(1)]
    );
    let t = not_equals(prop("none"), Value::Null);
    let f = equals(prop("none"), Value::Null);
    let any = Value::Null;
    for (l, left) in [(true, &t), (false, &f)] {
        for (r, right) in [(true, &t), (false, &f)] {
            let and = FilterExpr::And(Box::new(left.clone()), Box::new(right.clone()));
            let or = FilterExpr::Or(Box::new(left.clone()), Box::new(right.clone()));
            assert_eq!(evaluate_filter(&any, &and), l && r);
            assert_eq!(evaluate_filter(&any, &or), l || r);
        }
    }
}

#[test]
fn evaluation_of_a_store() {
    let book = |title: &str, price: i64| map(vec![("title", text(title)), ("price", Value::Int(price))]);
    let doc = map(vec![(
        "store",
        map(vec![
            ("book", list(vec![book("A", 8), book("B", 12), book("C", 5)])),
            ("bicycle", map(vec![("price", Value::Int(20))])),
        ]),
    )]);
    assert_eq!(select(&doc, "$.store.book[*].title"), vec![text("A"), text("B"), text("C")]);
    assert_eq!(select(&doc, "$.store.book[1].title"), vec![text("B")]);
    assert_eq!(select(&doc, "$.store.book[?(@.price<10)].title"), vec![text("A"), text("C")]);
    assert_eq!(
        select(&doc, "$..price"),
        vec![Value::Int(8), Value::Int(12), Value::Int(5), Value::Int(20)]
    );
    assert_eq!(select(&doc, "$.store.*.price"), vec![Value::Int(20)]);
    assert_eq!(select(&doc, "$.store.book[3]"), vec![]);
}

#[test]
fn deep_documents() {
    let mut doc = Value::Int(7);
    let mut steps: Vec<&str> = Vec::new();
    for level in 0..300 {
        if level % 2 == 0 {
            doc = list(vec![doc]);
            steps.push("[0]");
        } else {
            doc = map(vec![("k", doc)]);
            steps.push(".k");
        }
    }
    steps.reverse();
    let written = format!("${}", steps.concat());
    assert_eq!(select(&doc, &written), vec![Value::Int(7)]);
    assert_eq!(evaluate_path(&doc, &PathExpr::RecursiveDescent).len(), 301);
    assert!(select(&doc, "$[0]").is_empty());
}

#[test]
fn wide_documents() {
    let doc = list((0..2000).map(|n| map(vec![("n", Value::Int(n))])).collect());
    let found = select(&doc, "$[?(@.n>1989)].n");
    assert_eq!(found, (1990..2000).map(Value::Int).collect::<Vec<_>>());
    assert_eq!(select(&doc, "$[*].n").len(), 2000);
    assert_eq!(select(&doc, "$..n").len(), 2000);
    assert_eq!(select(&doc, "$[1999].n"), vec![Value::Int(1999)]);
}

#[test]
fn greater_and_less_on_floats_are_numeric() {
    let doc = map(vec![("n", float("10.0"))]);
    assert!(evaluate_filter(&doc, &greater(prop("n"), float("9.0"))));
    assert!(!evaluate_filter(&doc, &less(prop("n"), float("9.0"))));
    assert!(!evaluate_filter(&doc, &greater(prop("n"), float("10.00"))));
    assert!(!evaluate_filter(&doc, &less(prop("n"), float("10.00"))));
    let doc = list(
        ["1.5", "10.0", "9.25", "-3.0", "2.50", "1e3", ".inf"]
            .into_iter()
            .map(|s| map(vec![("n", float(s))]))
            .collect(),
    );
    assert_eq!(
        select(&doc, "$[?(@.n>2.5)].n"),
        vec![float("10.0"), float("9.25")]
    );
    assert_eq!(select(&doc, "$[?(@.n<2.5)].n"), vec![float("1.5"), float("-3.0")]);
    assert_eq!(select(&doc, "$[?(@.n>-3.5)].n").len(), 5);
    assert_eq!(select(&doc, "$[?(@.n==2.50)].n"), vec![float("2.50")]);
    assert_eq!(select(&doc, "$[?(@.n==2.5)].n"), vec![]);
}
