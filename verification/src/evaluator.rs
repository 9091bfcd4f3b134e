use crate::order::{model_greater, model_less, Order};
use crate::semantics::{
    descendants, descendants_of_entries, descendants_of_items, entry_values, eval_each,
    eval_filter, eval_path, eval_steps, keep_matching, lookup, lookup_from,
};
use crate::types::{lemma_view_of_steps, path_models, FilterExpr, PathExpr};
use crate::value::{
    entry_models, lemma_children_are_parts, lemma_part_of_part, lemma_view_of_collections,
    models, part_of, ref_models, Value, ValueModel,
};
use vstd::prelude::*;

verus! {

/// Looks a string key up in the entries of a mapping: the value of the
/// first entry whose key is that string.
pub fn find_property<'a>(entries: &'a Vec<(Value, Value)>, name: &String) -> (found: Option<
    &'a Value,
>)
    ensures
        match found {
            Some(v) => lookup(entry_models(entries@), ValueModel::String(name@)) == Some(v@),
            None => lookup(entry_models(entries@), ValueModel::String(name@)) is None,
        },
        found matches Some(v) ==> exists|i: int|
            0 <= i < entries@.len() && (#[trigger] entries@[i]).1 == *v,
{
    let mut i: usize = 0;
    while i < entries.len()
        invariant
            i <= entries.len(),
            lookup_from(entry_models(entries@), ValueModel::String(name@), i as int) == lookup(
                entry_models(entries@),
                ValueModel::String(name@),
            ),
        decreases entries.len() - i,
    {
        let is_key = match &entries[i].0 {
            Value::String(key) => *key == *name,
            _ => false,
        };
        if is_key {
            return Some(&entries[i].1);
        }
        i += 1;
    }
    None
}

/// Appends to `results` the value and everything below it, in pre-order.
#[verifier::loop_isolation(false)]
pub fn collect_recursive<'a>(yaml: &'a Value, results: &mut Vec<&'a Value>)
    ensures
        ref_models(final(results)@) == ref_models(old(results)@) + descendants(yaml@),
        final(results)@.len() >= old(results)@.len(),
        final(results)@.take(old(results)@.len() as int) == old(results)@,
        forall|i: int|
            old(results)@.len() <= i < final(results)@.len() ==> part_of(
                *yaml,
                *#[trigger] final(results)@[i],
            ),
    decreases yaml,
{
    proof {
        lemma_view_of_collections(*yaml);
    }
    let ghost start = results@.len() as int;
    results.push(yaml);
    match yaml {
        Value::Sequence(items) => {
            let mut i: usize = 0;
            while i < items.len()
                invariant
                    i <= items.len(),
                    ref_models(results@) == ref_models(old(results)@) + seq![yaml@]
                        + descendants_of_items(models(items@), i as nat),
                    results@.len() > start,
                    results@.take(start) == old(results)@,
                    forall|k: int|
                        start <= k < results@.len() ==> part_of(*yaml, *#[trigger] results@[k]),
                decreases items.len() - i,
            {
                let ghost before = results@;
                collect_recursive(&items[i], results);
                proof {
                    assert forall|k: int| start <= k < results@.len() implies part_of(
                        *yaml,
                        *#[trigger] results@[k],
                    ) by {
                        if k < before.len() {
                            assert(results@.take(before.len() as int)[k] == before[k]);
                        }
                    }
                }
                i += 1;
            }
        },
        Value::Mapping(entries) => {
            let mut i: usize = 0;
            while i < entries.len()
                invariant
                    i <= entries.len(),
                    ref_models(results@) == ref_models(old(results)@) + seq![yaml@]
                        + descendants_of_entries(entry_models(entries@), i as nat),
                    results@.len() > start,
                    results@.take(start) == old(results)@,
                    forall|k: int|
                        start <= k < results@.len() ==> part_of(*yaml, *#[trigger] results@[k]),
                decreases entries.len() - i,
            {
                let ghost before = results@;
                collect_recursive(&entries[i].1, results);
                proof {
                    assert forall|k: int| start <= k < results@.len() implies part_of(
                        *yaml,
                        *#[trigger] results@[k],
                    ) by {
                        if k < before.len() {
                            assert(results@.take(before.len() as int)[k] == before[k]);
                        }
                    }
                }
                i += 1;
            }
        },
        _ => {},
    }
}

/// Whether every value of `found` lies in `whole`.
pub open spec fn all_part_of(whole: Value, found: Seq<&Value>) -> bool {
    forall|i: int| 0 <= i < found.len() ==> part_of(whole, *#[trigger] found[i])
}

/// Evaluates a path expression on a value: the values that it selects,
/// in order. Each of them is borrowed from the value and lies in it. A step
/// that does not fit the value it meets selects nothing.
#[verifier::loop_isolation(false)]
pub fn evaluate_path<'a>(yaml: &'a Value, path: &PathExpr) -> (results: Vec<&'a Value>)
    ensures
        ref_models(results@) == eval_path(yaml@, path@),
        all_part_of(*yaml, results@),
    decreases path,
{
    proof {
        lemma_view_of_collections(*yaml);
        lemma_children_are_parts(*yaml);
        lemma_view_of_steps(*path);
    }
    let mut results: Vec<&'a Value> = Vec::new();
    match path {
        PathExpr::Root => {
            results.push(yaml);
        },
        PathExpr::Property(name) => {
            if let Value::Mapping(entries) = yaml {
                if let Some(value) = find_property(entries, name) {
                    results.push(value);
                }
            }
        },
        PathExpr::Index(index) => {
            if let Value::Sequence(items) = yaml {
                if *index < items.len() {
                    results.push(&items[*index]);
                }
            }
        },
        PathExpr::Wildcard => {
            if let Value::Sequence(items) = yaml {
                let mut i: usize = 0;
                while i < items.len()
                    invariant
                        i <= items.len(),
                        ref_models(results@) == models(items@).take(i as int),
                        all_part_of(*yaml, results@),
                    decreases items.len() - i,
                {
                    results.push(&items[i]);
                    i += 1;
                }
            } else if let Value::Mapping(entries) = yaml {
                let mut i: usize = 0;
                while i < entries.len()
                    invariant
                        i <= entries.len(),
                        ref_models(results@) == entry_values(entry_models(entries@)).take(
                            i as int,
                        ),
                        all_part_of(*yaml, results@),
                    decreases entries.len() - i,
                {
                    results.push(&entries[i].1);
                    i += 1;
                }
            }
        },
        PathExpr::RecursiveDescent => {
            collect_recursive(yaml, &mut results);
        },
        PathExpr::Filter(filter) => {
            if let Value::Sequence(items) = yaml {
                let mut i: usize = 0;
                while i < items.len()
                    invariant
                        i <= items.len(),
                        ref_models(results@) == keep_matching(models(items@), filter@, i as nat),
                        all_part_of(*yaml, results@),
                    decreases items.len() - i,
                {
                    if evaluate_filter(&items[i], filter) {
                        results.push(&items[i]);
                    }
                    i += 1;
                }
            }
        },
        PathExpr::Sequence(steps) => {
            results.push(yaml);
            let mut k: usize = 0;
            while k < steps.len()
                invariant
                    k <= steps.len(),
                    ref_models(results@) == eval_steps(seq![yaml@], path_models(steps@), k as nat),
                    all_part_of(*yaml, results@),
                decreases steps.len() - k,
            {
                let mut selected: Vec<&'a Value> = Vec::new();
                let mut j: usize = 0;
                while j < results.len()
                    invariant
                        j <= results.len(),
                        ref_models(selected@) == eval_each(
                            ref_models(results@),
                            steps@[k as int]@,
                            j as nat,
                        ),
                        all_part_of(*yaml, selected@),
                    decreases results.len() - j,
                {
                    let input = results[j];
                    let mut found = evaluate_path(input, &steps[k]);
                    let ghost before = selected@;
                    let ghost added = found@;
                    selected.append(&mut found);
                    proof {
                        assert forall|i: int| 0 <= i < selected@.len() implies part_of(
                            *yaml,
                            *#[trigger] selected@[i],
                        ) by {
                            if i >= before.len() {
                                lemma_part_of_part(*yaml, *input, *added[i - before.len()]);
                            }
                        }
                    }
                    j += 1;
                }
                results = selected;
                k += 1;
            }
        },
    }
    results
}

/// Tells whether a candidate value satisfies a filter expression.
#[verifier::loop_isolation(false)]
pub fn evaluate_filter(yaml: &Value, filter: &FilterExpr) -> (holds: bool)
    ensures
        holds == eval_filter(yaml@, filter@),
    decreases filter,
{
    match filter {
        FilterExpr::Equals(path, value) => {
            let results = evaluate_path(yaml, path);
            let mut i: usize = 0;
            while i < results.len()
                invariant
                    i <= results.len(),
                    forall|j: int| 0 <= j < i ==> ref_models(results@)[j] != value@,
                decreases results.len() - i,
            {
                if results[i].structurally_equals(value) {
                    assert(ref_models(results@)[i as int] == value@);
                    return true;
                }
                i += 1;
            }
            false
        },
        FilterExpr::NotEquals(path, value) => {
            let results = evaluate_path(yaml, path);
            let mut i: usize = 0;
            while i < results.len()
                invariant
                    i <= results.len(),
                    forall|j: int| 0 <= j < i ==> ref_models(results@)[j] != value@,
                decreases results.len() - i,
            {
                if results[i].structurally_equals(value) {
                    assert(ref_models(results@)[i as int] == value@);
                    return false;
                }
                i += 1;
            }
            true
        },
        FilterExpr::GreaterThan(path, value) => {
            let results = evaluate_path(yaml, path);
            let mut i: usize = 0;
            while i < results.len()
                invariant
                    i <= results.len(),
                    forall|j: int| 0 <= j < i ==> !model_greater(ref_models(results@)[j], value@),
                decreases results.len() - i,
            {
                if let Some(Order::Greater) = results[i].compare(value) {
                    assert(model_greater(ref_models(results@)[i as int], value@));
                    return true;
                }
                i += 1;
            }
            false
        },
        FilterExpr::LessThan(path, value) => {
            let results = evaluate_path(yaml, path);
            let mut i: usize = 0;
            while i < results.len()
                invariant
                    i <= results.len(),
                    forall|j: int| 0 <= j < i ==> !model_less(ref_models(results@)[j], value@),
                decreases results.len() - i,
            {
                if let Some(Order::Less) = results[i].compare(value) {
                    assert(model_less(ref_models(results@)[i as int], value@));
                    return true;
                }
                i += 1;
            }
            false
        },
        FilterExpr::And(left, right) => evaluate_filter(yaml, left) && evaluate_filter(
            yaml,
            right,
        ),
        FilterExpr::Or(left, right) => evaluate_filter(yaml, left) || evaluate_filter(yaml, right),
    }
}

} // verus!
