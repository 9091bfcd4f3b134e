use crate::order::{model_greater, model_less};
use crate::types::{FilterModel, PathModel};
use crate::value::ValueModel;
use vstd::prelude::*;

verus! {

/// The value of the first entry, from index `from` on, whose key is `key`.
pub open spec fn lookup_from(
    entries: Seq<(ValueModel, ValueModel)>,
    key: ValueModel,
    from: int,
) -> Option<ValueModel>
    decreases entries.len() - from,
{
    if from < 0 || from >= entries.len() {
        None
    } else if entries[from].0 == key {
        Some(entries[from].1)
    } else {
        lookup_from(entries, key, from + 1)
    }
}

/// The value of the first entry whose key is `key`, if there is one.
pub open spec fn lookup(entries: Seq<(ValueModel, ValueModel)>, key: ValueModel) -> Option<
    ValueModel,
> {
    lookup_from(entries, key, 0)
}

/// The values of a list of entries, in the order of the entries.
pub open spec fn entry_values(entries: Seq<(ValueModel, ValueModel)>) -> Seq<ValueModel> {
    entries.map_values(|e: (ValueModel, ValueModel)| e.1)
}

/// What stands directly below a value: the elements of a sequence, the
/// values of a mapping, nothing for a scalar.
pub open spec fn children(v: ValueModel) -> Seq<ValueModel> {
    match v {
        ValueModel::Sequence(items) => items,
        ValueModel::Mapping(entries) => entry_values(entries),
        _ => Seq::empty(),
    }
}

/// A value and everything below it, in pre-order: the value first, then
/// what each child yields, the children taken from left to right.
pub open spec fn descendants(v: ValueModel) -> Seq<ValueModel>
    decreases v, 0nat,
{
    match v {
        ValueModel::Sequence(items) => seq![v] + descendants_of_items(items, items.len()),
        ValueModel::Mapping(entries) => seq![v] + descendants_of_entries(entries, entries.len()),
        _ => seq![v],
    }
}

/// The descendants of the first `n` values of `items`, one value after
/// the other.
pub open spec fn descendants_of_items(items: Seq<ValueModel>, n: nat) -> Seq<ValueModel>
    decreases items, n,
{
    if n == 0 || n > items.len() {
        Seq::empty()
    } else {
        descendants_of_items(items, (n - 1) as nat) + descendants(items[n - 1])
    }
}

/// The descendants of the values of the first `n` entries of `entries`.
pub open spec fn descendants_of_entries(entries: Seq<(ValueModel, ValueModel)>, n: nat) -> Seq<
    ValueModel,
>
    decreases entries, n,
{
    if n == 0 || n > entries.len() {
        Seq::empty()
    } else {
        descendants_of_entries(entries, (n - 1) as nat) + descendants(entries[n - 1].1)
    }
}

/// The values that `path` selects when it is applied to `doc`, in order.
///
/// A step that does not fit the value it is applied to selects nothing.
pub open spec fn eval_path(doc: ValueModel, path: PathModel) -> Seq<ValueModel>
    decreases path, 0nat,
{
    match path {
        PathModel::Root => seq![doc],
        PathModel::Property(name) => match doc {
            ValueModel::Mapping(entries) => match lookup(entries, ValueModel::String(name)) {
                Some(v) => seq![v],
                None => Seq::empty(),
            },
            _ => Seq::empty(),
        },
        PathModel::Index(index) => match doc {
            ValueModel::Sequence(items) => if index < items.len() {
                seq![items[index as int]]
            } else {
                Seq::empty()
            },
            _ => Seq::empty(),
        },
        PathModel::Wildcard => children(doc),
        PathModel::RecursiveDescent => descendants(doc),
        PathModel::Filter(filter) => match doc {
            ValueModel::Sequence(items) => keep_matching(items, *filter, items.len()),
            _ => Seq::empty(),
        },
        PathModel::Sequence(steps) => eval_steps(seq![doc], steps, steps.len()),
    }
}

/// The values selected after the first `n` of `steps`, starting from
/// `inputs`: each step is applied to every value that the steps before it
/// selected.
pub open spec fn eval_steps(inputs: Seq<ValueModel>, steps: Seq<PathModel>, n: nat) -> Seq<
    ValueModel,
>
    decreases steps, n,
{
    if n == 0 || n > steps.len() {
        inputs
    } else {
        let before = eval_steps(inputs, steps, (n - 1) as nat);
        eval_each(before, steps[n - 1], before.len())
    }
}

/// What `step` selects from each of the first `n` values of `inputs`,
/// all that one input yields standing before what the next one yields.
pub open spec fn eval_each(inputs: Seq<ValueModel>, step: PathModel, n: nat) -> Seq<ValueModel>
    decreases step, n,
{
    if n == 0 || n > inputs.len() {
        Seq::empty()
    } else {
        eval_each(inputs, step, (n - 1) as nat) + eval_path(inputs[n - 1], step)
    }
}

/// Those of the first `n` values of `items` that satisfy `filter`, in
/// their order.
pub open spec fn keep_matching(items: Seq<ValueModel>, filter: FilterModel, n: nat) -> Seq<
    ValueModel,
>
    decreases filter, n,
{
    if n == 0 || n > items.len() {
        Seq::empty()
    } else if eval_filter(items[n - 1], filter) {
        keep_matching(items, filter, (n - 1) as nat).push(items[n - 1])
    } else {
        keep_matching(items, filter, (n - 1) as nat)
    }
}

/// Whether `candidate` satisfies `filter`.
///
/// A comparison evaluates its path on the candidate. `Equals`,
/// `GreaterThan` and `LessThan` hold if some selected value stands in that
/// relation to the literal; `NotEquals` holds if no selected value equals
/// the literal, so it holds when nothing is selected.
pub open spec fn eval_filter(candidate: ValueModel, filter: FilterModel) -> bool
    decreases filter, 0nat,
{
    match filter {
        FilterModel::Equals(path, literal) => eval_path(candidate, *path).contains(literal),
        FilterModel::NotEquals(path, literal) => !eval_path(candidate, *path).contains(literal),
        FilterModel::GreaterThan(path, literal) => some_greater(
            eval_path(candidate, *path),
            literal,
        ),
        FilterModel::LessThan(path, literal) => some_less(eval_path(candidate, *path), literal),
        FilterModel::And(left, right) => eval_filter(candidate, *left) && eval_filter(
            candidate,
            *right,
        ),
        FilterModel::Or(left, right) => eval_filter(candidate, *left) || eval_filter(
            candidate,
            *right,
        ),
    }
}

/// Whether some value of `found` is greater than `literal`.
pub open spec fn some_greater(found: Seq<ValueModel>, literal: ValueModel) -> bool {
    exists|i: int| 0 <= i < found.len() && model_greater(#[trigger] found[i], literal)
}

/// Whether some value of `found` is less than `literal`.
pub open spec fn some_less(found: Seq<ValueModel>, literal: ValueModel) -> bool {
    exists|i: int| 0 <= i < found.len() && model_less(#[trigger] found[i], literal)
}

} // verus!
