use crate::decimal::{
    common_places, decimal_of, decimal_order, lemma_leading_zeros, scaled, zeros, Decimal,
};
use crate::order::{
    compare_entries_from, compare_items_from, compare_models, int_order, text_order_from, Order,
};
use crate::semantics::{
    descendants, descendants_of_entries, descendants_of_items, eval_each, eval_filter, eval_path,
    eval_steps, keep_matching, lookup_from,
};
use crate::types::{FilterModel, PathModel};
use crate::value::ValueModel;
use vstd::prelude::*;

verus! {

/// The root path selects the document itself, and nothing else, whatever
/// the document is.
pub proof fn law_root_selects_document(doc: ValueModel)
    ensures
        eval_path(doc, PathModel::Root) == seq![doc],
{
}

/// An index at or past the end of a sequence selects nothing.
pub proof fn law_index_past_end(items: Seq<ValueModel>, index: nat)
    requires
        index >= items.len(),
    ensures
        eval_path(ValueModel::Sequence(items), PathModel::Index(index)) == Seq::<
            ValueModel,
        >::empty(),
{
}

/// An index inside a sequence selects the element at that index.
pub proof fn law_index_inside(items: Seq<ValueModel>, index: nat)
    requires
        index < items.len(),
    ensures
        eval_path(ValueModel::Sequence(items), PathModel::Index(index)) == seq![
            items[index as int],
        ],
{
}

/// A lookup from `from` on finds the first entry with the key: it gives
/// the value at the least index, not before `from`, at which the key stands,
/// and nothing if the key stands at no such index.
pub proof fn law_lookup_finds_first(
    entries: Seq<(ValueModel, ValueModel)>,
    key: ValueModel,
    from: int,
)
    requires
        0 <= from,
    ensures
        match lookup_from(entries, key, from) {
            Some(v) => exists|i: int|
                {
                    &&& from <= i < entries.len()
                    &&& (#[trigger] entries[i]).0 == key
                    &&& entries[i].1 == v
                    &&& forall|j: int| from <= j < i ==> (#[trigger] entries[j]).0 != key
                },
            None => forall|j: int| from <= j < entries.len() ==> (#[trigger] entries[j]).0 != key,
        },
    decreases entries.len() - from,
{
    if from < entries.len() && entries[from].0 != key {
        law_lookup_finds_first(entries, key, from + 1);
    }
}

/// A property that no key of a mapping spells selects nothing.
pub proof fn law_absent_property(entries: Seq<(ValueModel, ValueModel)>, name: Seq<char>)
    requires
        forall|i: int|
            0 <= i < entries.len() ==> (#[trigger] entries[i]).0 != ValueModel::String(name),
    ensures
        eval_path(ValueModel::Mapping(entries), PathModel::Property(name)) == Seq::<
            ValueModel,
        >::empty(),
{
    law_lookup_finds_first(entries, ValueModel::String(name), 0);
}

/// A property selects the value of the first entry whose key spells it,
/// also where later entries have the same key.
pub proof fn law_property_selects_first(
    entries: Seq<(ValueModel, ValueModel)>,
    name: Seq<char>,
    at: int,
)
    requires
        0 <= at < entries.len(),
        entries[at].0 == ValueModel::String(name),
        forall|i: int| 0 <= i < at ==> (#[trigger] entries[i]).0 != ValueModel::String(name),
    ensures
        eval_path(ValueModel::Mapping(entries), PathModel::Property(name)) == seq![entries[at].1],
{
    law_lookup_finds_first(entries, ValueModel::String(name), 0);
}

/// The wildcard selects the elements of a sequence as they stand: all of
/// them, each once, in their order.
pub proof fn law_wildcard_keeps_order(items: Seq<ValueModel>)
    ensures
        eval_path(ValueModel::Sequence(items), PathModel::Wildcard) == items,
{
}

/// The wildcard selects the values of a mapping in the order of its
/// entries.
pub proof fn law_wildcard_of_mapping(entries: Seq<(ValueModel, ValueModel)>)
    ensures
        eval_path(ValueModel::Mapping(entries), PathModel::Wildcard).len() == entries.len(),
        forall|i: int|
            0 <= i < entries.len() ==> eval_path(
                ValueModel::Mapping(entries),
                PathModel::Wildcard,
            )[i] == entries[i].1,
{
}

/// A step that does not fit the value it meets selects nothing: a
/// property of what is no mapping, an index or a filter of what is no
/// sequence, the wildcard of a scalar.
pub proof fn law_mismatch_selects_nothing(doc: ValueModel, path: PathModel)
    requires
        match path {
            PathModel::Property(_) => !(doc is Mapping),
            PathModel::Index(_) => !(doc is Sequence),
            PathModel::Filter(_) => !(doc is Sequence),
            PathModel::Wildcard => !(doc is Sequence) && !(doc is Mapping),
            _ => false,
        },
    ensures
        eval_path(doc, path) == Seq::<ValueModel>::empty(),
{
}

/// What a filter keeps of the first `n` items: a value is kept if and
/// only if it stands among them and satisfies the filter.
pub proof fn law_filter_keeps_matching(
    items: Seq<ValueModel>,
    filter: FilterModel,
    n: nat,
    v: ValueModel,
)
    requires
        n <= items.len(),
    ensures
        keep_matching(items, filter, n).contains(v) <==> eval_filter(v, filter) && exists|i: int|
            0 <= i < n && #[trigger] items[i] == v,
    decreases n,
{
    if n > 0 {
        let before = keep_matching(items, filter, (n - 1) as nat);
        law_filter_keeps_matching(items, filter, (n - 1) as nat, v);
        let last = items[n - 1];
        if eval_filter(last, filter) {
            let kept = before.push(last);
            if kept.contains(v) {
                let k = choose|k: int| 0 <= k < kept.len() && kept[k] == v;
                assert(k < before.len() ==> before[k] == v);
            }
            if before.contains(v) {
                let k = choose|k: int| 0 <= k < before.len() && before[k] == v;
                assert(kept[k] == v);
            }
            if last == v {
                assert(kept[before.len() as int] == v);
            }
        }
    }
}

/// What a filter keeps of the first `n` items depends on those items
/// alone.
pub proof fn lemma_keep_matching_of_prefix(items: Seq<ValueModel>, filter: FilterModel, n: nat)
    requires
        n <= items.len(),
    ensures
        keep_matching(items, filter, n) == keep_matching(items.take(n as int), filter, n),
    decreases n,
{
    if n > 0 {
        lemma_keep_matching_of_prefix(items, filter, (n - 1) as nat);
        lemma_keep_matching_of_prefix(items.take(n as int), filter, (n - 1) as nat);
        assert(items.take(n as int).take(n - 1) =~= items.take(n - 1));
    }
}

/// A filter keeps the order of what it is applied to: of some items
/// followed by more items it keeps what it keeps of the first, followed by
/// what it keeps of the others.
pub proof fn law_filter_keeps_order(a: Seq<ValueModel>, b: Seq<ValueModel>, filter: FilterModel)
    ensures
        keep_matching(a + b, filter, (a + b).len()) == keep_matching(a, filter, a.len())
            + keep_matching(b, filter, b.len()),
    decreases b.len(),
{
    if b.len() > 0 {
        let shorter = b.drop_last();
        law_filter_keeps_order(a, shorter, filter);
        lemma_keep_matching_of_prefix(a + b, filter, (a.len() + shorter.len()) as nat);
        lemma_keep_matching_of_prefix(b, filter, shorter.len());
        assert((a + b).take((a.len() + shorter.len()) as int) =~= a + shorter);
        assert(b.take(shorter.len() as int) =~= shorter);
        assert((a + b)[a.len() + b.len() - 1] == b[b.len() - 1]);
        assert(keep_matching(a + b, filter, (a + b).len()) =~= keep_matching(a, filter, a.len())
            + keep_matching(b, filter, b.len()));
    } else {
        assert(a + b =~= a);
        assert(keep_matching(a, filter, a.len()) + Seq::<ValueModel>::empty() =~= keep_matching(
            a,
            filter,
            a.len(),
        ));
    }
}

/// Of a single item a filter keeps the item if it satisfies the filter,
/// and nothing if it does not.
pub proof fn law_filter_of_one(item: ValueModel, filter: FilterModel)
    ensures
        keep_matching(seq![item], filter, 1) == if eval_filter(item, filter) {
            seq![item]
        } else {
            Seq::empty()
        },
{
    reveal_with_fuel(keep_matching, 2);
    assert(keep_matching(seq![item], filter, 0) =~= Seq::<ValueModel>::empty());
    if eval_filter(item, filter) {
        assert(Seq::<ValueModel>::empty().push(item) =~= seq![item]);
    }
}

/// A filter on a property tells equality from inequality when the
/// property is absent: a candidate from which the path selects nothing
/// satisfies no `Equals`, and satisfies every `NotEquals`.
pub proof fn law_filter_asymmetry(candidate: ValueModel, path: PathModel, literal: ValueModel)
    requires
        eval_path(candidate, path).len() == 0,
    ensures
        !eval_filter(candidate, FilterModel::Equals(Box::new(path), literal)),
        eval_filter(candidate, FilterModel::NotEquals(Box::new(path), literal)),
{
}

/// An element of a sequence from which the path of a comparison selects
/// nothing is left out by the filter on equality and kept by the filter on
/// inequality.
pub proof fn law_filter_on_absent_property(
    items: Seq<ValueModel>,
    at: int,
    path: PathModel,
    literal: ValueModel,
)
    requires
        0 <= at < items.len(),
        eval_path(items[at], path).len() == 0,
    ensures
        !eval_path(
            ValueModel::Sequence(items),
            PathModel::Filter(Box::new(FilterModel::Equals(Box::new(path), literal))),
        ).contains(items[at]),
        eval_path(
            ValueModel::Sequence(items),
            PathModel::Filter(Box::new(FilterModel::NotEquals(Box::new(path), literal))),
        ).contains(items[at]),
{
    law_filter_keeps_matching(
        items,
        FilterModel::Equals(Box::new(path), literal),
        items.len(),
        items[at],
    );
    law_filter_keeps_matching(
        items,
        FilterModel::NotEquals(Box::new(path), literal),
        items.len(),
        items[at],
    );
}

/// Applying a step to each of some inputs, and to each of some more, gives
/// all that the first inputs yield and then all that the others yield.
pub proof fn law_each_input_in_turn(a: Seq<ValueModel>, b: Seq<ValueModel>, step: PathModel)
    ensures
        eval_each(a + b, step, (a + b).len()) == eval_each(a, step, a.len()) + eval_each(
            b,
            step,
            b.len(),
        ),
    decreases b.len(),
{
    if b.len() > 0 {
        let shorter = b.drop_last();
        law_each_input_in_turn(a, shorter, step);
        lemma_eval_each_of_prefix(a + b, step, (a.len() + shorter.len()) as nat);
        lemma_eval_each_of_prefix(b, step, shorter.len());
        assert((a + b).take((a.len() + shorter.len()) as int) =~= a + shorter);
    }
}

/// Applied to each of one input, a step selects what it selects from that
/// input.
pub proof fn law_each_of_one(input: ValueModel, step: PathModel)
    ensures
        eval_each(seq![input], step, 1) == eval_path(input, step),
{
    reveal_with_fuel(eval_each, 2);
    assert(eval_each(seq![input], step, 1) =~= eval_path(input, step));
}

/// What a step selects from the first `n` inputs depends on those inputs
/// alone.
pub proof fn lemma_eval_each_of_prefix(inputs: Seq<ValueModel>, step: PathModel, n: nat)
    requires
        n <= inputs.len(),
    ensures
        eval_each(inputs, step, n) == eval_each(inputs.take(n as int), step, n),
    decreases n,
{
    if n > 0 {
        lemma_eval_each_of_prefix(inputs, step, (n - 1) as nat);
        lemma_eval_each_of_prefix(inputs.take(n as int), step, (n - 1) as nat);
        assert(inputs.take(n as int).take(n - 1) =~= inputs.take(n - 1));
    }
}

/// A chain of two steps selects what the second step selects from each
/// value that the first selects, in the order of the first.
pub proof fn law_chain_of_two(doc: ValueModel, first: PathModel, second: PathModel)
    ensures
        eval_path(doc, PathModel::Sequence(seq![first, second])) == eval_each(
            eval_path(doc, first),
            second,
            eval_path(doc, first).len(),
        ),
{
    let steps = seq![first, second];
    reveal_with_fuel(eval_each, 2);
    assert(eval_steps(seq![doc], steps, 0) == seq![doc]);
    assert(eval_each(seq![doc], first, 1) =~= eval_path(doc, first));
}

/// A chain without steps selects the value itself.
pub proof fn law_empty_chain(doc: ValueModel)
    ensures
        eval_path(doc, PathModel::Sequence(Seq::empty())) == seq![doc],
{
}

/// One more step at the end of a chain is applied to each value that the
/// chain selects.
pub proof fn law_chain_extends(doc: ValueModel, steps: Seq<PathModel>, step: PathModel)
    ensures
        eval_path(doc, PathModel::Sequence(steps.push(step))) == eval_each(
            eval_path(doc, PathModel::Sequence(steps)),
            step,
            eval_path(doc, PathModel::Sequence(steps)).len(),
        ),
{
    let longer = steps.push(step);
    lemma_eval_steps_of_prefix(seq![doc], longer, steps.len());
    assert(longer.take(steps.len() as int) =~= steps);
}

/// What the first `n` steps select depends on those steps alone.
pub proof fn lemma_eval_steps_of_prefix(inputs: Seq<ValueModel>, steps: Seq<PathModel>, n: nat)
    requires
        n <= steps.len(),
    ensures
        eval_steps(inputs, steps, n) == eval_steps(inputs, steps.take(n as int), n),
    decreases n,
{
    if n > 0 {
        lemma_eval_steps_of_prefix(inputs, steps, (n - 1) as nat);
        lemma_eval_steps_of_prefix(inputs, steps.take(n as int), (n - 1) as nat);
        assert(steps.take(n as int).take(n - 1) =~= steps.take(n - 1));
    }
}

/// Whether `w` occurs in `v`: it is `v` itself, or it occurs in an element
/// of the sequence `v` or in a value of the mapping `v`.
pub open spec fn occurs_in(v: ValueModel, w: ValueModel) -> bool
    decreases v,
{
    w == v || match v {
        ValueModel::Sequence(items) => exists|i: int|
            0 <= i < items.len() && occurs_in(#[trigger] items[i], w),
        ValueModel::Mapping(entries) => exists|i: int|
            0 <= i < entries.len() && occurs_in((#[trigger] entries[i]).1, w),
        _ => false,
    }
}

/// Recursive descent yields the value itself first.
pub proof fn law_descent_starts_with_self(v: ValueModel)
    ensures
        eval_path(v, PathModel::RecursiveDescent).len() >= 1,
        eval_path(v, PathModel::RecursiveDescent)[0] == v,
{
}

/// Recursive descent is complete and yields nothing else: it yields a
/// value if and only if the value occurs in the document.
pub proof fn law_descent_is_complete(v: ValueModel, w: ValueModel)
    ensures
        eval_path(v, PathModel::RecursiveDescent).contains(w) <==> occurs_in(v, w),
    decreases v, 0nat,
{
    match v {
        ValueModel::Sequence(items) => {
            lemma_descent_of_items(items, items.len(), w);
            lemma_contains_after_first(v, descendants_of_items(items, items.len()), w);
        },
        ValueModel::Mapping(entries) => {
            lemma_descent_of_entries(entries, entries.len(), w);
            lemma_contains_after_first(v, descendants_of_entries(entries, entries.len()), w);
        },
        _ => {
            lemma_contains_after_first(v, Seq::empty(), w);
        },
    }
}

/// The descent into the first `n` items yields a value if and only if
/// the value occurs in one of them.
pub proof fn lemma_descent_of_items(items: Seq<ValueModel>, n: nat, w: ValueModel)
    requires
        n <= items.len(),
    ensures
        descendants_of_items(items, n).contains(w) <==> exists|i: int|
            0 <= i < n && occurs_in(#[trigger] items[i], w),
    decreases items, n,
{
    if n > 0 {
        let before = descendants_of_items(items, (n - 1) as nat);
        let last = descendants(items[n - 1]);
        lemma_descent_of_items(items, (n - 1) as nat, w);
        law_descent_is_complete(items[n - 1], w);
        lemma_contains_of_concat(before, last, w);
    }
}

/// The descent into the values of the first `n` entries yields a value if
/// and only if the value occurs in one of them.
pub proof fn lemma_descent_of_entries(
    entries: Seq<(ValueModel, ValueModel)>,
    n: nat,
    w: ValueModel,
)
    requires
        n <= entries.len(),
    ensures
        descendants_of_entries(entries, n).contains(w) <==> exists|i: int|
            0 <= i < n && occurs_in((#[trigger] entries[i]).1, w),
    decreases entries, n,
{
    if n > 0 {
        let before = descendants_of_entries(entries, (n - 1) as nat);
        let last = descendants(entries[n - 1].1);
        lemma_descent_of_entries(entries, (n - 1) as nat, w);
        law_descent_is_complete(entries[n - 1].1, w);
        lemma_contains_of_concat(before, last, w);
    }
}

/// A value stands in the concatenation of two sequences if and only if
/// it stands in one of them.
pub proof fn lemma_contains_of_concat(a: Seq<ValueModel>, b: Seq<ValueModel>, w: ValueModel)
    ensures
        (a + b).contains(w) <==> a.contains(w) || b.contains(w),
{
    if (a + b).contains(w) {
        let k = choose|k: int| 0 <= k < (a + b).len() && (a + b)[k] == w;
        if k >= a.len() {
            assert(b[k - a.len()] == w);
        }
    }
    if a.contains(w) {
        let k = choose|k: int| 0 <= k < a.len() && a[k] == w;
        assert((a + b)[k] == w);
    }
    if b.contains(w) {
        let k = choose|k: int| 0 <= k < b.len() && b[k] == w;
        assert((a + b)[k + a.len()] == w);
    }
}

/// A value stands in a sequence with one more value before it if and only
/// if it is that value or stands in the sequence.
pub proof fn lemma_contains_after_first(first: ValueModel, rest: Seq<ValueModel>, w: ValueModel)
    ensures
        (seq![first] + rest).contains(w) <==> w == first || rest.contains(w),
{
    lemma_contains_of_concat(seq![first], rest, w);
    assert(seq![first][0] == first);
}

/// The order seen from the other side.
pub open spec fn reversed(order: Option<Order>) -> Option<Order> {
    match order {
        Some(Order::Less) => Some(Order::Greater),
        Some(Order::Greater) => Some(Order::Less),
        other => other,
    }
}

/// Whether `a` and `b` first differ at `at`, from `from` on, with `a` the
/// lesser there: they agree before `at`, and at `at` the text `a` ends and
/// `b` goes on, or `a` has the lesser character.
pub open spec fn lesser_at(a: Seq<char>, b: Seq<char>, from: int, at: int) -> bool {
    &&& from <= at <= a.len()
    &&& at < b.len()
    &&& forall|j: int| from <= j < at ==> a[j] == b[j]
    &&& at < a.len() ==> a[at] < b[at]
}

/// The order of texts is the lexicographic one: a text is less than
/// another if and only if, where the two first differ, it has ended or has
/// the lesser character.
pub proof fn law_text_order_is_lexicographic(a: Seq<char>, b: Seq<char>, from: int)
    requires
        0 <= from <= a.len(),
    ensures
        text_order_from(a, b, from) == Order::Less <==> exists|at: int|
            #[trigger] lesser_at(a, b, from, at),
    decreases a.len() - from,
{
    if from < a.len() && from < b.len() && a[from] == b[from] {
        law_text_order_is_lexicographic(a, b, from + 1);
        if exists|at: int| #[trigger] lesser_at(a, b, from + 1, at) {
            let at = choose|at: int| #[trigger] lesser_at(a, b, from + 1, at);
            assert(lesser_at(a, b, from, at));
        }
        if exists|at: int| #[trigger] lesser_at(a, b, from, at) {
            let at = choose|at: int| #[trigger] lesser_at(a, b, from, at);
            assert(lesser_at(a, b, from + 1, at));
        }
    } else if text_order_from(a, b, from) == Order::Less {
        assert(lesser_at(a, b, from, from));
    }
}

/// Two texts that agree up to `from` are in equal order from there on if
/// and only if they are the same text.
pub proof fn lemma_text_order_equal(a: Seq<char>, b: Seq<char>, from: int)
    requires
        0 <= from <= a.len(),
        from <= b.len(),
        a.take(from) == b.take(from),
    ensures
        text_order_from(a, b, from) == Order::Equal <==> a == b,
    decreases a.len() - from,
{
    if from < a.len() && from < b.len() {
        if a[from] == b[from] {
            assert(a.take(from + 1) =~= a.take(from).push(a[from]));
            assert(b.take(from + 1) =~= b.take(from).push(b[from]));
            lemma_text_order_equal(a, b, from + 1);
        }
    } else if from == a.len() && from == b.len() {
        assert(a.take(from) =~= a);
        assert(b.take(from) =~= b);
    }
}

/// The order of two texts, seen from the other side, is the reverse.
pub proof fn lemma_text_order_reverses(a: Seq<char>, b: Seq<char>, from: int)
    requires
        0 <= from,
    ensures
        Some(text_order_from(b, a, from)) == reversed(Some(text_order_from(a, b, from))),
    decreases a.len() - from,
{
    if from < a.len() && from < b.len() && a[from] == b[from] {
        lemma_text_order_reverses(a, b, from + 1);
    }
}

/// Whether no float stands in a value: the value is no float, and no
/// float stands in an element, a key or a value of it.
pub open spec fn float_free(v: ValueModel) -> bool
    decreases v,
{
    match v {
        ValueModel::Float(_) => false,
        ValueModel::Sequence(items) => forall|i: int|
            0 <= i < items.len() ==> float_free(#[trigger] items[i]),
        ValueModel::Mapping(entries) => forall|i: int|
            0 <= i < entries.len() ==> float_free((#[trigger] entries[i]).0) && float_free(
                entries[i].1,
            ),
        _ => true,
    }
}

/// Two values in which no float stands are in equal order if and only if
/// they are the same value. (Two floats are in equal order where they spell
/// the same number, which two different texts can do.)
pub proof fn law_equal_order_is_equality(a: ValueModel, b: ValueModel)
    requires
        float_free(a),
        float_free(b),
    ensures
        compare_models(a, b) == Some(Order::Equal) <==> a == b,
    decreases a, 0nat,
{
    match (a, b) {
        (ValueModel::String(x), ValueModel::String(y)) => {
            assert(x.take(0) =~= y.take(0));
            lemma_text_order_equal(x, y, 0);
        },
        (ValueModel::Sequence(x), ValueModel::Sequence(y)) => {
            assert(x.take(0) =~= y.take(0));
            lemma_items_order_equal(x, y, 0);
        },
        (ValueModel::Mapping(x), ValueModel::Mapping(y)) => {
            assert(x.take(0) =~= y.take(0));
            lemma_entries_order_equal(x, y, 0);
        },
        _ => {},
    }
}

/// Two sequences without floats that agree up to `from` are in equal
/// order from there on if and only if they are the same sequence.
pub proof fn lemma_items_order_equal(a: Seq<ValueModel>, b: Seq<ValueModel>, from: int)
    requires
        0 <= from <= a.len(),
        from <= b.len(),
        a.take(from) == b.take(from),
        forall|i: int| 0 <= i < a.len() ==> float_free(#[trigger] a[i]),
        forall|i: int| 0 <= i < b.len() ==> float_free(#[trigger] b[i]),
    ensures
        compare_items_from(a, b, from) == Some(Order::Equal) <==> a == b,
    decreases a, a.len() - from,
{
    if from < a.len() && from < b.len() {
        law_equal_order_is_equality(a[from], b[from]);
        if a[from] == b[from] {
            assert(a.take(from + 1) =~= a.take(from).push(a[from]));
            assert(b.take(from + 1) =~= b.take(from).push(b[from]));
            lemma_items_order_equal(a, b, from + 1);
        }
    } else if from == a.len() && from == b.len() {
        assert(a.take(from) =~= a);
        assert(b.take(from) =~= b);
    }
}

/// Two lists of entries without floats that agree up to `from` are in
/// equal order from there on if and only if they are the same list.
pub proof fn lemma_entries_order_equal(
    a: Seq<(ValueModel, ValueModel)>,
    b: Seq<(ValueModel, ValueModel)>,
    from: int,
)
    requires
        0 <= from <= a.len(),
        from <= b.len(),
        a.take(from) == b.take(from),
        forall|i: int|
            0 <= i < a.len() ==> float_free((#[trigger] a[i]).0) && float_free(a[i].1),
        forall|i: int|
            0 <= i < b.len() ==> float_free((#[trigger] b[i]).0) && float_free(b[i].1),
    ensures
        compare_entries_from(a, b, from) == Some(Order::Equal) <==> a == b,
    decreases a, a.len() - from,
{
    if from < a.len() && from < b.len() {
        law_equal_order_is_equality(a[from].0, b[from].0);
        law_equal_order_is_equality(a[from].1, b[from].1);
        if a[from] == b[from] {
            assert(a.take(from + 1) =~= a.take(from).push(a[from]));
            assert(b.take(from + 1) =~= b.take(from).push(b[from]));
            lemma_entries_order_equal(a, b, from + 1);
        }
    } else if from == a.len() && from == b.len() {
        assert(a.take(from) =~= a);
        assert(b.take(from) =~= b);
    }
}

/// Two floats are in equal order if and only if both texts spell a
/// decimal number and the two numbers are the same.
pub proof fn law_equal_floats_spell_one_number(x: Seq<char>, y: Seq<char>)
    ensures
        compare_models(ValueModel::Float(x), ValueModel::Float(y)) == Some(Order::Equal) <==> (
        decimal_of(x) matches Some(a) && decimal_of(y) matches Some(b) && scaled(
            a,
            common_places(a, b),
        ) == scaled(b, common_places(a, b))),
{
}

/// A zero at the end of the fraction does not change the number that a
/// decimal spells, and a zero before its first digit does not either.
pub proof fn law_zeros_keep_the_number(d: Decimal)
    ensures
        decimal_order(
            d,
            Decimal { negative: d.negative, whole: d.whole, fraction: d.fraction.push('0') },
        ) == Order::Equal,
        decimal_order(
            d,
            Decimal { negative: d.negative, whole: seq!['0'] + d.whole, fraction: d.fraction },
        ) == Order::Equal,
{
    let longer = Decimal { negative: d.negative, whole: d.whole, fraction: d.fraction.push('0') };
    let places = common_places(d, longer);
    assert(d.whole + d.fraction + zeros((places - d.fraction.len()) as nat) =~= longer.whole
        + longer.fraction + zeros((places - longer.fraction.len()) as nat));
    let wider = Decimal { negative: d.negative, whole: seq!['0'] + d.whole, fraction: d.fraction };
    let rest = d.whole + d.fraction + zeros(0);
    lemma_leading_zeros(1, rest);
    assert(zeros(1) + rest =~= wider.whole + wider.fraction + zeros(0));
}

/// The order of decimals is that of the numbers they spell: for any
/// number of places that both fractions fit in, it is the order of the two
/// numbers times ten to the power of that number of places.
pub proof fn law_decimal_order_is_numeric(a: Decimal, b: Decimal, places: nat)
    requires
        places >= a.fraction.len(),
        places >= b.fraction.len(),
    ensures
        decimal_order(a, b) == int_order(scaled(a, places), scaled(b, places)),
    decreases places,
{
    if places > common_places(a, b) {
        law_decimal_order_is_numeric(a, b, (places - 1) as nat);
        lemma_scaled_by_one_more(a, (places - 1) as nat);
        lemma_scaled_by_one_more(b, (places - 1) as nat);
    }
}

/// One more place multiplies the scaled number by ten.
pub proof fn lemma_scaled_by_one_more(d: Decimal, places: nat)
    requires
        places >= d.fraction.len(),
    ensures
        scaled(d, places + 1) == 10 * scaled(d, places),
{
    let shorter = d.whole + d.fraction + zeros((places - d.fraction.len()) as nat);
    let longer = d.whole + d.fraction + zeros((places + 1 - d.fraction.len()) as nat);
    assert(longer.drop_last() =~= shorter);
    assert(longer.last() == '0');
}

/// The order of two values, seen from the other side, is the reverse:
/// one is less than the other if and only if the other is greater, and they
/// are comparable from one side if and only if they are from the other.
pub proof fn law_order_reverses(a: ValueModel, b: ValueModel)
    ensures
        compare_models(b, a) == reversed(compare_models(a, b)),
    decreases a, 0nat,
{
    match (a, b) {
        (ValueModel::Float(x), ValueModel::Float(y)) => {
            lemma_text_order_reverses(x, y, 0);
        },
        (ValueModel::String(x), ValueModel::String(y)) => {
            lemma_text_order_reverses(x, y, 0);
        },
        (ValueModel::Sequence(x), ValueModel::Sequence(y)) => {
            lemma_items_order_reverses(x, y, 0);
        },
        (ValueModel::Mapping(x), ValueModel::Mapping(y)) => {
            lemma_entries_order_reverses(x, y, 0);
        },
        _ => {},
    }
}

/// The order of two sequences from `from` on, seen from the other side,
/// is the reverse.
pub proof fn lemma_items_order_reverses(a: Seq<ValueModel>, b: Seq<ValueModel>, from: int)
    requires
        0 <= from,
    ensures
        compare_items_from(b, a, from) == reversed(compare_items_from(a, b, from)),
    decreases a, a.len() - from,
{
    if from < a.len() && from < b.len() {
        law_order_reverses(a[from], b[from]);
        if compare_models(a[from], b[from]) == Some(Order::Equal) {
            lemma_items_order_reverses(a, b, from + 1);
        }
    }
}

/// The order of two lists of entries from `from` on, seen from the other
/// side, is the reverse.
pub proof fn lemma_entries_order_reverses(
    a: Seq<(ValueModel, ValueModel)>,
    b: Seq<(ValueModel, ValueModel)>,
    from: int,
)
    requires
        0 <= from,
    ensures
        compare_entries_from(b, a, from) == reversed(compare_entries_from(a, b, from)),
    decreases a, a.len() - from,
{
    if from < a.len() && from < b.len() {
        law_order_reverses(a[from].0, b[from].0);
        law_order_reverses(a[from].1, b[from].1);
        if compare_models(a[from].0, b[from].0) == Some(Order::Equal) && compare_models(
            a[from].1,
            b[from].1,
        ) == Some(Order::Equal) {
            lemma_entries_order_reverses(a, b, from + 1);
        }
    }
}

/// No value is greater or less than a value of another kind, and no value
/// is greater or less than itself.
pub proof fn law_order_within_kinds(a: ValueModel, b: ValueModel)
    ensures
        compare_models(a, a) != Some(Order::Less),
        compare_models(a, a) != Some(Order::Greater),
        !same_kind(a, b) ==> compare_models(a, b) is None,
{
    law_order_reverses(a, a);
}

/// Whether two values are of the same kind.
pub open spec fn same_kind(a: ValueModel, b: ValueModel) -> bool {
    match (a, b) {
        (ValueModel::Null, ValueModel::Null) => true,
        (ValueModel::Bool(_), ValueModel::Bool(_)) => true,
        (ValueModel::Int(_), ValueModel::Int(_)) => true,
        (ValueModel::Float(_), ValueModel::Float(_)) => true,
        (ValueModel::String(_), ValueModel::String(_)) => true,
        (ValueModel::Sequence(_), ValueModel::Sequence(_)) => true,
        (ValueModel::Mapping(_), ValueModel::Mapping(_)) => true,
        (ValueModel::Alias(_), ValueModel::Alias(_)) => true,
        (ValueModel::Invalid, ValueModel::Invalid) => true,
        _ => false,
    }
}

} // verus!
