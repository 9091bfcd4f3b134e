use crate::decimal::{compare_floats, float_order};
use crate::text::chars_of;
use crate::value::{entry_models, lemma_view_of_collections, models, Value, ValueModel};
use vstd::prelude::*;

verus! {

/// How one value stands to another of the same kind.
#[derive(Clone, Copy, Debug, PartialEq, Eq, Structural)]
pub enum Order {
    Less,
    Equal,
    Greater,
}

/// The order of two integers.
pub open spec fn int_order(a: int, b: int) -> Order {
    if a < b {
        Order::Less
    } else if a == b {
        Order::Equal
    } else {
        Order::Greater
    }
}

/// The order of two booleans: `false` comes before `true`.
pub open spec fn bool_order(a: bool, b: bool) -> Order {
    if a == b {
        Order::Equal
    } else if b {
        Order::Less
    } else {
        Order::Greater
    }
}

/// The lexicographic order, by code point, of what two texts hold from
/// index `from` on. A text that ends first comes first.
pub open spec fn text_order_from(a: Seq<char>, b: Seq<char>, from: int) -> Order
    decreases a.len() - from,
{
    if from >= a.len() {
        if from >= b.len() {
            Order::Equal
        } else {
            Order::Less
        }
    } else if from >= b.len() {
        Order::Greater
    } else if a[from] == b[from] {
        text_order_from(a, b, from + 1)
    } else if a[from] < b[from] {
        Order::Less
    } else {
        Order::Greater
    }
}

/// The lexicographic order of two texts by code point.
pub open spec fn text_order(a: Seq<char>, b: Seq<char>) -> Order {
    text_order_from(a, b, 0)
}

/// The order of two values, where they have one.
///
/// Two values are comparable only if they are of the same kind. Integers
/// and alias numbers order numerically, booleans with `false` first, and
/// strings lexicographically by code point. Floats order by the numbers
/// that their texts spell, and only where both texts spell a decimal number.
/// Sequences and mappings order lexicographically by their elements (a
/// mapping's entry by its key, then by its value). Two nulls are equal. A
/// sequence or mapping that reaches a pair of incomparable elements before a
/// difference is itself incomparable.
pub open spec fn compare_models(a: ValueModel, b: ValueModel) -> Option<Order>
    decreases a, 0int,
{
    match (a, b) {
        (ValueModel::Null, ValueModel::Null) => Some(Order::Equal),
        (ValueModel::Bool(x), ValueModel::Bool(y)) => Some(bool_order(x, y)),
        (ValueModel::Int(x), ValueModel::Int(y)) => Some(int_order(x, y)),
        (ValueModel::Float(x), ValueModel::Float(y)) => float_order(x, y),
        (ValueModel::String(x), ValueModel::String(y)) => Some(text_order(x, y)),
        (ValueModel::Sequence(x), ValueModel::Sequence(y)) => compare_items_from(x, y, 0),
        (ValueModel::Mapping(x), ValueModel::Mapping(y)) => compare_entries_from(x, y, 0),
        (ValueModel::Alias(x), ValueModel::Alias(y)) => Some(int_order(x as int, y as int)),
        (ValueModel::Invalid, ValueModel::Invalid) => Some(Order::Equal),
        _ => None,
    }
}

/// The lexicographic order of two sequences of values from index `from` on.
pub open spec fn compare_items_from(a: Seq<ValueModel>, b: Seq<ValueModel>, from: int) -> Option<
    Order,
>
    decreases a, a.len() - from,
{
    if from < 0 {
        None
    } else if from >= a.len() {
        if from >= b.len() {
            Some(Order::Equal)
        } else {
            Some(Order::Less)
        }
    } else if from >= b.len() {
        Some(Order::Greater)
    } else {
        match compare_models(a[from], b[from]) {
            Some(Order::Equal) => compare_items_from(a, b, from + 1),
            other => other,
        }
    }
}

/// The lexicographic order of two lists of entries from index `from` on;
/// an entry is compared by its key first, then by its value.
pub open spec fn compare_entries_from(
    a: Seq<(ValueModel, ValueModel)>,
    b: Seq<(ValueModel, ValueModel)>,
    from: int,
) -> Option<Order>
    decreases a, a.len() - from,
{
    if from < 0 {
        None
    } else if from >= a.len() {
        if from >= b.len() {
            Some(Order::Equal)
        } else {
            Some(Order::Less)
        }
    } else if from >= b.len() {
        Some(Order::Greater)
    } else {
        match compare_models(a[from].0, b[from].0) {
            Some(Order::Equal) => match compare_models(a[from].1, b[from].1) {
                Some(Order::Equal) => compare_entries_from(a, b, from + 1),
                other => other,
            },
            other => other,
        }
    }
}

/// Whether `a` comes strictly after `b`.
pub open spec fn model_greater(a: ValueModel, b: ValueModel) -> bool {
    compare_models(a, b) == Some(Order::Greater)
}

/// Whether `a` comes strictly before `b`.
pub open spec fn model_less(a: ValueModel, b: ValueModel) -> bool {
    compare_models(a, b) == Some(Order::Less)
}

/// Compares two texts lexicographically by code point.
pub fn compare_texts(a: &str, b: &str) -> (r: Order)
    ensures
        r == text_order(a@, b@),
{
    let x = chars_of(a);
    let y = chars_of(b);
    let mut i: usize = 0;
    while i < x.len() && i < y.len()
        invariant
            i <= x.len(),
            i <= y.len(),
            x@ == a@,
            y@ == b@,
            text_order_from(x@, y@, i as int) == text_order(x@, y@),
        decreases x.len() - i,
    {
        if x[i] != y[i] {
            return if x[i] < y[i] {
                Order::Less
            } else {
                Order::Greater
            };
        }
        i += 1;
    }
    if i < x.len() {
        Order::Greater
    } else if i < y.len() {
        Order::Less
    } else {
        Order::Equal
    }
}

impl Value {
    /// Compares two values; `None` where they are not comparable.
    #[verifier::loop_isolation(false)]
    pub fn compare(&self, other: &Value) -> (r: Option<Order>)
        ensures
            r == compare_models(self@, other@),
        decreases self,
    {
        proof {
            lemma_view_of_collections(*self);
            lemma_view_of_collections(*other);
        }
        match (self, other) {
            (Value::Null, Value::Null) => Some(Order::Equal),
            (Value::Bool(a), Value::Bool(b)) => Some(
                if *a == *b {
                    Order::Equal
                } else if *b {
                    Order::Less
                } else {
                    Order::Greater
                },
            ),
            (Value::Int(a), Value::Int(b)) => Some(
                if *a < *b {
                    Order::Less
                } else if *a == *b {
                    Order::Equal
                } else {
                    Order::Greater
                },
            ),
            (Value::Float(a), Value::Float(b)) => compare_floats(a.as_str(), b.as_str()),
            (Value::String(a), Value::String(b)) => Some(compare_texts(a.as_str(), b.as_str())),
            (Value::Sequence(a), Value::Sequence(b)) => {
                let mut i: usize = 0;
                while i < a.len() && i < b.len()
                    invariant
                        i <= a.len(),
                        i <= b.len(),
                        compare_items_from(models(a@), models(b@), i as int) == compare_models(
                            self@,
                            other@,
                        ),
                    decreases a.len() - i,
                {
                    match a[i].compare(&b[i]) {
                        Some(Order::Equal) => {},
                        other => {
                            return other;
                        },
                    }
                    i += 1;
                }
                if i < a.len() {
                    Some(Order::Greater)
                } else if i < b.len() {
                    Some(Order::Less)
                } else {
                    Some(Order::Equal)
                }
            },
            (Value::Mapping(a), Value::Mapping(b)) => {
                let mut i: usize = 0;
                while i < a.len() && i < b.len()
                    invariant
                        i <= a.len(),
                        i <= b.len(),
                        compare_entries_from(entry_models(a@), entry_models(b@), i as int)
                            == compare_models(self@, other@),
                    decreases a.len() - i,
                {
                    match a[i].0.compare(&b[i].0) {
                        Some(Order::Equal) => {},
                        other => {
                            return other;
                        },
                    }
                    match a[i].1.compare(&b[i].1) {
                        Some(Order::Equal) => {},
                        other => {
                            return other;
                        },
                    }
                    i += 1;
                }
                if i < a.len() {
                    Some(Order::Greater)
                } else if i < b.len() {
                    Some(Order::Less)
                } else {
                    Some(Order::Equal)
                }
            },
            (Value::Alias(a), Value::Alias(b)) => Some(
                if *a < *b {
                    Order::Less
                } else if *a == *b {
                    Order::Equal
                } else {
                    Order::Greater
                },
            ),
            (Value::Invalid, Value::Invalid) => Some(Order::Equal),
            _ => None,
        }
    }
}

} // verus!
