use vstd::prelude::*;

verus! {

/// A document value: one node of a tree of scalars, sequences and mappings.
///
/// A mapping keeps its entries in insertion order, its keys may be any
/// value, and the same key may occur more than once.
///
/// `==` on values is structural equality, and `clone` makes a deep copy.
#[derive(Debug)]
pub enum Value {
    /// The null value.
    Null,
    /// A boolean.
    Bool(bool),
    /// A 64-bit signed integer.
    Int(i64),
    /// A floating-point number, kept as its text. Two floats are equal if
    /// their texts are; they are ordered by the numbers that the texts spell.
    Float(String),
    /// A character string.
    String(String),
    /// An ordered sequence of values.
    Sequence(Vec<Value>),
    /// A list of key and value pairs, in insertion order.
    Mapping(Vec<(Value, Value)>),
    /// A reference to an anchored node, by its number.
    Alias(usize),
    /// A value that could not be built.
    Invalid,
}

/// The mathematical tree that a [`Value`] stands for. Two values stand
/// for the same tree if and only if they are structurally equal.
pub enum ValueModel {
    Null,
    Bool(bool),
    Int(int),
    Float(Seq<char>),
    String(Seq<char>),
    Sequence(Seq<ValueModel>),
    Mapping(Seq<(ValueModel, ValueModel)>),
    Alias(nat),
    Invalid,
}

/// The tree that `v` stands for.
pub open spec fn model_of(v: Value) -> ValueModel
    decreases v,
{
    match v {
        Value::Null => ValueModel::Null,
        Value::Bool(b) => ValueModel::Bool(b),
        Value::Int(i) => ValueModel::Int(i as int),
        Value::Float(text) => ValueModel::Float(text@),
        Value::String(text) => ValueModel::String(text@),
        Value::Sequence(items) => ValueModel::Sequence(
            Seq::new(
                items@.len(),
                |i: int|
                    if 0 <= i < items@.len() {
                        model_of(items@[i])
                    } else {
                        ValueModel::Null
                    },
            ),
        ),
        Value::Mapping(entries) => ValueModel::Mapping(
            Seq::new(
                entries@.len(),
                |i: int|
                    if 0 <= i < entries@.len() {
                        (model_of(entries@[i].0), model_of(entries@[i].1))
                    } else {
                        (ValueModel::Null, ValueModel::Null)
                    },
            ),
        ),
        Value::Alias(id) => ValueModel::Alias(id as nat),
        Value::Invalid => ValueModel::Invalid,
    }
}

impl View for Value {
    type V = ValueModel;

    open spec fn view(&self) -> ValueModel {
        model_of(*self)
    }
}

/// The trees of a sequence of values, element by element.
pub open spec fn models(items: Seq<Value>) -> Seq<ValueModel> {
    items.map_values(|v: Value| v@)
}

/// The trees of a sequence of key and value pairs, pair by pair.
pub open spec fn entry_models(entries: Seq<(Value, Value)>) -> Seq<(ValueModel, ValueModel)> {
    entries.map_values(|e: (Value, Value)| (e.0@, e.1@))
}

/// The trees that a sequence of borrowed values stands for.
pub open spec fn ref_models(items: Seq<&Value>) -> Seq<ValueModel> {
    items.map_values(|v: &Value| v@)
}

/// The tree of a sequence holds the trees of its elements, and the tree
/// of a mapping those of its keys and values.
pub proof fn lemma_view_of_collections(v: Value)
    ensures
        v matches Value::Sequence(items) ==> v@ == ValueModel::Sequence(models(items@)),
        v matches Value::Mapping(entries) ==> v@ == ValueModel::Mapping(entry_models(entries@)),
{
    match v {
        Value::Sequence(items) => {
            assert(v@->Sequence_0 =~= models(items@));
        },
        Value::Mapping(entries) => {
            assert(v@->Mapping_0 =~= entry_models(entries@));
        },
        _ => {},
    }
}

/// Whether `part` lies in `whole`: it is `whole` itself, an element of the
/// sequence `whole` or a value of the mapping `whole`, or lies in one of
/// these. The keys of a mapping do not lie in it.
pub open spec fn part_of(whole: Value, part: Value) -> bool
    decreases whole,
{
    part == whole || match whole {
        Value::Sequence(items) => exists|i: int|
            0 <= i < items@.len() && part_of(#[trigger] items@[i], part),
        Value::Mapping(entries) => exists|i: int|
            0 <= i < entries@.len() && part_of((#[trigger] entries@[i]).1, part),
        _ => false,
    }
}

/// A value lies in itself, and so does each element of a sequence and
/// each value of a mapping.
pub proof fn lemma_children_are_parts(whole: Value)
    ensures
        part_of(whole, whole),
        whole matches Value::Sequence(items) ==> forall|i: int|
            0 <= i < items@.len() ==> part_of(whole, #[trigger] items@[i]),
        whole matches Value::Mapping(entries) ==> forall|i: int|
            0 <= i < entries@.len() ==> part_of(whole, (#[trigger] entries@[i]).1),
{
    match whole {
        Value::Sequence(items) => {
            assert forall|i: int| 0 <= i < items@.len() implies part_of(
                whole,
                #[trigger] items@[i],
            ) by {
                assert(part_of(items@[i], items@[i]));
            }
        },
        Value::Mapping(entries) => {
            assert forall|i: int| 0 <= i < entries@.len() implies part_of(
                whole,
                (#[trigger] entries@[i]).1,
            ) by {
                assert(part_of(entries@[i].1, entries@[i].1));
            }
        },
        _ => {},
    }
}

/// What lies in a part of a value lies in the value.
pub proof fn lemma_part_of_part(whole: Value, middle: Value, part: Value)
    requires
        part_of(whole, middle),
        part_of(middle, part),
    ensures
        part_of(whole, part),
    decreases whole,
{
    if middle != whole {
        match whole {
            Value::Sequence(items) => {
                let i = choose|i: int|
                    0 <= i < items@.len() && part_of(#[trigger] items@[i], middle);
                lemma_part_of_part(items@[i], middle, part);
            },
            Value::Mapping(entries) => {
                let i = choose|i: int|
                    0 <= i < entries@.len() && part_of((#[trigger] entries@[i]).1, middle);
                lemma_part_of_part(entries@[i].1, middle, part);
            },
            _ => {},
        }
    }
}

impl Value {
    /// Structural equality: the two values are the same tree. Values of
    /// different kinds are never equal.
    #[verifier::loop_isolation(false)]
    pub fn structurally_equals(&self, other: &Value) -> (r: bool)
        ensures
            r == (self@ == other@),
        decreases self,
    {
        proof {
            lemma_view_of_collections(*self);
            lemma_view_of_collections(*other);
        }
        match (self, other) {
            (Value::Null, Value::Null) => true,
            (Value::Bool(a), Value::Bool(b)) => *a == *b,
            (Value::Int(a), Value::Int(b)) => *a == *b,
            (Value::Float(a), Value::Float(b)) => *a == *b,
            (Value::String(a), Value::String(b)) => *a == *b,
            (Value::Sequence(a), Value::Sequence(b)) => {
                if a.len() != b.len() {
                    assert(models(a@).len() != models(b@).len());
                    return false;
                }
                let mut i: usize = 0;
                while i < a.len()
                    invariant
                        i <= a.len(),
                        a.len() == b.len(),
                        forall|j: int| 0 <= j < i ==> a@[j]@ == b@[j]@,
                    decreases a.len() - i,
                {
                    if !a[i].structurally_equals(&b[i]) {
                        assert(models(a@)[i as int] != models(b@)[i as int]);
                        return false;
                    }
                    i += 1;
                }
                assert(models(a@) =~= models(b@));
                true
            },
            (Value::Mapping(a), Value::Mapping(b)) => {
                if a.len() != b.len() {
                    assert(entry_models(a@).len() != entry_models(b@).len());
                    return false;
                }
                let mut i: usize = 0;
                while i < a.len()
                    invariant
                        i <= a.len(),
                        a.len() == b.len(),
                        forall|j: int|
                            0 <= j < i ==> a@[j].0@ == b@[j].0@ && a@[j].1@ == b@[j].1@,
                    decreases a.len() - i,
                {
                    if !a[i].0.structurally_equals(&b[i].0) || !a[i].1.structurally_equals(
                        &b[i].1,
                    ) {
                        assert(entry_models(a@)[i as int] != entry_models(b@)[i as int]);
                        return false;
                    }
                    i += 1;
                }
                assert(entry_models(a@) =~= entry_models(b@));
                true
            },
            (Value::Alias(a), Value::Alias(b)) => *a == *b,
            (Value::Invalid, Value::Invalid) => true,
            _ => false,
        }
    }
}

impl Clone for Value {
    /// A deep copy: the result is the same tree.
    #[verifier::loop_isolation(false)]
    fn clone(&self) -> (copy: Value)
        ensures
            copy@ == self@,
        decreases self,
    {
        match self {
            Value::Null => Value::Null,
            Value::Bool(b) => Value::Bool(*b),
            Value::Int(i) => Value::Int(*i),
            Value::Float(text) => Value::Float(text.clone()),
            Value::String(text) => Value::String(text.clone()),
            Value::Sequence(items) => {
                let mut copies: Vec<Value> = Vec::new();
                let mut i: usize = 0;
                while i < items.len()
                    invariant
                        i <= items.len(),
                        copies.len() == i,
                        forall|j: int| 0 <= j < i ==> copies@[j]@ == items@[j]@,
                    decreases items.len() - i,
                {
                    copies.push(items[i].clone());
                    i += 1;
                }
                let copy = Value::Sequence(copies);
                proof {
                    lemma_view_of_collections(*self);
                    lemma_view_of_collections(copy);
                    assert(models(copies@) =~= models(items@));
                }
                copy
            },
            Value::Mapping(entries) => {
                let mut copies: Vec<(Value, Value)> = Vec::new();
                let mut i: usize = 0;
                while i < entries.len()
                    invariant
                        i <= entries.len(),
                        copies.len() == i,
                        forall|j: int|
                            0 <= j < i ==> copies@[j].0@ == entries@[j].0@ && copies@[j].1@
                                == entries@[j].1@,
                    decreases entries.len() - i,
                {
                    copies.push((entries[i].0.clone(), entries[i].1.clone()));
                    i += 1;
                }
                let copy = Value::Mapping(copies);
                proof {
                    lemma_view_of_collections(*self);
                    lemma_view_of_collections(copy);
                    assert(entry_models(copies@) =~= entry_models(entries@));
                }
                copy
            },
            Value::Alias(id) => Value::Alias(*id),
            Value::Invalid => Value::Invalid,
        }
    }
}

impl PartialEq for Value {
    /// `==` on values is structural equality.
    fn eq(&self, other: &Value) -> (r: bool) {
        self.structurally_equals(other)
    }
}

impl vstd::std_specs::cmp::PartialEqSpecImpl for Value {
    open spec fn obeys_eq_spec() -> bool {
        true
    }

    open spec fn eq_spec(&self, other: &Value) -> bool {
        self@ == other@
    }
}

} // verus!
