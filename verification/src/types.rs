use crate::text::chars_of;
use crate::value::{model_of, Value, ValueModel};
use vstd::prelude::*;

verus! {

/// A path expression: one step of navigation, or a chain of steps.
#[derive(Debug, PartialEq)]
pub enum PathExpr {
    /// The value that the path is applied to.
    Root,
    /// The entry of a mapping under a string key.
    Property(String),
    /// The element of a sequence at a position, counted from zero.
    Index(usize),
    /// Every element of a sequence, or every value of a mapping.
    Wildcard,
    /// The value itself and everything below it, in pre-order.
    RecursiveDescent,
    /// The elements of a sequence that satisfy a predicate.
    Filter(Box<FilterExpr>),
    /// Steps applied one after the other.
    Sequence(Vec<PathExpr>),
}

/// A predicate on a candidate value.
#[derive(Debug, PartialEq)]
pub enum FilterExpr {
    /// Some value selected by the path equals the literal.
    Equals(Box<PathExpr>, Value),
    /// No value selected by the path equals the literal.
    NotEquals(Box<PathExpr>, Value),
    /// Some value selected by the path is greater than the literal.
    GreaterThan(Box<PathExpr>, Value),
    /// Some value selected by the path is less than the literal.
    LessThan(Box<PathExpr>, Value),
    /// Both predicates hold.
    And(Box<FilterExpr>, Box<FilterExpr>),
    /// At least one of the predicates holds.
    Or(Box<FilterExpr>, Box<FilterExpr>),
}

/// An operator of the filter language.
#[derive(Debug, Clone, Copy, PartialEq, Eq, Structural)]
pub enum Operator {
    /// `==`
    Equals,
    /// `!=`
    NotEquals,
    /// `>`
    GreaterThan,
    /// `<`
    LessThan,
    /// `&&`
    And,
    /// `||`
    Or,
}

/// The mathematical form of a [`PathExpr`].
pub enum PathModel {
    Root,
    Property(Seq<char>),
    Index(nat),
    Wildcard,
    RecursiveDescent,
    Filter(Box<FilterModel>),
    Sequence(Seq<PathModel>),
}

/// The mathematical form of a [`FilterExpr`].
pub enum FilterModel {
    Equals(Box<PathModel>, ValueModel),
    NotEquals(Box<PathModel>, ValueModel),
    GreaterThan(Box<PathModel>, ValueModel),
    LessThan(Box<PathModel>, ValueModel),
    And(Box<FilterModel>, Box<FilterModel>),
    Or(Box<FilterModel>, Box<FilterModel>),
}

/// The mathematical form of `path`.
pub open spec fn path_model(path: PathExpr) -> PathModel
    decreases path,
{
    match path {
        PathExpr::Root => PathModel::Root,
        PathExpr::Property(name) => PathModel::Property(name@),
        PathExpr::Index(index) => PathModel::Index(index as nat),
        PathExpr::Wildcard => PathModel::Wildcard,
        PathExpr::RecursiveDescent => PathModel::RecursiveDescent,
        PathExpr::Filter(filter) => PathModel::Filter(Box::new(filter_model(*filter))),
        PathExpr::Sequence(steps) => PathModel::Sequence(
            Seq::new(
                steps@.len(),
                |i: int|
                    if 0 <= i < steps@.len() {
                        path_model(steps@[i])
                    } else {
                        PathModel::Root
                    },
            ),
        ),
    }
}

/// The mathematical form of `filter`.
pub open spec fn filter_model(filter: FilterExpr) -> FilterModel
    decreases filter,
{
    match filter {
        FilterExpr::Equals(path, literal) => FilterModel::Equals(
            Box::new(path_model(*path)),
            model_of(literal),
        ),
        FilterExpr::NotEquals(path, literal) => FilterModel::NotEquals(
            Box::new(path_model(*path)),
            model_of(literal),
        ),
        FilterExpr::GreaterThan(path, literal) => FilterModel::GreaterThan(
            Box::new(path_model(*path)),
            model_of(literal),
        ),
        FilterExpr::LessThan(path, literal) => FilterModel::LessThan(
            Box::new(path_model(*path)),
            model_of(literal),
        ),
        FilterExpr::And(left, right) => FilterModel::And(
            Box::new(filter_model(*left)),
            Box::new(filter_model(*right)),
        ),
        FilterExpr::Or(left, right) => FilterModel::Or(
            Box::new(filter_model(*left)),
            Box::new(filter_model(*right)),
        ),
    }
}

impl View for Operator {
    type V = Operator;

    open spec fn view(&self) -> Operator {
        *self
    }
}

impl View for PathExpr {
    type V = PathModel;

    open spec fn view(&self) -> PathModel {
        path_model(*self)
    }
}

impl View for FilterExpr {
    type V = FilterModel;

    open spec fn view(&self) -> FilterModel {
        filter_model(*self)
    }
}

/// The forms of a sequence of path expressions, element by element.
pub open spec fn path_models(steps: Seq<PathExpr>) -> Seq<PathModel> {
    steps.map_values(|p: PathExpr| p@)
}

/// The form of a chain of steps is the chain of the steps' forms.
pub proof fn lemma_view_of_steps(path: PathExpr)
    ensures
        path matches PathExpr::Sequence(steps) ==> path@ == PathModel::Sequence(
            path_models(steps@),
        ),
{
    match path {
        PathExpr::Sequence(steps) => {
            assert(path@->Sequence_0 =~= path_models(steps@));
        },
        _ => {},
    }
}

impl Clone for PathExpr {
    /// A deep copy: the result has the same form.
    #[verifier::loop_isolation(false)]
    fn clone(&self) -> (copy: PathExpr)
        ensures
            copy@ == self@,
        decreases self,
    {
        match self {
            PathExpr::Root => PathExpr::Root,
            PathExpr::Property(name) => PathExpr::Property(name.clone()),
            PathExpr::Index(index) => PathExpr::Index(*index),
            PathExpr::Wildcard => PathExpr::Wildcard,
            PathExpr::RecursiveDescent => PathExpr::RecursiveDescent,
            PathExpr::Filter(filter) => PathExpr::Filter(Box::new((**filter).clone())),
            PathExpr::Sequence(steps) => {
                let mut copies: Vec<PathExpr> = Vec::new();
                let mut i: usize = 0;
                while i < steps.len()
                    invariant
                        i <= steps.len(),
                        copies.len() == i,
                        forall|j: int| 0 <= j < i ==> copies@[j]@ == steps@[j]@,
                    decreases steps.len() - i,
                {
                    copies.push(steps[i].clone());
                    i += 1;
                }
                let copy = PathExpr::Sequence(copies);
                proof {
                    lemma_view_of_steps(*self);
                    lemma_view_of_steps(copy);
                    assert(path_models(copies@) =~= path_models(steps@));
                }
                copy
            },
        }
    }
}

impl Clone for FilterExpr {
    /// A deep copy: the result has the same form.
    fn clone(&self) -> (copy: FilterExpr)
        ensures
            copy@ == self@,
        decreases self,
    {
        match self {
            FilterExpr::Equals(path, literal) => FilterExpr::Equals(
                Box::new((**path).clone()),
                literal.clone(),
            ),
            FilterExpr::NotEquals(path, literal) => FilterExpr::NotEquals(
                Box::new((**path).clone()),
                literal.clone(),
            ),
            FilterExpr::GreaterThan(path, literal) => FilterExpr::GreaterThan(
                Box::new((**path).clone()),
                literal.clone(),
            ),
            FilterExpr::LessThan(path, literal) => FilterExpr::LessThan(
                Box::new((**path).clone()),
                literal.clone(),
            ),
            FilterExpr::And(left, right) => FilterExpr::And(
                Box::new((**left).clone()),
                Box::new((**right).clone()),
            ),
            FilterExpr::Or(left, right) => FilterExpr::Or(
                Box::new((**left).clone()),
                Box::new((**right).clone()),
            ),
        }
    }
}

/// The operator that a text spells, if any.
pub open spec fn operator_of(text: Seq<char>) -> Option<Operator> {
    if text == seq!['=', '='] {
        Some(Operator::Equals)
    } else if text == seq!['!', '='] {
        Some(Operator::NotEquals)
    } else if text == seq!['>'] {
        Some(Operator::GreaterThan)
    } else if text == seq!['<'] {
        Some(Operator::LessThan)
    } else if text == seq!['&', '&'] {
        Some(Operator::And)
    } else if text == seq!['|', '|'] {
        Some(Operator::Or)
    } else {
        None
    }
}

/// The operator that a sequence of characters spells, if any.
pub fn operator_from_chars(text: &[char]) -> (r: Option<Operator>)
    ensures
        r == operator_of(text@),
{
    if text.len() == 1 {
        let r = if text[0] == '>' {
            Some(Operator::GreaterThan)
        } else if text[0] == '<' {
            Some(Operator::LessThan)
        } else {
            None
        };
        proof {
            if text[0] == '>' {
                assert(text@ =~= seq!['>']);
            }
            if text[0] == '<' {
                assert(text@ =~= seq!['<']);
            }
        }
        r
    } else if text.len() == 2 {
        let a = text[0];
        let b = text[1];
        let r = if a == '=' && b == '=' {
            Some(Operator::Equals)
        } else if a == '!' && b == '=' {
            Some(Operator::NotEquals)
        } else if a == '&' && b == '&' {
            Some(Operator::And)
        } else if a == '|' && b == '|' {
            Some(Operator::Or)
        } else {
            None
        };
        proof {
            assert(text@ =~= seq![a, b]);
        }
        r
    } else {
        None
    }
}

impl Operator {
    /// The operator that a string spells: one of `==`, `!=`, `>`, `<`,
    /// `&&` and `||`; `None` for any other string.
    pub fn from_str(s: &str) -> (r: Option<Operator>)
        ensures
            r == operator_of(s@),
    {
        let chars = chars_of(s);
        operator_from_chars(chars.as_slice())
    }
}

} // verus!
