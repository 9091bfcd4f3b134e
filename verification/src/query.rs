use crate::error::{ParseError, ParseErrorModel};
use crate::evaluator::{all_part_of, evaluate_path};
use crate::grammar::path_of;
use crate::loader::{load_documents, yaml_documents, LoadError};
use crate::parser::parse_path;
use crate::semantics::eval_path;
use crate::value::{models, ref_models, Value, ValueModel};
use vstd::prelude::*;

verus! {

/// Why a query gave no result.
#[derive(Debug, Clone, PartialEq, Eq)]
pub enum QueryError {
    /// The document is no YAML.
    Yaml(LoadError),
    /// The path expression is malformed.
    Path(ParseError),
}

/// What a path expression, given as text, selects from the first of some
/// documents.
///
/// Without a document nothing is selected, whatever the expression is; with
/// one, the expression must parse.
pub open spec fn query_outcome(documents: Seq<ValueModel>, path: Seq<char>) -> Result<
    Seq<ValueModel>,
    ParseErrorModel,
> {
    if documents.len() == 0 {
        Ok(Seq::empty())
    } else {
        match path_of(path) {
            Ok(expr) => Ok(eval_path(documents[0], expr)),
            Err(e) => Err(e),
        }
    }
}

/// Applies a path expression, given as text, to the first of `documents`:
/// the values that it selects, each borrowed from that document and lying
/// in it.
pub fn query_documents<'a>(documents: &'a Vec<Value>, path: &str) -> (r: Result<
    Vec<&'a Value>,
    ParseError,
>)
    ensures
        match r {
            Ok(found) => query_outcome(models(documents@), path@) == Ok::<
                Seq<ValueModel>,
                ParseErrorModel,
            >(ref_models(found@)),
            Err(e) => query_outcome(models(documents@), path@) == Err::<
                Seq<ValueModel>,
                ParseErrorModel,
            >(e@),
        },
        r matches Ok(found) ==> documents@.len() > 0 ==> all_part_of(documents@[0], found@),
{
    if documents.len() == 0 {
        let found: Vec<&'a Value> = Vec::new();
        assert(ref_models(found@) =~= Seq::<ValueModel>::empty());
        return Ok(found);
    }
    let expr = parse_path(path)?;
    Ok(evaluate_path(&documents[0], &expr))
}

/// Copies the values that a query found.
pub fn copy_values(found: &Vec<&Value>) -> (copies: Vec<Value>)
    ensures
        models(copies@) == ref_models(found@),
{
    let mut copies: Vec<Value> = Vec::new();
    let mut i: usize = 0;
    while i < found.len()
        invariant
            i <= found.len(),
            models(copies@) == ref_models(found@).take(i as int),
        decreases found.len() - i,
    {
        let ghost before = copies@;
        let copy = found[i].clone();
        copies.push(copy);
        i += 1;
        assert(models(copies@) =~= models(before).push(copy@));
    }
    copies
}

/// Queries a YAML text with a path expression: the values that the
/// expression selects from the text's first document.
///
/// The text is read first: a text that is no YAML is an error whatever the
/// path is, and the error is the loader's. A text without a document gives
/// no values, whatever the path is.
pub fn query(yaml: &str, path: &str) -> (r: Result<Vec<Value>, QueryError>)
    ensures
        match yaml_documents(yaml@) {
            Err(fault) => r matches Err(QueryError::Yaml(error)) && error@ == fault,
            Ok(documents) => match query_outcome(documents, path@) {
                Ok(selected) => r matches Ok(found) && models(found@) == selected,
                Err(e) => r matches Err(QueryError::Path(error)) && error@ == e,
            },
        },
{
    match load_documents(yaml) {
        Err(error) => Err(QueryError::Yaml(error)),
        Ok(documents) => match query_documents(&documents, path) {
            Ok(found) => Ok(copy_values(&found)),
            Err(error) => Err(QueryError::Path(error)),
        },
    }
}

} // verus!
