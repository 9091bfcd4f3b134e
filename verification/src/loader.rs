use crate::value::{models, Value, ValueModel};
use vstd::prelude::*;
use yaml_rust2::{Yaml, YamlLoader};

verus! {

/// `yaml_rust2::Yaml`, a node of a document as the loader holds it. Nothing
/// is known here of what is inside.
#[verifier::external_type_specification]
#[verifier::external_body]
pub struct ExYaml(yaml_rust2::Yaml);

/// Why a text is no YAML: what the loader says, and where.
#[derive(Debug, Clone, PartialEq, Eq)]
pub struct LoadError {
    /// The loader's description of the fault.
    pub info: String,
    /// The offset of the fault in the text.
    pub index: usize,
    /// The line of the fault.
    pub line: usize,
    /// The column of the fault.
    pub column: usize,
}

/// The mathematical form of a [`LoadError`].
pub struct LoadErrorModel {
    pub info: Seq<char>,
    pub index: nat,
    pub line: nat,
    pub column: nat,
}

impl View for LoadError {
    type V = LoadErrorModel;

    open spec fn view(&self) -> LoadErrorModel {
        LoadErrorModel {
            info: self.info@,
            index: self.index as nat,
            line: self.line as nat,
            column: self.column as nat,
        }
    }
}

/// What `YamlLoader::load_from_str` makes of a text: the documents that it
/// reads, each as the tree of the [`Value`] that stands for it, or the fault
/// with which it rejects the text, as the description, the offset, the line
/// and the column that its error holds.
pub uninterp spec fn yaml_documents(text: Seq<char>) -> Result<Seq<ValueModel>, LoadErrorModel>;

/// What the result of reading a text stands for.
pub open spec fn loaded(r: Result<Vec<Value>, LoadError>) -> Result<
    Seq<ValueModel>,
    LoadErrorModel,
> {
    match r {
        Ok(documents) => Ok(models(documents@)),
        Err(error) => Err(error@),
    }
}

/// The fault that a description, an offset, a line and a column make.
pub open spec fn fault(info: Seq<char>, index: nat, line: nat, column: nat) -> LoadErrorModel {
    LoadErrorModel { info, index, line, column }
}

/// The value that stands for a node of the loader: for each variant of
/// `yaml_rust2::Yaml` the variant of [`Value`] with the same fields, the
/// entries of a mapping in the order in which the loader holds them. Nothing
/// is claimed of the result here.
#[verifier::external_body]
fn value_of(yaml: &Yaml) -> Value {
    match yaml {
        Yaml::Real(text) => Value::Float(text.clone()),
        Yaml::Integer(number) => Value::Int(*number),
        Yaml::String(text) => Value::String(text.clone()),
        Yaml::Boolean(flag) => Value::Bool(*flag),
        Yaml::Array(items) => Value::Sequence(items.iter().map(value_of).collect()),
        Yaml::Hash(entries) => Value::Mapping(
            entries.iter().map(|(key, value)| (value_of(key), value_of(value))).collect(),
        ),
        Yaml::Alias(number) => Value::Alias(*number),
        Yaml::Null => Value::Null,
        Yaml::BadValue => Value::Invalid,
    }
}

/// Reads the documents of a YAML text.
///
/// Calls `YamlLoader::load_from_str`, which succeeds if and only if it can
/// read every document of the text. Each document is turned into a
/// [`Value`]; an error is handed on as the description that
/// `ScanError::info` gives and the offset, line and column that
/// `Marker::index`, `Marker::line` and `Marker::col` give for
/// `ScanError::marker`. The loader takes nothing but the text, so the same
/// text always gives the same result: the contract gives that result a name,
/// [`yaml_documents`], and claims no more.
#[verifier::external_body]
fn load_from_str(text: &str) -> (r: Result<Vec<Value>, (String, usize, usize, usize)>)
    ensures
        match r {
            Ok(documents) => yaml_documents(text@) == Ok::<Seq<ValueModel>, LoadErrorModel>(
                models(documents@),
            ),
            Err((info, index, line, column)) => yaml_documents(text@) == Err::<
                Seq<ValueModel>,
                LoadErrorModel,
            >(fault(info@, index as nat, line as nat, column as nat)),
        },
{
    match YamlLoader::load_from_str(text) {
        Ok(documents) => Ok(documents.iter().map(value_of).collect()),
        Err(error) => {
            let marker = error.marker();
            Err((error.info().to_owned(), marker.index(), marker.line(), marker.col()))
        },
    }
}

/// Reads the documents of a YAML text, in their order. An error tells what
/// the loader found wrong, and where.
pub fn load_documents(text: &str) -> (r: Result<Vec<Value>, LoadError>)
    ensures
        loaded(r) == yaml_documents(text@),
{
    match load_from_str(text) {
        Ok(documents) => Ok(documents),
        Err((info, index, line, column)) => Err(LoadError { info, index, line, column }),
    }
}

} // verus!
