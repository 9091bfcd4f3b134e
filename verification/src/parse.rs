use crate::json::{json_pieces, piece_models, pieces_of, JsonPiece, JsonPieceModel};
use crate::loader::{load_documents, yaml_documents, LoadError};
use crate::value::{models, ValueModel};
use vstd::prelude::*;

verus! {

/// The pieces of the JSON texts of some documents, document by document.
pub open spec fn texts_of(documents: Seq<ValueModel>) -> Seq<Seq<JsonPieceModel>> {
    documents.map_values(|document: ValueModel| json_pieces(document))
}

/// The forms of the pieces of several texts, text by text.
pub open spec fn text_models(texts: Seq<Vec<JsonPiece>>) -> Seq<Seq<JsonPieceModel>> {
    texts.map_values(|pieces: Vec<JsonPiece>| piece_models(pieces@))
}

/// Reads a YAML text and lays out the JSON text of its first document;
/// `None` where the text holds no document, and the loader's error where the
/// text is no YAML.
pub fn parse(input: &str) -> (r: Result<Option<Vec<JsonPiece>>, LoadError>)
    ensures
        match yaml_documents(input@) {
            Err(fault) => r matches Err(error) && error@ == fault,
            Ok(documents) => match r {
                Ok(Some(pieces)) => documents.len() > 0 && piece_models(pieces@) == json_pieces(
                    documents[0],
                ),
                Ok(None) => documents.len() == 0,
                Err(_) => false,
            },
        },
{
    let documents = load_documents(input)?;
    if documents.len() == 0 {
        Ok(None)
    } else {
        Ok(Some(pieces_of(&documents[0])))
    }
}

/// Reads a YAML text and lays out the JSON text of each of its documents,
/// in the order of the documents; the loader's error where the text is no
/// YAML.
pub fn parse_all(input: &str) -> (r: Result<Vec<Vec<JsonPiece>>, LoadError>)
    ensures
        match yaml_documents(input@) {
            Err(fault) => r matches Err(error) && error@ == fault,
            Ok(documents) => r matches Ok(texts) && text_models(texts@) == texts_of(documents),
        },
{
    let documents = load_documents(input)?;
    let mut texts: Vec<Vec<JsonPiece>> = Vec::new();
    let mut i: usize = 0;
    while i < documents.len()
        invariant
            i <= documents.len(),
            text_models(texts@) == texts_of(models(documents@)).take(i as int),
        decreases documents.len() - i,
    {
        let pieces = pieces_of(&documents[i]);
        let ghost before = texts@;
        texts.push(pieces);
        i += 1;
        assert(text_models(texts@) =~= text_models(before).push(piece_models(pieces@)));
    }
    Ok(texts)
}

} // verus!
