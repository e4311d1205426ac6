//! Reading a YAML document that holds one mapping of names to lists of text.

use vstd::prelude::*;

verus! {

/// What a YAML mapping holds: its names in order, each with its list, if it has one.
pub type Mapping = Seq<(Seq<char>, Option<Seq<Seq<char>>>)>;

/// What `serde_saphyr::from_str` makes of `content` as a mapping from text to optional lists
/// of text: the entries in the order of their names, or the text of its error.
pub uninterp spec fn yaml_mapping(content: Seq<char>) -> Result<
    Seq<(Seq<char>, Option<Seq<Seq<char>>>)>,
    Seq<char>,
>;

/// The text of each element.
pub open spec fn texts(list: Seq<String>) -> Seq<Seq<char>> {
    list.map_values(|s: String| s@)
}

/// The text of one entry.
pub open spec fn entry_view(entry: (String, Option<Vec<String>>)) -> (
    Seq<char>,
    Option<Seq<Seq<char>>>,
) {
    (
        entry.0@,
        match entry.1 {
            Some(list) => Some(texts(list@)),
            None => None,
        },
    )
}

/// A document, or the error it gave, as text.
pub open spec fn document_view(
    document: Result<Vec<(String, Option<Vec<String>>)>, String>,
) -> Result<Mapping, Seq<char>> {
    match document {
        Ok(entries) => Ok(
            entries@.map_values(|entry: (String, Option<Vec<String>>)| entry_view(entry)),
        ),
        Err(message) => Err(message@),
    }
}

/// Calls `serde_saphyr::from_str` for a mapping from text to optional lists of text. The
/// contract only names the outcome: it depends on nothing but the document. A name that the
/// document holds twice under the same tag is an error there; under different tags the mapping
/// keeps the list that comes last.
#[verifier::external_body]
pub(crate) fn read_mapping(content: &str) -> (r: Result<Vec<(String, Option<Vec<String>>)>, String>)
    ensures
        document_view(r) == yaml_mapping(content@),
{
    match serde_saphyr::from_str::<std::collections::BTreeMap<String, Option<Vec<String>>>>(content) {
        Ok(mapping) => Ok(mapping.into_iter().collect()),
        Err(error) => Err(error.to_string()),
    }
}

/// The text of a document is that of its entries, in their order, each with its name and its
/// list.
pub proof fn law_documents_are_read_as_text(
    entries: Vec<(String, Option<Vec<String>>)>,
    message: String,
    i: int,
    j: int,
)
    ensures
        document_view(Err(message)) == Err::<Mapping, Seq<char>>(message@),
        document_view(Ok(entries)) matches Ok(mapping) && {
            &&& mapping.len() == entries@.len()
            &&& 0 <= i < entries@.len() ==> {
                &&& mapping[i].0 == entries@[i].0@
                &&& mapping[i].1 is Some <==> entries@[i].1 is Some
                &&& entries@[i].1 matches Some(list) ==> (mapping[i].1 matches Some(lines)
                    && lines.len() == list@.len() && (0 <= j < list@.len() ==> lines[j]
                    == list@[j]@))
            }
        },
{
}

} // verus!
