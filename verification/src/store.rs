//! The persisted form of a mapping from text to text: one RON document.

use crate::mapping::{distinct_keys, mapping_of, pair_views, Mapping};
use ron::error::{Error, SpannedError};
use ron::ser::PrettyConfig;
use std::collections::BTreeMap;
use vstd::prelude::*;

verus! {

/// What went wrong between a mapping and its persisted document.
#[derive(Debug, Clone, PartialEq, Eq)]
pub enum StoreError {
    /// The persisted document does not parse; the parser's message.
    Corrupt(String),
    /// The mapping could not be serialized; the serializer's message.
    Unwritable(String),
    /// The serialized document does not read back as the mapping.
    Unfaithful,
}

/// `ron::error::SpannedError`, the error of the parser with its place in the
/// document: carried from the parser to its message, and never looked
/// into.
#[verifier::external_type_specification]
#[verifier::external_body]
pub struct ExSpannedError(SpannedError);

/// `ron::error::Error`, the error of the serializer: carried from the
/// serializer to its message, and never looked into.
#[verifier::external_type_specification]
#[verifier::external_body]
pub struct ExError(Error);

/// The mapping that the RON document `text` holds; `None` where `text` is no
/// RON document of a mapping from strings to strings.
pub uninterp spec fn ron_mapping(text: Seq<char>) -> Option<Map<Seq<char>, Seq<char>>>;

/// The RON document that the serializer writes for the mapping `entries`,
/// with `line_end` at the end of each line; `None` where it writes none.
pub uninterp spec fn ron_document(
    entries: Map<Seq<char>, Seq<char>>,
    line_end: Seq<char>,
) -> Option<Seq<char>>;

/// What ends each line of a persisted document, on every machine.
pub open spec fn line_end() -> Seq<char> {
    "\n"@
}

/// The document that `save` hands out for `entries`: what the serializer
/// writes, where that reads back as `entries`; `None` where the serializer
/// writes nothing, or something that reads back otherwise.
pub open spec fn document_of(entries: Map<Seq<char>, Seq<char>>) -> Option<Seq<char>> {
    match ron_document(entries, line_end()) {
        Some(text) => if ron_mapping(text) == Some(entries) {
            Some(text)
        } else {
            None
        },
        None => None,
    }
}

/// Whether `e` is the error that `save` answers with for `entries`, where
/// it hands out no document: that nothing was written, or that what was
/// written does not read back.
pub open spec fn refusal_of(entries: Map<Seq<char>, Seq<char>>, e: StoreError) -> bool {
    match ron_document(entries, line_end()) {
        Some(_) => e == StoreError::Unfaithful,
        None => e is Unwritable,
    }
}

/// `ron::from_str`, asked for a `BTreeMap` from strings to strings: the
/// pairs of the map that the document holds, or the parser's error where
/// the text is no such document. Which map it is depends on the text
/// alone.
#[verifier::external_body]
fn parse_document(text: &str) -> (r: Result<Vec<(String, String)>, SpannedError>)
    ensures
        match r {
            Ok(pairs) => ron_mapping(text@) == Some(mapping_of(pair_views(pairs@))),
            Err(_) => ron_mapping(text@) is None,
        },
{
    ron::from_str::<BTreeMap<String, String>>(text).map(|m| m.into_iter().collect())
}

/// `ron::ser::to_string_pretty` with the default layout but for the end of
/// line, which is `line_end`, on the pairs gathered into a `BTreeMap`: the
/// document, or the serializer's error. The serializer walks the map in the
/// order of its keys, so which document it is depends on the mapping and on
/// `line_end` alone, and not on the order of the pairs.
#[verifier::external_body]
fn write_document(pairs: &Vec<(String, String)>, line_end: &str) -> (r: Result<String, Error>)
    requires
        distinct_keys(pair_views(pairs@)),
    ensures
        match r {
            Ok(text) => ron_document(mapping_of(pair_views(pairs@)), line_end@) == Some(text@),
            Err(_) => ron_document(mapping_of(pair_views(pairs@)), line_end@) is None,
        },
{
    let m: BTreeMap<&str, &str> = pairs.iter().map(|p| (p.0.as_str(), p.1.as_str())).collect();
    ron::ser::to_string_pretty(&m, PrettyConfig::default().new_line(line_end.to_owned()))
}

/// What `SpannedError` displays: the message of the parser's error, with
/// the place in the document. Nothing is claimed of the message.
#[verifier::external_body]
fn parse_error_text(e: &SpannedError) -> (s: String) {
    format!("{}", e)
}

/// What `Error` displays: the message of the serializer's error. Nothing
/// is claimed of the message.
#[verifier::external_body]
fn write_error_text(e: &Error) -> (s: String) {
    format!("{}", e)
}

/// Reads a persisted mapping. `None` stands for a file that does not exist
/// and gives the empty mapping; a document that does not parse is an error,
/// never an empty mapping.
pub fn load(persisted: Option<&str>) -> (r: Result<Mapping, StoreError>)
    ensures
        match persisted {
            None => r matches Ok(m) && m.wf() && m@ == Map::<Seq<char>, Seq<char>>::empty(),
            Some(text) => match ron_mapping(text@) {
                Some(held) => r matches Ok(m) && m.wf() && m@ == held,
                None => r matches Err(e) && e is Corrupt,
            },
        },
{
    match persisted {
        None => Ok(Mapping::new()),
        Some(text) => match parse_document(text) {
            Ok(pairs) => Ok(Mapping::from_pairs(pairs)),
            Err(e) => Err(StoreError::Corrupt(parse_error_text(&e))),
        },
    }
}

/// What `save` answers, given what the serializer gave and, where it gave a
/// document, what the parser made of that document: the document where it
/// reads back as `mapping`, and else the reason why there is none.
pub fn confirm(
    mapping: &Mapping,
    written: Result<String, String>,
    read_back: Option<Result<Vec<(String, String)>, String>>,
) -> (r: Result<String, StoreError>)
    requires
        mapping.wf(),
    ensures
        match written {
            Err(reason) => r == Err::<String, StoreError>(StoreError::Unwritable(reason)),
            Ok(text) => match read_back {
                Some(Ok(pairs)) => if mapping_of(pair_views(pairs@)) == mapping@ {
                    r == Ok::<String, StoreError>(text)
                } else {
                    r == Err::<String, StoreError>(StoreError::Unfaithful)
                },
                _ => r == Err::<String, StoreError>(StoreError::Unfaithful),
            },
        },
{
    match written {
        Err(reason) => Err(StoreError::Unwritable(reason)),
        Ok(text) => match read_back {
            Some(Ok(pairs)) => {
                let read = Mapping::from_pairs(pairs);
                if mapping.same_as(&read) {
                    Ok(text)
                } else {
                    Err(StoreError::Unfaithful)
                }
            },
            _ => Err(StoreError::Unfaithful),
        },
    }
}

/// Serializes `mapping` to a document and reads the document back. The
/// document is handed out where the serializer writes one and it reads
/// back as `mapping`; equal mappings give the same document. Where the
/// serializer writes none the error is `Unwritable`, and where what it
/// writes reads back otherwise the error is `Unfaithful`.
pub fn save(mapping: &Mapping) -> (r: Result<String, StoreError>)
    requires
        mapping.wf(),
    ensures
        match r {
            Ok(text) => document_of(mapping@) == Some(text@),
            Err(e) => document_of(mapping@) is None && refusal_of(mapping@, e),
        },
{
    let written: Result<String, String> = match write_document(mapping.pairs(), "\n") {
        Ok(text) => Ok(text),
        Err(e) => Err(write_error_text(&e)),
    };
    let read_back: Option<Result<Vec<(String, String)>, String>> = match &written {
        Ok(text) => match parse_document(text.as_str()) {
            Ok(pairs) => Some(Ok(pairs)),
            Err(e) => Some(Err(parse_error_text(&e))),
        },
        Err(_) => None,
    };
    confirm(mapping, written, read_back)
}

} // verus!
