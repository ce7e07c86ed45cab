//! What a translation can fail with, and the record of one cut around a URL.

use vstd::prelude::*;

verus! {

/// Why a translation backend gave no translation.
#[derive(Debug, Clone, PartialEq, Eq)]
pub enum TranslationError {
    /// The backend answered in another language than the one asked for.
    TargetLangMismatch,
    /// A number in the backend's answer did not parse.
    ParseIntErr,
    /// The request failed; the reason.
    HttpErr(String),
    /// The address of the backend did not parse.
    UrlParseErr,
    /// The backend's answer did not parse; the reason.
    JsonParseErr(String),
}

impl TranslationError {
    /// An equal error.
    pub fn copy(&self) -> (e: Self)
        ensures
            e == *self,
    {
        match self {
            TranslationError::TargetLangMismatch => TranslationError::TargetLangMismatch,
            TranslationError::ParseIntErr => TranslationError::ParseIntErr,
            TranslationError::HttpErr(reason) => TranslationError::HttpErr(reason.clone()),
            TranslationError::UrlParseErr => TranslationError::UrlParseErr,
            TranslationError::JsonParseErr(reason) => TranslationError::JsonParseErr(
                reason.clone(),
            ),
        }
    }
}

/// The record of one cut of a text around a URL: the text, the translations
/// of what stood left and right of the URL, the URL, and the result. Kept
/// for later inspection; the translator never reads it.
#[derive(Debug, Clone, PartialEq, Eq)]
pub struct UrlTranslationCTX {
    pub original_text: String,
    pub left: String,
    pub url: String,
    pub right: String,
    pub tled: String,
}

/// The five texts of a record, as characters.
pub struct CutRecord {
    pub original_text: Seq<char>,
    pub left: Seq<char>,
    pub url: Seq<char>,
    pub right: Seq<char>,
    pub tled: Seq<char>,
}

impl View for UrlTranslationCTX {
    type V = CutRecord;

    open spec fn view(&self) -> CutRecord {
        CutRecord {
            original_text: self.original_text@,
            left: self.left@,
            url: self.url@,
            right: self.right@,
            tled: self.tled@,
        }
    }
}

/// The records of `log`, each as characters.
pub open spec fn records(log: Seq<UrlTranslationCTX>) -> Seq<CutRecord> {
    Seq::new(log.len(), |i: int| log[i]@)
}

} // verus!
