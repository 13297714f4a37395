//! Acronyms of phrases: the uppercased initial of every word, where words are
//! separated by whitespace, hyphens or punctuation and split at camel-case
//! boundaries.
use vstd::prelude::*;

pub mod classify;
pub mod laws;
pub mod model;
pub mod stages;

use crate::model::acronym;
use crate::stages::{
    collect_acronym_letters, expand_camel_case_list, remove_punctuation_except_hyphen,
    replace_hyphen_with_space, split_on_whitespace,
};

verus! {

/// The acronym of a phrase: punctuation other than hyphens is dropped, hyphens
/// separate words as whitespace does, tokens that hold a lowercase letter are
/// split at their uppercase letters, and the first character of every word is
/// uppercased and kept, in order.
pub fn abbreviate(phrase: &str) -> (r: String)
    ensures
        r@ == acronym(phrase@),
{
    let no_punct = remove_punctuation_except_hyphen(phrase);
    let normalized = replace_hyphen_with_space(no_punct.as_str());
    let raw_words = split_on_whitespace(normalized.as_str());
    let expanded_words = expand_camel_case_list(raw_words.as_slice());
    collect_acronym_letters(expanded_words.as_slice())
}

} // verus!
