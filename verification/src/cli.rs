//! Command-line level decisions: language shorthands.

use vstd::prelude::*;
use crate::text::str_equals;

verus! {

/// The language that a `--lang` argument names: `s`, `es` and `esp` stand for
/// `spanish`, `e`, `en` and `eng` for `english`; any other name is kept as given.
pub open spec fn spec_resolve_lang(input: Seq<char>) -> Seq<char> {
    if input == "s"@ || input == "es"@ || input == "esp"@ {
        "spanish"@
    } else if input == "e"@ || input == "en"@ || input == "eng"@ {
        "english"@
    } else {
        input
    }
}

/// Expands a language shorthand into the name of its word list.
pub fn resolve_lang(input: &str) -> (r: String)
    ensures
        r@ == spec_resolve_lang(input@),
{
    if str_equals(input, "s") || str_equals(input, "es") || str_equals(input, "esp") {
        String::from_str("spanish")
    } else if str_equals(input, "e") || str_equals(input, "en") || str_equals(input, "eng") {
        String::from_str("english")
    } else {
        String::from_str(input)
    }
}

} // verus!
