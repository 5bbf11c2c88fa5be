//! The dialog that confirms a removal by a typed phrase.
use vstd::prelude::*;

use crate::text::{chars_eq, chars_of, trim, trimmed_chars};

verus! {

broadcast use vstd::string::group_string_axioms;

/// The handler of the confirmation dialog.
pub struct ConfirmationDialogHandler {
    required_phrase: &'static str,
}

impl ConfirmationDialogHandler {
    /// The phrase the user must type.
    pub closed spec fn phrase(&self) -> Seq<char> {
        self.required_phrase@
    }

    /// A dialog asking for `ILOVESTEELIUMTWEAKER`.
    pub fn new() -> (r: Self)
        ensures
            r.phrase() == "ILOVESTEELIUMTWEAKER"@,
    {
        ConfirmationDialogHandler { required_phrase: "ILOVESTEELIUMTWEAKER" }
    }

    /// Whether `input`, without surrounding whitespace, is the phrase; the
    /// OK button is enabled exactly then.
    pub fn validate_input(&self, input: String) -> (r: bool)
        ensures
            r == (trim(input@) == self.phrase()),
    {
        let t = trimmed_chars(input.as_str());
        let p = chars_of(self.required_phrase);
        chars_eq(&t, &p)
    }
}

} // verus!
