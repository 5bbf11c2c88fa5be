//! The "About" settings of the Linux edition.
use vstd::prelude::*;

verus! {

broadcast use vstd::string::group_string_axioms;

/// The version and authors shown on the settings page.
pub struct SettingsAboutHandler {
    pub version: String,
    pub authors: String,
}

impl SettingsAboutHandler {
    /// The Linux edition's version and authors.
    pub fn new() -> (r: Self)
        ensures
            r.version@ == "v4.0.0-linux"@,
            r.authors@ == "Maku & Contributors"@,
    {
        SettingsAboutHandler {
            version: "v4.0.0-linux".to_string(),
            authors: "Maku & Contributors".to_string(),
        }
    }

    /// Whether the quick-launch alias is installed: there is none on Linux.
    pub fn check_winr_alias_status(&self) -> (r: bool)
        ensures
            !r,
    {
        false
    }
}

} // verus!
