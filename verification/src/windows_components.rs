//! System components page.
use vstd::prelude::*;

use crate::text::concat;

verus! {

broadcast use vstd::string::group_string_axioms;

/// The handler of the system components page.
pub struct WindowsComponentsTweaker;

/// The directory that enabling the photo viewer creates, under the home
/// directory `home` (`/tmp` when the home directory is unknown).
pub open spec fn photo_viewer_dir(home: Option<Seq<char>>) -> Seq<char> {
    let base = match home {
        Some(h) => h,
        None => "/tmp"@,
    };
    base + "/.config/MangoHud"@
}

impl WindowsComponentsTweaker {
    pub fn new() -> Self {
        WindowsComponentsTweaker
    }

    /// The photo viewer is always available.
    pub fn is_photo_viewer_enabled(&self) -> (r: bool)
        ensures
            r,
    {
        true
    }

    /// Game recording is never running on this system.
    pub fn is_game_dvr_disabled(&self) -> (r: bool)
        ensures
            r,
    {
        true
    }

    /// Disabling game recording always succeeds: there is none.
    pub fn disable_game_dvr(&self) -> (r: bool)
        ensures
            r,
    {
        true
    }

    /// Disabling the hypervisor: there is nothing to do on this system.
    pub fn disable_hyperv(&self) {
    }

    /// The directory that enabling the photo viewer creates.
    pub fn photo_viewer_dir(&self, home: Option<String>) -> (r: String)
        ensures
            r@ == photo_viewer_dir(
                match home {
                    Some(h) => Some(h@),
                    None => None,
                },
            ),
    {
        let base = match home {
            Some(h) => h,
            None => "/tmp".to_string(),
        };
        concat(base.as_str(), "/.config/MangoHud")
    }
}

} // verus!
