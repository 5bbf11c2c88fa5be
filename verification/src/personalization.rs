//! Personalization page. Themes, wallpapers and the desktop are left to the
//! desktop environment, so each request is accepted as it is.
use vstd::prelude::*;

verus! {

/// The handler of the personalization page.
pub struct PersonalizationHandler;

impl PersonalizationHandler {
    pub fn new() -> Self {
        PersonalizationHandler
    }

    /// Accepts theme `theme`.
    pub fn set_theme(&self, theme: &str) -> (r: bool)
        ensures
            r,
    {
        true
    }

    /// Accepts the wallpaper at `path`.
    pub fn set_wallpaper(&self, path: &str) -> (r: bool)
        ensures
            r,
    {
        true
    }

    /// Accepts the desktop customization.
    pub fn customize_desktop(&self) -> (r: bool)
        ensures
            r,
    {
        true
    }
}

} // verus!
