//! Themes of the interface and their names.
use vstd::prelude::*;
use crate::text::{starts_with, str_equal};

verus! {

/// A theme of the interface.
#[derive(Debug, Clone, Copy, PartialEq, Eq, Structural)]
pub enum Theme {
    Lupin,
    Dark,
    Light,
    Auto,
}

impl Default for Theme {
    fn default() -> (r: Theme)
        ensures
            r == Theme::Lupin,
    {
        Theme::Lupin
    }
}

/// The theme that a stored name denotes: `Dark`, `Light` and `Lupin` by their
/// exact names, `Auto` by any name that starts with "Auto", and the default
/// theme, `Lupin`, for any other name.
pub open spec fn theme_named(name: Seq<char>) -> Theme {
    if name == "Dark"@ {
        Theme::Dark
    } else if name == "Light"@ {
        Theme::Light
    } else if name == "Lupin"@ {
        Theme::Lupin
    } else if "Auto"@.len() <= name.len() && name.subrange(0, "Auto"@.len() as int) == "Auto"@ {
        Theme::Auto
    } else {
        Theme::Lupin
    }
}

/// The theme that `theme` names.
pub fn string_to_theme(theme: &str) -> (r: Theme)
    ensures
        r == theme_named(theme@),
{
    if str_equal(theme, "Dark") {
        Theme::Dark
    } else if str_equal(theme, "Light") {
        Theme::Light
    } else if str_equal(theme, "Lupin") {
        Theme::Lupin
    } else if starts_with(theme, "Auto") {
        Theme::Auto
    } else {
        Theme::default()
    }
}

} // verus!
