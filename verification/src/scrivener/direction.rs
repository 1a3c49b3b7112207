//! Which way a conversion runs, told by the input path's extension.
use vstd::prelude::*;

use crate::paths::{extension_of, path_extension};
use crate::text::str_eq;

verus! {

/// The format of a conversion's input.
#[derive(Clone, Copy, PartialEq, Eq, Structural, Debug)]
pub enum Format {
    /// A Scrivener project, converted to a `.chikn` project.
    Scriv,
    /// A `.chikn` project, converted to a Scrivener project.
    Chikn,
}

/// The format an extension names: `scriv` or `scrivx` for Scrivener,
/// `chikn` for ours, anything else (or none) for neither.
pub open spec fn format_of(ext: Option<Seq<char>>) -> Option<Format> {
    match ext {
        Some(e) => if e == "scriv"@ || e == "scrivx"@ {
            Some(Format::Scriv)
        } else if e == "chikn"@ {
            Some(Format::Chikn)
        } else {
            None
        },
        None => None,
    }
}

/// The format an extension names.
pub fn format_of_extension(ext: Option<&str>) -> (r: Option<Format>)
    ensures
        r == format_of(
            match ext {
                Some(e) => Some(e@),
                None => None,
            },
        ),
{
    match ext {
        Some(e) => if str_eq(e, "scriv") || str_eq(e, "scrivx") {
            Some(Format::Scriv)
        } else if str_eq(e, "chikn") {
            Some(Format::Chikn)
        } else {
            None
        },
        None => None,
    }
}

/// The format of a conversion's input path, by its extension.
pub fn detect_format(path: &str) -> (r: Option<Format>)
    ensures
        r == format_of(path_extension(path@)),
{
    let ext = extension_of(path);
    match ext {
        Some(e) => format_of_extension(Some(e.as_str())),
        None => format_of_extension(None),
    }
}

} // verus!
