//! Which files the converter takes.

use vstd::prelude::*;
use crate::paths::extension_of;
use crate::paths::is_png_extension;
use crate::paths::names_png;
use crate::paths::path_extension;

verus! {

/// Whether the file at `path` is a PNG by its extension, in any mix of
/// ASCII case, and so can be converted.
pub fn is_convertible(path: &str) -> (convertible: bool)
    ensures
        convertible == names_png(path_extension(path@)),
{
    match extension_of(path) {
        None => false,
        Some(e) => is_png_extension(Some(e.as_str())),
    }
}

} // verus!
