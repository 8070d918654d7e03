//! What a path's text says about the file: its extension and its name.

use vstd::prelude::*;
use crate::text::eq_ignore_ascii_case;
use crate::text::same_ignoring_ascii_case;

verus! {

/// The final component that the standard library reads off the path `path`,
/// in the path syntax of the platform the library is built for.
pub uninterp spec fn path_file_name(path: Seq<char>) -> Option<Seq<char>>;

/// Calls `std::path::Path::file_name` on `path`.
///
/// Trusted: the result is what the standard library returns, which is named
/// [`path_file_name`]; nothing is claimed about how it is found.
#[verifier::external_body]
pub(crate) fn file_name_of(path: &str) -> (name: Option<String>)
    ensures
        name is Some <==> path_file_name(path@) is Some,
        name is Some ==> name->0@ == path_file_name(path@)->0,
{
    std::path::Path::new(path).file_name().map(|n| n.to_string_lossy().into_owned())
}

/// Position of the last dot of `name`, or -1 where it has none.
pub open spec fn last_dot(name: Seq<char>) -> int
    decreases name.len(),
{
    if name.len() == 0 {
        -1
    } else if name.last() == '.' {
        name.len() - 1
    } else {
        last_dot(name.drop_last())
    }
}

/// The extension of a file name: what follows its last dot. A name without
/// a dot has none, nor has a name whose only dot stands in front, nor the
/// name `..`.
pub open spec fn extension_in(name: Seq<char>) -> Option<Seq<char>> {
    if last_dot(name) <= 0 || name == seq!['.', '.'] {
        None
    } else {
        Some(name.subrange(last_dot(name) + 1, name.len() as int))
    }
}

/// The extension of the path `path`: that of its final component.
pub open spec fn path_extension(path: Seq<char>) -> Option<Seq<char>> {
    match path_file_name(path) {
        Some(name) => extension_in(name),
        None => None,
    }
}

/// Reads the extension off a file name.
pub fn file_extension(name: &str) -> (ext: Option<String>)
    ensures
        ext is Some <==> extension_in(name@) is Some,
        ext is Some ==> ext->0@ == extension_in(name@)->0,
{
    let n = name.unicode_len();
    let mut dot: usize = 0;
    let mut found = false;
    let mut i: usize = 0;
    proof {
        assert(name@.subrange(0, 0) =~= Seq::<char>::empty());
    }
    while i < n
        invariant
            n == name@.len(),
            i <= n,
            found ==> dot < i && dot == last_dot(name@.subrange(0, i as int)),
            !found ==> last_dot(name@.subrange(0, i as int)) == -1,
        decreases n - i,
    {
        proof {
            assert(name@.subrange(0, i as int + 1).drop_last() =~= name@.subrange(0, i as int));
            assert(name@.subrange(0, i as int + 1).last() == name@[i as int]);
        }
        if name.get_char(i) == '.' {
            dot = i;
            found = true;
        }
        i += 1;
    }
    proof {
        assert(name@.subrange(0, n as int) =~= name@);
    }
    if !found || dot == 0 {
        return None;
    }
    if n == 2 && name.get_char(0) == '.' && name.get_char(1) == '.' {
        proof {
            assert(name@ =~= seq!['.', '.']);
        }
        return None;
    }
    proof {
        if name@ == seq!['.', '.'] {
            assert(name@[0] == '.' && name@[1] == '.');
        }
    }
    let ext = name.substring_char(dot + 1, n);
    Some(String::from_str(ext))
}

/// Reads the extension off the path `path`.
pub(crate) fn extension_of(path: &str) -> (ext: Option<String>)
    ensures
        ext is Some <==> path_extension(path@) is Some,
        ext is Some ==> ext->0@ == path_extension(path@)->0,
{
    match file_name_of(path) {
        Some(name) => file_extension(name.as_str()),
        None => None,
    }
}

/// The extensions of the image formats that are indexed, compared without
/// regard to ASCII case.
pub open spec fn is_image_extension_text(ext: Seq<char>) -> bool {
    ||| same_ignoring_ascii_case(ext, "png"@)
    ||| same_ignoring_ascii_case(ext, "jpg"@)
    ||| same_ignoring_ascii_case(ext, "jpeg"@)
    ||| same_ignoring_ascii_case(ext, "gif"@)
    ||| same_ignoring_ascii_case(ext, "bmp"@)
    ||| same_ignoring_ascii_case(ext, "webp"@)
    ||| same_ignoring_ascii_case(ext, "avif"@)
}

/// An extension is present and is one of the indexed image formats.
pub open spec fn names_image(ext: Option<Seq<char>>) -> bool {
    ext is Some && is_image_extension_text(ext->0)
}

/// An extension is present and reads `png` in any mix of ASCII case.
pub open spec fn names_png(ext: Option<Seq<char>>) -> bool {
    ext is Some && same_ignoring_ascii_case(ext->0, "png"@)
}

/// Whether `ext`, the extension of some path, is one of the image formats
/// that are indexed: png, jpg, jpeg, gif, bmp, webp, avif.
pub fn is_image_extension(ext: Option<&str>) -> (image: bool)
    ensures
        image == match ext {
            Some(e) => is_image_extension_text(e@),
            None => false,
        },
{
    match ext {
        None => false,
        Some(e) => {
            eq_ignore_ascii_case(e, "png") || eq_ignore_ascii_case(e, "jpg")
                || eq_ignore_ascii_case(e, "jpeg") || eq_ignore_ascii_case(e, "gif")
                || eq_ignore_ascii_case(e, "bmp") || eq_ignore_ascii_case(e, "webp")
                || eq_ignore_ascii_case(e, "avif")
        },
    }
}

/// Whether `ext`, the extension of some path, reads `png`.
pub fn is_png_extension(ext: Option<&str>) -> (png: bool)
    ensures
        png == match ext {
            Some(e) => same_ignoring_ascii_case(e@, "png"@),
            None => false,
        },
{
    match ext {
        None => false,
        Some(e) => eq_ignore_ascii_case(e, "png"),
    }
}

/// Whether the path carries the extension of an indexed image format. The
/// file need not exist.
pub fn has_image_extension(path: &str) -> (image: bool)
    ensures
        image == names_image(path_extension(path@)),
{
    match extension_of(path) {
        None => false,
        Some(e) => is_image_extension(Some(e.as_str())),
    }
}

/// Whether the path names an image file: `is_file` says whether a regular
/// file is found at the path, and the extension has to be an image format's.
pub fn is_image_file(path: &str, is_file: bool) -> (image: bool)
    ensures
        image == (is_file && names_image(path_extension(path@))),
{
    if !is_file {
        return false;
    }
    has_image_extension(path)
}

/// The label under which a file is reported while it is indexed: the value
/// of `name`, the final component of its path, or `unknown` without one.
pub fn label_from(name: Option<String>) -> (label: String)
    ensures
        label@ == match name {
            Some(n) => n@,
            None => "unknown"@,
        },
{
    match name {
        Some(n) => n,
        None => String::from_str("unknown"),
    }
}

/// The label of the file at `path`: its final component, or `unknown`.
pub open spec fn label_of(path: Seq<char>) -> Seq<char> {
    match path_file_name(path) {
        Some(n) => n,
        None => "unknown"@,
    }
}

/// The label under which the file at `path` is reported.
pub fn progress_label(path: &str) -> (label: String)
    ensures
        label@ == label_of(path@),
{
    label_from(file_name_of(path))
}

} // verus!
