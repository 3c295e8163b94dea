//! File-system paths, held as strings, and the `std::path` operations the
//! library applies to them.

use vstd::prelude::*;
use crate::text::{chars_of, push_str, string_push};

verus! {

/// Whether `p` is an absolute (rooted) path.
pub open spec fn is_absolute(p: Seq<char>) -> bool {
    p.len() > 0 && p[0] == '/'
}

/// `base` joined with `part`: `part` itself when it is absolute; otherwise
/// `part` appended to `base`, with a `/` between them unless `base` is empty
/// or already ends in one.
pub open spec fn spec_path_join(base: Seq<char>, part: Seq<char>) -> Seq<char> {
    if is_absolute(part) {
        part
    } else if base.len() > 0 && base.last() != '/' {
        base + seq!['/'] + part
    } else {
        base + part
    }
}

/// Joins two paths as `std::path::Path::join` does for paths on Unix (see
/// [`spec_path_join`]).
pub(crate) fn path_join(base: &str, part: &str) -> (r: String)
    ensures
        r@ == spec_path_join(base@, part@),
{
    let pc = chars_of(part);
    let mut r = String::new();
    if pc.len() > 0 && pc[0] == '/' {
        push_str(&mut r, part);
        return r;
    }
    let bc = chars_of(base);
    push_str(&mut r, base);
    if bc.len() > 0 && bc[bc.len() - 1] != '/' {
        string_push(&mut r, '/');
    }
    push_str(&mut r, part);
    r
}

/// The path that `std::path::Path::with_extension` gives for `path` and
/// `extension`.
pub uninterp spec fn spec_with_extension(path: Seq<char>, extension: Seq<char>) -> Seq<char>;

/// Replaces the extension of the path's last component.
///
/// Calls `std::path::Path::with_extension`, which panics when the extension
/// holds a path separator (`/` on Unix); the `requires` leaves those out.
/// The contract names its result and claims only that it is a function of
/// the two arguments; the rules by which the file stem is found are left
/// unsaid.
#[verifier::external_body]
pub(crate) fn path_with_extension(path: &str, extension: &str) -> (r: String)
    requires
        !extension@.contains('/'),
    ensures
        r@ == spec_with_extension(path@, extension@),
{
    std::path::Path::new(path).with_extension(extension).to_string_lossy().into_owned()
}

/// The parent that `std::path::Path::parent` gives for `path`, if any.
pub uninterp spec fn spec_parent(path: Seq<char>) -> Option<Seq<char>>;

/// The path without its last component, if it has one.
///
/// Calls `std::path::Path::parent`. The contract names its result and claims
/// only that it is a function of the path.
#[verifier::external_body]
pub(crate) fn path_parent(path: &str) -> (r: Option<String>)
    ensures
        match (r, spec_parent(path@)) {
            (Some(a), Some(b)) => a@ == b,
            (None, None) => true,
            _ => false,
        },
{
    std::path::Path::new(path).parent().map(|p| p.to_string_lossy().into_owned())
}

} // verus!
