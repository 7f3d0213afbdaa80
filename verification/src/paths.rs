//! Paths are held as text; what is asked of a path is asked of the standard
//! library.

use vstd::prelude::*;

verus! {

/// The last component of a path, where it has one that is a name; the call is
/// `std::path::Path::file_name`.
#[verifier::external_body]
pub(crate) fn path_file_name(path: &str) -> Option<String> {
    std::path::Path::new(path).file_name().and_then(|name| name.to_str()).map(|name| name.to_string())
}

/// Whether a path is absolute; the call is `std::path::Path::is_absolute`.
#[verifier::external_body]
pub(crate) fn path_is_absolute(path: &str) -> bool {
    std::path::Path::new(path).is_absolute()
}

/// `rest` taken from `base` on; the call is `std::path::Path::join`.
#[verifier::external_body]
pub(crate) fn path_join(base: &str, rest: &str) -> String {
    std::path::Path::new(base).join(rest).to_string_lossy().into_owned()
}

} // verus!
