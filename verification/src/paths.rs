//! File-system paths of the shared folder, held as text.
use vstd::prelude::*;
use std::path::Path;

verus! {

/// The text of `Path::new(dir).join(name)`: the folder with the name
/// adjoined by the platform's path rules (its main separator between them,
/// unless the name is absolute and replaces the folder).
pub uninterp spec fn path_join(dir: Seq<char>, name: Seq<char>) -> Seq<char>;

/// `Path::join`, on texts. Joining two UTF-8 texts gives UTF-8 text, so the
/// conversion back to a `String` loses nothing.
#[verifier::external_body]
pub(crate) fn join(dir: &str, name: &str) -> (r: String)
    ensures
        r@ == path_join(dir@, name@),
{
    Path::new(dir).join(name).to_string_lossy().into_owned()
}

/// `Path::is_file`: whether the path names a regular file right now. The
/// answer comes from the file system at the moment of the call.
#[verifier::external_body]
pub(crate) fn is_file(path: &str) -> bool {
    Path::new(path).is_file()
}

} // verus!
