//! Paths as text: the final component of a folder's path, and the path of a
//! file in a folder. Both are left to the platform's own path syntax.

use vstd::prelude::*;
use vstd::string::*;

verus! {

/// The final component of the path `path`, where it has one. What counts as
/// a component is the business of the path syntax that the program is built
/// for; nothing is said of it here but that it depends on the text alone.
pub uninterp spec fn final_component(path: Seq<char>) -> Option<Seq<char>>;

/// The path of the file `file_name` in the folder `folder`, put together by
/// the path syntax that the program is built for.
pub uninterp spec fn joined(folder: Seq<char>, file_name: Seq<char>) -> Seq<char>;

/// Calls `std::path::Path::file_name` on `path` and hands the component back
/// as text. Trusted: the result is `final_component` of the text, which is no
/// more than a name for what that call gives.
#[verifier::external_body]
fn file_name(path: &str) -> (r: Option<String>)
    ensures
        match r {
            Some(name) => final_component(path@) == Some(name@),
            None => final_component(path@) is None,
        },
{
    match std::path::Path::new(path).file_name() {
        Some(name) => match name.to_str() {
            Some(text) => Some(text.to_string()),
            None => None,
        },
        None => None,
    }
}

/// Calls `std::path::Path::join` on `folder` with `file_name` and hands the
/// path back as text. Trusted: the result is `joined` of the two texts, which
/// is no more than a name for what that call gives.
#[verifier::external_body]
pub(crate) fn join(folder: &str, file_name: &str) -> (r: String)
    ensures
        r@ == joined(folder@, file_name@),
{
    std::path::Path::new(folder).join(file_name).to_string_lossy().into_owned()
}

/// The message for a folder path without a final component.
pub open spec fn invalid_folder_path() -> Seq<char> {
    "Invalid folder path"@
}

/// The base name of a folder: the final component of its path. A path
/// without one is turned down with the message `Invalid folder path`.
pub fn base_name(folder_path: &str) -> (r: Result<String, String>)
    ensures
        match r {
            Ok(base) => final_component(folder_path@) == Some(base@),
            Err(message) => final_component(folder_path@) is None && message@
                == invalid_folder_path(),
        },
{
    match file_name(folder_path) {
        Some(base) => Ok(base),
        None => Err(String::from_str("Invalid folder path")),
    }
}

} // verus!
