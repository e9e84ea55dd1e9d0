use vstd::prelude::*;

use crate::text::{opt_view, text_is};

verus! {

/// The final component of a path as `std::path::Path::file_name` reads it.
pub uninterp spec fn spec_file_name(path: Seq<char>) -> Option<Seq<char>>;

/// The extension of a path as `std::path::Path::extension` reads it.
pub uninterp spec fn spec_extension(path: Seq<char>) -> Option<Seq<char>>;

/// The path that `std::path::Path::join` makes of a base and a further part.
pub uninterp spec fn spec_join(base: Seq<char>, part: Seq<char>) -> Seq<char>;

/// The parent directory of a path as `std::path::Path::parent` reads it.
pub uninterp spec fn spec_parent(path: Seq<char>) -> Option<Seq<char>>;

/// The components of a path as `std::path::Path::components` reads them,
/// each as its text: `/` for the root, `.` for a leading current directory,
/// `..` for a parent directory, and the name of every other component.
/// Repeated separators, inner `.` components and a trailing separator leave
/// no component. `std::path::Path` compares paths by their components, and
/// on Unix these texts tell the components apart, so two paths are equal as
/// `Path`s exactly when these sequences are equal.
pub uninterp spec fn spec_path_components(path: Seq<char>) -> Seq<Seq<char>>;

/// Whether two paths are the same path: they have the same components.
pub open spec fn paths_equal(a: Seq<char>, b: Seq<char>) -> bool {
    spec_path_components(a) == spec_path_components(b)
}

/// The texts of a sequence of strings.
pub open spec fn texts(v: Seq<String>) -> Seq<Seq<char>> {
    v.map_values(|s: String| s@)
}

/// Calls `std::path::Path::components` on a UTF-8 path and hands back the
/// text of each component (`Component::as_os_str`). Stated: the result is a
/// function of the path alone. Components of a UTF-8 path are UTF-8, so the
/// conversion to text loses nothing.
#[verifier::external_body]
pub(crate) fn path_components(path: &str) -> (res: Vec<String>)
    ensures
        texts(res@) == spec_path_components(path@),
{
    let mut parts: Vec<String> = Vec::new();
    for component in std::path::Path::new(path).components() {
        parts.push(component.as_os_str().to_string_lossy().into_owned());
    }
    parts
}

/// Whether two sequences of texts are equal, text by text.
fn same_texts(a: &Vec<String>, b: &Vec<String>) -> (res: bool)
    ensures
        res == (texts(a@) == texts(b@)),
{
    if a.len() != b.len() {
        proof {
            assert(texts(a@).len() != texts(b@).len());
        }
        return false;
    }
    let mut i: usize = 0;
    while i < a.len()
        invariant
            a.len() == b.len(),
            i <= a.len(),
            forall|j: int| 0 <= j < i ==> a@[j]@ == b@[j]@,
        decreases a.len() - i,
    {
        if !text_is(a[i].as_str(), b[i].as_str()) {
            proof {
                assert(texts(a@)[i as int] != texts(b@)[i as int]);
            }
            return false;
        }
        i += 1;
    }
    proof {
        assert(texts(a@) =~= texts(b@));
    }
    true
}

/// Whether two UTF-8 paths are the same path, compared component by
/// component as `std::path::Path` compares them.
pub fn same_path(a: &str, b: &str) -> (res: bool)
    ensures
        res == paths_equal(a@, b@),
{
    let ca = path_components(a);
    let cb = path_components(b);
    same_texts(&ca, &cb)
}

/// Calls `std::path::Path::file_name` on a UTF-8 path. Stated: the result
/// is a function of the path alone. The final component of a UTF-8 path is
/// UTF-8, so the conversion back to text cannot fail.
#[verifier::external_body]
pub(crate) fn file_name(path: &str) -> (res: Option<String>)
    ensures
        opt_view(res) == spec_file_name(path@),
{
    match std::path::Path::new(path).file_name() {
        Some(name) => Some(name.to_string_lossy().into_owned()),
        None => None,
    }
}

/// Calls `std::path::Path::extension` on a UTF-8 path. Stated: the result
/// is a function of the path alone.
#[verifier::external_body]
pub(crate) fn extension(path: &str) -> (res: Option<String>)
    ensures
        opt_view(res) == spec_extension(path@),
{
    match std::path::Path::new(path).extension() {
        Some(ext) => Some(ext.to_string_lossy().into_owned()),
        None => None,
    }
}

/// Calls `std::path::Path::join` on UTF-8 paths. Stated: the result is a
/// function of the two paths alone.
#[verifier::external_body]
pub(crate) fn join(base: &str, part: &str) -> (res: String)
    ensures
        res@ == spec_join(base@, part@),
{
    std::path::Path::new(base).join(part).to_string_lossy().into_owned()
}

/// Calls `std::path::Path::parent` on a UTF-8 path. Stated: the result is
/// a function of the path alone.
#[verifier::external_body]
pub(crate) fn parent(path: &str) -> (res: Option<String>)
    ensures
        opt_view(res) == spec_parent(path@),
{
    match std::path::Path::new(path).parent() {
        Some(dir) => Some(dir.to_string_lossy().into_owned()),
        None => None,
    }
}

} // verus!
