use vstd::prelude::*;

use crate::text::opt_view;

verus! {

#[verifier::external_type_specification]
#[verifier::external_body]
pub struct ExUrlParseError(url::ParseError);

/// The text of the `file:` URL that `url::Url::from_file_path` makes of a
/// path, or `None` where it refuses the path (one that is not absolute).
pub uninterp spec fn spec_file_url(path: Seq<char>) -> Option<Seq<char>>;

/// The text of the URL that `url::Url::join` resolves `input` to against the
/// URL `base`, or `None` where it fails.
pub uninterp spec fn spec_url_join(base: Seq<char>, input: Seq<char>) -> Option<Seq<char>>;

/// The text of the path that `url::Url::to_file_path` makes of a URL (bytes
/// that are not UTF-8 replaced by U+FFFD), or `None` where it refuses the URL.
pub uninterp spec fn spec_url_file_path(url: Seq<char>) -> Option<Seq<char>>;

/// Calls `url::Url::from_file_path` and hands back the URL's text. Stated:
/// the result is a function of the path alone.
#[verifier::external_body]
pub(crate) fn file_url(path: &str) -> (res: Option<String>)
    ensures
        opt_view(res) == spec_file_url(path@),
{
    match url::Url::from_file_path(path) {
        Ok(u) => Some(String::from(u)),
        Err(()) => None,
    }
}

/// Calls `url::Url::join` on the URL that `url::Url::parse` reads from
/// `base` and hands back the resolved URL's text. Stated: the outcome is a
/// function of the two texts alone.
#[verifier::external_body]
pub(crate) fn url_join(base: &str, input: &str) -> (res: Result<String, url::ParseError>)
    ensures
        match res {
            Ok(u) => spec_url_join(base@, input@) == Some(u@),
            Err(_) => spec_url_join(base@, input@) is None,
        },
{
    match url::Url::parse(base) {
        Ok(b) => match b.join(input) {
            Ok(u) => Ok(String::from(u)),
            Err(e) => Err(e),
        },
        Err(e) => Err(e),
    }
}

/// Calls `url::Url::to_file_path` on the URL that `url::Url::parse` reads
/// from `url` and hands back the path as text, converted lossily
/// (`Path::to_string_lossy`). Stated: the result is a function of the URL's
/// text alone.
#[verifier::external_body]
pub(crate) fn url_file_path(url: &str) -> (res: Option<String>)
    ensures
        opt_view(res) == spec_url_file_path(url@),
{
    match url::Url::parse(url) {
        Ok(u) => match u.to_file_path() {
            Ok(p) => Some(p.to_string_lossy().into_owned()),
            Err(()) => None,
        },
        Err(_) => None,
    }
}

} // verus!
