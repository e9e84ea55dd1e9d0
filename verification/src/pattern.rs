use vstd::prelude::*;

use crate::text::opt_view;

verus! {

/// What capture group `group` of the leftmost-first match of the regular
/// expression `pattern` captures in `text`, as the `regex` crate matches
/// (Unicode-aware: `\d` is any decimal digit, `.` any character but a line
/// feed). `None` where the pattern does not compile, nothing matches, or
/// the group takes no part in the match.
pub uninterp spec fn spec_regex_group(pattern: Seq<char>, text: Seq<char>, group: nat) -> Option<Seq<char>>;

/// Calls `regex::Regex::new` on `pattern`, then `Regex::captures` on `text`
/// and `Captures::get` with `group`, and hands back the captured text.
/// Stated: the result is a function of the pattern, the text and the group
/// alone; a pattern that does not compile gives `None`.
#[verifier::external_body]
pub(crate) fn regex_group(pattern: &str, text: &str, group: usize) -> (res: Option<String>)
    ensures
        opt_view(res) == spec_regex_group(pattern@, text@, group as nat),
{
    match regex::Regex::new(pattern) {
        Ok(re) => match re.captures(text) {
            Some(caps) => match caps.get(group) {
                Some(m) => Some(m.as_str().to_string()),
                None => None,
            },
            None => None,
        },
        Err(_) => None,
    }
}

} // verus!
