//! Shell word splitting, done by the shlex crate behind a trusted contract.

use vstd::prelude::*;

verus! {

/// The POSIX shell word split of a string: `None` exactly on erroneous input
/// (an unbalanced quote or a trailing backslash), else the words in order.
/// The result depends on the characters of the input alone.
pub uninterp spec fn shell_words(s: Seq<char>) -> Option<Seq<Seq<char>>>;

/// Relies on shlex::split: splits a string into POSIX shell words, returning
/// None when the input is erroneous.  The result is a pure function of the
/// input string.
#[verifier::external_body]
pub(crate) fn split_shell_words(s: &str) -> (r: Option<Vec<String>>)
    ensures
        r.deep_view() == shell_words(s@),
{
    shlex::split(s)
}

} // verus!
