//! Reading the arguments of the command line, as far as it takes a rule.

use vstd::prelude::*;
use vstd::string::*;
use crate::text::slice_owned;

verus! {

/// Splits the argument of a rename, `old_name:new_name`, at its first colon.
/// An argument without a colon is refused.
pub fn parse_rename_args(s: &str) -> (out: Result<(String, String), String>)
    ensures
        out.is_ok() == s@.contains(':'),
        out matches Ok(names) ==> s@ == names.0@ + seq![':'] + names.1@ && !names.0@.contains(':'),
        out matches Err(msg) ==> msg@ == "Expected format 'old_name:new_name'"@,
{
    let n = s.unicode_len();
    let mut i: usize = 0;
    while i < n
        invariant
            n == s@.len(),
            i <= n,
            forall|k: int| 0 <= k < i ==> s@[k] != ':',
        decreases n - i,
    {
        if s.get_char(i) == ':' {
            let old_name = slice_owned(s, 0, i);
            let new_name = slice_owned(s, i + 1, n);
            proof {
                assert(s@ =~= old_name@ + seq![':'] + new_name@);
                assert(s@.contains(':'));
            }
            return Ok((old_name, new_name));
        }
        i += 1;
    }
    Err(String::from_str("Expected format 'old_name:new_name'"))
}

} // verus!
