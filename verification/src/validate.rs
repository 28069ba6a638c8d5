//! The name validator: a display name is acceptable exactly when it is
//! non-empty and every character is an ASCII letter or digit.

use vstd::prelude::*;
use vstd::string::StrSliceExecFns;

verus! {

/// One character of an acceptable display name: an ASCII letter or digit.
pub open spec fn is_name_char(c: char) -> bool {
    ('a' <= c && c <= 'z') || ('A' <= c && c <= 'Z') || ('0' <= c && c <= '9')
}

/// A display name is acceptable when it is non-empty and all of its
/// characters are ASCII alphanumeric.
pub open spec fn valid_name(s: Seq<char>) -> bool {
    s.len() > 0 && (forall|i: int| 0 <= i < s.len() ==> is_name_char(#[trigger] s[i]))
}

/// Accepts exactly the acceptable display names.
pub fn validate_name(name: &str) -> (r: bool)
    ensures
        r == valid_name(name@),
{
    let len = name.unicode_len();
    if len == 0 {
        return false;
    }
    for i in 0..len
        invariant
            len == name@.len(),
            forall|j: int| 0 <= j < i ==> is_name_char(#[trigger] name@[j]),
    {
        let c = name.get_char(i);
        let ok = ('a' <= c && c <= 'z') || ('A' <= c && c <= 'Z') || ('0' <= c && c <= '9');
        if !ok {
            assert(!is_name_char(name@[i as int]));
            return false;
        }
    }
    true
}

} // verus!
