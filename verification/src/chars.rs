//! Character classes and string comparison.

use vstd::prelude::*;

verus! {

/// Whether `c` is alphabetic or numeric in the sense of Unicode: what
/// `char::is_alphanumeric` answers for `c`.
pub uninterp spec fn alphanumeric(c: char) -> bool;

/// Whether `c` is an uppercase letter in the sense of Unicode: what
/// `char::is_uppercase` answers for `c`.
pub uninterp spec fn uppercase(c: char) -> bool;

/// Whether `c` is a number in the sense of Unicode: what `char::is_numeric`
/// answers for `c`.
pub uninterp spec fn numeric(c: char) -> bool;

/// `char::is_alphanumeric` reads Unicode's tables; its answer depends on the
/// character alone and is named `alphanumeric`.
pub assume_specification[ char::is_alphanumeric ](c: char) -> (b: bool)
    ensures
        b == alphanumeric(c),
;

/// `char::is_uppercase` reads Unicode's tables; its answer depends on the
/// character alone and is named `uppercase`.
pub assume_specification[ char::is_uppercase ](c: char) -> (b: bool)
    ensures
        b == uppercase(c),
;

/// `char::is_numeric` reads Unicode's tables; its answer depends on the
/// character alone and is named `numeric`.
pub assume_specification[ char::is_numeric ](c: char) -> (b: bool)
    ensures
        b == numeric(c),
;

/// `String::push` appends one character at the end of the string.
pub assume_specification[ String::push ](s: &mut String, c: char)
    ensures
        final(s)@ == old(s)@.push(c),
;

/// Whether `a` and `b` hold the same characters.
pub fn str_equal(a: &str, b: &str) -> (r: bool)
    ensures
        r == (a@ == b@),
{
    let n = a.unicode_len();
    if b.unicode_len() != n {
        return false;
    }
    let mut i: usize = 0;
    while i < n
        invariant
            n == a@.len(),
            n == b@.len(),
            i <= n,
            forall|k: int| 0 <= k < i ==> a@[k] == b@[k],
        decreases n - i,
    {
        if a.get_char(i) != b.get_char(i) {
            return false;
        }
        i += 1;
    }
    assert(a@ =~= b@);
    true
}

} // verus!
