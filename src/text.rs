use vstd::prelude::*;
use vstd::string::StringSliceAdditionalSpecFns;

verus! {

/// Byte-wise string equality written as an explicit loop, usable where
/// `==` on `&str` is not available.
pub fn str_eq(s1: &str, s2: &str) -> (r: bool)
    ensures
        r == (s1.spec_bytes() == s2.spec_bytes()),
{
    let b1 = s1.as_bytes();
    let b2 = s2.as_bytes();
    if b1.len() != b2.len() {
        return false;
    }
    let mut i: usize = 0;
    while i < b1.len()
        invariant
            b1@ == s1.spec_bytes(),
            b2@ == s2.spec_bytes(),
            b1@.len() == b2@.len(),
            i <= b1@.len(),
            forall|j: int| 0 <= j < i ==> b1@[j] == b2@[j],
        decreases b1@.len() - i,
    {
        if b1[i] != b2[i] {
            return false;
        }
        i += 1;
    }
    assert(b1@ =~= b2@);
    true
}

} // verus!
