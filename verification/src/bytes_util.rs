//! Byte-level helpers shared by the codecs and the tag state machine.

use vstd::prelude::*;
use vstd::string::StringSliceAdditionalSpecFns;

verus! {

/// Compares two byte slices for equality.
pub fn bytes_eq(a: &[u8], b: &[u8]) -> (r: bool)
    ensures
        r <==> a@ == b@,
{
    if a.len() != b.len() {
        proof {
            assert(a@.len() != b@.len());
        }
        return false;
    }
    let n = a.len();
    let mut i: usize = 0;
    while i < n
        invariant
            n == a@.len() && n == b@.len(),
            i <= n,
            forall|j: int| 0 <= j < i ==> a@[j] == b@[j],
        decreases n - i,
    {
        if a[i] != b[i] {
            return false;
        }
        i += 1;
    }
    proof {
        assert(a@ =~= b@);
    }
    true
}

/// The byte sequence a string denotes; recognized element and attribute
/// names are stated through this function in specifications.
pub open spec fn lit(s: &str) -> Seq<u8> {
    s.spec_bytes()
}

/// Tests whether `v` holds exactly the bytes of the name `pat`.
pub fn name_is(v: &[u8], pat: &str) -> (r: bool)
    ensures
        r <==> v@ == lit(pat),
{
    bytes_eq(v, pat.as_bytes())
}

/// The bytes of an ASCII name are its characters, one byte each.
pub proof fn lemma_ascii_lit(s: &str)
    requires
        vstd::string::is_ascii(s),
    ensures
        lit(s).len() == s@.len(),
        forall|i: int| 0 <= i < s@.len() ==> lit(s)[i] == s@[i] as u8,
{
    vstd::string::is_ascii_spec_bytes(s);
}

} // verus!
