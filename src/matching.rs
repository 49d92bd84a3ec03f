use vstd::prelude::*;
use vstd::string::StringSliceAdditionalSpecFns;

verus! {

/// `needle` stands in `hay` starting at position `k`.
pub open spec fn occurs_at(hay: Seq<u8>, needle: Seq<u8>, k: int) -> bool {
    &&& 0 <= k
    &&& k + needle.len() <= hay.len()
    &&& hay.subrange(k, k + needle.len()) == needle
}

/// `needle` is a contiguous part of `hay`. The empty needle is part of every
/// text.
pub open spec fn occurs_in(hay: Seq<u8>, needle: Seq<u8>) -> bool {
    exists|k: int| occurs_at(hay, needle, k)
}

/// Whether `needle` occurs in `haystack` as an exact, contiguous run of bytes.
pub fn contains(haystack: &str, needle: &str) -> (r: bool)
    ensures
        r == occurs_in(haystack.spec_bytes(), needle.spec_bytes()),
{
    let h = haystack.as_bytes();
    let n = needle.as_bytes();
    let ghost hb = haystack.spec_bytes();
    let ghost nb = needle.spec_bytes();
    if n.len() > h.len() {
        proof {
            assert forall|k: int| !occurs_at(hb, nb, k) by {}
        }
        return false;
    }
    let last: usize = h.len() - n.len();
    let mut k: usize = 0;
    while k <= last
        invariant
            h@ == hb,
            n@ == nb,
            hb == haystack.spec_bytes(),
            nb == needle.spec_bytes(),
            hb.len() <= usize::MAX,
            last == hb.len() - nb.len(),
            forall|j: int| 0 <= j < k ==> !occurs_at(hb, nb, j),
        decreases last + 1 - k,
    {
        let mut j: usize = 0;
        while j < n.len() && h[k + j] == n[j]
            invariant
                h@ == hb,
                n@ == nb,
                k <= last,
                hb.len() <= usize::MAX,
                last == hb.len() - nb.len(),
                0 <= j <= nb.len(),
                forall|t: int| 0 <= t < j ==> hb[k + t] == nb[t],
            decreases nb.len() - j,
        {
            j = j + 1;
        }
        if j == n.len() {
            proof {
                assert(hb.subrange(k as int, k + nb.len()) =~= nb);
                assert(occurs_at(hb, nb, k as int));
                assert(occurs_in(hb, nb));
            }
            return true;
        }
        proof {
            if occurs_at(hb, nb, k as int) {
                assert(hb.subrange(k as int, k + nb.len())[j as int] == hb[k + j]);
            }
        }
        k = k + 1;
    }
    proof {
        assert forall|j: int| !occurs_at(hb, nb, j) by {
            if 0 <= j < k {
            }
        }
    }
    false
}

} // verus!
