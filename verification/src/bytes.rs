//! Small verified helpers on byte vectors: range copy and comparison.

use vstd::prelude::*;

verus! {

/// Copies `v[start..end]` into a fresh vector.
pub fn copy_range(v: &Vec<u8>, start: usize, end: usize) -> (r: Vec<u8>)
    requires
        start <= end <= v@.len(),
    ensures
        r@ == v@.subrange(start as int, end as int),
{
    let mut out: Vec<u8> = Vec::new();
    let mut i: usize = start;
    while i < end
        invariant
            start <= i <= end <= v@.len(),
            out@ == v@.subrange(start as int, i as int),
        decreases end - i,
    {
        out.push(v[i]);
        i = i + 1;
        proof {
            assert(out@ =~= v@.subrange(start as int, i as int));
        }
    }
    out
}

/// Copies a whole byte vector.
pub fn copy_bytes(v: &Vec<u8>) -> (r: Vec<u8>)
    ensures
        r@ == v@,
{
    let r = copy_range(v, 0, v.len());
    proof {
        assert(v@.subrange(0, v@.len() as int) =~= v@);
    }
    r
}

/// Whether two byte vectors hold the same bytes.
pub fn bytes_eq(a: &Vec<u8>, b: &Vec<u8>) -> (r: bool)
    ensures
        r <==> a@ == b@,
{
    if a.len() != b.len() {
        proof {
            assert(a@ != b@);
        }
        return false;
    }
    let mut i: usize = 0;
    while i < a.len()
        invariant
            a@.len() == b@.len(),
            0 <= i <= a@.len(),
            forall|j: int| 0 <= j < i ==> a@[j] == b@[j],
        decreases a@.len() - i,
    {
        if a[i] != b[i] {
            return false;
        }
        i = i + 1;
    }
    proof {
        assert(a@ =~= b@);
    }
    true
}

/// Whether `v[at..at + w.len()]` equals `w`.
pub fn range_eq(v: &Vec<u8>, at: usize, w: &Vec<u8>) -> (r: bool)
    requires
        at + w@.len() <= v@.len(),
    ensures
        r <==> v@.subrange(at as int, at + w@.len()) == w@,
{
    let vlen = v.len();
    let mut i: usize = 0;
    while i < w.len()
        invariant
            at + w@.len() <= v@.len(),
            v@.len() == vlen,
            0 <= i <= w@.len(),
            forall|j: int| 0 <= j < i ==> v@[at + j] == w@[j],
        decreases w@.len() - i,
    {
        if v[at + i] != w[i] {
            proof {
                assert(v@.subrange(at as int, at + w@.len())[i as int] != w@[i as int]);
            }
            return false;
        }
        i = i + 1;
    }
    proof {
        assert(v@.subrange(at as int, at + w@.len()) =~= w@);
    }
    true
}

} // verus!
