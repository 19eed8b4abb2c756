use vstd::prelude::*;
use vstd::slice::{slice_subrange, slice_to_vec};
use vstd::string::StringSliceAdditionalSpecFns;

verus! {

/// The UTF-8 bytes of a string literal, as a fresh vector.
pub fn text(s: &str) -> (r: Vec<u8>)
    ensures
        r@ == s.spec_bytes(),
{
    slice_to_vec(s.as_bytes())
}

/// A fresh copy of a byte buffer.
pub fn copy_bytes(v: &Vec<u8>) -> (r: Vec<u8>)
    ensures
        r@ == v@,
{
    slice_to_vec(v.as_slice())
}

/// The bytes of `v` between `start` and `end`, as a fresh vector.
pub fn subvec(v: &Vec<u8>, start: usize, end: usize) -> (r: Vec<u8>)
    requires
        start <= end <= v@.len(),
    ensures
        r@ == v@.subrange(start as int, end as int),
{
    slice_to_vec(slice_subrange(v.as_slice(), start, end))
}

/// Appends the bytes of `v` between `start` and `end` to `dst`.
pub fn push_range(dst: &mut Vec<u8>, v: &Vec<u8>, start: usize, end: usize)
    requires
        start <= end <= v@.len(),
    ensures
        final(dst)@ == old(dst)@ + v@.subrange(start as int, end as int),
{
    let mut i: usize = start;
    while i < end
        invariant
            start <= i <= end <= v@.len(),
            dst@ == old(dst)@ + v@.subrange(start as int, i as int),
        decreases end - i,
    {
        dst.push(v[i]);
        i = i + 1;
        proof {
            assert(dst@ =~= old(dst)@ + v@.subrange(start as int, i as int));
        }
    }
}

/// Appends all of `v` to `dst`.
pub fn push_all(dst: &mut Vec<u8>, v: &Vec<u8>)
    ensures
        final(dst)@ == old(dst)@ + v@,
{
    let n = v.len();
    push_range(dst, v, 0, n);
    proof {
        assert(v@.subrange(0, n as int) =~= v@);
    }
}

} // verus!
