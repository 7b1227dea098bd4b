//! Byte-range helpers shared by the engine's memory model and the raw
//! buffer layer: zero-filled allocation, range reads, and range writes.

use vstd::prelude::*;

verus! {

/// `s` with the range starting at `offset` replaced by `data`.
pub open spec fn spec_splice(s: Seq<u8>, offset: int, data: Seq<u8>) -> Seq<u8> {
    s.subrange(0, offset) + data + s.subrange(offset + data.len(), s.len() as int)
}

/// A zero-filled byte vector of length `n`.
pub fn zero_bytes(n: usize) -> (r: Vec<u8>)
    ensures
        r@ == Seq::new(n as nat, |i: int| 0u8),
{
    let mut v: Vec<u8> = Vec::new();
    let mut i: usize = 0;
    while i < n
        invariant
            0 <= i <= n,
            v@ == Seq::new(i as nat, |j: int| 0u8),
        decreases n - i,
    {
        v.push(0);
        proof {
            assert(v@ =~= Seq::new((i + 1) as nat, |j: int| 0u8));
        }
        i += 1;
    }
    v
}

/// The sub-range `[offset, offset + len)` of `src`, as an owned vector.
pub fn read_range(src: &Vec<u8>, offset: usize, len: usize) -> (r: Vec<u8>)
    requires
        offset + len <= src@.len(),
    ensures
        r@ == src@.subrange(offset as int, offset + len),
{
    let n = src.len();
    let mut v: Vec<u8> = Vec::new();
    let mut i: usize = 0;
    while i < len
        invariant
            0 <= i <= len,
            offset + len <= n,
            n == src@.len(),
            v@ == src@.subrange(offset as int, offset + i),
        decreases len - i,
    {
        v.push(src[offset + i]);
        proof {
            assert(v@ =~= src@.subrange(offset as int, offset + i + 1));
        }
        i += 1;
    }
    v
}

/// Overwrite the range of `dst` starting at `offset` with `src`.
pub fn write_range(dst: &mut Vec<u8>, offset: usize, src: &Vec<u8>)
    requires
        offset + src@.len() <= old(dst)@.len(),
    ensures
        final(dst)@ == spec_splice(old(dst)@, offset as int, src@),
        final(dst)@.len() == old(dst)@.len(),
{
    let len = src.len();
    let dlen = dst.len();
    let mut i: usize = 0;
    while i < len
        invariant
            0 <= i <= len,
            len == src@.len(),
            offset + len <= dlen,
            dlen == dst@.len(),
            dst@.len() == old(dst)@.len(),
            forall|j: int| 0 <= j < i ==> dst@[offset + j] == src@[j],
            forall|j: int|
                0 <= j < dst@.len() && !(offset <= j < offset + i) ==> dst@[j] == old(dst)@[j],
        decreases len - i,
    {
        dst.set(offset + i, src[i]);
        i += 1;
    }
    proof {
        assert(dst@ =~= spec_splice(old(dst)@, offset as int, src@));
    }
}

/// Whether two byte vectors hold the same bytes.
pub fn bytes_eq(a: &Vec<u8>, b: &Vec<u8>) -> (r: bool)
    ensures
        r == (a@ == b@),
{
    if a.len() != b.len() {
        proof {
            assert(a@.len() != b@.len());
        }
        return false;
    }
    let mut i: usize = 0;
    while i < a.len()
        invariant
            0 <= i <= a@.len(),
            a@.len() == b@.len(),
            forall|j: int| 0 <= j < i ==> a@[j] == b@[j],
        decreases a@.len() - i,
    {
        if a[i] != b[i] {
            return false;
        }
        i += 1;
    }
    proof {
        assert(a@ =~= b@);
    }
    true
}

} // verus!
