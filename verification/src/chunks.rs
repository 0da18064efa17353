//! Verified helpers that move fixed-size chunks between a buffer and the
//! small vectors the lane-wise operations work on.

use vstd::prelude::*;

verus! {

/// Copies `n` bytes starting at `lo` out of the buffer.
pub(crate) fn copy_chunk(map: &Vec<u8>, lo: usize, n: usize) -> (r: Vec<u8>)
    requires
        lo + n <= map@.len(),
    ensures
        r@.len() == n,
        forall|k: int| 0 <= k < n ==> #[trigger] r@[k] == map@[lo + k],
{
    let len = map.len();
    let mut r: Vec<u8> = Vec::with_capacity(n);
    let mut k: usize = 0;
    while k < n
        invariant
            k <= n,
            lo + n <= len,
            len == map@.len(),
            r@.len() == k,
            forall|j: int| 0 <= j < k ==> #[trigger] r@[j] == map@[lo + j],
        decreases n - k,
    {
        r.push(map[lo + k]);
        k = k + 1;
    }
    r
}

/// Writes the bytes of `src` back into the buffer starting at `lo`; the
/// rest of the buffer is unchanged.
pub(crate) fn write_chunk(map: &mut Vec<u8>, lo: usize, src: &Vec<u8>)
    requires
        lo + src@.len() <= old(map)@.len(),
    ensures
        final(map)@.len() == old(map)@.len(),
        forall|j: int|
            0 <= j < old(map)@.len() ==> final(map)@[j] == (if lo <= j < lo + src@.len() {
                src@[j - lo]
            } else {
                old(map)@[j]
            }),
{
    let len = map.len();
    let n = src.len();
    let mut k: usize = 0;
    while k < n
        invariant
            k <= n,
            n == src@.len(),
            lo + n <= len,
            len == map@.len(),
            map@.len() == old(map)@.len(),
            forall|j: int| 0 <= j < k ==> #[trigger] map@[lo + j] == src@[j],
            forall|j: int|
                0 <= j < map@.len() && !(lo <= j < lo + k) ==> #[trigger] map@[j] == old(map)@[j],
        decreases n - k,
    {
        map.set(lo + k, src[k]);
        k = k + 1;
    }
    assert forall|j: int|
        0 <= j < old(map)@.len() implies map@[j] == (if lo <= j < lo + src@.len() {
        src@[j - lo]
    } else {
        old(map)@[j]
    }) by {
        if lo <= j < lo + src@.len() {
            assert(map@[lo + (j - lo)] == src@[j - lo]);
        }
    }
}

/// A vector of `n` copies of one byte.
pub(crate) fn splat_vec(n: usize, b: u8) -> (r: Vec<u8>)
    ensures
        r@.len() == n,
        forall|k: int| 0 <= k < n ==> #[trigger] r@[k] == b,
{
    let mut r: Vec<u8> = Vec::with_capacity(n);
    let mut k: usize = 0;
    while k < n
        invariant
            k <= n,
            r@.len() == k,
            forall|j: int| 0 <= j < k ==> #[trigger] r@[j] == b,
        decreases n - k,
    {
        r.push(b);
        k = k + 1;
    }
    r
}

} // verus!
