//! Hit-count classification and trace simplification.
//!
//! Raw per-edge hit counts are mapped to a small ordered set of magnitude
//! buckets, so that downstream comparisons are sensitive only to the
//! magnitude class of a count, not its exact value. Trace simplification
//! binarizes a buffer: zero bytes become the unset sentinel, non-zero bytes
//! the set sentinel.

use vstd::prelude::*;

use crate::chunks::copy_chunk;
use crate::chunks::splat_vec;
use crate::chunks::write_chunk;
use crate::simd_ops::lemma_bitselect_mask;
use crate::simd_ops::u8x16_bitselect;
use crate::simd_ops::u8x16_eq_lanes;
use crate::simd_ops::u8x32_bitselect;
use crate::simd_ops::u8x32_eq_lanes;

verus! {

/// Sentinel written for a byte that was never hit.
pub const UNSET_SENTINEL: u8 = 0x01;

/// Sentinel written for a byte that was hit at least once.
pub const SET_SENTINEL: u8 = 0x80;

/// The magnitude bucket of one raw hit count: zero stays zero, exact
/// powers of two up to the largest bucket map to themselves, and the
/// counts between them map to the bucket of their range, one of 4, 8, 16,
/// 32, 64 or 128. Every bucket is a fixed point of the mapping.
pub open spec fn classify_byte_spec(b: u8) -> u8 {
    if b == 0 {
        0
    } else if b == 1 {
        1
    } else if b == 2 {
        2
    } else if b <= 4 {
        4
    } else if b <= 8 {
        8
    } else if b <= 16 {
        16
    } else if b <= 32 {
        32
    } else if b <= 127 {
        64
    } else {
        128
    }
}

/// Maps a raw hit count to its magnitude bucket.
pub fn classify_byte(b: u8) -> (r: u8)
    ensures
        r == classify_byte_spec(b),
{
    if b == 0 {
        0
    } else if b == 1 {
        1
    } else if b == 2 {
        2
    } else if b <= 4 {
        4
    } else if b <= 8 {
        8
    } else if b <= 16 {
        16
    } else if b <= 32 {
        32
    } else if b <= 127 {
        64
    } else {
        128
    }
}

/// The buckets are fixed points of classification: reclassifying an
/// already classified count leaves it unchanged, for every byte.
pub proof fn lemma_classify_fixed_point(b: u8)
    ensures
        classify_byte_spec(classify_byte_spec(b)) == classify_byte_spec(b),
{
}

/// A well-formed pair table: entry `k` holds the two independent
/// classifications of the high byte `k / 256` and the low byte `k % 256`,
/// packed back into one 16-bit word.
pub open spec fn table16_wf(t: Seq<u16>) -> bool {
    &&& t.len() == 65536
    &&& forall|k: int|
        0 <= k < 65536 ==> #[trigger] t[k] == classify_byte_spec((k / 256) as u8) * 256
            + classify_byte_spec((k % 256) as u8)
}

/// Builds the 65536-entry pair-classification table: for every pair of
/// bytes, packed big-endian into the index, the entry is the pair of their
/// buckets. Equivalent to applying the byte bucketing to each half.
pub fn init_count_class_16() -> (t: Vec<u16>)
    ensures
        table16_wf(t@),
{
    let mut t: Vec<u16> = Vec::with_capacity(65536);
    let mut k: usize = 0;
    while k < 65536
        invariant
            k <= 65536,
            t@.len() == k,
            forall|j: int|
                0 <= j < k ==> #[trigger] t@[j] == classify_byte_spec((j / 256) as u8) * 256
                    + classify_byte_spec((j % 256) as u8),
        decreases 65536 - k,
    {
        let hi = classify_byte((k / 256) as u8);
        let lo = classify_byte((k % 256) as u8);
        t.push((hi as u16) * 256 + (lo as u16));
        k = k + 1;
    }
    t
}

/// Replaces every byte of the buffer with its magnitude bucket, in place.
/// This per-byte table lookup is the correctness reference for the paired
/// classifier.
pub fn classify_buffer(map: &mut Vec<u8>)
    ensures
        final(map)@.len() == old(map)@.len(),
        forall|i: int|
            0 <= i < old(map)@.len() ==> final(map)@[i] == classify_byte_spec(old(map)@[i]),
{
    let mut i: usize = 0;
    while i < map.len()
        invariant
            i <= map@.len(),
            map@.len() == old(map)@.len(),
            forall|j: int| 0 <= j < i ==> #[trigger] map@[j] == classify_byte_spec(old(map)@[j]),
            forall|j: int| i <= j < map@.len() ==> #[trigger] map@[j] == old(map)@[j],
        decreases map@.len() - i,
    {
        let c = classify_byte(map[i]);
        map.set(i, c);
        i = i + 1;
    }
}

/// Replaces every byte of the buffer with its magnitude bucket, two bytes at
/// a time through the pair table, with the trailing odd byte classified
/// through the byte bucketing. Agrees byte-for-byte with `classify_buffer`.
pub fn afl_classify_counts_naive16(table: &Vec<u16>, map: &mut Vec<u8>)
    requires
        table16_wf(table@),
    ensures
        final(map)@.len() == old(map)@.len(),
        forall|i: int|
            0 <= i < old(map)@.len() ==> final(map)@[i] == classify_byte_spec(old(map)@[i]),
{
    let len = map.len();
    let mut i: usize = 0;
    while len - i >= 2
        invariant
            i <= len,
            len == map@.len(),
            map@.len() == old(map)@.len(),
            table16_wf(table@),
            forall|j: int| 0 <= j < i ==> #[trigger] map@[j] == classify_byte_spec(old(map)@[j]),
            forall|j: int| i <= j < map@.len() ==> #[trigger] map@[j] == old(map)@[j],
        decreases len - i,
    {
        let hi = map[i];
        let lo = map[i + 1];
        let idx: usize = (hi as usize) * 256 + (lo as usize);
        let e: u16 = table[idx];
        proof {
            assert(idx / 256 == hi as int && idx % 256 == lo as int) by (nonlinear_arith)
                requires
                    idx == hi as int * 256 + lo as int,
                    0 <= (hi as int) && (hi as int) < 256,
                    0 <= (lo as int) && (lo as int) < 256,
            ;
            assert(e == classify_byte_spec(hi) * 256 + classify_byte_spec(lo));
        }
        let chi = (e / 256) as u8;
        let clo = (e % 256) as u8;
        proof {
            assert(e / 256 == classify_byte_spec(hi) as int && e % 256 == classify_byte_spec(lo) as int)
                by (nonlinear_arith)
                requires
                    e == classify_byte_spec(hi) as int * 256 + classify_byte_spec(lo) as int,
                    0 <= (classify_byte_spec(hi) as int) && (classify_byte_spec(hi) as int) < 256,
                    0 <= (classify_byte_spec(lo) as int) && (classify_byte_spec(lo) as int) < 256,
            ;
        }
        map.set(i, chi);
        map.set(i + 1, clo);
        i = i + 2;
    }
    if i < len {
        let c = classify_byte(map[i]);
        map.set(i, c);
    }
}

/// The simplified form of one byte: the unset sentinel for a byte that was
/// never hit, the set sentinel otherwise.
pub open spec fn simplify_byte_spec(b: u8) -> u8 {
    if b == 0 {
        UNSET_SENTINEL
    } else {
        SET_SENTINEL
    }
}

/// Simplification is total over bytes: the output is the unset sentinel
/// exactly for a zero byte and the set sentinel exactly for a non-zero one.
pub proof fn lemma_simplify_total(b: u8)
    ensures
        simplify_byte_spec(b) == UNSET_SENTINEL <==> b == 0,
        simplify_byte_spec(b) == SET_SENTINEL <==> b != 0,
{
}

/// Binarizes the buffer in place: every zero byte becomes the unset
/// sentinel, every non-zero byte the set sentinel. This per-byte rule is
/// the correctness reference for the chunked variants.
pub fn afl_simplify_trace_naive(map: &mut Vec<u8>)
    ensures
        final(map)@.len() == old(map)@.len(),
        forall|i: int|
            0 <= i < old(map)@.len() ==> final(map)@[i] == simplify_byte_spec(old(map)@[i]),
{
    let mut i: usize = 0;
    while i < map.len()
        invariant
            i <= map@.len(),
            map@.len() == old(map)@.len(),
            forall|j: int| 0 <= j < i ==> #[trigger] map@[j] == simplify_byte_spec(old(map)@[j]),
            forall|j: int| i <= j < map@.len() ==> #[trigger] map@[j] == old(map)@[j],
        decreases map@.len() - i,
    {
        let s = if map[i] == 0 {
            UNSET_SENTINEL
        } else {
            SET_SENTINEL
        };
        map.set(i, s);
        i = i + 1;
    }
}

/// Binarizes the buffer in place; entry point under the name the kernel's
/// interface uses.
pub fn simplify_buffer(map: &mut Vec<u8>)
    ensures
        final(map)@.len() == old(map)@.len(),
        forall|i: int|
            0 <= i < old(map)@.len() ==> final(map)@[i] == simplify_byte_spec(old(map)@[i]),
{
    afl_simplify_trace_naive(map);
}

/// Binarizes the buffer in 16-byte chunks: each chunk's equal-to-zero lane
/// mask selects between an unset-sentinel chunk and a set-sentinel chunk;
/// the bytes after the last whole chunk are finished with the per-byte
/// rule. Agrees byte-for-byte with `afl_simplify_trace_naive`.
pub fn afl_simplify_trace_wide128(map: &mut Vec<u8>)
    ensures
        final(map)@.len() == old(map)@.len(),
        forall|i: int|
            0 <= i < old(map)@.len() ==> final(map)@[i] == simplify_byte_spec(old(map)@[i]),
{
    let size = map.len();
    let zeros = splat_vec(16, 0);
    let unset = splat_vec(16, UNSET_SENTINEL);
    let set = splat_vec(16, SET_SENTINEL);
    let mut i: usize = 0;
    while size - i >= 16
        invariant
            i <= size,
            size == map@.len(),
            map@.len() == old(map)@.len(),
            zeros@.len() == 16,
            unset@.len() == 16,
            set@.len() == 16,
            forall|k: int| 0 <= k < 16 ==> zeros@[k] == 0u8,
            forall|k: int| 0 <= k < 16 ==> unset@[k] == UNSET_SENTINEL,
            forall|k: int| 0 <= k < 16 ==> set@[k] == SET_SENTINEL,
            forall|j: int| 0 <= j < i ==> #[trigger] map@[j] == simplify_byte_spec(old(map)@[j]),
            forall|j: int| i <= j < map@.len() ==> #[trigger] map@[j] == old(map)@[j],
        decreases size - i,
    {
        let chunk = copy_chunk(map, i, 16);
        let mask = u8x16_eq_lanes(&chunk, &zeros);
        let out = u8x16_bitselect(&mask, &unset, &set);
        proof {
            lemma_bitselect_mask();
            assert forall|k: int| 0 <= k < 16 implies out@[k] == simplify_byte_spec(map@[i + k]) by {
                assert(chunk@[k] == map@[i + k]);
            }
        }
        write_chunk(map, i, &out);
        i = i + 16;
    }
    while i < size
        invariant
            i <= size,
            size == map@.len(),
            map@.len() == old(map)@.len(),
            forall|j: int| 0 <= j < i ==> #[trigger] map@[j] == simplify_byte_spec(old(map)@[j]),
            forall|j: int| i <= j < map@.len() ==> #[trigger] map@[j] == old(map)@[j],
        decreases size - i,
    {
        let s = if map[i] == 0 {
            UNSET_SENTINEL
        } else {
            SET_SENTINEL
        };
        map.set(i, s);
        i = i + 1;
    }
}

/// Binarizes the buffer in 32-byte chunks built from the wider vector
/// lanes, with the same mask-and-select rule as the 16-byte variant and a
/// per-byte tail. Agrees byte-for-byte with `afl_simplify_trace_naive`.
pub fn afl_simplify_trace_wide256(map: &mut Vec<u8>)
    ensures
        final(map)@.len() == old(map)@.len(),
        forall|i: int|
            0 <= i < old(map)@.len() ==> final(map)@[i] == simplify_byte_spec(old(map)@[i]),
{
    let size = map.len();
    let zeros = splat_vec(32, 0);
    let unset = splat_vec(32, UNSET_SENTINEL);
    let set = splat_vec(32, SET_SENTINEL);
    let mut i: usize = 0;
    while size - i >= 32
        invariant
            i <= size,
            size == map@.len(),
            map@.len() == old(map)@.len(),
            zeros@.len() == 32,
            unset@.len() == 32,
            set@.len() == 32,
            forall|k: int| 0 <= k < 32 ==> zeros@[k] == 0u8,
            forall|k: int| 0 <= k < 32 ==> unset@[k] == UNSET_SENTINEL,
            forall|k: int| 0 <= k < 32 ==> set@[k] == SET_SENTINEL,
            forall|j: int| 0 <= j < i ==> #[trigger] map@[j] == simplify_byte_spec(old(map)@[j]),
            forall|j: int| i <= j < map@.len() ==> #[trigger] map@[j] == old(map)@[j],
        decreases size - i,
    {
        let chunk = copy_chunk(map, i, 32);
        let mask = u8x32_eq_lanes(&chunk, &zeros);
        let out = u8x32_bitselect(&mask, &unset, &set);
        proof {
            lemma_bitselect_mask();
            assert forall|k: int| 0 <= k < 32 implies out@[k] == simplify_byte_spec(map@[i + k]) by {
                assert(chunk@[k] == map@[i + k]);
            }
        }
        write_chunk(map, i, &out);
        i = i + 32;
    }
    while i < size
        invariant
            i <= size,
            size == map@.len(),
            map@.len() == old(map)@.len(),
            forall|j: int| 0 <= j < i ==> #[trigger] map@[j] == simplify_byte_spec(old(map)@[j]),
            forall|j: int| i <= j < map@.len() ==> #[trigger] map@[j] == old(map)@[j],
        decreases size - i,
    {
        let s = if map[i] == 0 {
            UNSET_SENTINEL
        } else {
            SET_SENTINEL
        };
        map.set(i, s);
        i = i + 1;
    }
}

/// Two buffers that were both classified from the same input are equal:
/// every classifier variant returns the one output the reference defines.
pub proof fn lemma_classifier_agreement(input: Seq<u8>, a: Seq<u8>, b: Seq<u8>)
    requires
        a.len() == input.len(),
        b.len() == input.len(),
        forall|i: int| 0 <= i < input.len() ==> #[trigger] a[i] == classify_byte_spec(input[i]),
        forall|i: int| 0 <= i < input.len() ==> #[trigger] b[i] == classify_byte_spec(input[i]),
    ensures
        a == b,
{
    assert(a =~= b);
}

/// Two buffers that were both simplified from the same input are equal:
/// every simplifier variant returns the one output the reference defines.
pub proof fn lemma_simplifier_agreement(input: Seq<u8>, a: Seq<u8>, b: Seq<u8>)
    requires
        a.len() == input.len(),
        b.len() == input.len(),
        forall|i: int| 0 <= i < input.len() ==> #[trigger] a[i] == simplify_byte_spec(input[i]),
        forall|i: int| 0 <= i < input.len() ==> #[trigger] b[i] == simplify_byte_spec(input[i]),
    ensures
        a == b,
{
    assert(a =~= b);
}

} // verus!
