//! Lane-wise vector operations, performed by the `wide` crate.
//!
//! Each wrapper converts a fixed-size chunk to a SIMD vector, makes one
//! vector call, and converts the result back. The contracts state the
//! lane-wise behaviour that the crate's source shows.

use vstd::prelude::*;

verus! {

/// Relies on wide::u8x16::max: the lane-wise unsigned maximum of two
/// 16-lane byte vectors.
#[verifier::external_body]
pub(crate) fn u8x16_max(a: &Vec<u8>, b: &Vec<u8>) -> (r: Vec<u8>)
    requires
        a@.len() == 16,
        b@.len() == 16,
    ensures
        r@.len() == 16,
        forall|k: int|
            0 <= k < 16 ==> r@[k] == (if a@[k] > b@[k] {
                a@[k]
            } else {
                b@[k]
            }),
{
    let va = wide::u8x16::new(a.as_slice().try_into().unwrap());
    let vb = wide::u8x16::new(b.as_slice().try_into().unwrap());
    va.max(vb).to_array().to_vec()
}

/// Relies on wide::u8x16::simd_eq: a mask whose lanes are all ones where
/// the operands' lanes are equal and all zeros where they are not.
#[verifier::external_body]
pub(crate) fn u8x16_eq_lanes(a: &Vec<u8>, b: &Vec<u8>) -> (r: Vec<u8>)
    requires
        a@.len() == 16,
        b@.len() == 16,
    ensures
        r@.len() == 16,
        forall|k: int|
            0 <= k < 16 ==> r@[k] == (if a@[k] == b@[k] {
                0xffu8
            } else {
                0x00u8
            }),
{
    let va = wide::u8x16::new(a.as_slice().try_into().unwrap());
    let vb = wide::u8x16::new(b.as_slice().try_into().unwrap());
    va.simd_eq(vb).to_array().to_vec()
}

/// Relies on wide::u8x16::bitselect: every result bit is taken from
/// `if_one` where the mask bit is one and from `if_zero` where it is zero.
#[verifier::external_body]
pub(crate) fn u8x16_bitselect(mask: &Vec<u8>, if_one: &Vec<u8>, if_zero: &Vec<u8>) -> (r: Vec<u8>)
    requires
        mask@.len() == 16,
        if_one@.len() == 16,
        if_zero@.len() == 16,
    ensures
        r@.len() == 16,
        forall|k: int|
            0 <= k < 16 ==> r@[k] == ((if_one@[k] & mask@[k]) | (if_zero@[k] & !mask@[k])),
{
    let vm = wide::u8x16::new(mask.as_slice().try_into().unwrap());
    let vt = wide::u8x16::new(if_one.as_slice().try_into().unwrap());
    let vf = wide::u8x16::new(if_zero.as_slice().try_into().unwrap());
    vm.bitselect(vt, vf).to_array().to_vec()
}

/// Relies on wide::u8x32::max: the lane-wise unsigned maximum of two
/// 32-lane byte vectors.
#[verifier::external_body]
pub(crate) fn u8x32_max(a: &Vec<u8>, b: &Vec<u8>) -> (r: Vec<u8>)
    requires
        a@.len() == 32,
        b@.len() == 32,
    ensures
        r@.len() == 32,
        forall|k: int|
            0 <= k < 32 ==> r@[k] == (if a@[k] > b@[k] {
                a@[k]
            } else {
                b@[k]
            }),
{
    let va = wide::u8x32::new(a.as_slice().try_into().unwrap());
    let vb = wide::u8x32::new(b.as_slice().try_into().unwrap());
    va.max(vb).to_array().to_vec()
}

/// Relies on wide::u8x32::simd_eq: a mask whose lanes are all ones where
/// the operands' lanes are equal and all zeros where they are not.
#[verifier::external_body]
pub(crate) fn u8x32_eq_lanes(a: &Vec<u8>, b: &Vec<u8>) -> (r: Vec<u8>)
    requires
        a@.len() == 32,
        b@.len() == 32,
    ensures
        r@.len() == 32,
        forall|k: int|
            0 <= k < 32 ==> r@[k] == (if a@[k] == b@[k] {
                0xffu8
            } else {
                0x00u8
            }),
{
    let va = wide::u8x32::new(a.as_slice().try_into().unwrap());
    let vb = wide::u8x32::new(b.as_slice().try_into().unwrap());
    va.simd_eq(vb).to_array().to_vec()
}

/// Relies on wide::u8x32::bitselect: every result bit is taken from
/// `if_one` where the mask bit is one and from `if_zero` where it is zero.
#[verifier::external_body]
pub(crate) fn u8x32_bitselect(mask: &Vec<u8>, if_one: &Vec<u8>, if_zero: &Vec<u8>) -> (r: Vec<u8>)
    requires
        mask@.len() == 32,
        if_one@.len() == 32,
        if_zero@.len() == 32,
    ensures
        r@.len() == 32,
        forall|k: int|
            0 <= k < 32 ==> r@[k] == ((if_one@[k] & mask@[k]) | (if_zero@[k] & !mask@[k])),
{
    let vm = wide::u8x32::new(mask.as_slice().try_into().unwrap());
    let vt = wide::u8x32::new(if_one.as_slice().try_into().unwrap());
    let vf = wide::u8x32::new(if_zero.as_slice().try_into().unwrap());
    vm.bitselect(vt, vf).to_array().to_vec()
}

/// Selecting through an all-ones mask byte yields the first operand's byte;
/// selecting through an all-zeros mask byte yields the second's.
pub(crate) proof fn lemma_bitselect_mask()
    by (bit_vector)
    ensures
        forall|x: u8, y: u8| #[trigger] ((x & 0xffu8) | (y & !0xffu8)) == x,
        forall|x: u8, y: u8| #[trigger] ((x & 0x00u8) | (y & !0x00u8)) == y,
{
}

} // verus!
