use cov_kernel::counts::afl_simplify_trace_naive;
use cov_kernel::counts::afl_simplify_trace_wide128;
use cov_kernel::counts::afl_simplify_trace_wide256;
use cov_kernel::counts::simplify_buffer;
use cov_kernel::counts::SET_SENTINEL;
use cov_kernel::counts::UNSET_SENTINEL;

fn patterned(len: usize) -> Vec<u8> {
    (0..len).map(|i| ((i * 11) % 256) as u8).collect()
}

#[test]
fn simplify_is_total_over_bytes() {
    for b in 0..=255u8 {
        let mut buf = vec![b];
        afl_simplify_trace_naive(&mut buf);
        if b == 0 {
            assert_eq!(buf[0], UNSET_SENTINEL);
        } else {
            assert_eq!(buf[0], SET_SENTINEL);
        }
    }
}

#[test]
fn simplify_scenario() {
    let mut trace = vec![0u8, 5, 0, 0];
    simplify_buffer(&mut trace);
    assert_eq!(trace, vec![0x01u8, 0x80, 0x01, 0x01]);
}

#[test]
fn chunked_simplifiers_agree_with_scalar_at_all_boundary_lengths() {
    for len in [0usize, 1, 2, 3, 15, 16, 17, 31, 32, 33, 256, 8191, 8192, 8193] {
        let input = patterned(len);
        let mut scalar = input.clone();
        afl_simplify_trace_naive(&mut scalar);
        let mut wide128 = input.clone();
        afl_simplify_trace_wide128(&mut wide128);
        let mut wide256 = input.clone();
        afl_simplify_trace_wide256(&mut wide256);
        assert_eq!(scalar, wide128, "length {len}");
        assert_eq!(scalar, wide256, "length {len}");
        for i in 0..len {
            let want = if input[i] == 0 { UNSET_SENTINEL } else { SET_SENTINEL };
            assert_eq!(scalar[i], want);
        }
    }
}

#[test]
fn chunked_simplifiers_on_all_zero_and_all_set() {
    for len in [16usize, 32, 48, 40] {
        let mut zeros = vec![0u8; len];
        afl_simplify_trace_wide128(&mut zeros);
        assert!(zeros.iter().all(|&b| b == UNSET_SENTINEL));
        let mut ones = vec![9u8; len];
        afl_simplify_trace_wide256(&mut ones);
        assert!(ones.iter().all(|&b| b == SET_SENTINEL));
    }
}
