use cov_kernel::cov::afl_default_impl;
use cov_kernel::cov::afl_nightly_simd;
use cov_kernel::cov::afl_stable_wide_128;
use cov_kernel::cov::afl_stable_wide_256;
use cov_kernel::cov::detect_novelty;
use cov_kernel::cov::DifferentIsNovel;
use cov_kernel::cov::MaxReducer;

fn expected(hist: &[u8], map: &[u8], collect: bool) -> (bool, Vec<usize>) {
    let positions: Vec<usize> = (0..map.len()).filter(|&i| map[i] > hist[i]).collect();
    let interesting = !positions.is_empty();
    (interesting, if collect { positions } else { Vec::new() })
}

struct Lcg(u64);

impl Lcg {
    fn next_byte(&mut self) -> u8 {
        self.0 = self.0.wrapping_mul(6364136223846793005).wrapping_add(1442695040888963407);
        (self.0 >> 33) as u8
    }
}

fn check_all_variants(hist: &Vec<u8>, map: &Vec<u8>) {
    for collect in [true, false] {
        let want = expected(hist, map, collect);
        assert_eq!(detect_novelty(hist, map, collect), want);
        assert_eq!(
            afl_default_impl::<MaxReducer, DifferentIsNovel>(hist, map, collect),
            want
        );
        assert_eq!(afl_nightly_simd(hist, map, collect), want);
        assert_eq!(afl_stable_wide_128(hist, map, collect), want);
        assert_eq!(afl_stable_wide_256(hist, map, collect), want);
    }
}

#[test]
fn single_novel_position() {
    let hist = vec![0u8, 0, 0, 0];
    let trace = vec![0u8, 5, 0, 0];
    assert_eq!(detect_novelty(&hist, &trace, true), (true, vec![1]));
    assert_eq!(detect_novelty(&hist, &trace, false), (true, vec![]));
    check_all_variants(&hist, &trace);
}

#[test]
fn equal_buffers_are_not_novel() {
    let hist = vec![3u8, 3, 3];
    let trace = vec![3u8, 3, 3];
    assert_eq!(detect_novelty(&hist, &trace, true), (false, vec![]));
    assert_eq!(detect_novelty(&hist, &trace, false), (false, vec![]));
    check_all_variants(&hist, &trace);
}

#[test]
fn empty_buffers_are_not_novel() {
    let hist: Vec<u8> = vec![];
    let trace: Vec<u8> = vec![];
    assert_eq!(detect_novelty(&hist, &trace, true), (false, vec![]));
    check_all_variants(&hist, &trace);
}

#[test]
fn smaller_trace_values_are_not_novel() {
    let hist = vec![5u8, 9, 200];
    let trace = vec![4u8, 9, 0];
    assert_eq!(detect_novelty(&hist, &trace, true), (false, vec![]));
    check_all_variants(&hist, &trace);
}

#[test]
fn positions_are_ascending_and_complete() {
    let mut hist = vec![0u8; 40];
    let mut trace = vec![0u8; 40];
    hist[0] = 7;
    trace[0] = 9;
    trace[17] = 1;
    hist[20] = 4;
    trace[20] = 3;
    trace[39] = 255;
    let (interesting, positions) = detect_novelty(&hist, &trace, true);
    assert!(interesting);
    assert_eq!(positions, vec![0, 17, 39]);
    check_all_variants(&hist, &trace);
}

#[test]
fn novelty_only_in_tail_after_whole_chunks() {
    let hist = vec![0u8; 33];
    let mut trace = vec![0u8; 33];
    trace[32] = 1;
    let (interesting, positions) = detect_novelty(&hist, &trace, true);
    assert!(interesting);
    assert_eq!(positions, vec![32]);
    check_all_variants(&hist, &trace);
}

#[test]
fn cross_implementation_agreement_on_randomized_buffers() {
    let mut rng = Lcg(0x2545f4914f6cdd1d);
    for len in [0usize, 1, 2, 3, 15, 16, 17, 31, 32, 33, 100, 256, 257] {
        for round in 0..8 {
            let mut hist: Vec<u8> = (0..len).map(|_| rng.next_byte() % 8).collect();
            let map: Vec<u8> = (0..len)
                .map(|_| if rng.next_byte() % 4 == 0 { rng.next_byte() % 8 } else { 0 })
                .collect();
            if round % 2 == 0 {
                hist = vec![0; len];
            }
            check_all_variants(&hist, &map);
        }
    }
}
