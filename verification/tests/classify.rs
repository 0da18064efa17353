use cov_kernel::counts::afl_classify_counts_naive16;
use cov_kernel::counts::classify_buffer;
use cov_kernel::counts::classify_byte;
use cov_kernel::counts::init_count_class_16;

fn expected_class(b: u8) -> u8 {
    if b == 0 {
        0
    } else if b == 1 {
        1
    } else if b == 2 {
        2
    } else if b <= 4 {
        4
    } else if b <= 8 {
        8
    } else if b <= 16 {
        16
    } else if b <= 32 {
        32
    } else if b <= 127 {
        64
    } else {
        128
    }
}

fn patterned(len: usize) -> Vec<u8> {
    (0..len).map(|i| ((i * 7 + 3) % 256) as u8).collect()
}

#[test]
fn classify_byte_boundaries() {
    let cases = [
        (0u8, 0u8),
        (1, 1),
        (2, 2),
        (3, 4),
        (4, 4),
        (5, 8),
        (7, 8),
        (8, 8),
        (9, 16),
        (15, 16),
        (16, 16),
        (17, 32),
        (31, 32),
        (32, 32),
        (33, 64),
        (64, 64),
        (127, 64),
        (128, 128),
        (255, 128),
    ];
    for (b, want) in cases {
        assert_eq!(classify_byte(b), want);
    }
}

#[test]
fn classify_byte_matches_bucket_rule() {
    for b in 0..=255u8 {
        assert_eq!(classify_byte(b), expected_class(b));
    }
}

#[test]
fn classify_is_idempotent_for_every_byte() {
    for b in 0..=255u8 {
        let c = classify_byte(b);
        assert_eq!(classify_byte(c), c);
    }
}

#[test]
fn pair_table_matches_byte_table() {
    let t = init_count_class_16();
    assert_eq!(t.len(), 65536);
    assert_eq!(t[0], 0);
    assert_eq!(t[(3usize << 8) | 5], (4u16 << 8) | 8);
    assert_eq!(t[65535], (128u16 << 8) | 128);
    for i in (0..256usize).step_by(17) {
        for j in (0..256usize).step_by(13) {
            let want = ((expected_class(i as u8) as u16) << 8) | expected_class(j as u8) as u16;
            assert_eq!(t[(i << 8) | j], want);
        }
    }
}

#[test]
fn classify_buffer_scalar() {
    let mut buf = vec![0u8, 5, 0, 0];
    classify_buffer(&mut buf);
    assert_eq!(buf, vec![0u8, 8, 0, 0]);
}

#[test]
fn paired_classifier_agrees_with_scalar_at_all_boundary_lengths() {
    let table = init_count_class_16();
    for len in [0usize, 1, 2, 3, 15, 16, 17, 31, 32, 33, 256, 8191, 8192, 8193] {
        let input = patterned(len);
        let mut scalar = input.clone();
        classify_buffer(&mut scalar);
        let mut paired = input.clone();
        afl_classify_counts_naive16(&table, &mut paired);
        assert_eq!(scalar, paired, "length {len}");
        for i in 0..len {
            assert_eq!(scalar[i], expected_class(input[i]));
        }
    }
}
