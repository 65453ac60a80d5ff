use pitch_detector::correlator::correlation;
use pitch_detector::frame::Frame;

#[test]
fn frame_keeps_its_samples() {
    let frame = Frame::new(vec![3, -1, 4, -1, 5]);
    assert_eq!(frame.len(), 5);
    assert_eq!(frame.samples(), &[3, -1, 4, -1, 5]);
    assert_eq!(frame.clone(), frame);
    assert_eq!(frame.into_samples(), vec![3, -1, 4, -1, 5]);
}

#[test]
fn correlation_of_a_short_frame() {
    // lag 0: 1 + 4 + 9, lag 1: 1*2 + 2*3, lag 2: 1*3
    let cor = correlation(&vec![1, 2, 3]);
    assert_eq!(cor, vec![14, 8, 3]);
}

#[test]
fn correlation_has_the_length_of_the_frame() {
    for n in [0usize, 1, 2, 7, 64] {
        let samples: Vec<i32> = (0..n).map(|i| (i as i32) * 3 - 5).collect();
        assert_eq!(correlation(&samples).len(), n);
    }
}

#[test]
fn correlation_of_an_empty_frame_is_empty() {
    assert_eq!(correlation(&[]), Vec::<i128>::new());
}

#[test]
fn correlation_of_a_single_sample_is_its_square() {
    assert_eq!(correlation(&vec![-7]), vec![49]);
}

#[test]
fn correlation_with_mixed_signs() {
    // lag 0: 4 + 9 + 1 + 16, lag 1: -6 - 3 - 4, lag 2: 2 + 12, lag 3: -8
    let cor = correlation(&vec![2, -3, 1, -4]);
    assert_eq!(cor, vec![30, -13, 14, -8]);
}

#[test]
fn correlation_is_not_normalised() {
    // Doubling every sample multiplies every entry by four.
    let quiet = correlation(&vec![1, -2, 3, -4, 5]);
    let loud = correlation(&vec![2, -4, 6, -8, 10]);
    assert_eq!(loud.len(), quiet.len());
    for k in 0..quiet.len() {
        assert_eq!(loud[k], 4 * quiet[k]);
    }
}

#[test]
fn constant_frame_falls_linearly() {
    // (n - k) * level^2 with n = 4 and level = 3
    let cor = correlation(&vec![3, 3, 3, 3]);
    assert_eq!(cor, vec![36, 27, 18, 9]);
}

#[test]
fn constant_frame_is_strictly_decreasing_and_positive() {
    for level in [1i32, -1, 5, -12000, 32767] {
        let n = 50usize;
        let cor = correlation(&vec![level; n]);
        let square = (level as i128) * (level as i128);
        assert_eq!(cor[0], (n as i128) * square);
        for k in 0..n {
            assert_eq!(cor[k], ((n - k) as i128) * square);
            assert!(cor[k] > 0);
            if k > 0 {
                assert!(cor[k - 1] > cor[k]);
            }
        }
    }
}

#[test]
fn silent_frame_correlates_to_zero() {
    let cor = correlation(&vec![0; 32]);
    assert_eq!(cor, vec![0i128; 32]);
}

#[test]
fn extreme_samples_do_not_overflow() {
    // Each product is 2^62; two of them exceed what 64 bits hold.
    let cor = correlation(&vec![i32::MIN, i32::MIN, i32::MIN]);
    let square: i128 = 1i128 << 62;
    assert_eq!(cor, vec![3 * square, 2 * square, square]);
    let cor = correlation(&vec![i32::MIN, i32::MAX]);
    assert_eq!(cor[0], (1i128 << 62) + (i32::MAX as i128) * (i32::MAX as i128));
    assert_eq!(cor[1], (i32::MIN as i128) * (i32::MAX as i128));
}

#[test]
fn zero_lag_is_the_energy_and_dominates() {
    let samples = vec![12, -7, 0, 33, -41, 5, 5, -18, 27, -3];
    let energy: i128 = samples.iter().map(|&s| (s as i128) * (s as i128)).sum();
    let cor = correlation(&samples);
    assert_eq!(cor[0], energy);
    for k in 0..cor.len() {
        assert!(cor[k] <= energy);
        assert!(-cor[k] <= energy);
    }
}

#[test]
fn periodic_signal_meets_itself_at_its_period() {
    // The signal repeats after three samples, so at lag 3 every product is a
    // square: the entry is the energy of the first five samples.
    let cor = correlation(&[1, -2, 3, 1, -2, 3, 1, -2]);
    assert_eq!(cor[3], 1 + 4 + 9 + 1 + 4);
    assert_eq!(cor[6], 1 + 4);
}
