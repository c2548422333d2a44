use wavedsp::{fir_taps, DspError};

#[test]
fn fir_taps_accepts_one_weight_per_tap() {
    assert_eq!(fir_taps(0, 1), Ok(1));
    assert_eq!(fir_taps(4, 5), Ok(5));
    assert_eq!(fir_taps(-3, 0), Ok(0));
}

#[test]
fn fir_taps_rejects_a_window_of_another_length() {
    assert_eq!(fir_taps(4, 4), Err(DspError::ShapeMismatch));
    assert_eq!(fir_taps(4, 6), Err(DspError::ShapeMismatch));
    assert_eq!(fir_taps(0, 0), Err(DspError::ShapeMismatch));
    assert_eq!(fir_taps(-1, 1), Err(DspError::ShapeMismatch));
}
