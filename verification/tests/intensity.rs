use adder_blocks::intensity::event_to_intensity_fraction;

#[test]
fn test_intensity_fraction_ordinary() {
    assert_eq!(event_to_intensity_fraction(7, 100), (128, 100));
    assert_eq!(event_to_intensity_fraction(0, 1), (1, 1));
    assert_eq!(event_to_intensity_fraction(20, 500_000), (1 << 20, 500_000));
    assert_eq!(event_to_intensity_fraction(127, 3), (1u128 << 127, 3));
}

#[test]
fn test_intensity_fraction_saturated_d_is_zero() {
    // At or beyond the end of the reconstruction table the intensity is 0.
    assert_eq!(event_to_intensity_fraction(128, 10), (0, 10));
    assert_eq!(event_to_intensity_fraction(129, 10), (0, 10));
    assert_eq!(event_to_intensity_fraction(255, 1), (0, 1));
}

#[test]
fn test_intensity_fraction_zero_delta_t_reads_as_one() {
    assert_eq!(event_to_intensity_fraction(7, 0), (128, 1));
    assert_eq!(event_to_intensity_fraction(255, 0), (0, 1));
}
