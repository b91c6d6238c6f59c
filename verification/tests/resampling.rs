use iamf::binaural::{acn, rates_supported};

#[test]
fn rate_support_bounds() {
    assert!(rates_supported(48000, 44100));
    assert!(rates_supported(48000, 16000));
    assert!(rates_supported(48000, 96000));
}

#[test]
fn coprime_rates_need_long_filters() {
    // 48000 / gcd(48000, 44101) = 48000 taps * 13 exceeds the filter bound.
    assert!(!rates_supported(48000, 44101));
    assert!(rates_supported(0, 48000));
}

#[test]
fn acn_numbering() {
    assert_eq!(acn(0, 0), 0);
    assert_eq!(acn(1, -1), 1);
    assert_eq!(acn(1, 1), 3);
    assert_eq!(acn(3, 3), 15);
}
