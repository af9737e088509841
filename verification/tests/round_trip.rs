use hyveos::round_trip::{nonce_bytes, ping_nonce, pong_report, RoundTrips};

#[test]
fn ping_bytes_are_little_endian() {
    assert_eq!(nonce_bytes(0x0102_0304_0506_0708), vec![8, 7, 6, 5, 4, 3, 2, 1]);
    assert_eq!(nonce_bytes(0), vec![0; 8]);
    assert_eq!(nonce_bytes(u64::MAX), vec![255; 8]);
    assert_eq!(nonce_bytes(12345).as_slice(), &12345u64.to_le_bytes());
}

#[test]
fn ping_number_round_trips() {
    for n in [0u64, 1, 255, 256, 0xdead_beef, u64::MAX, 0x8000_0000_0000_0000] {
        assert_eq!(ping_nonce(&nonce_bytes(n)), Some(n));
    }
    assert_eq!(ping_nonce(&vec![1, 0, 0, 0, 0, 0, 0, 0]), Some(1));
    assert_eq!(ping_nonce(&vec![1, 2, 3]), None);
    assert_eq!(ping_nonce(&vec![0; 9]), None);
}

#[test]
fn pong_needs_a_known_publisher_and_eight_bytes() {
    assert_eq!(pong_report(Some(vec![7]), &vec![2, 0, 0, 0, 0, 0, 0, 0]), Some((vec![7], 2)));
    assert_eq!(pong_report(None, &vec![2, 0, 0, 0, 0, 0, 0, 0]), None);
    assert_eq!(pong_report(Some(vec![7]), &vec![2, 0]), None);
}

#[test]
fn round_trip_report_reaches_the_registered_caller() {
    let mut r: RoundTrips<&str> = RoundTrips::new();
    r.register(5, "first");
    r.register(6, "second");
    assert_eq!(r.on_report(5), Some(&"first"));
    assert_eq!(r.on_report(5), Some(&"first"));
    assert_eq!(r.on_report(7), None);
    r.register(5, "again");
    assert_eq!(r.on_report(5), Some(&"again"));
}
