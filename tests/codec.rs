use brightness_adapter::codec::{decode, encode};

#[test]
fn encode_landmarks() {
    assert_eq!(encode(0), 0);
    assert_eq!(encode(100), 255);
    assert_eq!(encode(50), 128);
    assert_eq!(encode(75), 191);
    assert_eq!(encode(10), 26);
    assert_eq!(encode(1), 3);
}

#[test]
fn decode_landmarks() {
    assert_eq!(decode(0), 0);
    assert_eq!(decode(255), 100);
    assert_eq!(decode(128), 50);
    assert_eq!(decode(191), 75);
    assert_eq!(decode(1), 0);
    assert_eq!(decode(2), 1);
}

#[test]
fn decode_encode_round_trip() {
    for v in 0u8..=100 {
        let raw = encode(v);
        let exact = v as f64 * 2.55;
        assert!((raw as f64 - exact).abs() <= 0.5 + 1e-9);
        assert_eq!(decode(raw), v);
    }
}

#[test]
fn encode_decode_within_one_raw_unit() {
    for raw in 0u8..=255 {
        let back = encode(decode(raw));
        assert!((back as i32 - raw as i32).abs() <= 1);
    }
}
