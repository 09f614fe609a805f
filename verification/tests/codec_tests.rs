use footprint::codec::DecodeError;
use footprint::record::Footprint;
use footprint::record::Footprints;

fn bits(x: f64) -> u64 {
    x.to_bits()
}

fn sample_collection() -> Footprints {
    let mut a = Footprint::new();
    a.orbit = 42;
    a.id = "A-1".to_string();
    a.platform = "platform-x".to_string();
    a.instrument = "imager \u{00e9}\u{4e16}".to_string();
    a.time_interval = (bits(100.25), bits(-200.5));
    a.outline = vec![
        vec![
            vec![(bits(1.5), bits(-2.5)), (bits(0.1), bits(0.2))],
            vec![],
        ],
        vec![],
    ];
    let mut b = Footprint::new();
    b.id = "B".to_string();
    b.time_interval = (bits(f64::NAN), bits(f64::INFINITY));
    Footprints { footprints: vec![a, b] }
}

fn assert_same(x: &Footprints, y: &Footprints) {
    assert_eq!(x.footprints.len(), y.footprints.len());
    for (a, b) in x.footprints.iter().zip(y.footprints.iter()) {
        assert_eq!(a.orbit, b.orbit);
        assert_eq!(a.id, b.id);
        assert_eq!(a.platform, b.platform);
        assert_eq!(a.instrument, b.instrument);
        assert_eq!(a.time_interval, b.time_interval);
        assert_eq!(a.outline, b.outline);
    }
}

#[test]
fn round_trip_preserves_everything() {
    let coll = sample_collection();
    let encoded = coll.encode();
    let decoded = Footprints::decode(encoded.as_slice()).expect("round trip");
    assert_same(&coll, &decoded);
}

#[test]
fn round_trip_preserves_nan_bit_patterns() {
    let quiet = f64::NAN.to_bits();
    let odd_payload = quiet ^ 0x0000_0000_0000_ffff;
    let mut fp = Footprint::new();
    fp.time_interval = (quiet, odd_payload);
    fp.outline = vec![vec![vec![(odd_payload, quiet)]]];
    let coll = Footprints { footprints: vec![fp] };
    let encoded = coll.encode();
    let decoded = Footprints::decode(encoded.as_slice()).expect("round trip");
    assert_eq!(decoded.footprints[0].time_interval, (quiet, odd_payload));
    assert_eq!(decoded.footprints[0].outline[0][0][0], (odd_payload, quiet));
}

#[test]
fn empty_collection_round_trips() {
    let coll = Footprints { footprints: vec![] };
    let encoded = coll.encode();
    let decoded = Footprints::decode(encoded.as_slice()).expect("round trip");
    assert_eq!(decoded.footprints.len(), 0);
}

#[test]
fn empty_stream_is_rejected() {
    assert!(matches!(Footprints::decode(&[]), Err(DecodeError::BadMagic)));
}

#[test]
fn wrong_magic_is_rejected() {
    let coll = Footprints { footprints: vec![] };
    let mut encoded = coll.encode();
    encoded[0] ^= 0xff;
    assert!(matches!(
        Footprints::decode(encoded.as_slice()),
        Err(DecodeError::BadMagic)
    ));
}

#[test]
fn truncated_stream_is_rejected() {
    let coll = sample_collection();
    let encoded = coll.encode();
    for cut in [4usize, 11, encoded.len() - 1] {
        assert!(Footprints::decode(&encoded[..cut]).is_err());
    }
}

#[test]
fn trailing_bytes_are_rejected() {
    let coll = sample_collection();
    let mut encoded = coll.encode();
    encoded.push(0);
    assert!(matches!(
        Footprints::decode(encoded.as_slice()),
        Err(DecodeError::TrailingBytes)
    ));
}

#[test]
fn invalid_utf8_in_string_field_is_rejected() {
    let mut fp = Footprint::new();
    fp.id = "ZZZZ".to_string();
    let coll = Footprints { footprints: vec![fp] };
    let mut encoded = coll.encode();
    // The identifier's bytes sit after the tag, the record count, the
    // orbit and the identifier's length; overwrite one with a lone
    // continuation byte.
    let pos = 4 + 8 + 8 + 8;
    assert_eq!(encoded[pos], b'Z');
    encoded[pos] = 0xff;
    assert!(matches!(
        Footprints::decode(encoded.as_slice()),
        Err(DecodeError::BadUtf8)
    ));
}
