use footprint::numfmt::f64_fixed3;
use footprint::numfmt::f64_text;
use footprint::numfmt::pad_left;
use footprint::numfmt::u32_hex6;
use footprint::numfmt::u64_dec;
use footprint::time::f64_time_hm;
use footprint::time::f64_time_text;
use footprint::time::f64_ts_parts;

fn bits(x: f64) -> u64 {
    x.to_bits()
}

#[test]
fn decimal_rendering() {
    assert_eq!(u64_dec(0), "0");
    assert_eq!(u64_dec(7), "7");
    assert_eq!(u64_dec(1234567890), "1234567890");
    assert_eq!(u64_dec(u64::MAX), "18446744073709551615");
}

#[test]
fn hex_rendering_is_zero_padded() {
    assert_eq!(u32_hex6(0), "000000");
    assert_eq!(u32_hex6(0xff0000), "ff0000");
    assert_eq!(u32_hex6(0xffff80), "ffff80");
    assert_eq!(u32_hex6(0x1234567), "1234567");
}

#[test]
fn left_padding() {
    assert_eq!(pad_left("7".to_string(), 4), "   7");
    assert_eq!(pad_left("12345".to_string(), 4), "12345");
}

#[test]
fn shortest_number_text_matches_serde_json() {
    assert_eq!(f64_text(bits(1.0)), "1.0");
    assert_eq!(f64_text(bits(0.1)), "0.1");
    assert_eq!(f64_text(bits(-180.0)), "-180.0");
    assert_eq!(f64_text(bits(1.0e300)), serde_json::to_string(&1.0e300f64).unwrap());
    assert_eq!(f64_text(bits(f64::NAN)), "NaN");
    assert_eq!(f64_text(bits(f64::INFINITY)), "inf");
    assert_eq!(f64_text(bits(f64::NEG_INFINITY)), "-inf");
}

#[test]
fn fixed3_rounds_to_nearest() {
    assert_eq!(f64_fixed3(bits(1.5)), "+1.500");
    assert_eq!(f64_fixed3(bits(-12.3456)), "-12.346");
    assert_eq!(f64_fixed3(bits(2.0 / 3.0)), "+0.667");
    assert_eq!(f64_fixed3(bits(0.0)), "+0.000");
    assert_eq!(f64_fixed3(bits(-0.0)), "-0.000");
    assert_eq!(f64_fixed3(bits(179.9999)), "+180.000");
    assert_eq!(f64_fixed3(bits(1.0e-320)), "+0.000");
    assert_eq!(f64_fixed3(bits(f64::NAN)), "NaN");
    assert_eq!(f64_fixed3(bits(f64::INFINITY)), "+inf");
    assert_eq!(f64_fixed3(bits(f64::NEG_INFINITY)), "-inf");
}

#[test]
fn fixed3_ties_go_to_even() {
    // 0.0625 and 0.1875 are exact in binary, so their thousandths
    // land exactly on the half point.
    assert_eq!(f64_fixed3(bits(0.0625)), "+0.062");
    assert_eq!(f64_fixed3(bits(0.1875)), "+0.188");
}

#[test]
fn huge_magnitudes_fall_back_to_shortest_form() {
    assert_eq!(f64_fixed3(bits(1.0e300)), f64_text(bits(1.0e300)));
}

#[test]
fn timestamp_parts_floor_at_nanoseconds() {
    assert_eq!(f64_ts_parts(bits(100.0)), Some((100, 0)));
    assert_eq!(f64_ts_parts(bits(100.5)), Some((100, 500_000_000)));
    assert_eq!(f64_ts_parts(bits(-0.5)), Some((-1, 500_000_000)));
    assert_eq!(f64_ts_parts(bits(-2.0)), Some((-2, 0)));
    assert_eq!(f64_ts_parts(bits(0.0)), Some((0, 0)));
    assert_eq!(f64_ts_parts(bits(f64::NAN)), None);
    assert_eq!(f64_ts_parts(bits(f64::INFINITY)), None);
    assert_eq!(f64_ts_parts(bits(1.0e300)), None);
}

#[test]
fn timestamp_text_matches_chrono() {
    assert_eq!(
        f64_time_text(bits(150.0)).as_deref(),
        Some("1970-01-01 00:02:30 UTC")
    );
    assert_eq!(f64_time_hm(bits(150.0)).as_deref(), Some("00:02"));
    assert_eq!(f64_time_text(bits(f64::NAN)), None);
}

#[test]
fn timestamp_text_out_of_chrono_range_is_none() {
    assert_eq!(f64_time_text(bits(1.0e18)), None);
}
