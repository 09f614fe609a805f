use footprint::fbits::f64_add;
use footprint::fbits::f64_le;
use footprint::fbits::f64_lt;
use footprint::fbits::f64_max;
use footprint::fbits::f64_mean;
use footprint::fbits::f64_min;
use footprint::fbits::f64_neg;
use footprint::fbits::f64_sub;
use footprint::export::FootprintLike;
use footprint::record::filter_decimate;
use footprint::record::Footprint;

fn bits(x: f64) -> u64 {
    x.to_bits()
}

fn record_with_interval(id: &str, t0: f64, t1: f64) -> Footprint {
    let mut fp = Footprint::new();
    fp.id = id.to_string();
    fp.time_interval = (bits(t0), bits(t1));
    fp
}

#[test]
fn add_and_sub_match_ieee() {
    let cases = [
        (0.1, 0.2),
        (1.0e308, 1.0e308),
        (-0.0, 0.0),
        (3.5, -3.5),
        (1.0e-320, 2.0e-320),
    ];
    for &(a, b) in cases.iter() {
        assert_eq!(f64_add(bits(a), bits(b)), bits(a + b));
        assert_eq!(f64_sub(bits(a), bits(b)), bits(a - b));
    }
}

#[test]
fn invalid_sums_are_nan() {
    // A NaN's payload is not pinned by the arithmetic, so only the
    // classification is compared here.
    let r = f64_add(bits(f64::INFINITY), bits(f64::NEG_INFINITY));
    assert!(f64::from_bits(r).is_nan());
    let r = f64_sub(bits(f64::INFINITY), bits(f64::INFINITY));
    assert!(f64::from_bits(r).is_nan());
}

#[test]
fn mean_matches_evaluation_order() {
    assert_eq!(f64_mean(bits(100.0), bits(200.0)), bits(150.0));
    assert_eq!(f64_mean(bits(1.0), bits(2.0)), bits((1.0 + 2.0) / 2.0));
    assert_eq!(f64_mean(bits(0.1), bits(0.2)), bits((0.1 + 0.2) / 2.0));
}

#[test]
fn negation_flips_sign() {
    assert_eq!(f64_neg(bits(1.5)), bits(-1.5));
    assert_eq!(f64_neg(bits(-0.0)), bits(0.0));
}

#[test]
fn comparisons_follow_ieee() {
    assert!(f64_lt(bits(1.0), bits(2.0)));
    assert!(!f64_lt(bits(2.0), bits(1.0)));
    assert!(!f64_lt(bits(1.0), bits(1.0)));
    assert!(f64_le(bits(1.0), bits(1.0)));
    assert!(f64_le(bits(-0.0), bits(0.0)));
    assert!(f64_le(bits(0.0), bits(-0.0)));
    assert!(!f64_lt(bits(-0.0), bits(0.0)));
    assert!(f64_lt(bits(-1.0), bits(0.0)));
    assert!(f64_lt(bits(f64::NEG_INFINITY), bits(-1.0e308)));
    let nan = bits(f64::NAN);
    assert!(!f64_lt(nan, bits(1.0)));
    assert!(!f64_lt(bits(1.0), nan));
    assert!(!f64_le(nan, nan));
}

#[test]
fn min_max_ignore_nan() {
    let nan = bits(f64::NAN);
    assert_eq!(f64_min(nan, bits(3.0)), bits(3.0));
    assert_eq!(f64_min(bits(3.0), nan), bits(3.0));
    assert_eq!(f64_min(bits(2.0), bits(3.0)), bits(2.0));
    assert_eq!(f64_max(bits(2.0), bits(3.0)), bits(3.0));
    assert_eq!(f64_max(nan, nan), nan);
}

#[test]
fn empty_outline_signals_no_geometry() {
    let fp = Footprint::new();
    assert!(fp.min_coords().is_none());
    assert!(fp.max_coords().is_none());

    let mut degenerate = Footprint::new();
    degenerate.outline = vec![vec![vec![], vec![]], vec![]];
    assert!(degenerate.min_coords().is_none());
    assert!(degenerate.max_coords().is_none());
}

#[test]
fn extent_over_all_vertices() {
    let mut fp = Footprint::new();
    fp.outline = vec![
        vec![vec![(bits(10.0), bits(20.0)), (bits(-5.0), bits(7.5))]],
        vec![vec![(bits(3.0), bits(40.0))], vec![]],
    ];
    assert_eq!(fp.min_coords(), Some((bits(-5.0), bits(7.5))));
    assert_eq!(fp.max_coords(), Some((bits(10.0), bits(40.0))));
}

#[test]
fn zero_origin_extent_is_not_no_geometry() {
    let mut fp = Footprint::new();
    fp.outline = vec![vec![vec![(bits(0.0), bits(0.0))]]];
    assert_eq!(fp.min_coords(), Some((bits(0.0), bits(0.0))));
    assert_eq!(fp.max_coords(), Some((bits(0.0), bits(0.0))));
}

#[test]
fn mean_time_of_interval() {
    let fp = record_with_interval("a", 100.0, 200.0);
    assert_eq!(fp.mean_time(), bits(150.0));
}

#[test]
fn window_and_stride_keep_second_survivor_out() {
    let records = vec![
        record_with_interval("t5", 5.0, 5.0),
        record_with_interval("t15", 15.0, 15.0),
        record_with_interval("t25", 25.0, 25.0),
        record_with_interval("t35", 35.0, 35.0),
    ];
    let kept = filter_decimate(&records, 10.0f64.to_bits(), 30.0f64.to_bits(), 2);
    assert_eq!(kept.len(), 1);
    assert_eq!(kept[0].id, "t15");
}

#[test]
fn stride_one_keeps_every_survivor() {
    let records = vec![
        record_with_interval("t5", 5.0, 5.0),
        record_with_interval("t15", 15.0, 15.0),
        record_with_interval("t25", 25.0, 25.0),
    ];
    let kept = filter_decimate(&records, 10.0f64.to_bits(), 30.0f64.to_bits(), 1);
    assert_eq!(kept.len(), 2);
    assert_eq!(kept[0].id, "t15");
    assert_eq!(kept[1].id, "t25");
}

#[test]
fn nan_interval_is_dropped() {
    let records = vec![record_with_interval("bad", f64::NAN, f64::NAN)];
    let kept = filter_decimate(&records, 0.0f64.to_bits(), f64::INFINITY.to_bits(), 1);
    assert_eq!(kept.len(), 0);
}
