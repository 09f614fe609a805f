use footprint::errors::MiscError;
use footprint::export::export_geojson_string;
use footprint::export::EncodingError;
use footprint::record::Footprint;
use footprint::record::Footprints;

fn bits(x: f64) -> u64 {
    x.to_bits()
}

#[test]
fn feature_export_fixed_record() {
    let mut fp = Footprint::new();
    fp.id = "R1".to_string();
    fp.time_interval = (bits(100.0), bits(200.0));
    let coll = Footprints { footprints: vec![fp] };
    let text = coll.export_geojson_string(false).expect("exportable");
    let expected = "{\"type\":\"FeatureCollection\",\"features\":[{\"type\":\"Feature\",\"geometry\":{\"type\":\"MultiPolygon\",\"coordinates\":[]},\"properties\":{\"time\":\"1970-01-01 00:02:30 UTC\",\"id\":\"R1\"}}]}";
    assert_eq!(text, expected);
}

#[test]
fn coordinate_nesting_is_polygon_ring_position() {
    let mut fp = Footprint::new();
    fp.id = "N".to_string();
    fp.outline = vec![vec![vec![(bits(1.0), bits(2.0)), (bits(3.0), bits(4.0))], vec![]]];
    let coll = Footprints { footprints: vec![fp] };
    let text = coll.export_geojson_string(false).expect("exportable");
    assert!(text.contains("\"coordinates\":[[[[1.0,2.0],[3.0,4.0]],[]]]"));
    let parsed: serde_json::Value = serde_json::from_str(&text).expect("valid JSON");
    let coords = &parsed["features"][0]["geometry"]["coordinates"];
    assert_eq!(coords[0][0][0][0], serde_json::Value::from(1.0));
    assert_eq!(coords[0][0][1][1], serde_json::Value::from(4.0));
}

#[test]
fn non_finite_coordinates_become_null() {
    let mut fp = Footprint::new();
    fp.outline = vec![vec![vec![(bits(f64::NAN), bits(1.0))]]];
    let coll = Footprints { footprints: vec![fp] };
    let text = coll.export_geojson_string(false).expect("exportable");
    assert!(text.contains("[null,1.0]"));
    let _: serde_json::Value = serde_json::from_str(&text).expect("valid JSON");
}

#[test]
fn identifier_is_json_escaped() {
    let mut fp = Footprint::new();
    fp.id = "a\"b\\c\nd".to_string();
    let coll = Footprints { footprints: vec![fp] };
    let text = coll.export_geojson_string(false).expect("exportable");
    assert!(text.contains("\"id\":\"a\\\"b\\\\c\\nd\""));
    let parsed: serde_json::Value = serde_json::from_str(&text).expect("valid JSON");
    assert_eq!(parsed["features"][0]["properties"]["id"], "a\"b\\c\nd");
}

#[test]
fn pretty_export_parses_and_keeps_order() {
    let mut a = Footprint::new();
    a.id = "first".to_string();
    let mut b = Footprint::new();
    b.id = "second".to_string();
    let coll = Footprints { footprints: vec![a, b] };
    let text = coll.export_geojson_string(true).expect("exportable");
    assert!(text.starts_with("{\n  \"type\": \"FeatureCollection\""));
    let parsed: serde_json::Value = serde_json::from_str(&text).expect("valid JSON");
    let feats = parsed["features"].as_array().expect("array");
    assert_eq!(feats.len(), 2);
    assert_eq!(feats[0]["properties"]["id"], "first");
    assert_eq!(feats[1]["properties"]["id"], "second");
}

#[test]
fn export_fails_on_unrepresentable_time() {
    let mut fp = Footprint::new();
    fp.time_interval = (bits(1.0e300), bits(1.0e300));
    let coll = Footprints { footprints: vec![fp] };
    assert!(matches!(
        export_geojson_string(&coll.footprints, false),
        Err(EncodingError::UnrepresentableTime)
    ));
}

#[test]
fn misc_error_carries_its_message() {
    let e = MiscError::new("something failed");
    assert_eq!(e.message(), "something failed");
    let boxed: Result<u32, MiscError> = MiscError::boxed("no luck");
    assert_eq!(boxed.unwrap_err().message(), "no luck");
    let converted: Result<u32, MiscError> = MiscError::convert(Err::<u32, u8>(3), "context");
    assert_eq!(converted.unwrap_err().message(), "context");
    let ok: Result<u32, MiscError> = MiscError::convert(Ok::<u32, u8>(5), "context");
    assert_eq!(ok.unwrap(), 5);
    let from_none: Result<u32, MiscError> = MiscError::from_option(None, "missing");
    assert_eq!(from_none.unwrap_err().message(), "missing");
    let from_some: Result<u32, MiscError> = MiscError::from_option(Some(9), "missing");
    assert_eq!(from_some.unwrap(), 9);
}
