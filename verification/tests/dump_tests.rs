use footprint::dump::dump_to_string;
use footprint::record::Footprint;
use footprint::record::Footprints;

fn bits(x: f64) -> u64 {
    x.to_bits()
}

#[test]
fn dump_of_empty_collection_is_empty() {
    assert_eq!(dump_to_string(&vec![]), "");
}

#[test]
fn dump_lists_every_level() {
    let mut fp = Footprint::new();
    fp.id = "A-1".to_string();
    fp.outline = vec![vec![vec![(bits(12.5), bits(-3.25))]]];
    let coll = Footprints { footprints: vec![fp] };
    let text = coll.dump_string();
    let expected = "Footprint 0\n  ID A-1\n  Number of polygons: 1\n  Polygon 0\n    Number of rings: 1\n    Ring 0 of polygon 0\n      Number of vertices: 1\n        Poly Ring Vert Lon        Lat       \n           0    0    0    +12.500     -3.250\n    End of ring 0 of polygon 0\n  End of polygon 0\nEnd of footprint 0\n";
    assert_eq!(text, expected);
}

#[test]
fn dump_indexes_nested_structure() {
    let mut fp = Footprint::new();
    fp.id = "B".to_string();
    fp.outline = vec![vec![vec![], vec![(bits(0.0), bits(0.0))]], vec![]];
    let coll = Footprints { footprints: vec![fp] };
    let text = coll.dump_string();
    assert!(text.contains("  Number of polygons: 2\n"));
    assert!(text.contains("    Ring 1 of polygon 0\n"));
    assert!(text.contains("      Number of vertices: 0\n"));
    assert!(text.contains("    Number of rings: 0\n"));
    assert!(text.contains("     0.000     +0.000") || text.contains("   0    1    0     +0.000     +0.000"));
}
