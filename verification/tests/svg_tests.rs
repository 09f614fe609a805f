use footprint::minisvg::escape_pcdata;
use footprint::minisvg::MiniSVG;
use footprint::record::Footprint;
use footprint::record::Footprints;

fn bits(x: f64) -> u64 {
    x.to_bits()
}

fn assert_well_formed(doc: &str) {
    let reader = xml::reader::EventReader::from_str(doc);
    for event in reader {
        event.expect("well-formed document");
    }
}

#[test]
fn pcdata_escaping() {
    assert_eq!(escape_pcdata("a<b&c>d"), "a&lt;b&amp;c&gt;d");
    assert_eq!(escape_pcdata("]]>"), "]]&gt;");
    assert_eq!(escape_pcdata(""), "");
    assert_eq!(escape_pcdata("plain"), "plain");
}

#[test]
fn empty_document_is_closed_once() {
    let ms = MiniSVG::new(bits(360.0), bits(180.0), bits(0.0), bits(0.0));
    let doc = ms.close();
    assert!(doc.ends_with("</svg>"));
    assert_eq!(doc.matches("</svg>").count(), 1);
    assert_well_formed(&doc);
}

#[test]
fn unset_paints_render_as_none() {
    let mut ms = MiniSVG::new(bits(360.0), bits(180.0), bits(0.0), bits(0.0));
    let ring = vec![(bits(10.0), bits(20.0)), (bits(30.0), bits(20.0))];
    ms.simple_polygon(&ring);
    let doc = ms.close();
    assert!(doc.contains("style=\"fill:none;stroke:none\""));
    assert!(doc.contains(" d=\"M 10.0,20.0 30.0,20.0 Z\"/>"));
    assert_eq!(doc.matches("</svg>").count(), 1);
    assert_well_formed(&doc);
}

#[test]
fn fill_none_with_stroke_set() {
    let mut ms = MiniSVG::new(bits(360.0), bits(180.0), bits(0.0), bits(0.0));
    ms.set_stroke(Some((0xff0000, bits(0.01), bits(1.0))));
    ms.circle(bits(5.0), bits(6.0), bits(2.0));
    let doc = ms.close();
    assert!(doc.contains(
        "style=\"fill:none;stroke-width:0.01mm;stroke:#ff0000;stroke-opacity:1.0\""
    ));
    assert!(doc.contains("<circle "));
    assert!(doc.contains("cx=\"5.0\" cy=\"6.0\" r=\"2.0\""));
    assert_well_formed(&doc);
}

#[test]
fn stroke_none_with_fill_set() {
    let mut ms = MiniSVG::new(bits(360.0), bits(180.0), bits(0.0), bits(0.0));
    ms.set_fill(Some((0xffff80, bits(0.25))));
    let ring = vec![vec![(bits(1.0), bits(2.0))]];
    ms.polygon(&ring);
    let doc = ms.close();
    assert!(doc.contains(
        "style=\"fill:#ffff80;fill-rule:evenodd;opacity:0.25;stroke:none\""
    ));
    assert_well_formed(&doc);
}

#[test]
fn origin_offset_is_subtracted() {
    let mut ms = MiniSVG::new(bits(360.0), bits(180.0), bits(-180.0), bits(-90.0));
    let ring = vec![(bits(0.0), bits(0.0))];
    ms.simple_polygon(&ring);
    let doc = ms.close();
    assert!(doc.contains(" d=\"M 180.0,90.0 Z\"/>"));
}

#[test]
fn polygon_joins_rings_into_one_path() {
    let mut ms = MiniSVG::new(bits(360.0), bits(180.0), bits(0.0), bits(0.0));
    let rings = vec![
        vec![(bits(0.0), bits(0.0)), (bits(4.0), bits(0.0))],
        vec![(bits(1.0), bits(1.0))],
    ];
    ms.polygon(&rings);
    let doc = ms.close();
    assert!(doc.contains(" d=\"M 0.0,0.0 4.0,0.0 Z M 1.0,1.0 Z\"/>"));
    assert_eq!(doc.matches("<path ").count(), 1);
}

#[test]
fn text_without_fill_is_a_no_op() {
    let ms = MiniSVG::new(bits(360.0), bits(180.0), bits(0.0), bits(0.0));
    let silent = ms.close();

    let mut ms = MiniSVG::new(bits(360.0), bits(180.0), bits(0.0), bits(0.0));
    ms.text(bits(1.0), bits(2.0), bits(0.2), "ignored");
    ms.circle(bits(5.0), bits(6.0), bits(2.0));
    let doc = ms.close();
    assert!(!doc.contains("<text"));
    assert!(!doc.contains("ignored"));
    assert!(doc.contains("<circle "));
    assert!(doc.len() > silent.len());
    assert_well_formed(&doc);
}

#[test]
fn text_with_fill_is_escaped() {
    let mut ms = MiniSVG::new(bits(360.0), bits(180.0), bits(0.0), bits(0.0));
    ms.set_fill(Some((0x000000, bits(1.0))));
    ms.text(bits(1.0), bits(2.0), bits(0.2), "a<b&c>d");
    let doc = ms.close();
    assert!(doc.contains(">a&lt;b&amp;c&gt;d</text>"));
    assert!(doc.contains("fill:#000000;fill-opacity:1.0"));
    assert_well_formed(&doc);
}

#[test]
fn closing_holds_after_shapes_and_restyling() {
    let mut ms = MiniSVG::new(bits(360.0), bits(180.0), bits(0.0), bits(0.0));
    ms.set_stroke(Some((0xff0000, bits(0.01), bits(1.0))));
    ms.set_fill(Some((0xffff80, bits(0.25))));
    let outline = vec![vec![vec![(bits(1.0), bits(2.0)), (bits(3.0), bits(4.0))]]];
    ms.multi_polygon(&outline);
    ms.set_stroke(None);
    ms.set_fill(None);
    ms.circle(bits(0.0), bits(0.0), bits(1.0));
    let doc = ms.close();
    assert!(doc.ends_with("</svg>"));
    assert_eq!(doc.matches("</svg>").count(), 1);
    assert_well_formed(&doc);
}

#[test]
fn draw_renders_outline_and_label() {
    let mut fp = Footprint::new();
    fp.id = "R1".to_string();
    fp.time_interval = (bits(100.0), bits(200.0));
    fp.outline = vec![vec![vec![(bits(10.0), bits(20.0)), (bits(11.0), bits(21.0))]]];
    let coll = Footprints { footprints: vec![fp] };
    let doc = coll.draw_svg().expect("drawable");
    assert!(doc.contains("fill:#ffff80"));
    assert!(doc.contains("stroke:#ff0000"));
    // The outline's north-east extent, shifted by the (-180, -90) origin.
    assert!(doc.contains("x=\"191.0\" y=\"111.0\""));
    assert!(doc.contains(">00:02</text>"));
    assert!(doc.ends_with("</svg>"));
    assert_well_formed(&doc);
}

#[test]
fn draw_fails_on_unrepresentable_time() {
    let mut fp = Footprint::new();
    fp.time_interval = (bits(f64::NAN), bits(0.0));
    let coll = Footprints { footprints: vec![fp] };
    assert!(coll.draw_svg().is_err());
}

#[test]
fn degenerate_shapes_still_close() {
    let mut ms = MiniSVG::new(bits(360.0), bits(180.0), bits(0.0), bits(0.0));
    ms.simple_polygon(&vec![]);
    ms.polygon(&vec![]);
    ms.multi_polygon(&vec![]);
    let doc = ms.close();
    assert!(doc.contains(" d=\"M Z\"/>"));
    assert!(doc.contains(" d=\"\"/>"));
    assert_eq!(doc.matches("<path ").count(), 2);
    assert_well_formed(&doc);
}
