//! A streaming vector-document writer.
//!
//! The writer accumulates one SVG document in memory: construction
//! writes the preamble and a full-page white background, the drawing
//! calls append one complete element each, and [`MiniSVG::close`]
//! consumes the writer and appends the closing tag.  The document can
//! only be obtained from `close`, so every document this library
//! hands out is the preamble, a sequence of complete elements, and
//! exactly one closing tag; an abandoned writer yields nothing.
//! Writing the finished text to a sink is the caller's step, and the
//! only place an I/O failure can arise.

use vstd::prelude::*;
use vstd::string::StrSliceExecFns;
use vstd::string::StringExecFns;

use crate::fbits::sub_of;
use crate::fbits::f64_sub;
use crate::numfmt::hex6_of;
use crate::numfmt::num_text_of;
use crate::numfmt::f64_text;
use crate::numfmt::u32_hex6;

verus! {

/// PCDATA escaping: `<`, `>` and `&` are replaced by their entities,
/// so arbitrary content (a `]]>` included) cannot break the markup;
/// every other character stands as itself.
pub open spec fn pcdata_escape_char(c: char) -> Seq<char> {
    if c == '<' {
        "&lt;"@
    } else if c == '>' {
        "&gt;"@
    } else if c == '&' {
        "&amp;"@
    } else {
        seq![c]
    }
}

/// A whole string under PCDATA escaping.
pub open spec fn pcdata_escaped(s: Seq<char>) -> Seq<char>
    decreases s.len(),
{
    if s.len() == 0 {
        Seq::<char>::empty()
    } else {
        pcdata_escaped(s.drop_last()) + pcdata_escape_char(s.last())
    }
}

/// Escapes a string for embedding in markup character data.
pub fn escape_pcdata(s: &str) -> (r: String)
    ensures
        r@ == pcdata_escaped(s@),
{
    let n = s.unicode_len();
    let mut out = String::new();
    let mut i: usize = 0;
    while i < n
        invariant
            i <= n,
            n == s@.len(),
            out@ == pcdata_escaped(s@.subrange(0, i as int)),
        decreases n - i,
    {
        let c = s.get_char(i);
        if c == '<' {
            out.append("&lt;");
        } else if c == '>' {
            out.append("&gt;");
        } else if c == '&' {
            out.append("&amp;");
        } else {
            out.push(c);
        }
        proof {
            assert(s@.subrange(0, i + 1).drop_last() =~= s@.subrange(0, i as int));
            assert(s@.subrange(0, i + 1).last() == s@[i as int]);
            assert(out@ =~= pcdata_escaped(s@.subrange(0, i + 1)));
        }
        i = i + 1;
    }
    proof {
        assert(s@.subrange(0, n as int) =~= s@);
    }
    out
}

/// The fill half of a style attribute: `fill:none;` for an unset
/// fill, else the color, the even-odd fill rule, and the opacity.
pub open spec fn fill_text(fill: Option<(u32, u64)>) -> Seq<char> {
    match fill {
        None => "fill:none;"@,
        Some((c, op)) => "fill:#"@ + hex6_of(c as nat) + ";fill-rule:evenodd;opacity:"@
            + num_text_of(op) + ";"@,
    }
}

/// The stroke half of a style attribute: `stroke:none` for an unset
/// stroke, else the width, the color and the opacity.
pub open spec fn stroke_text(stroke: Option<(u32, u64, u64)>) -> Seq<char> {
    match stroke {
        None => "stroke:none"@,
        Some((c, w, op)) => "stroke-width:"@ + num_text_of(w) + "mm;stroke:#"@ + hex6_of(c as nat)
            + ";stroke-opacity:"@ + num_text_of(op),
    }
}

/// A whole style attribute composed from the current state.
pub open spec fn style_text(stroke: Option<(u32, u64, u64)>, fill: Option<(u32, u64)>) -> Seq<
    char,
> {
    "style=\""@ + fill_text(fill) + stroke_text(stroke) + "\""@
}

/// One translated point of path data: a space, then the two
/// coordinates with the origin subtracted, comma-separated.
pub open spec fn pt_text(v: (u64, u64), x0: u64, y0: u64) -> Seq<char> {
    " "@ + num_text_of(sub_of(v.0, x0)) + ","@ + num_text_of(sub_of(v.1, y0))
}

/// The translated points of one ring, in order.
pub open spec fn ring_pts_text(r: Seq<(u64, u64)>, x0: u64, y0: u64) -> Seq<char>
    decreases r.len(),
{
    if r.len() == 0 {
        Seq::<char>::empty()
    } else {
        ring_pts_text(r.drop_last(), x0, y0) + pt_text(r.last(), x0, y0)
    }
}

/// One closed subpath: `M`, the ring's points, ` Z`.
pub open spec fn subpath_text(r: Seq<(u64, u64)>, x0: u64, y0: u64) -> Seq<char> {
    "M"@ + ring_pts_text(r, x0, y0) + " Z"@
}

/// The subpaths of a polygon's rings, space-separated.
pub open spec fn subpaths_text(p: Seq<Seq<(u64, u64)>>, x0: u64, y0: u64) -> Seq<char>
    decreases p.len(),
{
    if p.len() == 0 {
        Seq::<char>::empty()
    } else if p.len() == 1 {
        subpath_text(p[0], x0, y0)
    } else {
        subpaths_text(p.drop_last(), x0, y0) + " "@ + subpath_text(p.last(), x0, y0)
    }
}

/// A simple-polygon element: one path with a single subpath.
pub open spec fn simple_polygon_text(
    stroke: Option<(u32, u64, u64)>,
    fill: Option<(u32, u64)>,
    r: Seq<(u64, u64)>,
    x0: u64,
    y0: u64,
) -> Seq<char> {
    "<path "@ + style_text(stroke, fill) + " d=\"M"@ + ring_pts_text(r, x0, y0) + " Z\"/>\n"@
}

/// A polygon element: one path holding one subpath per ring, so holes
/// render under the even-odd rule.
pub open spec fn polygon_text(
    stroke: Option<(u32, u64, u64)>,
    fill: Option<(u32, u64)>,
    p: Seq<Seq<(u64, u64)>>,
    x0: u64,
    y0: u64,
) -> Seq<char> {
    "<path "@ + style_text(stroke, fill) + " d=\""@ + subpaths_text(p, x0, y0) + "\"/>\n"@
}

/// The element texts of a multi-polygon: one polygon element per
/// polygon, in order.
pub open spec fn multi_polygon_texts(
    stroke: Option<(u32, u64, u64)>,
    fill: Option<(u32, u64)>,
    o: Seq<Seq<Seq<(u64, u64)>>>,
    x0: u64,
    y0: u64,
) -> Seq<Seq<char>>
    decreases o.len(),
{
    if o.len() == 0 {
        Seq::<Seq<char>>::empty()
    } else {
        multi_polygon_texts(stroke, fill, o.drop_last(), x0, y0).push(
            polygon_text(stroke, fill, o.last(), x0, y0),
        )
    }
}

/// A circle element.
pub open spec fn circle_text(
    stroke: Option<(u32, u64, u64)>,
    fill: Option<(u32, u64)>,
    cx: u64,
    cy: u64,
    radius: u64,
    x0: u64,
    y0: u64,
) -> Seq<char> {
    "<circle "@ + style_text(stroke, fill) + " cx=\""@ + num_text_of(sub_of(cx, x0)) + "\" cy=\""@
        + num_text_of(sub_of(cy, y0)) + "\" r=\""@ + num_text_of(radius) + "\"/>\n"@
}

/// A text element, emitted only under a set fill.
pub open spec fn text_elem_text(
    fill_color: u32,
    fill_op: u64,
    x: u64,
    y: u64,
    size: u64,
    content: Seq<char>,
    x0: u64,
    y0: u64,
) -> Seq<char> {
    "<text xml:space=\"preserve\" x=\""@ + num_text_of(sub_of(x, x0)) + "\" y=\""@ + num_text_of(
        sub_of(y, y0),
    ) + "\" style=\"font-family:osifont;font-style:normal;font-weight:normal;font-size:"@
        + num_text_of(size) + "mm;fill:#"@ + hex6_of(fill_color as nat) + ";fill-opacity:"@
        + num_text_of(fill_op) + ";stroke:none\">"@ + pcdata_escaped(content) + "</text>"@
}

/// The document preamble: the XML declaration, the opening `svg` tag
/// with the page size in millimeters and a matching view box, and a
/// full-page white background rectangle.
pub open spec fn preamble_text(w: u64, h: u64) -> Seq<char> {
    "<?xml version=\"1.0\" encoding=\"UTF-8\" standalone=\"no\"?>\n<svg xmlns:dc=\"http://purl.org/dc/elements/1.1/\" xmlns:cc=\"http://creativecommons.org/ns#\" xmlns:rdf=\"http://www.w3.org/1999/02/22-rdf-syntax-ns#\" xmlns:svg=\"http://www.w3.org/2000/svg\" xmlns=\"http://www.w3.org/2000/svg\" width=\""@
        + num_text_of(w) + "mm\" height=\""@ + num_text_of(h) + "mm\" viewBox=\"0 0 "@
        + num_text_of(w) + " "@ + num_text_of(h) + "\" version=\"1.1\">\n<rect style=\"fill:#ffffff;fill-rule:evenodd\" width=\""@
        + num_text_of(w) + "\" height=\""@ + num_text_of(h) + "\" x=\"0\" y=\"0\" />\n"@
}

/// The concatenation of a sequence of element texts.
pub open spec fn concat_texts(ss: Seq<Seq<char>>) -> Seq<char>
    decreases ss.len(),
{
    if ss.len() == 0 {
        Seq::<char>::empty()
    } else {
        concat_texts(ss.drop_last()) + ss.last()
    }
}

/// The streaming writer: the document text built so far, the current
/// style state, and the origin subtracted from every drawn coordinate.
pub struct MiniSVG {
    doc: String,
    stroke: Option<(u32, u64, u64)>,
    fill: Option<(u32, u64)>,
    x0: u64,
    y0: u64,
    page_g: Ghost<(u64, u64)>,
    shapes_g: Ghost<Seq<Seq<char>>>,
}

impl MiniSVG {
    /// The document text accumulated so far.
    pub closed spec fn out_text(&self) -> Seq<char> {
        self.doc@
    }

    /// The current stroke: color, width bits, opacity bits.
    pub closed spec fn stroke_st(&self) -> Option<(u32, u64, u64)> {
        self.stroke
    }

    /// The current fill: color, opacity bits.
    pub closed spec fn fill_st(&self) -> Option<(u32, u64)> {
        self.fill
    }

    /// The origin offset subtracted from every drawn coordinate.
    pub closed spec fn origin(&self) -> (u64, u64) {
        (self.x0, self.y0)
    }

    /// The page size the writer was created with.
    pub closed spec fn page(&self) -> (u64, u64) {
        self.page_g@
    }

    /// The texts of the complete elements emitted so far, in order.
    pub closed spec fn shapes(&self) -> Seq<Seq<char>> {
        self.shapes_g@
    }

    /// The writer's invariant: the document is the preamble followed
    /// by the emitted elements, nothing else.
    pub open spec fn wf(&self) -> bool {
        self.out_text() == preamble_text(self.page().0, self.page().1) + concat_texts(
            self.shapes(),
        )
    }

    /// Opens a document of the given page size (in millimeters) with
    /// the given origin offset; both styles start unset.
    pub fn new(width: u64, height: u64, x0: u64, y0: u64) -> (r: Self)
        ensures
            r.wf(),
            r.out_text() == preamble_text(width, height),
            r.page() == (width, height),
            r.origin() == (x0, y0),
            r.stroke_st() is None,
            r.fill_st() is None,
            r.shapes() == Seq::<Seq<char>>::empty(),
    {
        let mut doc = String::new();
        doc.append(
            "<?xml version=\"1.0\" encoding=\"UTF-8\" standalone=\"no\"?>\n<svg xmlns:dc=\"http://purl.org/dc/elements/1.1/\" xmlns:cc=\"http://creativecommons.org/ns#\" xmlns:rdf=\"http://www.w3.org/1999/02/22-rdf-syntax-ns#\" xmlns:svg=\"http://www.w3.org/2000/svg\" xmlns=\"http://www.w3.org/2000/svg\" width=\"",
        );
        let wt = f64_text(width);
        let ht = f64_text(height);
        doc.append(wt.as_str());
        doc.append("mm\" height=\"");
        doc.append(ht.as_str());
        doc.append("mm\" viewBox=\"0 0 ");
        doc.append(wt.as_str());
        doc.append(" ");
        doc.append(ht.as_str());
        doc.append(
            "\" version=\"1.1\">\n<rect style=\"fill:#ffffff;fill-rule:evenodd\" width=\"",
        );
        doc.append(wt.as_str());
        doc.append("\" height=\"");
        doc.append(ht.as_str());
        doc.append("\" x=\"0\" y=\"0\" />\n");
        proof {
            assert(doc@ =~= preamble_text(width, height));
        }
        let r = MiniSVG {
            doc,
            stroke: None,
            fill: None,
            x0,
            y0,
            page_g: Ghost((width, height)),
            shapes_g: Ghost(Seq::<Seq<char>>::empty()),
        };
        proof {
            assert(concat_texts(r.shapes()) =~= Seq::<char>::empty());
            assert(r.out_text() =~= preamble_text(width, height) + concat_texts(r.shapes()));
        }
        r
    }

    /// Sets the stroke: color, line width bits, opacity bits; `None`
    /// omits the stroke paint entirely.  Pure state, no output.
    pub fn set_stroke(&mut self, stroke: Option<(u32, u64, u64)>)
        ensures
            final(self).stroke_st() == stroke,
            final(self).fill_st() == old(self).fill_st(),
            final(self).out_text() == old(self).out_text(),
            final(self).shapes() == old(self).shapes(),
            final(self).origin() == old(self).origin(),
            final(self).page() == old(self).page(),
            old(self).wf() ==> final(self).wf(),
    {
        self.stroke = stroke;
    }

    /// Sets the fill: color, opacity bits; `None` omits the fill
    /// paint entirely.  Pure state, no output.
    pub fn set_fill(&mut self, fill: Option<(u32, u64)>)
        ensures
            final(self).fill_st() == fill,
            final(self).stroke_st() == old(self).stroke_st(),
            final(self).out_text() == old(self).out_text(),
            final(self).shapes() == old(self).shapes(),
            final(self).origin() == old(self).origin(),
            final(self).page() == old(self).page(),
            old(self).wf() ==> final(self).wf(),
    {
        self.fill = fill;
    }

    /// The style attribute for the current state.
    fn style_string(&self) -> (r: String)
        ensures
            r@ == style_text(self.stroke_st(), self.fill_st()),
    {
        let mut s = String::new();
        s.append("style=\"");
        match self.fill {
            None => s.append("fill:none;"),
            Some((c, op)) => {
                s.append("fill:#");
                let hx = u32_hex6(c);
                s.append(hx.as_str());
                s.append(";fill-rule:evenodd;opacity:");
                let ot = f64_text(op);
                s.append(ot.as_str());
                s.append(";");
            },
        }
        match self.stroke {
            None => s.append("stroke:none"),
            Some((c, w, op)) => {
                s.append("stroke-width:");
                let wt = f64_text(w);
                s.append(wt.as_str());
                s.append("mm;stroke:#");
                let hx = u32_hex6(c);
                s.append(hx.as_str());
                s.append(";stroke-opacity:");
                let ot = f64_text(op);
                s.append(ot.as_str());
            },
        }
        s.append("\"");
        proof {
            assert(s@ =~= style_text(self.stroke_st(), self.fill_st()));
        }
        s
    }

    /// Appends one translated point to the document.
    #[verifier::loop_isolation(false)]
    fn put_point(&mut self, v: (u64, u64))
        ensures
            final(self).out_text() == old(self).out_text() + pt_text(
                v,
                old(self).origin().0,
                old(self).origin().1,
            ),
            final(self).stroke_st() == old(self).stroke_st(),
            final(self).fill_st() == old(self).fill_st(),
            final(self).shapes() == old(self).shapes(),
            final(self).origin() == old(self).origin(),
            final(self).page() == old(self).page(),
    {
        self.doc.append(" ");
        let xt = f64_text(f64_sub(v.0, self.x0));
        self.doc.append(xt.as_str());
        self.doc.append(",");
        let yt = f64_text(f64_sub(v.1, self.y0));
        self.doc.append(yt.as_str());
        proof {
            assert(self.doc@ =~= old(self).out_text() + pt_text(
                v,
                old(self).origin().0,
                old(self).origin().1,
            ));
        }
    }

    /// Appends one subpath (`M`, points, ` Z`) to the document.
    #[verifier::loop_isolation(false)]
    fn put_subpath(&mut self, r: &Vec<(u64, u64)>)
        ensures
            final(self).out_text() == old(self).out_text() + subpath_text(
                r@,
                old(self).origin().0,
                old(self).origin().1,
            ),
            final(self).stroke_st() == old(self).stroke_st(),
            final(self).fill_st() == old(self).fill_st(),
            final(self).shapes() == old(self).shapes(),
            final(self).origin() == old(self).origin(),
            final(self).page() == old(self).page(),
    {
        let ghost x0 = self.x0;
        let ghost y0 = self.y0;
        self.doc.append("M");
        let ghost base = self.doc@;
        let mut i: usize = 0;
        while i < r.len()
            invariant
                i <= r.len(),
                self.doc@ == base + ring_pts_text(r@.subrange(0, i as int), x0, y0),
                self.stroke == old(self).stroke,
                self.fill == old(self).fill,
                self.x0 == old(self).x0,
                self.y0 == old(self).y0,
                self.page_g == old(self).page_g,
                self.shapes_g == old(self).shapes_g,
            decreases r.len() - i,
        {
            self.put_point(r[i]);
            proof {
                assert(r@.subrange(0, i + 1).drop_last() =~= r@.subrange(0, i as int));
                assert(r@.subrange(0, i + 1).last() == r@[i as int]);
                assert(self.doc@ =~= base + ring_pts_text(r@.subrange(0, i + 1), x0, y0));
            }
            i = i + 1;
        }
        self.doc.append(" Z");
        proof {
            assert(r@.subrange(0, r@.len() as int) =~= r@);
            assert(self.doc@ =~= old(self).out_text() + subpath_text(r@, x0, y0));
        }
    }

    /// Draws one ring as a single closed path with the current style.
    pub fn simple_polygon(&mut self, path: &Vec<(u64, u64)>)
        ensures
            final(self).out_text() == old(self).out_text() + simple_polygon_text(
                old(self).stroke_st(),
                old(self).fill_st(),
                path@,
                old(self).origin().0,
                old(self).origin().1,
            ),
            final(self).shapes() == old(self).shapes().push(
                simple_polygon_text(
                    old(self).stroke_st(),
                    old(self).fill_st(),
                    path@,
                    old(self).origin().0,
                    old(self).origin().1,
                ),
            ),
            final(self).stroke_st() == old(self).stroke_st(),
            final(self).fill_st() == old(self).fill_st(),
            final(self).origin() == old(self).origin(),
            final(self).page() == old(self).page(),
            old(self).wf() ==> final(self).wf(),
    {
        let ghost t = simple_polygon_text(
            self.stroke,
            self.fill,
            path@,
            self.x0,
            self.y0,
        );
        self.doc.append("<path ");
        let st = self.style_string();
        self.doc.append(st.as_str());
        self.doc.append(" d=\"M");
        let ghost base = self.doc@;
        let ghost x0 = self.x0;
        let ghost y0 = self.y0;
        let mut i: usize = 0;
        while i < path.len()
            invariant
                i <= path.len(),
                self.doc@ == base + ring_pts_text(path@.subrange(0, i as int), x0, y0),
                self.stroke == old(self).stroke,
                self.fill == old(self).fill,
                self.x0 == old(self).x0,
                self.y0 == old(self).y0,
                x0 == old(self).x0,
                y0 == old(self).y0,
                base == old(self).out_text() + "<path "@ + style_text(
                    old(self).stroke,
                    old(self).fill,
                ) + " d=\"M"@,
                self.page_g == old(self).page_g,
                self.shapes_g == old(self).shapes_g,
            decreases path.len() - i,
        {
            self.put_point(path[i]);
            proof {
                assert(path@.subrange(0, i + 1).drop_last() =~= path@.subrange(0, i as int));
                assert(path@.subrange(0, i + 1).last() == path@[i as int]);
                assert(self.doc@ =~= base + ring_pts_text(path@.subrange(0, i + 1), x0, y0));
            }
            i = i + 1;
        }
        self.doc.append(" Z\"/>\n");
        proof {
            assert(path@.subrange(0, path@.len() as int) =~= path@);
            assert(self.doc@ =~= old(self).out_text() + t);
        }
        self.shapes_g = Ghost(self.shapes_g@.push(t));
        proof {
            if old(self).wf() {
                assert(self.shapes_g@.drop_last() =~= old(self).shapes_g@);
                assert(concat_texts(self.shapes_g@) =~= concat_texts(old(self).shapes_g@) + t);
                assert(self.doc@ =~= preamble_text(self.page_g@.0, self.page_g@.1)
                    + concat_texts(self.shapes_g@));
            }
        }
    }

    /// Draws one polygon: a single path element holding one subpath
    /// per ring, space-separated.
    #[verifier::loop_isolation(false)]
    pub fn polygon(&mut self, polys: &Vec<Vec<(u64, u64)>>)
        ensures
            final(self).out_text() == old(self).out_text() + polygon_text(
                old(self).stroke_st(),
                old(self).fill_st(),
                crate::record::poly_view(*polys),
                old(self).origin().0,
                old(self).origin().1,
            ),
            final(self).shapes() == old(self).shapes().push(
                polygon_text(
                    old(self).stroke_st(),
                    old(self).fill_st(),
                    crate::record::poly_view(*polys),
                    old(self).origin().0,
                    old(self).origin().1,
                ),
            ),
            final(self).stroke_st() == old(self).stroke_st(),
            final(self).fill_st() == old(self).fill_st(),
            final(self).origin() == old(self).origin(),
            final(self).page() == old(self).page(),
            old(self).wf() ==> final(self).wf(),
    {
        let ghost pv = crate::record::poly_view(*polys);
        let ghost t = polygon_text(self.stroke, self.fill, pv, self.x0, self.y0);
        self.doc.append("<path ");
        let st = self.style_string();
        self.doc.append(st.as_str());
        self.doc.append(" d=\"");
        let ghost base = self.doc@;
        let ghost x0 = self.x0;
        let ghost y0 = self.y0;
        let mut first = true;
        let mut i: usize = 0;
        while i < polys.len()
            invariant
                i <= polys.len(),
                first == (i == 0),
                pv == crate::record::poly_view(*polys),
                self.doc@ == base + subpaths_text(pv.subrange(0, i as int), x0, y0),
                self.stroke == old(self).stroke,
                self.fill == old(self).fill,
                self.x0 == old(self).x0,
                self.y0 == old(self).y0,
                self.page_g == old(self).page_g,
                self.shapes_g == old(self).shapes_g,
            decreases polys.len() - i,
        {
            if first {
                first = false;
            } else {
                self.doc.append(" ");
            }
            self.put_subpath(&polys[i]);
            proof {
                assert(pv.subrange(0, i + 1).drop_last() =~= pv.subrange(0, i as int));
                assert(pv.subrange(0, i + 1).last() == pv[i as int]);
                assert(pv[i as int] == polys@[i as int]@);
                assert(self.doc@ =~= base + subpaths_text(pv.subrange(0, i + 1), x0, y0));
            }
            i = i + 1;
        }
        self.doc.append("\"/>\n");
        proof {
            assert(pv.subrange(0, pv.len() as int) =~= pv);
            assert(self.doc@ =~= old(self).out_text() + t);
        }
        self.shapes_g = Ghost(self.shapes_g@.push(t));
        proof {
            if old(self).wf() {
                assert(self.shapes_g@.drop_last() =~= old(self).shapes_g@);
                assert(concat_texts(self.shapes_g@) =~= concat_texts(old(self).shapes_g@) + t);
                assert(self.doc@ =~= preamble_text(self.page_g@.0, self.page_g@.1)
                    + concat_texts(self.shapes_g@));
            }
        }
    }

    /// Draws a multi-polygon: each polygon in order, as if by
    /// repeated [`MiniSVG::polygon`] calls.
    #[verifier::loop_isolation(false)]
    pub fn multi_polygon(&mut self, polys: &Vec<Vec<Vec<(u64, u64)>>>)
        ensures
            final(self).shapes() == old(self).shapes() + multi_polygon_texts(
                old(self).stroke_st(),
                old(self).fill_st(),
                crate::record::outline_view(*polys),
                old(self).origin().0,
                old(self).origin().1,
            ),
            final(self).out_text() == old(self).out_text() + concat_texts(
                multi_polygon_texts(
                    old(self).stroke_st(),
                    old(self).fill_st(),
                    crate::record::outline_view(*polys),
                    old(self).origin().0,
                    old(self).origin().1,
                ),
            ),
            final(self).stroke_st() == old(self).stroke_st(),
            final(self).fill_st() == old(self).fill_st(),
            final(self).origin() == old(self).origin(),
            final(self).page() == old(self).page(),
            old(self).wf() ==> final(self).wf(),
    {
        let ghost ov = crate::record::outline_view(*polys);
        let ghost x0 = self.x0;
        let ghost y0 = self.y0;
        let ghost stroke0 = self.stroke;
        let ghost fill0 = self.fill;
        let mut i: usize = 0;
        while i < polys.len()
            invariant
                i <= polys.len(),
                ov == crate::record::outline_view(*polys),
                self.shapes_g@ == old(self).shapes_g@ + multi_polygon_texts(
                    stroke0,
                    fill0,
                    ov.subrange(0, i as int),
                    x0,
                    y0,
                ),
                old(self).wf() ==> self.wf(),
                self.doc@ == old(self).out_text() + concat_texts(
                    multi_polygon_texts(stroke0, fill0, ov.subrange(0, i as int), x0, y0),
                ),
                self.stroke == old(self).stroke,
                self.fill == old(self).fill,
                self.x0 == old(self).x0,
                self.y0 == old(self).y0,
                self.page_g == old(self).page_g,
            decreases polys.len() - i,
        {
            self.polygon(&polys[i]);
            proof {
                assert(ov.subrange(0, i + 1).drop_last() =~= ov.subrange(0, i as int));
                assert(ov.subrange(0, i + 1).last() == ov[i as int]);
                assert(ov[i as int] == crate::record::poly_view(polys@[i as int]));
                let ts = multi_polygon_texts(stroke0, fill0, ov.subrange(0, i + 1), x0, y0);
                assert(ts.drop_last() =~= multi_polygon_texts(
                    stroke0,
                    fill0,
                    ov.subrange(0, i as int),
                    x0,
                    y0,
                ));
                assert(self.shapes_g@ =~= old(self).shapes_g@ + ts);
                assert(concat_texts(ts) =~= concat_texts(ts.drop_last()) + ts.last());
                assert(self.doc@ =~= old(self).out_text() + concat_texts(ts));
            }
            i = i + 1;
        }
        proof {
            assert(ov.subrange(0, ov.len() as int) =~= ov);
        }
    }

    /// Draws a circle with the current style.
    pub fn circle(&mut self, cx: u64, cy: u64, radius: u64)
        ensures
            final(self).out_text() == old(self).out_text() + circle_text(
                old(self).stroke_st(),
                old(self).fill_st(),
                cx,
                cy,
                radius,
                old(self).origin().0,
                old(self).origin().1,
            ),
            final(self).shapes() == old(self).shapes().push(
                circle_text(
                    old(self).stroke_st(),
                    old(self).fill_st(),
                    cx,
                    cy,
                    radius,
                    old(self).origin().0,
                    old(self).origin().1,
                ),
            ),
            final(self).stroke_st() == old(self).stroke_st(),
            final(self).fill_st() == old(self).fill_st(),
            final(self).origin() == old(self).origin(),
            final(self).page() == old(self).page(),
            old(self).wf() ==> final(self).wf(),
    {
        let ghost t = circle_text(self.stroke, self.fill, cx, cy, radius, self.x0, self.y0);
        self.doc.append("<circle ");
        let st = self.style_string();
        self.doc.append(st.as_str());
        self.doc.append(" cx=\"");
        let xt = f64_text(f64_sub(cx, self.x0));
        self.doc.append(xt.as_str());
        self.doc.append("\" cy=\"");
        let yt = f64_text(f64_sub(cy, self.y0));
        self.doc.append(yt.as_str());
        self.doc.append("\" r=\"");
        let rt = f64_text(radius);
        self.doc.append(rt.as_str());
        self.doc.append("\"/>\n");
        proof {
            assert(self.doc@ =~= old(self).out_text() + t);
        }
        self.shapes_g = Ghost(self.shapes_g@.push(t));
        proof {
            if old(self).wf() {
                assert(self.shapes_g@.drop_last() =~= old(self).shapes_g@);
                assert(concat_texts(self.shapes_g@) =~= concat_texts(old(self).shapes_g@) + t);
                assert(self.doc@ =~= preamble_text(self.page_g@.0, self.page_g@.1)
                    + concat_texts(self.shapes_g@));
            }
        }
    }

    /// Draws text at a position, with the current fill giving the
    /// color and opacity.  With no fill set the call is a silent
    /// no-op: unfilled text would be invisible, so nothing is written.
    pub fn text(&mut self, x: u64, y: u64, size: u64, content: &str)
        ensures
            old(self).fill_st() is None ==> *final(self) == *old(self),
            old(self).fill_st() matches Some((c, op)) ==> {
                &&& final(self).out_text() == old(self).out_text() + text_elem_text(
                    c,
                    op,
                    x,
                    y,
                    size,
                    content@,
                    old(self).origin().0,
                    old(self).origin().1,
                )
                &&& final(self).shapes() == old(self).shapes().push(
                    text_elem_text(
                        c,
                        op,
                        x,
                        y,
                        size,
                        content@,
                        old(self).origin().0,
                        old(self).origin().1,
                    ),
                )
            },
            final(self).stroke_st() == old(self).stroke_st(),
            final(self).fill_st() == old(self).fill_st(),
            final(self).origin() == old(self).origin(),
            final(self).page() == old(self).page(),
            old(self).wf() ==> final(self).wf(),
    {
        match self.fill {
            None => (),
            Some((c, op)) => {
                let ghost t = text_elem_text(c, op, x, y, size, content@, self.x0, self.y0);
                self.doc.append("<text xml:space=\"preserve\" x=\"");
                let xt = f64_text(f64_sub(x, self.x0));
                self.doc.append(xt.as_str());
                self.doc.append("\" y=\"");
                let yt = f64_text(f64_sub(y, self.y0));
                self.doc.append(yt.as_str());
                self.doc.append(
                    "\" style=\"font-family:osifont;font-style:normal;font-weight:normal;font-size:",
                );
                let st = f64_text(size);
                self.doc.append(st.as_str());
                self.doc.append("mm;fill:#");
                let hx = u32_hex6(c);
                self.doc.append(hx.as_str());
                self.doc.append(";fill-opacity:");
                let ot = f64_text(op);
                self.doc.append(ot.as_str());
                self.doc.append(";stroke:none\">");
                let esc = escape_pcdata(content);
                self.doc.append(esc.as_str());
                self.doc.append("</text>");
                proof {
                    assert(self.doc@ =~= old(self).out_text() + t);
                }
                self.shapes_g = Ghost(self.shapes_g@.push(t));
                proof {
                    if old(self).wf() {
                        assert(self.shapes_g@.drop_last() =~= old(self).shapes_g@);
                        assert(concat_texts(self.shapes_g@) =~= concat_texts(old(self).shapes_g@)
                            + t);
                        assert(self.doc@ =~= preamble_text(self.page_g@.0, self.page_g@.1)
                            + concat_texts(self.shapes_g@));
                    }
                }
            },
        }
    }

    /// Closes the document: consumes the writer and returns the text
    /// with the closing tag appended.  This is the only way to obtain
    /// the document, so it always carries exactly one closing tag and
    /// an abandoned writer yields no document at all.
    pub fn close(self) -> (out: String)
        ensures
            out@ == self.out_text() + "</svg>"@,
            self.wf() ==> out@ == preamble_text(self.page().0, self.page().1) + concat_texts(
                self.shapes(),
            ) + "</svg>"@,
    {
        let mut d = self.doc;
        d.append("</svg>");
        proof {
            assert((preamble_text(self.page_g@.0, self.page_g@.1) + concat_texts(self.shapes_g@))
                + "</svg>"@ =~= preamble_text(self.page_g@.0, self.page_g@.1) + concat_texts(
                self.shapes_g@,
            ) + "</svg>"@);
        }
        d
    }
}

/// Style omission: with no fill set, every composed style attribute
/// carries the `fill:none` paint, and with no stroke set the
/// `stroke:none` paint, each in place of any color.
pub proof fn lemma_unset_paint_is_none(stroke: Option<(u32, u64, u64)>, fill: Option<(u32, u64)>)
    ensures
        fill is None ==> style_text(stroke, fill) == "style=\""@ + "fill:none;"@ + stroke_text(
            stroke,
        ) + "\""@,
        stroke is None ==> style_text(stroke, fill) == "style=\""@ + fill_text(fill)
            + "stroke:none"@ + "\""@,
{
}

/// Closing guarantee: a well-formed writer's closed document is the
/// preamble, the emitted elements in order, and the closing tag,
/// which ends it.  Since [`MiniSVG::close`] is the only way to obtain
/// a document and it consumes the writer, every document the library
/// hands out has this shape, whatever was drawn before.
pub proof fn lemma_closed_document_shape(m: MiniSVG, out: Seq<char>)
    requires
        m.wf(),
        out == m.out_text() + "</svg>"@,
    ensures
        out == preamble_text(m.page().0, m.page().1) + concat_texts(m.shapes()) + "</svg>"@,
        out.len() >= "</svg>"@.len(),
        out.subrange(out.len() - "</svg>"@.len(), out.len() as int) == "</svg>"@,
{
    assert(out =~= preamble_text(m.page().0, m.page().1) + concat_texts(m.shapes())
        + "</svg>"@);
    assert(out.subrange(out.len() - "</svg>"@.len(), out.len() as int) =~= "</svg>"@);
}

} // verus!
