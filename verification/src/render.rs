//! Drawing a collection as one vector document.
//!
//! The whole longitude–latitude plane becomes the page: 360 by 180
//! millimeters with the origin shifted to the south-west corner.
//! Every record's outline is drawn as a red-edged, pale-yellow
//! multi-polygon, and the hour and minute of the record's mean time
//! is placed at its north-east extent in black.

use vstd::prelude::*;

use crate::fbits::F64_NEG_INF;
use crate::fbits::F64_ONE;
use crate::fbits::mean_of;
use crate::minisvg::MiniSVG;
use crate::minisvg::concat_texts;
use crate::minisvg::multi_polygon_texts;
use crate::minisvg::preamble_text;
use crate::minisvg::text_elem_text;
use crate::record::Footprints;
use crate::record::RecView;
use crate::record::max_fold_outline;
use crate::record::outline_has_vertex;
use crate::export::EncodingError;
use crate::export::FootprintLike;
use crate::time::time_hm_of;
use crate::time::f64_time_hm;

verus! {

/// Bit pattern of 360, the page width in millimeters.
pub const PAGE_W: u64 = 0x4076_8000_0000_0000;

/// Bit pattern of 180, the page height in millimeters.
pub const PAGE_H: u64 = 0x4066_8000_0000_0000;

/// Bit pattern of -180, the drawn origin's longitude.
pub const ORIGIN_X: u64 = 0xc066_8000_0000_0000;

/// Bit pattern of -90, the drawn origin's latitude.
pub const ORIGIN_Y: u64 = 0xc056_8000_0000_0000;

/// Bit pattern of 0.01, the outline stroke width in millimeters.
pub const STROKE_W: u64 = 0x3f84_7ae1_47ae_147b;

/// Bit pattern of 0.25, the outline fill opacity.
pub const FILL_OP: u64 = 0x3fd0_0000_0000_0000;

/// Bit pattern of 0.2, the label text size in millimeters.
pub const TEXT_SIZE: u64 = 0x3fc9_9999_9999_999a;

/// The stroke every outline is drawn with: red, hairline, opaque.
pub open spec fn outline_stroke() -> Option<(u32, u64, u64)> {
    Some((0xff0000u32, STROKE_W, F64_ONE))
}

/// The fill every outline is drawn with: pale yellow, quarter opacity.
pub open spec fn outline_fill() -> Option<(u32, u64)> {
    Some((0xffff80u32, FILL_OP))
}

/// The label anchor of a record: its maximum extent, or the writer's
/// negative-infinity sentinel when the outline holds no vertex.
pub open spec fn label_anchor(r: RecView) -> (u64, u64) {
    if outline_has_vertex(r.outline) {
        max_fold_outline((F64_NEG_INF, F64_NEG_INF), r.outline)
    } else {
        (F64_NEG_INF, F64_NEG_INF)
    }
}

/// The elements one record contributes: its outline's polygon
/// elements, then its label; `None` when the mean time has no
/// hour-and-minute rendering.
pub open spec fn draw_rec_shapes(r: RecView) -> Option<Seq<Seq<char>>> {
    match time_hm_of(mean_of(r.t0, r.t1)) {
        None => None,
        Some(ts) => Some(
            multi_polygon_texts(
                outline_stroke(),
                outline_fill(),
                r.outline,
                ORIGIN_X,
                ORIGIN_Y,
            ).push(
                text_elem_text(
                    0x000000u32,
                    F64_ONE,
                    label_anchor(r).0,
                    label_anchor(r).1,
                    TEXT_SIZE,
                    ts,
                    ORIGIN_X,
                    ORIGIN_Y,
                ),
            ),
        ),
    }
}

/// The elements of a whole collection, front to back.
pub open spec fn draw_shapes(rs: Seq<RecView>) -> Option<Seq<Seq<char>>>
    decreases rs.len(),
{
    if rs.len() == 0 {
        Some(Seq::<Seq<char>>::empty())
    } else {
        match draw_rec_shapes(rs[0]) {
            None => None,
            Some(first) => match draw_shapes(rs.drop_first()) {
                None => None,
                Some(rest) => Some(first + rest),
            },
        }
    }
}

/// The full document a collection draws to.
pub open spec fn draw_doc(rs: Seq<RecView>) -> Option<Seq<char>> {
    match draw_shapes(rs) {
        None => None,
        Some(sh) => Some(preamble_text(PAGE_W, PAGE_H) + concat_texts(sh) + "</svg>"@),
    }
}

/// Prefixes already-drawn elements to a continuation.
spec fn shjoin(pre: Seq<Seq<char>>, o: Option<Seq<Seq<char>>>) -> Option<Seq<Seq<char>>> {
    match o {
        None => None,
        Some(rest) => Some(pre + rest),
    }
}

impl Footprints {
    /// Draws the collection and returns the closed document, exactly
    /// as [`draw_doc`] states; fails when a record's mean time has no
    /// hour-and-minute rendering, with no document at all.
    #[verifier::loop_isolation(false)]
    #[verifier::rlimit(60)]
    pub fn draw_svg(&self) -> (r: Result<String, EncodingError>)
        ensures
            match r {
                Ok(s) => draw_doc(self@) == Some(s@),
                Err(_) => draw_doc(self@) is None,
            },
    {
        let ghost rv = self@;
        let mut ms = MiniSVG::new(PAGE_W, PAGE_H, ORIGIN_X, ORIGIN_Y);
        let mut i: usize = 0;
        proof {
            assert(rv.subrange(0, rv.len() as int) =~= rv);
            if draw_shapes(rv) is Some {
                assert(ms.shapes() + draw_shapes(rv)->Some_0 =~= draw_shapes(rv)->Some_0);
            }
        }
        while i < self.footprints.len()
            invariant
                i <= self.footprints.len(),
                ms.wf(),
                ms.origin() == (ORIGIN_X, ORIGIN_Y),
                ms.page() == (PAGE_W, PAGE_H),
                draw_shapes(rv) == shjoin(
                    ms.shapes(),
                    draw_shapes(rv.subrange(i as int, rv.len() as int)),
                ),
            decreases self.footprints.len() - i,
        {
            let ghost tail = rv.subrange(i as int, rv.len() as int);
            proof {
                assert(tail[0] == rv[i as int]);
                assert(tail.drop_first() =~= rv.subrange(i + 1, rv.len() as int));
            }
            let fp = &self.footprints[i];
            ms.set_stroke(Some((0xff0000, STROKE_W, F64_ONE)));
            ms.set_fill(Some((0xffff80, FILL_OP)));
            let ghost shapes0 = ms.shapes();
            ms.multi_polygon(&fp.outline);
            let anchor = match fp.max_coords() {
                Some(p) => p,
                None => (F64_NEG_INF, F64_NEG_INF),
            };
            let mt = fp.mean_time();
            let ts = match f64_time_hm(mt) {
                None => {
                    proof {
                        assert(draw_rec_shapes(rv[i as int]) is None);
                        assert(draw_shapes(tail) is None);
                    }
                    return Err(EncodingError::UnrepresentableTime);
                },
                Some(ts) => ts,
            };
            ms.set_fill(Some((0x000000, F64_ONE)));
            ms.text(anchor.0, anchor.1, TEXT_SIZE, ts.as_str());
            proof {
                let mts = multi_polygon_texts(
                    outline_stroke(),
                    outline_fill(),
                    rv[i as int].outline,
                    ORIGIN_X,
                    ORIGIN_Y,
                );
                let tx = text_elem_text(
                    0x000000u32,
                    F64_ONE,
                    label_anchor(rv[i as int]).0,
                    label_anchor(rv[i as int]).1,
                    TEXT_SIZE,
                    ts@,
                    ORIGIN_X,
                    ORIGIN_Y,
                );
                assert(anchor == label_anchor(rv[i as int]));
                assert(ms.shapes() =~= shapes0 + mts.push(tx));
                assert(draw_rec_shapes(rv[i as int]) == Some(mts.push(tx)));
                let cont = draw_shapes(rv.subrange(i + 1, rv.len() as int));
                if cont is Some {
                    assert(shapes0 + (mts.push(tx) + cont->Some_0) =~= ms.shapes()
                        + cont->Some_0);
                }
            }
            i = i + 1;
        }
        proof {
            assert(rv.subrange(rv.len() as int, rv.len() as int) =~= Seq::<RecView>::empty());
            assert(ms.shapes() + Seq::<Seq<char>>::empty() =~= ms.shapes());
        }
        let ghost shapes_final = ms.shapes();
        let out = ms.close();
        proof {
            assert(draw_shapes(rv) == Some(shapes_final));
            assert(out@ =~= preamble_text(PAGE_W, PAGE_H) + concat_texts(shapes_final)
                + "</svg>"@);
        }
        Ok(out)
    }
}

} // verus!
