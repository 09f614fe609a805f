//! The footprint geometry model.
//!
//! A footprint is one observation: orbit and identity metadata, a time
//! interval in epoch seconds, and an outline of polygons, each a
//! sequence of rings, each a sequence of (longitude, latitude)
//! vertices.  All times and coordinates are binary64 bit patterns
//! (see [`crate::fbits`]); rings may be empty and no closure point or
//! winding rule is assumed or enforced.

use vstd::prelude::*;

use crate::fbits::F64_POS_INF;
use crate::fbits::F64_NEG_INF;
use crate::fbits::f64_min;
use crate::fbits::f64_max;
use crate::fbits::f64_le;
use crate::fbits::f64_lt;
use crate::fbits::le_bits;
use crate::fbits::lt_bits;
use crate::fbits::min_spec;
use crate::fbits::max_spec;

verus! {

/// One footprint record.
pub struct Footprint {
    pub orbit: usize,
    pub id: String,
    pub platform: String,
    pub instrument: String,
    /// Start and end of the observation, epoch seconds as bit patterns.
    pub time_interval: (u64, u64),
    /// Polygons, of rings, of (longitude, latitude) bit-pattern pairs.
    pub outline: Vec<Vec<Vec<(u64, u64)>>>,
}

/// The mathematical content of one record.
pub ghost struct RecView {
    pub orbit: nat,
    pub id: Seq<char>,
    pub platform: Seq<char>,
    pub instrument: Seq<char>,
    pub t0: u64,
    pub t1: u64,
    pub outline: Seq<Seq<Seq<(u64, u64)>>>,
}

/// The rings of one polygon as sequences.
pub open spec fn poly_view(p: Vec<Vec<(u64, u64)>>) -> Seq<Seq<(u64, u64)>> {
    Seq::new(p@.len(), |i: int| p@[i]@)
}

/// A whole outline as nested sequences.
pub open spec fn outline_view(o: Vec<Vec<Vec<(u64, u64)>>>) -> Seq<Seq<Seq<(u64, u64)>>> {
    Seq::new(o@.len(), |i: int| poly_view(o@[i]))
}

impl View for Footprint {
    type V = RecView;

    open spec fn view(&self) -> RecView {
        RecView {
            orbit: self.orbit as nat,
            id: self.id@,
            platform: self.platform@,
            instrument: self.instrument@,
            t0: self.time_interval.0,
            t1: self.time_interval.1,
            outline: outline_view(self.outline),
        }
    }
}

/// An ordered collection of footprint records; insertion order is
/// significant and is preserved by every encoder and by the archive
/// round trip.
pub struct Footprints {
    pub footprints: Vec<Footprint>,
}

/// The records of a collection, as views, in order.
pub open spec fn recs_view(v: Vec<Footprint>) -> Seq<RecView> {
    Seq::new(v@.len(), |i: int| v@[i]@)
}

impl View for Footprints {
    type V = Seq<RecView>;

    open spec fn view(&self) -> Seq<RecView> {
        recs_view(self.footprints)
    }
}

/// Componentwise minimum of an accumulator and every vertex of a ring.
pub open spec fn min_fold_ring(acc: (u64, u64), r: Seq<(u64, u64)>) -> (u64, u64)
    decreases r.len(),
{
    if r.len() == 0 {
        acc
    } else {
        let p = min_fold_ring(acc, r.drop_last());
        (min_spec(p.0, r.last().0), min_spec(p.1, r.last().1))
    }
}

/// Componentwise minimum over every ring of a polygon.
pub open spec fn min_fold_poly(acc: (u64, u64), p: Seq<Seq<(u64, u64)>>) -> (u64, u64)
    decreases p.len(),
{
    if p.len() == 0 {
        acc
    } else {
        min_fold_ring(min_fold_poly(acc, p.drop_last()), p.last())
    }
}

/// Componentwise minimum over every vertex of an outline.
pub open spec fn min_fold_outline(acc: (u64, u64), o: Seq<Seq<Seq<(u64, u64)>>>) -> (u64, u64)
    decreases o.len(),
{
    if o.len() == 0 {
        acc
    } else {
        min_fold_poly(min_fold_outline(acc, o.drop_last()), o.last())
    }
}

/// Componentwise maximum of an accumulator and every vertex of a ring.
pub open spec fn max_fold_ring(acc: (u64, u64), r: Seq<(u64, u64)>) -> (u64, u64)
    decreases r.len(),
{
    if r.len() == 0 {
        acc
    } else {
        let p = max_fold_ring(acc, r.drop_last());
        (max_spec(p.0, r.last().0), max_spec(p.1, r.last().1))
    }
}

/// Componentwise maximum over every ring of a polygon.
pub open spec fn max_fold_poly(acc: (u64, u64), p: Seq<Seq<(u64, u64)>>) -> (u64, u64)
    decreases p.len(),
{
    if p.len() == 0 {
        acc
    } else {
        max_fold_ring(max_fold_poly(acc, p.drop_last()), p.last())
    }
}

/// Componentwise maximum over every vertex of an outline.
pub open spec fn max_fold_outline(acc: (u64, u64), o: Seq<Seq<Seq<(u64, u64)>>>) -> (u64, u64)
    decreases o.len(),
{
    if o.len() == 0 {
        acc
    } else {
        max_fold_poly(max_fold_outline(acc, o.drop_last()), o.last())
    }
}

/// Whether any ring of the polygon holds a vertex.
pub open spec fn poly_has_vertex(p: Seq<Seq<(u64, u64)>>) -> bool
    decreases p.len(),
{
    if p.len() == 0 {
        false
    } else {
        poly_has_vertex(p.drop_last()) || p.last().len() > 0
    }
}

/// Whether the outline holds any vertex at all.
pub open spec fn outline_has_vertex(o: Seq<Seq<Seq<(u64, u64)>>>) -> bool
    decreases o.len(),
{
    if o.len() == 0 {
        false
    } else {
        outline_has_vertex(o.drop_last()) || poly_has_vertex(o.last())
    }
}

impl Footprint {
    /// An empty record: orbit zero, empty strings, a zero time
    /// interval and no outline.
    pub fn new() -> (r: Self)
        ensures
            r@.orbit == 0,
            r@.id == Seq::<char>::empty(),
            r@.platform == Seq::<char>::empty(),
            r@.instrument == Seq::<char>::empty(),
            r@.t0 == 0u64 && r@.t1 == 0u64,
            r@.outline == Seq::<Seq<Seq<(u64, u64)>>>::empty(),
    {
        let r = Footprint {
            orbit: 0,
            id: String::new(),
            platform: String::new(),
            instrument: String::new(),
            time_interval: (0, 0),
            outline: Vec::new(),
        };
        proof {
            assert(r@.outline =~= Seq::<Seq<Seq<(u64, u64)>>>::empty());
        }
        r
    }

    /// The componentwise minimum longitude and latitude over every
    /// vertex of the outline, or `None` when the outline holds no
    /// vertex at all — the explicit "no geometry" signal, distinct
    /// from every real extent.
    pub fn min_coords(&self) -> (r: Option<(u64, u64)>)
        ensures
            r is Some <==> outline_has_vertex(self@.outline),
            r matches Some(p) ==> p == min_fold_outline(
                (F64_POS_INF, F64_POS_INF),
                self@.outline,
            ),
    {
        let ghost ov = outline_view(self.outline);
        let mut acc: (u64, u64) = (F64_POS_INF, F64_POS_INF);
        let mut any = false;
        let mut i: usize = 0;
        while i < self.outline.len()
            invariant
                i <= self.outline.len(),
                ov == outline_view(self.outline),
                acc == min_fold_outline((F64_POS_INF, F64_POS_INF), ov.subrange(0, i as int)),
                any == outline_has_vertex(ov.subrange(0, i as int)),
            decreases self.outline.len() - i,
        {
            let ghost acc_o = acc;
            let ghost any_o = any;
            let poly = &self.outline[i];
            let ghost pv = poly_view(*poly);
            let mut j: usize = 0;
            while j < poly.len()
                invariant
                    j <= poly.len(),
                    pv == poly_view(*poly),
                    acc == min_fold_poly(acc_o, pv.subrange(0, j as int)),
                    any == (any_o || poly_has_vertex(pv.subrange(0, j as int))),
                decreases poly.len() - j,
            {
                let ghost acc_p = acc;
                let ghost any_p = any;
                let ring = &poly[j];
                let mut k: usize = 0;
                while k < ring.len()
                    invariant
                        k <= ring.len(),
                        acc == min_fold_ring(acc_p, ring@.subrange(0, k as int)),
                        any == (any_p || k > 0),
                    decreases ring.len() - k,
                {
                    let v = ring[k];
                    acc = (f64_min(acc.0, v.0), f64_min(acc.1, v.1));
                    any = true;
                    proof {
                        assert(ring@.subrange(0, k + 1).drop_last() =~= ring@.subrange(
                            0,
                            k as int,
                        ));
                        assert(ring@.subrange(0, k + 1).last() == ring@[k as int]);
                    }
                    k = k + 1;
                }
                proof {
                    assert(ring@.subrange(0, ring@.len() as int) =~= ring@);
                    assert(pv.subrange(0, j + 1).drop_last() =~= pv.subrange(0, j as int));
                    assert(pv.subrange(0, j + 1).last() == pv[j as int]);
                    assert(pv[j as int] == ring@);
                }
                j = j + 1;
            }
            proof {
                assert(pv.subrange(0, pv.len() as int) =~= pv);
                assert(ov.subrange(0, i + 1).drop_last() =~= ov.subrange(0, i as int));
                assert(ov.subrange(0, i + 1).last() == ov[i as int]);
                assert(ov[i as int] == pv);
            }
            i = i + 1;
        }
        proof {
            assert(ov.subrange(0, ov.len() as int) =~= ov);
        }
        if any {
            Some(acc)
        } else {
            None
        }
    }

    /// The componentwise maximum longitude and latitude over every
    /// vertex of the outline, or `None` when the outline holds no
    /// vertex at all.
    pub fn max_coords(&self) -> (r: Option<(u64, u64)>)
        ensures
            r is Some <==> outline_has_vertex(self@.outline),
            r matches Some(p) ==> p == max_fold_outline(
                (F64_NEG_INF, F64_NEG_INF),
                self@.outline,
            ),
    {
        let ghost ov = outline_view(self.outline);
        let mut acc: (u64, u64) = (F64_NEG_INF, F64_NEG_INF);
        let mut any = false;
        let mut i: usize = 0;
        while i < self.outline.len()
            invariant
                i <= self.outline.len(),
                ov == outline_view(self.outline),
                acc == max_fold_outline((F64_NEG_INF, F64_NEG_INF), ov.subrange(0, i as int)),
                any == outline_has_vertex(ov.subrange(0, i as int)),
            decreases self.outline.len() - i,
        {
            let ghost acc_o = acc;
            let ghost any_o = any;
            let poly = &self.outline[i];
            let ghost pv = poly_view(*poly);
            let mut j: usize = 0;
            while j < poly.len()
                invariant
                    j <= poly.len(),
                    pv == poly_view(*poly),
                    acc == max_fold_poly(acc_o, pv.subrange(0, j as int)),
                    any == (any_o || poly_has_vertex(pv.subrange(0, j as int))),
                decreases poly.len() - j,
            {
                let ghost acc_p = acc;
                let ghost any_p = any;
                let ring = &poly[j];
                let mut k: usize = 0;
                while k < ring.len()
                    invariant
                        k <= ring.len(),
                        acc == max_fold_ring(acc_p, ring@.subrange(0, k as int)),
                        any == (any_p || k > 0),
                    decreases ring.len() - k,
                {
                    let v = ring[k];
                    acc = (f64_max(acc.0, v.0), f64_max(acc.1, v.1));
                    any = true;
                    proof {
                        assert(ring@.subrange(0, k + 1).drop_last() =~= ring@.subrange(
                            0,
                            k as int,
                        ));
                        assert(ring@.subrange(0, k + 1).last() == ring@[k as int]);
                    }
                    k = k + 1;
                }
                proof {
                    assert(ring@.subrange(0, ring@.len() as int) =~= ring@);
                    assert(pv.subrange(0, j + 1).drop_last() =~= pv.subrange(0, j as int));
                    assert(pv.subrange(0, j + 1).last() == pv[j as int]);
                    assert(pv[j as int] == ring@);
                }
                j = j + 1;
            }
            proof {
                assert(pv.subrange(0, pv.len() as int) =~= pv);
                assert(ov.subrange(0, i + 1).drop_last() =~= ov.subrange(0, i as int));
                assert(ov.subrange(0, i + 1).last() == ov[i as int]);
                assert(ov[i as int] == pv);
            }
            i = i + 1;
        }
        proof {
            assert(ov.subrange(0, ov.len() as int) =~= ov);
        }
        if any {
            Some(acc)
        } else {
            None
        }
    }

    /// An exact structural copy of the record.
    pub fn duplicate(&self) -> (r: Self)
        ensures
            r@ == self@,
    {
        let r = Footprint {
            orbit: self.orbit,
            id: self.id.clone(),
            platform: self.platform.clone(),
            instrument: self.instrument.clone(),
            time_interval: (self.time_interval.0, self.time_interval.1),
            outline: copy_outline(&self.outline),
        };
        proof {
            assert(outline_view(r.outline) =~= outline_view(self.outline));
        }
        r
    }
}

/// An exact copy of one ring.
fn copy_ring(r: &Vec<(u64, u64)>) -> (c: Vec<(u64, u64)>)
    ensures
        c@ == r@,
{
    let mut c: Vec<(u64, u64)> = Vec::new();
    let mut i: usize = 0;
    while i < r.len()
        invariant
            i <= r.len(),
            c@ =~= r@.subrange(0, i as int),
        decreases r.len() - i,
    {
        c.push(r[i]);
        i = i + 1;
    }
    proof {
        assert(c@ =~= r@);
    }
    c
}

/// An exact copy of one polygon.
fn copy_poly(p: &Vec<Vec<(u64, u64)>>) -> (c: Vec<Vec<(u64, u64)>>)
    ensures
        poly_view(c) == poly_view(*p),
        c@.len() == p@.len(),
{
    let mut c: Vec<Vec<(u64, u64)>> = Vec::new();
    let mut i: usize = 0;
    while i < p.len()
        invariant
            i <= p.len(),
            c@.len() == i,
            forall|x: int| 0 <= x < i ==> c@[x]@ == p@[x]@,
        decreases p.len() - i,
    {
        c.push(copy_ring(&p[i]));
        i = i + 1;
    }
    proof {
        assert(poly_view(c) =~= poly_view(*p));
    }
    c
}

/// An exact copy of an outline.
fn copy_outline(o: &Vec<Vec<Vec<(u64, u64)>>>) -> (c: Vec<Vec<Vec<(u64, u64)>>>)
    ensures
        outline_view(c) == outline_view(*o),
{
    let mut c: Vec<Vec<Vec<(u64, u64)>>> = Vec::new();
    let mut i: usize = 0;
    while i < o.len()
        invariant
            i <= o.len(),
            c@.len() == i,
            forall|x: int| 0 <= x < i ==> poly_view(c@[x]) == poly_view(o@[x]),
        decreases o.len() - i,
    {
        c.push(copy_poly(&o[i]));
        i = i + 1;
    }
    proof {
        assert(outline_view(c) =~= outline_view(*o));
    }
    c
}

/// Whether a record's interval lies in the half-open window: the
/// window start is at or before the interval start, and the interval
/// end is strictly before the window end.  A NaN endpoint fails both
/// comparisons and the record is dropped.
pub open spec fn window_keep(r: RecView, t_min: u64, t_max: u64) -> bool {
    le_bits(t_min, r.t0) && lt_bits(r.t1, t_max)
}

/// The records that survive windowing and decimation, in order.  The
/// survivor counter `n` starts at zero at the first surviving record;
/// a survivor is kept exactly when its zero-based survivor index is a
/// multiple of the stride.
pub open spec fn filter_decimate_spec(
    rs: Seq<RecView>,
    t_min: u64,
    t_max: u64,
    stride: nat,
    n: nat,
) -> Seq<RecView>
    decreases rs.len(),
{
    if rs.len() == 0 {
        Seq::<RecView>::empty()
    } else if window_keep(rs[0], t_min, t_max) {
        let rest = filter_decimate_spec(rs.drop_first(), t_min, t_max, stride, n + 1);
        if n % stride == 0 {
            seq![rs[0]] + rest
        } else {
            rest
        }
    } else {
        filter_decimate_spec(rs.drop_first(), t_min, t_max, stride, n)
    }
}

/// Applies the ingestion window and decimation stride to a collection:
/// keeps the records whose interval lies in `[t_min, t_max)` as
/// [`window_keep`] states, and of those survivors every `stride`-th
/// one, counting from zero at the first survivor.
pub fn filter_decimate(
    records: &Vec<Footprint>,
    t_min: u64,
    t_max: u64,
    stride: usize,
) -> (r: Vec<Footprint>)
    requires
        stride >= 1,
    ensures
        recs_view(r) == filter_decimate_spec(recs_view(*records), t_min, t_max, stride as nat, 0),
{
    let ghost rv = recs_view(*records);
    let mut out: Vec<Footprint> = Vec::new();
    let mut n: usize = 0;
    let mut i: usize = 0;
    proof {
        assert(rv.subrange(0, rv.len() as int) =~= rv);
        assert(recs_view(out) + filter_decimate_spec(rv, t_min, t_max, stride as nat, 0)
            =~= filter_decimate_spec(rv, t_min, t_max, stride as nat, 0));
    }
    while i < records.len()
        invariant
            i <= records.len(),
            stride >= 1,
            n <= i,
            rv == recs_view(*records),
            filter_decimate_spec(rv, t_min, t_max, stride as nat, 0) == recs_view(out)
                + filter_decimate_spec(
                rv.subrange(i as int, rv.len() as int),
                t_min,
                t_max,
                stride as nat,
                n as nat,
            ),
        decreases records.len() - i,
    {
        let ghost tail = rv.subrange(i as int, rv.len() as int);
        let rec = &records[i];
        proof {
            assert(tail.len() > 0);
            assert(tail[0] == rv[i as int]);
            assert(tail.drop_first() =~= rv.subrange(i + 1, rv.len() as int));
        }
        let keep_window = f64_le(t_min, rec.time_interval.0) && f64_lt(
            rec.time_interval.1,
            t_max,
        );
        if keep_window {
            if n % stride == 0 {
                let ghost out0 = recs_view(out);
                out.push(rec.duplicate());
                proof {
                    assert(recs_view(out) =~= out0 + seq![rv[i as int]]);
                }
            }
            n = n + 1;
        }
        i = i + 1;
    }
    proof {
        assert(rv.subrange(rv.len() as int, rv.len() as int) =~= Seq::<RecView>::empty());
    }
    out
}

} // verus!
