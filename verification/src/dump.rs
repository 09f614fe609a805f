//! The text dump encoder.
//!
//! A fully itemized, hierarchical plain-text listing of a collection:
//! one block per record with its index and identifier, nested blocks
//! per polygon and ring, and a fixed-width table of every vertex's
//! indices and coordinates, signed, at three decimal places.  A
//! debugging aid with no round-trip or stability promise; writing the
//! text to a sink is the caller's step.

use vstd::prelude::*;
use vstd::string::StringExecFns;

use crate::numfmt::dec_of;
use crate::numfmt::fixed3_of;
use crate::numfmt::pad_left_of;
use crate::numfmt::pad_left;
use crate::numfmt::usize_dec;
use crate::numfmt::f64_fixed3;
use crate::record::Footprint;
use crate::record::Footprints;
use crate::record::RecView;
use crate::record::recs_view;
use crate::record::outline_view;
use crate::record::poly_view;

verus! {

/// One row of the vertex table.
pub open spec fn dump_vert_line(ip: nat, ir: nat, iv: nat, v: (u64, u64)) -> Seq<char> {
    "        "@ + pad_left_of(dec_of(ip), 4) + " "@ + pad_left_of(dec_of(ir), 4) + " "@
        + pad_left_of(dec_of(iv), 4) + " "@ + pad_left_of(fixed3_of(v.0), 10) + " "@
        + pad_left_of(fixed3_of(v.1), 10) + "\n"@
}

/// The vertex rows of one ring, in order.
pub open spec fn dump_verts(ip: nat, ir: nat, r: Seq<(u64, u64)>) -> Seq<char>
    decreases r.len(),
{
    if r.len() == 0 {
        Seq::<char>::empty()
    } else {
        dump_verts(ip, ir, r.drop_last()) + dump_vert_line(ip, ir, (r.len() - 1) as nat, r.last())
    }
}

/// One ring's block: its heading, vertex count, table header, vertex
/// rows and closing line.
pub open spec fn dump_ring_text(ip: nat, ir: nat, r: Seq<(u64, u64)>) -> Seq<char> {
    "    Ring "@ + dec_of(ir) + " of polygon "@ + dec_of(ip) + "\n"@
        + "      Number of vertices: "@ + dec_of(r.len()) + "\n"@
        + "        Poly Ring Vert Lon        Lat       \n"@ + dump_verts(ip, ir, r) + "    End of ring "@ + dec_of(ir)
        + " of polygon "@ + dec_of(ip) + "\n"@
}

/// The ring blocks of one polygon, in order.
pub open spec fn dump_rings(ip: nat, p: Seq<Seq<(u64, u64)>>) -> Seq<char>
    decreases p.len(),
{
    if p.len() == 0 {
        Seq::<char>::empty()
    } else {
        dump_rings(ip, p.drop_last()) + dump_ring_text(ip, (p.len() - 1) as nat, p.last())
    }
}

/// One polygon's block.
pub open spec fn dump_poly_text(ip: nat, p: Seq<Seq<(u64, u64)>>) -> Seq<char> {
    "  Polygon "@ + dec_of(ip) + "\n"@ + "    Number of rings: "@ + dec_of(p.len()) + "\n"@
        + dump_rings(ip, p) + "  End of polygon "@ + dec_of(ip) + "\n"@
}

/// The polygon blocks of one outline, in order.
pub open spec fn dump_polys(o: Seq<Seq<Seq<(u64, u64)>>>) -> Seq<char>
    decreases o.len(),
{
    if o.len() == 0 {
        Seq::<char>::empty()
    } else {
        dump_polys(o.drop_last()) + dump_poly_text((o.len() - 1) as nat, o.last())
    }
}

/// One record's block.
pub open spec fn dump_record_text(i: nat, r: RecView) -> Seq<char> {
    "Footprint "@ + dec_of(i) + "\n"@ + "  ID "@ + r.id + "\n"@ + "  Number of polygons: "@
        + dec_of(r.outline.len()) + "\n"@ + dump_polys(r.outline) + "End of footprint "@
        + dec_of(i) + "\n"@
}

/// The record blocks of a collection, in order.
pub open spec fn dump_records(rs: Seq<RecView>) -> Seq<char>
    decreases rs.len(),
{
    if rs.len() == 0 {
        Seq::<char>::empty()
    } else {
        dump_records(rs.drop_last()) + dump_record_text((rs.len() - 1) as nat, rs.last())
    }
}

/// The whole dump of a collection.
pub open spec fn dump_text(rs: Seq<RecView>) -> Seq<char> {
    dump_records(rs)
}

/// Appends one vertex row.
fn put_vert_line(out: &mut String, ip: usize, ir: usize, iv: usize, v: (u64, u64))
    ensures
        final(out)@ == old(out)@ + dump_vert_line(ip as nat, ir as nat, iv as nat, v),
{
    out.append("        ");
    let t = pad_left(usize_dec(ip), 4);
    out.append(t.as_str());
    out.append(" ");
    let t = pad_left(usize_dec(ir), 4);
    out.append(t.as_str());
    out.append(" ");
    let t = pad_left(usize_dec(iv), 4);
    out.append(t.as_str());
    out.append(" ");
    let t = pad_left(f64_fixed3(v.0), 10);
    out.append(t.as_str());
    out.append(" ");
    let t = pad_left(f64_fixed3(v.1), 10);
    out.append(t.as_str());
    out.append("\n");
    proof {
        assert(out@ =~= old(out)@ + dump_vert_line(ip as nat, ir as nat, iv as nat, v));
    }
}

/// Appends one ring's block.
#[verifier::loop_isolation(false)]
#[verifier::rlimit(100)]
fn put_ring_block(out: &mut String, ip: usize, ir: usize, ring: &Vec<(u64, u64)>)
    ensures
        final(out)@ == old(out)@ + dump_ring_text(ip as nat, ir as nat, ring@),
{
    out.append("    Ring ");
    let t = usize_dec(ir);
    out.append(t.as_str());
    out.append(" of polygon ");
    let t = usize_dec(ip);
    out.append(t.as_str());
    out.append("\n");
    out.append("      Number of vertices: ");
    let t = usize_dec(ring.len());
    out.append(t.as_str());
    out.append("\n");
    out.append("        Poly Ring Vert Lon        Lat       \n");
    let ghost base_v = out@;
    let mut iv: usize = 0;
    proof {
        assert(dump_verts(ip as nat, ir as nat, ring@.subrange(0, 0)) =~= Seq::<char>::empty());
        assert(out@ =~= base_v + dump_verts(ip as nat, ir as nat, ring@.subrange(0, 0)));
    }
    while iv < ring.len()
        invariant
            iv <= ring.len(),
            out@ == base_v + dump_verts(ip as nat, ir as nat, ring@.subrange(0, iv as int)),
        decreases ring.len() - iv,
    {
        put_vert_line(out, ip, ir, iv, ring[iv]);
        proof {
            let sub1 = ring@.subrange(0, iv + 1);
            assert(sub1.drop_last() =~= ring@.subrange(0, iv as int));
            assert(sub1.last() == ring@[iv as int]);
            assert(out@ =~= base_v + dump_verts(ip as nat, ir as nat, sub1));
        }
        iv = iv + 1;
    }
    out.append("    End of ring ");
    let t = usize_dec(ir);
    out.append(t.as_str());
    out.append(" of polygon ");
    let t = usize_dec(ip);
    out.append(t.as_str());
    out.append("\n");
    proof {
        assert(ring@.subrange(0, ring@.len() as int) =~= ring@);
        assert(out@ =~= old(out)@ + dump_ring_text(ip as nat, ir as nat, ring@));
    }
}

/// Appends one polygon's block.
#[verifier::loop_isolation(false)]
#[verifier::rlimit(100)]
fn put_poly_block(out: &mut String, ip: usize, poly: &Vec<Vec<(u64, u64)>>)
    ensures
        final(out)@ == old(out)@ + dump_poly_text(ip as nat, poly_view(*poly)),
{
    let ghost pv = poly_view(*poly);
    out.append("  Polygon ");
    let t = usize_dec(ip);
    out.append(t.as_str());
    out.append("\n");
    out.append("    Number of rings: ");
    let t = usize_dec(poly.len());
    out.append(t.as_str());
    out.append("\n");
    let ghost base_r = out@;
    let mut ir: usize = 0;
    proof {
        assert(dump_rings(ip as nat, pv.subrange(0, 0)) =~= Seq::<char>::empty());
        assert(out@ =~= base_r + dump_rings(ip as nat, pv.subrange(0, 0)));
    }
    while ir < poly.len()
        invariant
            ir <= poly.len(),
            out@ == base_r + dump_rings(ip as nat, pv.subrange(0, ir as int)),
        decreases poly.len() - ir,
    {
        put_ring_block(out, ip, ir, &poly[ir]);
        proof {
            let sub1 = pv.subrange(0, ir + 1);
            assert(sub1.drop_last() =~= pv.subrange(0, ir as int));
            assert(sub1.last() == pv[ir as int]);
            assert(pv[ir as int] == poly@[ir as int]@);
            assert(out@ =~= base_r + dump_rings(ip as nat, sub1));
        }
        ir = ir + 1;
    }
    out.append("  End of polygon ");
    let t = usize_dec(ip);
    out.append(t.as_str());
    out.append("\n");
    proof {
        assert(pv.subrange(0, pv.len() as int) =~= pv);
        assert(out@ =~= old(out)@ + dump_poly_text(ip as nat, pv));
    }
}

/// Appends one record's block.
#[verifier::loop_isolation(false)]
#[verifier::rlimit(100)]
fn put_record_block(out: &mut String, i: usize, fp: &Footprint)
    ensures
        final(out)@ == old(out)@ + dump_record_text(i as nat, fp@),
{
    let ghost ov = outline_view(fp.outline);
    out.append("Footprint ");
    let t = usize_dec(i);
    out.append(t.as_str());
    out.append("\n");
    out.append("  ID ");
    out.append(fp.id.as_str());
    out.append("\n");
    out.append("  Number of polygons: ");
    let t = usize_dec(fp.outline.len());
    out.append(t.as_str());
    out.append("\n");
    let ghost base_o = out@;
    let mut ip: usize = 0;
    proof {
        assert(dump_polys(ov.subrange(0, 0)) =~= Seq::<char>::empty());
        assert(out@ =~= base_o + dump_polys(ov.subrange(0, 0)));
    }
    while ip < fp.outline.len()
        invariant
            ip <= fp.outline.len(),
            out@ == base_o + dump_polys(ov.subrange(0, ip as int)),
        decreases fp.outline.len() - ip,
    {
        put_poly_block(out, ip, &fp.outline[ip]);
        proof {
            let sub1 = ov.subrange(0, ip + 1);
            assert(sub1.drop_last() =~= ov.subrange(0, ip as int));
            assert(sub1.last() == ov[ip as int]);
            assert(ov[ip as int] == poly_view(fp.outline@[ip as int]));
            assert(out@ =~= base_o + dump_polys(sub1));
        }
        ip = ip + 1;
    }
    out.append("End of footprint ");
    let t = usize_dec(i);
    out.append(t.as_str());
    out.append("\n");
    proof {
        assert(ov.subrange(0, ov.len() as int) =~= ov);
        assert(out@ =~= old(out)@ + dump_record_text(i as nat, fp@));
    }
}

/// Renders the dump of a record list exactly as [`dump_text`] states.
#[verifier::loop_isolation(false)]
pub fn dump_to_string(footprints: &Vec<Footprint>) -> (r: String)
    ensures
        r@ == dump_text(recs_view(*footprints)),
{
    let ghost rv = recs_view(*footprints);
    let mut out = String::new();
    let mut i: usize = 0;
    proof {
        assert(out@ =~= dump_records(rv.subrange(0, 0)));
    }
    while i < footprints.len()
        invariant
            i <= footprints.len(),
            out@ == dump_records(rv.subrange(0, i as int)),
        decreases footprints.len() - i,
    {
        put_record_block(&mut out, i, &footprints[i]);
        proof {
            let sub1 = rv.subrange(0, i + 1);
            assert(sub1.drop_last() =~= rv.subrange(0, i as int));
            assert(sub1.last() == rv[i as int]);
            assert(out@ =~= dump_records(sub1));
        }
        i = i + 1;
    }
    proof {
        assert(rv.subrange(0, rv.len() as int) =~= rv);
    }
    out
}

impl Footprints {
    /// The dump of this collection's records.
    pub fn dump_string(&self) -> (r: String)
        ensures
            r@ == dump_text(self@),
    {
        dump_to_string(&self.footprints)
    }
}

} // verus!
