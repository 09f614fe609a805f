//! The binary archive codec.
//!
//! A collection is persisted as a self-describing, length-prefixed
//! binary stream: a four-byte tag, a record count, and each record's
//! fields in order, every integer little-endian and every length
//! explicit.  Times and coordinates are stored as their binary64 bit
//! patterns, so the round trip preserves them bit for bit; the
//! round-trip law is [`lemma_archive_round_trip`].

use vstd::bytes::*;
use vstd::prelude::*;
use vstd::slice::slice_index_get;
use vstd::slice::slice_subrange;
use vstd::slice::slice_to_vec;
use vstd::utf8::encode_utf8;
use vstd::utf8::decode_utf8;
use vstd::utf8::valid_utf8;
use vstd::utf8::encode_utf8_valid_utf8;
use vstd::utf8::encode_utf8_decode_utf8;

use crate::record::Footprint;
use crate::record::Footprints;
use crate::record::RecView;
use crate::record::outline_view;
use crate::record::poly_view;
use crate::record::recs_view;

verus! {

/// Why a byte stream was rejected.
#[derive(Debug)]
pub enum DecodeError {
    /// The stream does not begin with the archive tag.
    BadMagic,
    /// The stream ends before a field it promises.
    Truncated,
    /// A string field is not valid UTF-8.
    BadUtf8,
    /// An orbit number does not fit the platform's word.
    OrbitTooLarge,
    /// Well-formed data is followed by extra bytes.
    TrailingBytes,
}

/// The four tag bytes that open every archive.
pub open spec fn magic() -> Seq<u8> {
    seq![0x46u8, 0x50u8, 0x41u8, 0x31u8]
}

/// One little-endian 64-bit integer.
pub open spec fn enc_u64(x: u64) -> Seq<u8> {
    spec_u64_to_le_bytes(x)
}

/// A string: its UTF-8 byte length, then its UTF-8 bytes.
pub open spec fn enc_str(s: Seq<char>) -> Seq<u8> {
    enc_u64(encode_utf8(s).len() as u64) + encode_utf8(s)
}

/// One vertex: longitude then latitude bit patterns.
pub open spec fn enc_vert(v: (u64, u64)) -> Seq<u8> {
    enc_u64(v.0) + enc_u64(v.1)
}

/// The vertices of a ring, in order.
pub open spec fn enc_verts(r: Seq<(u64, u64)>) -> Seq<u8>
    decreases r.len(),
{
    if r.len() == 0 {
        Seq::<u8>::empty()
    } else {
        enc_verts(r.drop_last()) + enc_vert(r.last())
    }
}

/// A ring: its vertex count, then its vertices.
pub open spec fn enc_ring(r: Seq<(u64, u64)>) -> Seq<u8> {
    enc_u64(r.len() as u64) + enc_verts(r)
}

/// The rings of a polygon, in order.
pub open spec fn enc_rings(p: Seq<Seq<(u64, u64)>>) -> Seq<u8>
    decreases p.len(),
{
    if p.len() == 0 {
        Seq::<u8>::empty()
    } else {
        enc_rings(p.drop_last()) + enc_ring(p.last())
    }
}

/// A polygon: its ring count, then its rings.
pub open spec fn enc_poly(p: Seq<Seq<(u64, u64)>>) -> Seq<u8> {
    enc_u64(p.len() as u64) + enc_rings(p)
}

/// The polygons of an outline, in order.
pub open spec fn enc_polys(o: Seq<Seq<Seq<(u64, u64)>>>) -> Seq<u8>
    decreases o.len(),
{
    if o.len() == 0 {
        Seq::<u8>::empty()
    } else {
        enc_polys(o.drop_last()) + enc_poly(o.last())
    }
}

/// An outline: its polygon count, then its polygons.
pub open spec fn enc_outline(o: Seq<Seq<Seq<(u64, u64)>>>) -> Seq<u8> {
    enc_u64(o.len() as u64) + enc_polys(o)
}

/// One record, all fields in order.
pub open spec fn enc_record(r: RecView) -> Seq<u8> {
    enc_u64(r.orbit as u64) + enc_str(r.id) + enc_str(r.platform) + enc_str(r.instrument)
        + enc_u64(r.t0) + enc_u64(r.t1) + enc_outline(r.outline)
}

/// The records of a collection, in order.
pub open spec fn enc_records(rs: Seq<RecView>) -> Seq<u8>
    decreases rs.len(),
{
    if rs.len() == 0 {
        Seq::<u8>::empty()
    } else {
        enc_records(rs.drop_last()) + enc_record(rs.last())
    }
}

/// A whole archive: tag, record count, records.
pub open spec fn enc_coll(rs: Seq<RecView>) -> Seq<u8> {
    magic() + enc_u64(rs.len() as u64) + enc_records(rs)
}

/// Reads a little-endian 64-bit integer at `pos`.
pub open spec fn parse_u64(b: Seq<u8>, pos: int) -> Option<(u64, int)> {
    if 0 <= pos && pos + 8 <= b.len() {
        Some((spec_u64_from_le_bytes(b.subrange(pos, pos + 8)), pos + 8))
    } else {
        None
    }
}

/// Reads a length-prefixed UTF-8 string at `pos`.
pub open spec fn parse_str(b: Seq<u8>, pos: int) -> Option<(Seq<char>, int)> {
    match parse_u64(b, pos) {
        None => None,
        Some((n, p)) => if p + n <= b.len() && valid_utf8(b.subrange(p, p + n)) {
            Some((decode_utf8(b.subrange(p, p + n)), p + n))
        } else {
            None
        },
    }
}

/// Reads one vertex at `pos`.
pub open spec fn parse_vert(b: Seq<u8>, pos: int) -> Option<((u64, u64), int)> {
    match parse_u64(b, pos) {
        None => None,
        Some((x, p)) => match parse_u64(b, p) {
            None => None,
            Some((y, q)) => Some(((x, y), q)),
        },
    }
}

/// Reads `n` vertices at `pos`.
pub open spec fn parse_verts(b: Seq<u8>, pos: int, n: nat) -> Option<(Seq<(u64, u64)>, int)>
    decreases n,
{
    if n == 0 {
        Some((Seq::<(u64, u64)>::empty(), pos))
    } else {
        match parse_vert(b, pos) {
            None => None,
            Some((v, p)) => match parse_verts(b, p, (n - 1) as nat) {
                None => None,
                Some((rest, q)) => Some((seq![v] + rest, q)),
            },
        }
    }
}

/// Reads one ring at `pos`.
pub open spec fn parse_ring(b: Seq<u8>, pos: int) -> Option<(Seq<(u64, u64)>, int)> {
    match parse_u64(b, pos) {
        None => None,
        Some((n, p)) => parse_verts(b, p, n as nat),
    }
}

/// Reads `n` rings at `pos`.
pub open spec fn parse_rings(b: Seq<u8>, pos: int, n: nat) -> Option<(Seq<Seq<(u64, u64)>>, int)>
    decreases n,
{
    if n == 0 {
        Some((Seq::<Seq<(u64, u64)>>::empty(), pos))
    } else {
        match parse_ring(b, pos) {
            None => None,
            Some((r, p)) => match parse_rings(b, p, (n - 1) as nat) {
                None => None,
                Some((rest, q)) => Some((seq![r] + rest, q)),
            },
        }
    }
}

/// Reads one polygon at `pos`.
pub open spec fn parse_poly(b: Seq<u8>, pos: int) -> Option<(Seq<Seq<(u64, u64)>>, int)> {
    match parse_u64(b, pos) {
        None => None,
        Some((n, p)) => parse_rings(b, p, n as nat),
    }
}

/// Reads `n` polygons at `pos`.
pub open spec fn parse_polys(b: Seq<u8>, pos: int, n: nat) -> Option<
    (Seq<Seq<Seq<(u64, u64)>>>, int),
>
    decreases n,
{
    if n == 0 {
        Some((Seq::<Seq<Seq<(u64, u64)>>>::empty(), pos))
    } else {
        match parse_poly(b, pos) {
            None => None,
            Some((p0, p)) => match parse_polys(b, p, (n - 1) as nat) {
                None => None,
                Some((rest, q)) => Some((seq![p0] + rest, q)),
            },
        }
    }
}

/// Reads one outline at `pos`.
pub open spec fn parse_outline(b: Seq<u8>, pos: int) -> Option<(Seq<Seq<Seq<(u64, u64)>>>, int)> {
    match parse_u64(b, pos) {
        None => None,
        Some((n, p)) => parse_polys(b, p, n as nat),
    }
}

/// Reads one record at `pos`.  An orbit number above the platform's
/// word is rejected, as the in-memory record could not hold it.
pub open spec fn parse_record(b: Seq<u8>, pos: int) -> Option<(RecView, int)> {
    match parse_u64(b, pos) {
        None => None,
        Some((orbit, p1)) => if orbit <= usize::MAX as u64 {
            match parse_str(b, p1) {
                None => None,
                Some((id, p2)) => match parse_str(b, p2) {
                    None => None,
                    Some((platform, p3)) => match parse_str(b, p3) {
                        None => None,
                        Some((instrument, p4)) => match parse_u64(b, p4) {
                            None => None,
                            Some((t0, p5)) => match parse_u64(b, p5) {
                                None => None,
                                Some((t1, p6)) => match parse_outline(b, p6) {
                                    None => None,
                                    Some((outline, p7)) => Some(
                                        (
                                            RecView {
                                                orbit: orbit as nat,
                                                id,
                                                platform,
                                                instrument,
                                                t0,
                                                t1,
                                                outline,
                                            },
                                            p7,
                                        ),
                                    ),
                                },
                            },
                        },
                    },
                },
            }
        } else {
            None
        },
    }
}

/// Reads `n` records at `pos`.
pub open spec fn parse_records(b: Seq<u8>, pos: int, n: nat) -> Option<(Seq<RecView>, int)>
    decreases n,
{
    if n == 0 {
        Some((Seq::<RecView>::empty(), pos))
    } else {
        match parse_record(b, pos) {
            None => None,
            Some((r, p)) => match parse_records(b, p, (n - 1) as nat) {
                None => None,
                Some((rest, q)) => Some((seq![r] + rest, q)),
            },
        }
    }
}

/// The collection a byte stream encodes, or `None` when the stream is
/// not exactly one well-formed archive.
pub open spec fn dec_coll(b: Seq<u8>) -> Option<Seq<RecView>> {
    if b.len() >= 4 && b.subrange(0, 4) == magic() {
        match parse_u64(b, 4) {
            None => None,
            Some((n, p)) => match parse_records(b, p, n as nat) {
                None => None,
                Some((rs, end)) => if end == b.len() {
                    Some(rs)
                } else {
                    None
                },
            },
        }
    } else {
        None
    }
}

/// A record the archive can hold: every count fits the platform's
/// word, as it does for every record that exists in memory.
pub open spec fn rec_wf(r: RecView) -> bool {
    &&& r.orbit <= usize::MAX as nat
    &&& encode_utf8(r.id).len() <= usize::MAX
    &&& encode_utf8(r.platform).len() <= usize::MAX
    &&& encode_utf8(r.instrument).len() <= usize::MAX
    &&& r.outline.len() <= usize::MAX
    &&& forall|i: int|
        0 <= i < r.outline.len() ==> (#[trigger] r.outline[i]).len() <= usize::MAX
    &&& forall|i: int, j: int|
        0 <= i < r.outline.len() && 0 <= j < r.outline[i].len() ==> (
        #[trigger] r.outline[i][j]).len() <= usize::MAX
}

/// A collection the archive can hold.
pub open spec fn coll_wf(rs: Seq<RecView>) -> bool {
    &&& rs.len() <= usize::MAX
    &&& forall|i: int| 0 <= i < rs.len() ==> rec_wf(#[trigger] rs[i])
}

/// Appends one little-endian 64-bit integer.
fn put_u64(out: &mut Vec<u8>, x: u64)
    ensures
        final(out)@ == old(out)@ + enc_u64(x),
{
    let mut t = u64_to_le_bytes(x);
    out.append(&mut t);
}

/// Appends one length-prefixed string.
fn put_str(out: &mut Vec<u8>, s: &String)
    ensures
        final(out)@ == old(out)@ + enc_str(s@),
        encode_utf8(s@).len() <= usize::MAX,
{
    let bs = s.as_str().as_bytes();
    put_u64(out, bs.len() as u64);
    out.extend_from_slice(bs);
    proof {
        assert(out@ =~= old(out)@ + enc_str(s@));
    }
}

/// Appends one ring.
fn put_ring(out: &mut Vec<u8>, r: &Vec<(u64, u64)>)
    ensures
        final(out)@ == old(out)@ + enc_ring(r@),
        r@.len() <= usize::MAX,
{
    put_u64(out, r.len() as u64);
    let ghost base = out@;
    let mut i: usize = 0;
    while i < r.len()
        invariant
            i <= r.len(),
            out@ == base + enc_verts(r@.subrange(0, i as int)),
        decreases r.len() - i,
    {
        let v = r[i];
        put_u64(out, v.0);
        put_u64(out, v.1);
        proof {
            assert(r@.subrange(0, i + 1).drop_last() =~= r@.subrange(0, i as int));
            assert(r@.subrange(0, i + 1).last() == r@[i as int]);
            assert(out@ =~= base + enc_verts(r@.subrange(0, i + 1)));
        }
        i = i + 1;
    }
    proof {
        assert(r@.subrange(0, r@.len() as int) =~= r@);
        assert(out@ =~= old(out)@ + enc_ring(r@));
    }
}

/// Appends one polygon.
fn put_poly(out: &mut Vec<u8>, p: &Vec<Vec<(u64, u64)>>)
    ensures
        final(out)@ == old(out)@ + enc_poly(poly_view(*p)),
        poly_view(*p).len() <= usize::MAX,
        forall|x: int| 0 <= x < poly_view(*p).len() ==> (#[trigger] poly_view(*p)[x]).len()
            <= usize::MAX,
{
    put_u64(out, p.len() as u64);
    let ghost pv = poly_view(*p);
    let ghost base = out@;
    let mut i: usize = 0;
    while i < p.len()
        invariant
            i <= p.len(),
            pv == poly_view(*p),
            out@ == base + enc_rings(pv.subrange(0, i as int)),
            forall|x: int| 0 <= x < i ==> (#[trigger] pv[x]).len() <= usize::MAX,
        decreases p.len() - i,
    {
        put_ring(out, &p[i]);
        proof {
            assert(pv.subrange(0, i + 1).drop_last() =~= pv.subrange(0, i as int));
            assert(pv.subrange(0, i + 1).last() == pv[i as int]);
            assert(out@ =~= base + enc_rings(pv.subrange(0, i + 1)));
        }
        i = i + 1;
    }
    proof {
        assert(pv.subrange(0, pv.len() as int) =~= pv);
        assert(out@ =~= old(out)@ + enc_poly(pv));
    }
}

/// Appends one outline.
fn put_outline(out: &mut Vec<u8>, o: &Vec<Vec<Vec<(u64, u64)>>>)
    ensures
        final(out)@ == old(out)@ + enc_outline(outline_view(*o)),
        outline_view(*o).len() <= usize::MAX,
        forall|x: int| 0 <= x < outline_view(*o).len() ==> (#[trigger] outline_view(*o)[x]).len()
            <= usize::MAX,
        forall|x: int, y: int|
            0 <= x < outline_view(*o).len() && 0 <= y < outline_view(*o)[x].len() ==> (
            #[trigger] outline_view(*o)[x][y]).len() <= usize::MAX,
{
    put_u64(out, o.len() as u64);
    let ghost ov = outline_view(*o);
    let ghost base = out@;
    let mut i: usize = 0;
    while i < o.len()
        invariant
            i <= o.len(),
            ov == outline_view(*o),
            out@ == base + enc_polys(ov.subrange(0, i as int)),
            forall|x: int| 0 <= x < i ==> (#[trigger] ov[x]).len() <= usize::MAX,
            forall|x: int, y: int|
                0 <= x < i && 0 <= y < ov[x].len() ==> (#[trigger] ov[x][y]).len() <= usize::MAX,
        decreases o.len() - i,
    {
        put_poly(out, &o[i]);
        proof {
            assert(ov.subrange(0, i + 1).drop_last() =~= ov.subrange(0, i as int));
            assert(ov.subrange(0, i + 1).last() == ov[i as int]);
            assert(out@ =~= base + enc_polys(ov.subrange(0, i + 1)));
        }
        i = i + 1;
    }
    proof {
        assert(ov.subrange(0, ov.len() as int) =~= ov);
        assert(out@ =~= old(out)@ + enc_outline(ov));
    }
}

/// Appends one record.
fn put_record(out: &mut Vec<u8>, r: &Footprint)
    ensures
        final(out)@ == old(out)@ + enc_record(r@),
        rec_wf(r@),
{
    put_u64(out, r.orbit as u64);
    put_str(out, &r.id);
    put_str(out, &r.platform);
    put_str(out, &r.instrument);
    put_u64(out, r.time_interval.0);
    put_u64(out, r.time_interval.1);
    put_outline(out, &r.outline);
    proof {
        assert(out@ =~= old(out)@ + enc_record(r@));
    }
}

impl Footprints {
    /// Encodes the collection into the archive byte stream.  Building
    /// the stream in memory cannot fail; writing it to a sink is the
    /// caller's step and the only place an I/O failure can arise.
    pub fn encode(&self) -> (out: Vec<u8>)
        ensures
            out@ == enc_coll(self@),
            coll_wf(self@),
    {
        let mut out: Vec<u8> = Vec::new();
        out.push(0x46);
        out.push(0x50);
        out.push(0x41);
        out.push(0x31);
        proof {
            assert(out@ =~= magic());
        }
        put_u64(&mut out, self.footprints.len() as u64);
        let ghost rv = recs_view(self.footprints);
        let ghost base = out@;
        let mut i: usize = 0;
        while i < self.footprints.len()
            invariant
                i <= self.footprints.len(),
                rv == recs_view(self.footprints),
                out@ == base + enc_records(rv.subrange(0, i as int)),
                forall|x: int| 0 <= x < i ==> rec_wf(#[trigger] rv[x]),
            decreases self.footprints.len() - i,
        {
            put_record(&mut out, &self.footprints[i]);
            proof {
                assert(rv.subrange(0, i + 1).drop_last() =~= rv.subrange(0, i as int));
                assert(rv.subrange(0, i + 1).last() == rv[i as int]);
                assert(out@ =~= base + enc_records(rv.subrange(0, i + 1)));
            }
            i = i + 1;
        }
        proof {
            assert(rv.subrange(0, rv.len() as int) =~= rv);
            assert(out@ =~= enc_coll(self@));
        }
        out
    }
}

/// Splitting an embedded concatenation: when the bytes at `pos` are
/// `x + y`, the two halves stand at their own positions.
proof fn lemma_split_concat(b: Seq<u8>, pos: int, x: Seq<u8>, y: Seq<u8>)
    requires
        0 <= pos,
        pos + x.len() + y.len() <= b.len(),
        b.subrange(pos, pos + x.len() + y.len()) == x + y,
    ensures
        b.subrange(pos, pos + x.len() as int) == x,
        b.subrange(pos + x.len() as int, pos + x.len() + y.len()) == y,
{
    assert(b.subrange(pos, pos + x.len() as int) =~= x);
    assert forall|i: int| 0 <= i < y.len() implies b[pos + x.len() + i] == y[i] by {
        let k = x.len() as int + i;
        assert((x + y)[k] == y[i]);
        assert(b.subrange(pos, pos + x.len() + y.len())[k] == b[pos + k]);
        assert(b.subrange(pos, pos + x.len() + y.len())[k] == (x + y)[k]);
    }
    assert(b.subrange(pos + x.len() as int, pos + x.len() + y.len()) =~= y);
}

/// The vertex list encoding also unfolds from the front.
proof fn lemma_enc_verts_first(r: Seq<(u64, u64)>)
    requires
        r.len() > 0,
    ensures
        enc_verts(r) == enc_vert(r[0]) + enc_verts(r.drop_first()),
    decreases r.len(),
{
    if r.len() == 1 {
        assert(r.drop_last() =~= Seq::<(u64, u64)>::empty());
        assert(r.drop_first() =~= Seq::<(u64, u64)>::empty());
        assert(enc_verts(r) =~= enc_vert(r[0]) + enc_verts(r.drop_first()));
    } else {
        let d = r.drop_last();
        lemma_enc_verts_first(d);
        assert(r.drop_first().drop_last() =~= d.drop_first());
        assert(r.drop_first().last() == r.last());
        assert(enc_verts(r) =~= enc_vert(r[0]) + enc_verts(r.drop_first()));
    }
}

/// The ring list encoding also unfolds from the front.
proof fn lemma_enc_rings_first(p: Seq<Seq<(u64, u64)>>)
    requires
        p.len() > 0,
    ensures
        enc_rings(p) == enc_ring(p[0]) + enc_rings(p.drop_first()),
    decreases p.len(),
{
    if p.len() == 1 {
        assert(p.drop_last() =~= Seq::<Seq<(u64, u64)>>::empty());
        assert(p.drop_first() =~= Seq::<Seq<(u64, u64)>>::empty());
        assert(enc_rings(p) =~= enc_ring(p[0]) + enc_rings(p.drop_first()));
    } else {
        let d = p.drop_last();
        lemma_enc_rings_first(d);
        assert(p.drop_first().drop_last() =~= d.drop_first());
        assert(p.drop_first().last() == p.last());
        assert(enc_rings(p) =~= enc_ring(p[0]) + enc_rings(p.drop_first()));
    }
}

/// The polygon list encoding also unfolds from the front.
proof fn lemma_enc_polys_first(o: Seq<Seq<Seq<(u64, u64)>>>)
    requires
        o.len() > 0,
    ensures
        enc_polys(o) == enc_poly(o[0]) + enc_polys(o.drop_first()),
    decreases o.len(),
{
    if o.len() == 1 {
        assert(o.drop_last() =~= Seq::<Seq<Seq<(u64, u64)>>>::empty());
        assert(o.drop_first() =~= Seq::<Seq<Seq<(u64, u64)>>>::empty());
        assert(enc_polys(o) =~= enc_poly(o[0]) + enc_polys(o.drop_first()));
    } else {
        let d = o.drop_last();
        lemma_enc_polys_first(d);
        assert(o.drop_first().drop_last() =~= d.drop_first());
        assert(o.drop_first().last() == o.last());
        assert(enc_polys(o) =~= enc_poly(o[0]) + enc_polys(o.drop_first()));
    }
}

/// The record list encoding also unfolds from the front.
proof fn lemma_enc_records_first(rs: Seq<RecView>)
    requires
        rs.len() > 0,
    ensures
        enc_records(rs) == enc_record(rs[0]) + enc_records(rs.drop_first()),
    decreases rs.len(),
{
    if rs.len() == 1 {
        assert(rs.drop_last() =~= Seq::<RecView>::empty());
        assert(rs.drop_first() =~= Seq::<RecView>::empty());
        assert(enc_records(rs) =~= enc_record(rs[0]) + enc_records(rs.drop_first()));
    } else {
        let d = rs.drop_last();
        lemma_enc_records_first(d);
        assert(rs.drop_first().drop_last() =~= d.drop_first());
        assert(rs.drop_first().last() == rs.last());
        assert(enc_records(rs) =~= enc_record(rs[0]) + enc_records(rs.drop_first()));
    }
}

/// Parsing an encoded integer embedded at `pos` yields it back.
proof fn lemma_parse_u64_enc(b: Seq<u8>, pos: int, x: u64)
    requires
        0 <= pos,
        pos + 8 <= b.len(),
        b.subrange(pos, pos + 8) == enc_u64(x),
    ensures
        parse_u64(b, pos) == Some((x, pos + 8)),
{
    lemma_auto_spec_u64_to_from_le_bytes();
}

/// Parsing an encoded string embedded at `pos` yields it back.
proof fn lemma_parse_str_enc(b: Seq<u8>, pos: int, s: Seq<char>)
    requires
        0 <= pos,
        pos + enc_str(s).len() <= b.len(),
        b.subrange(pos, pos + enc_str(s).len()) == enc_str(s),
        encode_utf8(s).len() <= u64::MAX,
    ensures
        parse_str(b, pos) == Some((s, pos + enc_str(s).len())),
{
    lemma_auto_spec_u64_to_from_le_bytes();
    let bs = encode_utf8(s);
    lemma_split_concat(b, pos, enc_u64(bs.len() as u64), bs);
    lemma_parse_u64_enc(b, pos, bs.len() as u64);
    encode_utf8_valid_utf8(s);
    encode_utf8_decode_utf8(s);
}

/// Parsing an encoded vertex embedded at `pos` yields it back.
proof fn lemma_parse_vert_enc(b: Seq<u8>, pos: int, v: (u64, u64))
    requires
        0 <= pos,
        pos + 16 <= b.len(),
        b.subrange(pos, pos + 16) == enc_vert(v),
    ensures
        parse_vert(b, pos) == Some((v, pos + 16)),
{
    lemma_auto_spec_u64_to_from_le_bytes();
    lemma_split_concat(b, pos, enc_u64(v.0), enc_u64(v.1));
    lemma_parse_u64_enc(b, pos, v.0);
    lemma_parse_u64_enc(b, pos + 8, v.1);
}

/// Parsing an encoded vertex list embedded at `pos` yields it back.
proof fn lemma_parse_verts_enc(b: Seq<u8>, pos: int, r: Seq<(u64, u64)>)
    requires
        0 <= pos,
        pos + enc_verts(r).len() <= b.len(),
        b.subrange(pos, pos + enc_verts(r).len()) == enc_verts(r),
    ensures
        parse_verts(b, pos, r.len()) == Some((r, pos + enc_verts(r).len())),
    decreases r.len(),
{
    lemma_auto_spec_u64_to_from_le_bytes();
    if r.len() == 0 {
        assert(r =~= Seq::<(u64, u64)>::empty());
    } else {
        lemma_enc_verts_first(r);
        let rest = r.drop_first();
        lemma_split_concat(b, pos, enc_vert(r[0]), enc_verts(rest));
        lemma_parse_vert_enc(b, pos, r[0]);
        lemma_parse_verts_enc(b, pos + 16, rest);
        assert(seq![r[0]] + rest =~= r);
    }
}

/// Parsing an encoded ring embedded at `pos` yields it back.
proof fn lemma_parse_ring_enc(b: Seq<u8>, pos: int, r: Seq<(u64, u64)>)
    requires
        0 <= pos,
        pos + enc_ring(r).len() <= b.len(),
        b.subrange(pos, pos + enc_ring(r).len()) == enc_ring(r),
        r.len() <= u64::MAX,
    ensures
        parse_ring(b, pos) == Some((r, pos + enc_ring(r).len())),
{
    lemma_auto_spec_u64_to_from_le_bytes();
    lemma_split_concat(b, pos, enc_u64(r.len() as u64), enc_verts(r));
    lemma_parse_u64_enc(b, pos, r.len() as u64);
    lemma_parse_verts_enc(b, pos + 8, r);
}

/// Parsing an encoded ring list embedded at `pos` yields it back.
proof fn lemma_parse_rings_enc(b: Seq<u8>, pos: int, p: Seq<Seq<(u64, u64)>>)
    requires
        0 <= pos,
        pos + enc_rings(p).len() <= b.len(),
        b.subrange(pos, pos + enc_rings(p).len()) == enc_rings(p),
        forall|i: int| 0 <= i < p.len() ==> (#[trigger] p[i]).len() <= u64::MAX,
    ensures
        parse_rings(b, pos, p.len()) == Some((p, pos + enc_rings(p).len())),
    decreases p.len(),
{
    if p.len() == 0 {
        assert(p =~= Seq::<Seq<(u64, u64)>>::empty());
    } else {
        lemma_enc_rings_first(p);
        let rest = p.drop_first();
        lemma_split_concat(b, pos, enc_ring(p[0]), enc_rings(rest));
        lemma_parse_ring_enc(b, pos, p[0]);
        let q = pos + enc_ring(p[0]).len();
        lemma_parse_rings_enc(b, q, rest);
        assert(seq![p[0]] + rest =~= p);
    }
}

/// Parsing an encoded polygon embedded at `pos` yields it back.
proof fn lemma_parse_poly_enc(b: Seq<u8>, pos: int, p: Seq<Seq<(u64, u64)>>)
    requires
        0 <= pos,
        pos + enc_poly(p).len() <= b.len(),
        b.subrange(pos, pos + enc_poly(p).len()) == enc_poly(p),
        p.len() <= u64::MAX,
        forall|i: int| 0 <= i < p.len() ==> (#[trigger] p[i]).len() <= u64::MAX,
    ensures
        parse_poly(b, pos) == Some((p, pos + enc_poly(p).len())),
{
    lemma_auto_spec_u64_to_from_le_bytes();
    lemma_split_concat(b, pos, enc_u64(p.len() as u64), enc_rings(p));
    lemma_parse_u64_enc(b, pos, p.len() as u64);
    lemma_parse_rings_enc(b, pos + 8, p);
}

/// Parsing an encoded polygon list embedded at `pos` yields it back.
proof fn lemma_parse_polys_enc(b: Seq<u8>, pos: int, o: Seq<Seq<Seq<(u64, u64)>>>)
    requires
        0 <= pos,
        pos + enc_polys(o).len() <= b.len(),
        b.subrange(pos, pos + enc_polys(o).len()) == enc_polys(o),
        forall|i: int| 0 <= i < o.len() ==> (#[trigger] o[i]).len() <= u64::MAX,
        forall|i: int, j: int|
            0 <= i < o.len() && 0 <= j < o[i].len() ==> (#[trigger] o[i][j]).len() <= u64::MAX,
    ensures
        parse_polys(b, pos, o.len()) == Some((o, pos + enc_polys(o).len())),
    decreases o.len(),
{
    if o.len() == 0 {
        assert(o =~= Seq::<Seq<Seq<(u64, u64)>>>::empty());
    } else {
        lemma_enc_polys_first(o);
        let rest = o.drop_first();
        lemma_split_concat(b, pos, enc_poly(o[0]), enc_polys(rest));
        lemma_parse_poly_enc(b, pos, o[0]);
        let q = pos + enc_poly(o[0]).len();
        assert(forall|i: int| 0 <= i < rest.len() ==> (#[trigger] rest[i]).len() <= u64::MAX);
        assert(forall|i: int, j: int|
            0 <= i < rest.len() && 0 <= j < rest[i].len() ==> (#[trigger] rest[i][j]).len()
                <= u64::MAX);
        lemma_parse_polys_enc(b, q, rest);
        assert(seq![o[0]] + rest =~= o);
    }
}

/// Parsing an encoded outline embedded at `pos` yields it back.
proof fn lemma_parse_outline_enc(b: Seq<u8>, pos: int, o: Seq<Seq<Seq<(u64, u64)>>>)
    requires
        0 <= pos,
        pos + enc_outline(o).len() <= b.len(),
        b.subrange(pos, pos + enc_outline(o).len()) == enc_outline(o),
        o.len() <= u64::MAX,
        forall|i: int| 0 <= i < o.len() ==> (#[trigger] o[i]).len() <= u64::MAX,
        forall|i: int, j: int|
            0 <= i < o.len() && 0 <= j < o[i].len() ==> (#[trigger] o[i][j]).len() <= u64::MAX,
    ensures
        parse_outline(b, pos) == Some((o, pos + enc_outline(o).len())),
{
    lemma_auto_spec_u64_to_from_le_bytes();
    lemma_split_concat(b, pos, enc_u64(o.len() as u64), enc_polys(o));
    lemma_parse_u64_enc(b, pos, o.len() as u64);
    lemma_parse_polys_enc(b, pos + 8, o);
}

/// Parsing an encoded record embedded at `pos` yields it back.
#[verifier::rlimit(50)]
proof fn lemma_parse_record_enc(b: Seq<u8>, pos: int, r: RecView)
    requires
        0 <= pos,
        pos + enc_record(r).len() <= b.len(),
        b.subrange(pos, pos + enc_record(r).len()) == enc_record(r),
        rec_wf(r),
    ensures
        parse_record(b, pos) == Some((r, pos + enc_record(r).len())),
{
    lemma_auto_spec_u64_to_from_le_bytes();
    let e1 = enc_u64(r.orbit as u64);
    let e2 = enc_str(r.id);
    let e3 = enc_str(r.platform);
    let e4 = enc_str(r.instrument);
    let e5 = enc_u64(r.t0);
    let e6 = enc_u64(r.t1);
    let e7 = enc_outline(r.outline);
    lemma_split_concat(b, pos, e1 + e2 + e3 + e4 + e5 + e6, e7);
    let p6 = pos + (e1 + e2 + e3 + e4 + e5 + e6).len();
    lemma_split_concat(b, pos, e1 + e2 + e3 + e4 + e5, e6);
    let p5 = pos + (e1 + e2 + e3 + e4 + e5).len();
    lemma_split_concat(b, pos, e1 + e2 + e3 + e4, e5);
    let p4 = pos + (e1 + e2 + e3 + e4).len();
    lemma_split_concat(b, pos, e1 + e2 + e3, e4);
    let p3 = pos + (e1 + e2 + e3).len();
    lemma_split_concat(b, pos, e1 + e2, e3);
    let p2 = pos + (e1 + e2).len();
    lemma_split_concat(b, pos, e1, e2);
    let p1 = pos + 8;
    lemma_parse_u64_enc(b, pos, r.orbit as u64);
    lemma_parse_str_enc(b, p1, r.id);
    lemma_parse_str_enc(b, p2, r.platform);
    lemma_parse_str_enc(b, p3, r.instrument);
    lemma_parse_u64_enc(b, p4, r.t0);
    lemma_parse_u64_enc(b, p5, r.t1);
    lemma_parse_outline_enc(b, p6, r.outline);
}

/// Parsing an encoded record list embedded at `pos` yields it back.
proof fn lemma_parse_records_enc(b: Seq<u8>, pos: int, rs: Seq<RecView>)
    requires
        0 <= pos,
        pos + enc_records(rs).len() <= b.len(),
        b.subrange(pos, pos + enc_records(rs).len()) == enc_records(rs),
        forall|i: int| 0 <= i < rs.len() ==> rec_wf(#[trigger] rs[i]),
    ensures
        parse_records(b, pos, rs.len()) == Some((rs, pos + enc_records(rs).len())),
    decreases rs.len(),
{
    if rs.len() == 0 {
        assert(rs =~= Seq::<RecView>::empty());
    } else {
        lemma_enc_records_first(rs);
        let rest = rs.drop_first();
        lemma_split_concat(b, pos, enc_record(rs[0]), enc_records(rest));
        lemma_parse_record_enc(b, pos, rs[0]);
        let q = pos + enc_record(rs[0]).len();
        assert(forall|i: int| 0 <= i < rest.len() ==> rec_wf(#[trigger] rest[i]));
        lemma_parse_records_enc(b, q, rest);
        assert(seq![rs[0]] + rest =~= rs);
    }
}

/// The archive round trip: decoding the encoding of any collection
/// that fits in memory yields that collection exactly — records,
/// order, and every time and coordinate bit pattern.
pub proof fn lemma_archive_round_trip(rs: Seq<RecView>)
    requires
        coll_wf(rs),
    ensures
        dec_coll(enc_coll(rs)) == Some(rs),
{
    lemma_auto_spec_u64_to_from_le_bytes();
    let b = enc_coll(rs);
    assert(b.subrange(0, 4) =~= magic());
    assert(b.subrange(4, 4 + 8 + enc_records(rs).len() as int) =~= enc_u64(rs.len() as u64)
        + enc_records(rs));
    lemma_split_concat(b, 4, enc_u64(rs.len() as u64), enc_records(rs));
    lemma_parse_u64_enc(b, 4, rs.len() as u64);
    lemma_parse_records_enc(b, 12, rs);
}

/// Relies on `String::from_utf8`: it succeeds exactly on valid UTF-8
/// and the returned string holds those very bytes.  `vstd`'s
/// `valid_utf8` and `encode_utf8` state the same UTF-8 coding that the
/// standard library checks.
#[verifier::external_body]
fn utf8_to_string(v: Vec<u8>) -> (r: Option<String>)
    ensures
        r is Some <==> valid_utf8(v@),
        r matches Some(s) ==> encode_utf8(s@) == v@,
{
    match String::from_utf8(v) {
        Ok(s) => Some(s),
        Err(_) => None,
    }
}

/// Prefixes the already-read vertices to a parse continuation.
spec fn vjoin(pre: Seq<(u64, u64)>, o: Option<(Seq<(u64, u64)>, int)>) -> Option<
    (Seq<(u64, u64)>, int),
> {
    match o {
        None => None,
        Some((s, p)) => Some((pre + s, p)),
    }
}

/// Prefixes the already-read rings to a parse continuation.
spec fn rjoin(pre: Seq<Seq<(u64, u64)>>, o: Option<(Seq<Seq<(u64, u64)>>, int)>) -> Option<
    (Seq<Seq<(u64, u64)>>, int),
> {
    match o {
        None => None,
        Some((s, p)) => Some((pre + s, p)),
    }
}

/// Prefixes the already-read polygons to a parse continuation.
spec fn pjoin(pre: Seq<Seq<Seq<(u64, u64)>>>, o: Option<(Seq<Seq<Seq<(u64, u64)>>>, int)>) -> Option<
    (Seq<Seq<Seq<(u64, u64)>>>, int),
> {
    match o {
        None => None,
        Some((s, p)) => Some((pre + s, p)),
    }
}

/// Prefixes the already-read records to a parse continuation.
spec fn recjoin(pre: Seq<RecView>, o: Option<(Seq<RecView>, int)>) -> Option<
    (Seq<RecView>, int),
> {
    match o {
        None => None,
        Some((s, p)) => Some((pre + s, p)),
    }
}

/// Reads one little-endian 64-bit integer.
fn take_u64(b: &[u8], pos: usize) -> (r: Option<(u64, usize)>)
    requires
        pos <= b@.len(),
    ensures
        match r {
            Some((x, p)) => parse_u64(b@, pos as int) == Some((x, p as int)) && p <= b@.len(),
            None => parse_u64(b@, pos as int) is None,
        },
{
    if b.len() - pos >= 8 {
        let s = slice_subrange(b, pos, pos + 8);
        let x = u64_from_le_bytes(s);
        Some((x, pos + 8))
    } else {
        None
    }
}

/// Reads one length-prefixed UTF-8 string.
fn take_str(b: &[u8], pos: usize) -> (r: Result<(String, usize), DecodeError>)
    requires
        pos <= b@.len(),
    ensures
        match r {
            Ok((s, p)) => parse_str(b@, pos as int) == Some((s@, p as int)) && p <= b@.len(),
            Err(_) => parse_str(b@, pos as int) is None,
        },
{
    match take_u64(b, pos) {
        None => Err(DecodeError::Truncated),
        Some((n, p)) => {
            if n <= (b.len() - p) as u64 {
                let nn = n as usize;
                let sub = slice_subrange(b, p, p + nn);
                let v = slice_to_vec(sub);
                match utf8_to_string(v) {
                    None => Err(DecodeError::BadUtf8),
                    Some(s) => {
                        proof {
                            encode_utf8_decode_utf8(s@);
                        }
                        Ok((s, p + nn))
                    },
                }
            } else {
                Err(DecodeError::Truncated)
            }
        },
    }
}

/// Reads one ring.
#[verifier::loop_isolation(false)]
fn take_ring(b: &[u8], pos: usize) -> (r: Result<(Vec<(u64, u64)>, usize), DecodeError>)
    requires
        pos <= b@.len(),
    ensures
        match r {
            Ok((v, p)) => parse_ring(b@, pos as int) == Some((v@, p as int)) && p <= b@.len(),
            Err(_) => parse_ring(b@, pos as int) is None,
        },
{
    let first = take_u64(b, pos);
    match first {
        None => Err(DecodeError::Truncated),
        Some((n, p0)) => {
            let mut out: Vec<(u64, u64)> = Vec::new();
            let mut p = p0;
            let mut i: u64 = 0;
            proof {
                if parse_verts(b@, p0 as int, n as nat) is Some {
                    assert(out@ + parse_verts(b@, p0 as int, n as nat)->Some_0.0
                        =~= parse_verts(b@, p0 as int, n as nat)->Some_0.0);
                }
            }
            while i < n
                invariant
                    i <= n,
                    p <= b@.len(),
                    parse_verts(b@, p0 as int, n as nat) == vjoin(
                        out@,
                        parse_verts(b@, p as int, (n - i) as nat),
                    ),
                decreases n - i,
            {
                let ghost m = (n - i) as nat;
                let x = match take_u64(b, p) {
                    None => {
                        proof {
                            assert(parse_vert(b@, p as int) is None);
                            assert(parse_verts(b@, p as int, (n - i) as nat) is None);
                        }
                        return Err(DecodeError::Truncated);
                    },
                    Some((x, p1)) => {
                        let y = match take_u64(b, p1) {
                            None => {
                                proof {
                                    assert(parse_vert(b@, p as int) is None);
                                    assert(parse_verts(b@, p as int, (n - i) as nat) is None);
                                }
                                return Err(DecodeError::Truncated);
                            },
                            Some((y, p2)) => {
                                let ghost out0 = out@;
                                out.push((x, y));
                                proof {
                                    let cont = parse_verts(b@, p2 as int, (m - 1) as nat);
                                    if cont is Some {
                                        assert(out0 + (seq![(x, y)] + cont->Some_0.0) =~= out@
                                            + cont->Some_0.0);
                                    }
                                }
                                p = p2;
                            },
                        };
                    },
                };
                i = i + 1;
            }
            proof {
                assert(out@ + Seq::<(u64, u64)>::empty() =~= out@);
            }
            Ok((out, p))
        },
    }
}

/// Reads one polygon.
#[verifier::loop_isolation(false)]
fn take_poly(b: &[u8], pos: usize) -> (r: Result<(Vec<Vec<(u64, u64)>>, usize), DecodeError>)
    requires
        pos <= b@.len(),
    ensures
        match r {
            Ok((v, p)) => parse_poly(b@, pos as int) == Some((poly_view(v), p as int)) && p
                <= b@.len(),
            Err(_) => parse_poly(b@, pos as int) is None,
        },
{
    let first = take_u64(b, pos);
    match first {
        None => Err(DecodeError::Truncated),
        Some((n, p0)) => {
            let mut out: Vec<Vec<(u64, u64)>> = Vec::new();
            let mut p = p0;
            let mut i: u64 = 0;
            proof {
                assert(poly_view(out) =~= Seq::<Seq<(u64, u64)>>::empty());
                if parse_rings(b@, p0 as int, n as nat) is Some {
                    assert(poly_view(out) + parse_rings(b@, p0 as int, n as nat)->Some_0.0
                        =~= parse_rings(b@, p0 as int, n as nat)->Some_0.0);
                }
            }
            while i < n
                invariant
                    i <= n,
                    p <= b@.len(),
                    parse_rings(b@, p0 as int, n as nat) == rjoin(
                        poly_view(out),
                        parse_rings(b@, p as int, (n - i) as nat),
                    ),
                decreases n - i,
            {
                let ghost m = (n - i) as nat;
                match take_ring(b, p) {
                    Err(e) => {
                        proof {
                            assert(parse_rings(b@, p as int, (n - i) as nat) is None);
                        }
                        return Err(e);
                    },
                    Ok((ring, p1)) => {
                        let ghost out0 = poly_view(out);
                        let ghost rv = ring@;
                        out.push(ring);
                        proof {
                            assert(poly_view(out) =~= out0 + seq![rv]);
                            let cont = parse_rings(b@, p1 as int, (m - 1) as nat);
                            if cont is Some {
                                assert(out0 + (seq![rv] + cont->Some_0.0) =~= poly_view(out)
                                    + cont->Some_0.0);
                            }
                        }
                        p = p1;
                    },
                }
                i = i + 1;
            }
            proof {
                assert(poly_view(out) + Seq::<Seq<(u64, u64)>>::empty() =~= poly_view(out));
            }
            Ok((out, p))
        },
    }
}

/// Reads one outline.
#[verifier::loop_isolation(false)]
fn take_outline(b: &[u8], pos: usize) -> (r: Result<
    (Vec<Vec<Vec<(u64, u64)>>>, usize),
    DecodeError,
>)
    requires
        pos <= b@.len(),
    ensures
        match r {
            Ok((v, p)) => parse_outline(b@, pos as int) == Some((outline_view(v), p as int)) && p
                <= b@.len(),
            Err(_) => parse_outline(b@, pos as int) is None,
        },
{
    let first = take_u64(b, pos);
    match first {
        None => Err(DecodeError::Truncated),
        Some((n, p0)) => {
            let mut out: Vec<Vec<Vec<(u64, u64)>>> = Vec::new();
            let mut p = p0;
            let mut i: u64 = 0;
            proof {
                assert(outline_view(out) =~= Seq::<Seq<Seq<(u64, u64)>>>::empty());
                if parse_polys(b@, p0 as int, n as nat) is Some {
                    assert(outline_view(out) + parse_polys(b@, p0 as int, n as nat)->Some_0.0
                        =~= parse_polys(b@, p0 as int, n as nat)->Some_0.0);
                }
            }
            while i < n
                invariant
                    i <= n,
                    p <= b@.len(),
                    parse_polys(b@, p0 as int, n as nat) == pjoin(
                        outline_view(out),
                        parse_polys(b@, p as int, (n - i) as nat),
                    ),
                decreases n - i,
            {
                let ghost m = (n - i) as nat;
                match take_poly(b, p) {
                    Err(e) => {
                        proof {
                            assert(parse_polys(b@, p as int, (n - i) as nat) is None);
                        }
                        return Err(e);
                    },
                    Ok((poly, p1)) => {
                        let ghost out0 = outline_view(out);
                        let ghost pv = poly_view(poly);
                        out.push(poly);
                        proof {
                            assert(outline_view(out) =~= out0 + seq![pv]);
                            let cont = parse_polys(b@, p1 as int, (m - 1) as nat);
                            if cont is Some {
                                assert(out0 + (seq![pv] + cont->Some_0.0) =~= outline_view(out)
                                    + cont->Some_0.0);
                            }
                        }
                        p = p1;
                    },
                }
                i = i + 1;
            }
            proof {
                assert(outline_view(out) + Seq::<Seq<Seq<(u64, u64)>>>::empty() =~= outline_view(
                    out,
                ));
            }
            Ok((out, p))
        },
    }
}

/// Reads one record.
fn take_record(b: &[u8], pos: usize) -> (r: Result<(Footprint, usize), DecodeError>)
    requires
        pos <= b@.len(),
    ensures
        match r {
            Ok((fp, p)) => parse_record(b@, pos as int) == Some((fp@, p as int)) && p <= b@.len(),
            Err(_) => parse_record(b@, pos as int) is None,
        },
{
    let (orbit, p1) = match take_u64(b, pos) {
        None => {
            return Err(DecodeError::Truncated);
        },
        Some(v) => v,
    };
    if !(orbit <= usize::MAX as u64) {
        return Err(DecodeError::OrbitTooLarge);
    }
    let (id, p2) = match take_str(b, p1) {
        Err(e) => {
            return Err(e);
        },
        Ok(v) => v,
    };
    let (platform, p3) = match take_str(b, p2) {
        Err(e) => {
            return Err(e);
        },
        Ok(v) => v,
    };
    let (instrument, p4) = match take_str(b, p3) {
        Err(e) => {
            return Err(e);
        },
        Ok(v) => v,
    };
    let (t0, p5) = match take_u64(b, p4) {
        None => {
            return Err(DecodeError::Truncated);
        },
        Some(v) => v,
    };
    let (t1, p6) = match take_u64(b, p5) {
        None => {
            return Err(DecodeError::Truncated);
        },
        Some(v) => v,
    };
    let (outline, p7) = match take_outline(b, p6) {
        Err(e) => {
            return Err(e);
        },
        Ok(v) => v,
    };
    let fp = Footprint {
        orbit: orbit as usize,
        id,
        platform,
        instrument,
        time_interval: (t0, t1),
        outline,
    };
    Ok((fp, p7))
}

impl Footprints {
    /// Decodes an archive byte stream.  Exactly the streams that
    /// [`dec_coll`] accepts are decoded; any other stream is rejected
    /// with a [`DecodeError`] and no partial collection.
#[verifier::loop_isolation(false)]
    pub fn decode(b: &[u8]) -> (r: Result<Footprints, DecodeError>)
        ensures
            match r {
                Ok(c) => dec_coll(b@) == Some(c@),
                Err(_) => dec_coll(b@) is None,
            },
    {
        if b.len() < 4 {
            return Err(DecodeError::BadMagic);
        }
        let m0 = *slice_index_get(b, 0);
        let m1 = *slice_index_get(b, 1);
        let m2 = *slice_index_get(b, 2);
        let m3 = *slice_index_get(b, 3);
        if !(m0 == 0x46 && m1 == 0x50 && m2 == 0x41 && m3 == 0x31) {
            proof {
                if b@.subrange(0, 4) == magic() {
                    assert(b@.subrange(0, 4)[0] == 0x46u8);
                    assert(b@.subrange(0, 4)[1] == 0x50u8);
                    assert(b@.subrange(0, 4)[2] == 0x41u8);
                    assert(b@.subrange(0, 4)[3] == 0x31u8);
                }
            }
            return Err(DecodeError::BadMagic);
        }
        proof {
            assert(b@.subrange(0, 4) =~= magic());
        }
        let (n, p0) = match take_u64(b, 4) {
            None => {
                return Err(DecodeError::Truncated);
            },
            Some(v) => v,
        };
        let mut out: Vec<Footprint> = Vec::new();
        let mut p = p0;
        let mut i: u64 = 0;
        proof {
            assert(recs_view(out) =~= Seq::<RecView>::empty());
            if parse_records(b@, p0 as int, n as nat) is Some {
                assert(recs_view(out) + parse_records(b@, p0 as int, n as nat)->Some_0.0
                    =~= parse_records(b@, p0 as int, n as nat)->Some_0.0);
            }
        }
        while i < n
            invariant
                i <= n,
                p <= b@.len(),
                parse_records(b@, p0 as int, n as nat) == recjoin(
                    recs_view(out),
                    parse_records(b@, p as int, (n - i) as nat),
                ),
            decreases n - i,
        {
            let ghost m = (n - i) as nat;
            match take_record(b, p) {
                Err(e) => {
                    proof {
                        assert(parse_records(b@, p as int, (n - i) as nat) is None);
                    }
                    return Err(e);
                },
                Ok((fp, p1)) => {
                    let ghost out0 = recs_view(out);
                    let ghost fv = fp@;
                    out.push(fp);
                    proof {
                        assert(recs_view(out) =~= out0 + seq![fv]);
                        let cont = parse_records(b@, p1 as int, (m - 1) as nat);
                        if cont is Some {
                            assert(out0 + (seq![fv] + cont->Some_0.0) =~= recs_view(out)
                                + cont->Some_0.0);
                        }
                    }
                    p = p1;
                },
            }
            i = i + 1;
        }
        proof {
            assert(recs_view(out) + Seq::<RecView>::empty() =~= recs_view(out));
        }
        if p == b.len() {
            let c = Footprints { footprints: out };
            Ok(c)
        } else {
            Err(DecodeError::TrailingBytes)
        }
    }
}

} // verus!
