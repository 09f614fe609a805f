//! The geospatial feature-collection encoder.
//!
//! Each record becomes one feature: a multi-polygon geometry whose
//! nesting mirrors the outline exactly, and a properties object
//! holding the caller's base properties followed by `time` (the
//! formatted midpoint of the record's interval) and `id`, which
//! replace any same-named base entries.  The collection is rendered
//! as JSON text, compact or indented per a flag; writing it to a sink
//! is the caller's step.  The encoder is generic over the
//! [`FootprintLike`] capability set, with [`Footprint`] as the one
//! shipped implementation.

use vstd::prelude::*;
use vstd::string::StrSliceExecFns;
use vstd::string::StringExecFns;

use crate::fbits::is_finite_bits;
use crate::fbits::f64_is_finite;
use crate::fbits::f64_mean;
use crate::fbits::mean_of;
use crate::numfmt::hex_digit_char;
use crate::numfmt::hex_digit_str;
use crate::numfmt::json_num_of;
use crate::numfmt::f64_text;
use crate::record::Footprint;
use crate::record::Footprints;
use crate::record::RecView;
use crate::record::outline_view;
use crate::time::time_text_of;
use crate::time::f64_time_text;

verus! {

/// A property value of the fixed feature schema.
pub enum PropValue {
    /// The JSON null.
    Null,
    /// A JSON boolean.
    Bool(bool),
    /// A JSON number, as the bit pattern of its binary64 value.
    Num(u64),
    /// A JSON string.
    Str(String),
}

/// The mathematical content of a property value.
pub ghost enum PropView {
    Null,
    Bool(bool),
    Num(u64),
    Str(Seq<char>),
}

impl View for PropValue {
    type V = PropView;

    open spec fn view(&self) -> PropView {
        match self {
            PropValue::Null => PropView::Null,
            PropValue::Bool(b) => PropView::Bool(*b),
            PropValue::Num(n) => PropView::Num(*n),
            PropValue::Str(s) => PropView::Str(s@),
        }
    }
}

/// A property list as key and value content, in order.
pub open spec fn props_view(v: Vec<(String, PropValue)>) -> Seq<(Seq<char>, PropView)> {
    Seq::new(v@.len(), |i: int| (v@[i].0@, v@[i].1@))
}

/// JSON string escaping of one character: quote and backslash get a
/// backslash, the named control characters their short escapes, other
/// control characters a `\u00..` escape, and all else stands as
/// itself.
pub open spec fn json_escape_char(c: char) -> Seq<char> {
    if c == '"' {
        "\\\""@
    } else if c == '\\' {
        "\\\\"@
    } else if c == '\n' {
        "\\n"@
    } else if c == '\r' {
        "\\r"@
    } else if c == '\t' {
        "\\t"@
    } else if c == '\u{8}' {
        "\\b"@
    } else if c == '\u{c}' {
        "\\f"@
    } else if (c as u32) < 0x20 {
        "\\u00"@ + seq![hex_digit_char((c as u32 / 16) as nat)] + seq![hex_digit_char(
            (c as u32 % 16) as nat,
        )]
    } else {
        seq![c]
    }
}

/// A whole string under JSON escaping.
pub open spec fn json_escaped(s: Seq<char>) -> Seq<char>
    decreases s.len(),
{
    if s.len() == 0 {
        Seq::<char>::empty()
    } else {
        json_escaped(s.drop_last()) + json_escape_char(s.last())
    }
}

/// A JSON string literal: the escaped text in quotes.
pub open spec fn json_str_text(s: Seq<char>) -> Seq<char> {
    "\""@ + json_escaped(s) + "\""@
}

/// Escapes a string for embedding in a JSON string literal.
pub fn escape_json(s: &str) -> (r: String)
    ensures
        r@ == json_escaped(s@),
{
    let n = s.unicode_len();
    let mut out = String::new();
    let mut i: usize = 0;
    while i < n
        invariant
            i <= n,
            n == s@.len(),
            out@ == json_escaped(s@.subrange(0, i as int)),
        decreases n - i,
    {
        let c = s.get_char(i);
        if c == '"' {
            out.append("\\\"");
        } else if c == '\\' {
            out.append("\\\\");
        } else if c == '\n' {
            out.append("\\n");
        } else if c == '\r' {
            out.append("\\r");
        } else if c == '\t' {
            out.append("\\t");
        } else if c == '\u{8}' {
            out.append("\\b");
        } else if c == '\u{c}' {
            out.append("\\f");
        } else if (c as u32) < 0x20 {
            out.append("\\u00");
            let cc = c as u32;
            out.append(hex_digit_str((cc / 16) as u64));
            out.append(hex_digit_str((cc % 16) as u64));
        } else {
            out.push(c);
        }
        proof {
            assert(s@.subrange(0, i + 1).drop_last() =~= s@.subrange(0, i as int));
            assert(s@.subrange(0, i + 1).last() == s@[i as int]);
            assert(out@ =~= json_escaped(s@.subrange(0, i + 1)));
        }
        i = i + 1;
    }
    proof {
        assert(s@.subrange(0, n as int) =~= s@);
    }
    out
}

/// The JSON text of a number: the shortest decimal form for a finite
/// value, `null` for a NaN or an infinity, as the standard feature
/// serialization writes them.
pub open spec fn json_num_text(b: u64) -> Seq<char> {
    if is_finite_bits(b) {
        json_num_of(b)
    } else {
        "null"@
    }
}

/// The JSON text of one property value.
pub open spec fn prop_text(p: PropView) -> Seq<char> {
    match p {
        PropView::Null => "null"@,
        PropView::Bool(b) => if b {
            "true"@
        } else {
            "false"@
        },
        PropView::Num(n) => json_num_text(n),
        PropView::Str(s) => json_str_text(s),
    }
}

/// One coordinate position: `[lon,lat]`.
pub open spec fn pos_text(v: (u64, u64)) -> Seq<char> {
    "["@ + json_num_text(v.0) + ","@ + json_num_text(v.1) + "]"@
}

/// The comma-joined positions of a ring.
pub open spec fn ring_inner_text(r: Seq<(u64, u64)>) -> Seq<char>
    decreases r.len(),
{
    if r.len() == 0 {
        Seq::<char>::empty()
    } else if r.len() == 1 {
        pos_text(r[0])
    } else {
        ring_inner_text(r.drop_last()) + ","@ + pos_text(r.last())
    }
}

/// A ring as a JSON array of positions.
pub open spec fn ring_coords_text(r: Seq<(u64, u64)>) -> Seq<char> {
    "["@ + ring_inner_text(r) + "]"@
}

/// The comma-joined rings of a polygon.
pub open spec fn poly_inner_text(p: Seq<Seq<(u64, u64)>>) -> Seq<char>
    decreases p.len(),
{
    if p.len() == 0 {
        Seq::<char>::empty()
    } else if p.len() == 1 {
        ring_coords_text(p[0])
    } else {
        poly_inner_text(p.drop_last()) + ","@ + ring_coords_text(p.last())
    }
}

/// A polygon as a JSON array of rings.
pub open spec fn poly_coords_text(p: Seq<Seq<(u64, u64)>>) -> Seq<char> {
    "["@ + poly_inner_text(p) + "]"@
}

/// The comma-joined polygons of an outline.
pub open spec fn mpoly_inner_text(o: Seq<Seq<Seq<(u64, u64)>>>) -> Seq<char>
    decreases o.len(),
{
    if o.len() == 0 {
        Seq::<char>::empty()
    } else if o.len() == 1 {
        poly_coords_text(o[0])
    } else {
        mpoly_inner_text(o.drop_last()) + ","@ + poly_coords_text(o.last())
    }
}

/// An outline as the coordinates of a multi-polygon: the nesting is
/// exactly polygon, ring, position, in the given order, with no
/// closure point added.
pub open spec fn mpoly_coords_text(o: Seq<Seq<Seq<(u64, u64)>>>) -> Seq<char> {
    "["@ + mpoly_inner_text(o) + "]"@
}

/// The base properties that survive the merge: every entry whose key
/// is neither `time` nor `id`, in the caller's order.
pub open spec fn kept_props(ps: Seq<(Seq<char>, PropView)>) -> Seq<(Seq<char>, PropView)>
    decreases ps.len(),
{
    if ps.len() == 0 {
        Seq::<(Seq<char>, PropView)>::empty()
    } else {
        let rest = kept_props(ps.drop_last());
        if ps.last().0 == "time"@ || ps.last().0 == "id"@ {
            rest
        } else {
            rest.push(ps.last())
        }
    }
}

/// The comma-joined entries of a properties object.
pub open spec fn props_inner_text(ps: Seq<(Seq<char>, PropView)>) -> Seq<char>
    decreases ps.len(),
{
    if ps.len() == 0 {
        Seq::<char>::empty()
    } else if ps.len() == 1 {
        json_str_text(ps[0].0) + ":"@ + prop_text(ps[0].1)
    } else {
        props_inner_text(ps.drop_last()) + ","@ + json_str_text(ps.last().0) + ":"@ + prop_text(
            ps.last().1,
        )
    }
}

/// The merged property list of a feature: the kept base properties,
/// then `time` and `id`, which overwrite same-named base entries.
pub open spec fn merged_props(
    ps: Seq<(Seq<char>, PropView)>,
    ts: Seq<char>,
    id: Seq<char>,
) -> Seq<(Seq<char>, PropView)> {
    kept_props(ps) + seq![("time"@, PropView::Str(ts)), ("id"@, PropView::Str(id))]
}

/// One feature's JSON text, given its formatted timestamp.
pub open spec fn feature_text(
    r: RecView,
    ps: Seq<(Seq<char>, PropView)>,
    ts: Seq<char>,
) -> Seq<char> {
    "{\"type\":\"Feature\",\"geometry\":{\"type\":\"MultiPolygon\",\"coordinates\":"@
        + mpoly_coords_text(r.outline) + "},\"properties\":{"@ + props_inner_text(
        merged_props(ps, ts, r.id),
    ) + "}}"@
}

/// One feature's JSON text, or `None` when the record's midpoint
/// cannot be rendered as a timestamp.
pub open spec fn feature_of(r: RecView, ps: Seq<(Seq<char>, PropView)>) -> Option<Seq<char>> {
    match time_text_of(mean_of(r.t0, r.t1)) {
        None => None,
        Some(ts) => Some(feature_text(r, ps, ts)),
    }
}

/// The features of a record list, front to back; `None` as soon as
/// one record's timestamp cannot be rendered.
pub open spec fn features_of(rs: Seq<(RecView, Seq<(Seq<char>, PropView)>)>) -> Option<
    Seq<Seq<char>>,
>
    decreases rs.len(),
{
    if rs.len() == 0 {
        Some(Seq::<Seq<char>>::empty())
    } else {
        match feature_of(rs[0].0, rs[0].1) {
            None => None,
            Some(f) => match features_of(rs.drop_first()) {
                None => None,
                Some(rest) => Some(seq![f] + rest),
            },
        }
    }
}

/// Feature export law: when a collection exports, it exports one
/// feature per record, in collection order, each rendered from that
/// record's content and base properties alone — so the geometry of
/// feature `i` is exactly [`mpoly_coords_text`] of record `i`'s
/// outline, nesting polygon, ring, position with order preserved.
pub proof fn lemma_features_in_order(rs: Seq<(RecView, Seq<(Seq<char>, PropView)>)>)
    requires
        features_of(rs) is Some,
    ensures
        features_of(rs)->Some_0.len() == rs.len(),
        forall|i: int|
            0 <= i < rs.len() ==> feature_of(rs[i].0, rs[i].1) == Some(
                #[trigger] features_of(rs)->Some_0[i],
            ),
    decreases rs.len(),
{
    if rs.len() > 0 {
        lemma_features_in_order(rs.drop_first());
        let fs = features_of(rs)->Some_0;
        let rest = features_of(rs.drop_first())->Some_0;
        assert forall|i: int|
            0 <= i < rs.len() implies feature_of(rs[i].0, rs[i].1) == Some(fs[i]) by {
            if i > 0 {
                assert(fs[i] == rest[i - 1]);
                assert(rs.drop_first()[i - 1] == rs[i]);
            }
        }
    }
}

/// The comma-joined feature texts, compact.
pub open spec fn features_inner_text(fs: Seq<Seq<char>>) -> Seq<char>
    decreases fs.len(),
{
    if fs.len() == 0 {
        Seq::<char>::empty()
    } else if fs.len() == 1 {
        fs[0]
    } else {
        features_inner_text(fs.drop_last()) + ","@ + fs.last()
    }
}

/// The feature texts joined for the indented form: each feature on
/// its own indented line.
pub open spec fn features_pretty_text(fs: Seq<Seq<char>>) -> Seq<char>
    decreases fs.len(),
{
    if fs.len() == 0 {
        Seq::<char>::empty()
    } else if fs.len() == 1 {
        "\n    "@ + fs[0]
    } else {
        features_pretty_text(fs.drop_last()) + ",\n    "@ + fs.last()
    }
}

/// The whole collection's JSON text: compact on one line, or with the
/// collection and feature structure indented when `pretty` is set.
pub open spec fn collection_text(fs: Seq<Seq<char>>, pretty: bool) -> Seq<char> {
    if pretty {
        "{\n  \"type\": \"FeatureCollection\",\n  \"features\": ["@ + features_pretty_text(fs)
            + "\n  ]\n}"@
    } else {
        "{\"type\":\"FeatureCollection\",\"features\":["@ + features_inner_text(fs) + "]}"@
    }
}

/// The export of a record list with its per-record base properties.
pub open spec fn geojson_of(
    rs: Seq<(RecView, Seq<(Seq<char>, PropView)>)>,
    pretty: bool,
) -> Option<Seq<char>> {
    match features_of(rs) {
        None => None,
        Some(fs) => Some(collection_text(fs, pretty)),
    }
}

/// The export failed on a value the target format cannot represent.
#[derive(Debug)]
pub enum EncodingError {
    /// A record's mean time cannot be rendered as a timestamp.
    UnrepresentableTime,
}

/// The capability set a record must offer the feature encoder: the
/// record's content as plain values, and its caller-supplied base
/// properties.  [`Footprint`] is the shipped implementation.
pub trait FootprintLike {
    /// The record's mathematical content.
    spec fn rec(&self) -> RecView;

    /// The base properties' mathematical content.
    spec fn props(&self) -> Seq<(Seq<char>, PropView)>;

    /// The orbit number.
    fn orbit(&self) -> (r: usize)
        ensures
            r as nat == self.rec().orbit,
    ;

    /// The record identifier.
    fn id(&self) -> (r: &str)
        ensures
            r@ == self.rec().id,
    ;

    /// The platform name.
    fn platform(&self) -> (r: &str)
        ensures
            r@ == self.rec().platform,
    ;

    /// The instrument name.
    fn instrument(&self) -> (r: &str)
        ensures
            r@ == self.rec().instrument,
    ;

    /// The observation interval, epoch-second bit patterns.
    fn time_interval(&self) -> (r: (u64, u64))
        ensures
            r.0 == self.rec().t0,
            r.1 == self.rec().t1,
    ;

    /// The outline.
    fn outline(&self) -> (r: &Vec<Vec<Vec<(u64, u64)>>>)
        ensures
            outline_view(*r) == self.rec().outline,
    ;

    /// The caller-supplied base properties.
    fn properties(&self) -> (r: Vec<(String, PropValue)>)
        ensures
            props_view(r) == self.props(),
    ;

    /// The midpoint of the record's interval, under IEEE rounding, as
    /// `(start + end) / 2.0` evaluates.
    fn mean_time(&self) -> (r: u64)
        ensures
            r == mean_of(self.rec().t0, self.rec().t1),
    {
        let ti = self.time_interval();
        f64_mean(ti.0, ti.1)
    }
}

impl FootprintLike for Footprint {
    open spec fn rec(&self) -> RecView {
        self@
    }

    open spec fn props(&self) -> Seq<(Seq<char>, PropView)> {
        Seq::<(Seq<char>, PropView)>::empty()
    }

    fn orbit(&self) -> (r: usize) {
        self.orbit
    }

    fn id(&self) -> (r: &str) {
        self.id.as_str()
    }

    fn platform(&self) -> (r: &str) {
        self.platform.as_str()
    }

    fn instrument(&self) -> (r: &str) {
        self.instrument.as_str()
    }

    fn time_interval(&self) -> (r: (u64, u64)) {
        (self.time_interval.0, self.time_interval.1)
    }

    fn outline(&self) -> (r: &Vec<Vec<Vec<(u64, u64)>>>) {
        &self.outline
    }

    fn properties(&self) -> (r: Vec<(String, PropValue)>) {
        let r: Vec<(String, PropValue)> = Vec::new();
        proof {
            assert(props_view(r) =~= Seq::<(Seq<char>, PropView)>::empty());
        }
        r
    }
}

/// Character-by-character string equality.
fn str_eq_str(a: &str, b: &str) -> (r: bool)
    ensures
        r == (a@ == b@),
{
    let na = a.unicode_len();
    let nb = b.unicode_len();
    if na != nb {
        return false;
    }
    let mut i: usize = 0;
    while i < na
        invariant
            i <= na,
            na == a@.len(),
            na == b@.len(),
            forall|x: int| 0 <= x < i ==> a@[x] == b@[x],
        decreases na - i,
    {
        if a.get_char(i) != b.get_char(i) {
            return false;
        }
        i = i + 1;
    }
    proof {
        assert(a@ =~= b@);
    }
    true
}

/// Appends the JSON text of a number.
fn put_json_num(out: &mut String, b: u64)
    ensures
        final(out)@ == old(out)@ + json_num_text(b),
{
    if f64_is_finite(b) {
        let t = f64_text(b);
        out.append(t.as_str());
    } else {
        out.append("null");
    }
}

/// Appends one position.
fn put_pos(out: &mut String, v: (u64, u64))
    ensures
        final(out)@ == old(out)@ + pos_text(v),
{
    out.append("[");
    put_json_num(out, v.0);
    out.append(",");
    put_json_num(out, v.1);
    out.append("]");
    proof {
        assert(out@ =~= old(out)@ + pos_text(v));
    }
}

/// Appends one ring's coordinate array.
#[verifier::loop_isolation(false)]
fn put_ring_coords(out: &mut String, r: &Vec<(u64, u64)>)
    ensures
        final(out)@ == old(out)@ + ring_coords_text(r@),
{
    out.append("[");
    let ghost base = out@;
    let mut i: usize = 0;
    while i < r.len()
        invariant
            i <= r.len(),
            out@ == base + ring_inner_text(r@.subrange(0, i as int)),
        decreases r.len() - i,
    {
        if i > 0 {
            out.append(",");
        }
        put_pos(out, r[i]);
        proof {
            let sub1 = r@.subrange(0, i + 1);
            assert(sub1.drop_last() =~= r@.subrange(0, i as int));
            assert(sub1.last() == r@[i as int]);
            assert(sub1[0] == r@[0]);
            assert(out@ =~= base + ring_inner_text(sub1));
        }
        i = i + 1;
    }
    out.append("]");
    proof {
        assert(r@.subrange(0, r@.len() as int) =~= r@);
        assert(out@ =~= old(out)@ + ring_coords_text(r@));
    }
}

/// Appends one polygon's coordinate array.
#[verifier::loop_isolation(false)]
fn put_poly_coords(out: &mut String, p: &Vec<Vec<(u64, u64)>>)
    ensures
        final(out)@ == old(out)@ + poly_coords_text(crate::record::poly_view(*p)),
{
    let ghost pv = crate::record::poly_view(*p);
    out.append("[");
    let ghost base = out@;
    let mut i: usize = 0;
    while i < p.len()
        invariant
            i <= p.len(),
            out@ == base + poly_inner_text(pv.subrange(0, i as int)),
        decreases p.len() - i,
    {
        if i > 0 {
            out.append(",");
        }
        put_ring_coords(out, &p[i]);
        proof {
            let sub1 = pv.subrange(0, i + 1);
            assert(sub1.drop_last() =~= pv.subrange(0, i as int));
            assert(sub1.last() == pv[i as int]);
            assert(sub1[0] == pv[0]);
            assert(pv[i as int] == p@[i as int]@);
            assert(out@ =~= base + poly_inner_text(sub1));
        }
        i = i + 1;
    }
    out.append("]");
    proof {
        assert(pv.subrange(0, pv.len() as int) =~= pv);
        assert(out@ =~= old(out)@ + poly_coords_text(pv));
    }
}

/// Appends one outline's multi-polygon coordinate array.
#[verifier::loop_isolation(false)]
fn put_mpoly_coords(out: &mut String, o: &Vec<Vec<Vec<(u64, u64)>>>)
    ensures
        final(out)@ == old(out)@ + mpoly_coords_text(outline_view(*o)),
{
    let ghost ov = outline_view(*o);
    out.append("[");
    let ghost base = out@;
    let mut i: usize = 0;
    while i < o.len()
        invariant
            i <= o.len(),
            out@ == base + mpoly_inner_text(ov.subrange(0, i as int)),
        decreases o.len() - i,
    {
        if i > 0 {
            out.append(",");
        }
        put_poly_coords(out, &o[i]);
        proof {
            let sub1 = ov.subrange(0, i + 1);
            assert(sub1.drop_last() =~= ov.subrange(0, i as int));
            assert(sub1.last() == ov[i as int]);
            assert(sub1[0] == ov[0]);
            assert(ov[i as int] == crate::record::poly_view(o@[i as int]));
            assert(out@ =~= base + mpoly_inner_text(sub1));
        }
        i = i + 1;
    }
    out.append("]");
    proof {
        assert(ov.subrange(0, ov.len() as int) =~= ov);
        assert(out@ =~= old(out)@ + mpoly_coords_text(ov));
    }
}

/// Appends one property value.
fn put_prop(out: &mut String, p: &PropValue)
    ensures
        final(out)@ == old(out)@ + prop_text(p@),
{
    match p {
        PropValue::Null => out.append("null"),
        PropValue::Bool(b) => {
            if *b {
                out.append("true");
            } else {
                out.append("false");
            }
        },
        PropValue::Num(n) => put_json_num(out, *n),
        PropValue::Str(st) => {
            out.append("\"");
            let esc = escape_json(st.as_str());
            out.append(esc.as_str());
            out.append("\"");
            proof {
                assert(out@ =~= old(out)@ + prop_text(p@));
            }
        },
    }
}

/// Appends one properties entry: the quoted, escaped key, a colon,
/// the value.
fn put_entry(out: &mut String, k: &str, v: &PropValue)
    ensures
        final(out)@ == old(out)@ + json_str_text(k@) + ":"@ + prop_text(v@),
{
    out.append("\"");
    let esc = escape_json(k);
    out.append(esc.as_str());
    out.append("\"");
    out.append(":");
    put_prop(out, v);
    proof {
        assert(out@ =~= old(out)@ + json_str_text(k@) + ":"@ + prop_text(v@));
    }
}


/// Appends the `time` and `id` entries, comma-separated.
fn put_time_id_entries(out: &mut String, ts: &str, id: &str)
    ensures
        final(out)@ == old(out)@ + (json_str_text("time"@) + ":"@ + prop_text(
            PropView::Str(ts@),
        )) + ","@ + (json_str_text("id"@) + ":"@ + prop_text(PropView::Str(id@))),
{
    out.append("\"");
    let esc = escape_json("time");
    out.append(esc.as_str());
    out.append("\"");
    out.append(":");
    out.append("\"");
    let esc = escape_json(ts);
    out.append(esc.as_str());
    out.append("\"");
    out.append(",");
    out.append("\"");
    let esc = escape_json("id");
    out.append(esc.as_str());
    out.append("\"");
    out.append(":");
    out.append("\"");
    let esc = escape_json(id);
    out.append(esc.as_str());
    out.append("\"");
    proof {
        assert(out@ =~= old(out)@ + (json_str_text("time"@) + ":"@ + prop_text(
            PropView::Str(ts@),
        )) + ","@ + (json_str_text("id"@) + ":"@ + prop_text(PropView::Str(id@))));
    }
}

/// The merged property body is the kept entries' body followed by the
/// `time` and `id` entries.
proof fn lemma_merged_inner(ps: Seq<(Seq<char>, PropView)>, ts: Seq<char>, id: Seq<char>)
    ensures
        props_inner_text(merged_props(ps, ts, id)) == (if kept_props(ps).len() == 0 {
            Seq::<char>::empty()
        } else {
            props_inner_text(kept_props(ps)) + ","@
        }) + (json_str_text("time"@) + ":"@ + prop_text(PropView::Str(ts))) + ","@ + (
        json_str_text("id"@) + ":"@ + prop_text(PropView::Str(id))),
{
    let m = merged_props(ps, ts, id);
    let kp = kept_props(ps);
    let te = ("time"@, PropView::Str(ts));
    let ie = ("id"@, PropView::Str(id));
    let et = json_str_text("time"@) + ":"@ + prop_text(PropView::Str(ts));
    let ei = json_str_text("id"@) + ":"@ + prop_text(PropView::Str(id));
    assert(m.len() == kp.len() + 2);
    assert(m.drop_last() =~= kp.push(te));
    assert(m.last() == ie);
    if kp.len() == 0 {
        assert(m.drop_last() =~= seq![te]);
        assert(m.drop_last()[0] == te);
        assert(props_inner_text(m.drop_last()) =~= et);
        assert(props_inner_text(m) =~= Seq::<char>::empty() + et + ","@ + ei);
    } else {
        let mk = kp.push(te);
        assert(mk.drop_last() =~= kp);
        assert(mk.last() == te);
        assert(props_inner_text(mk) =~= props_inner_text(kp) + ","@ + et);
        assert(props_inner_text(m) =~= (props_inner_text(kp) + ","@) + et + ","@ + ei);
    }
}

/// Appends the merged properties object body: the kept base entries
/// in order, then `time` and `id`.
#[verifier::loop_isolation(false)]
#[verifier::rlimit(100)]
fn put_merged_props(out: &mut String, props: &Vec<(String, PropValue)>, ts: &str, id: &str)
    ensures
        final(out)@ == old(out)@ + props_inner_text(merged_props(props_view(*props), ts@, id@)),
{
    let ghost ps = props_view(*props);
    let ghost base = out@;
    let mut emitted: usize = 0;
    let mut i: usize = 0;
    proof {
        assert(kept_props(ps.subrange(0, 0)) =~= Seq::<(Seq<char>, PropView)>::empty());
    }
    while i < props.len()
        invariant
            i <= props.len(),
            emitted <= i,
            emitted == kept_props(ps.subrange(0, i as int)).len(),
            out@ == base + props_inner_text(kept_props(ps.subrange(0, i as int))),
        decreases props.len() - i,
    {
        let keep = !str_eq_str(props[i].0.as_str(), "time") && !str_eq_str(
            props[i].0.as_str(),
            "id",
        );
        proof {
            let sub1 = ps.subrange(0, i + 1);
            assert(sub1.drop_last() =~= ps.subrange(0, i as int));
            assert(sub1.last() == ps[i as int]);
            assert(ps[i as int].0 == props@[i as int].0@);
            assert(ps[i as int].1 == props@[i as int].1@);
        }
        if keep {
            if emitted > 0 {
                out.append(",");
            }
            put_entry(out, props[i].0.as_str(), &props[i].1);
            emitted = emitted + 1;
            proof {
                let sub1 = ps.subrange(0, i + 1);
                let kp = kept_props(sub1);
                assert(kp =~= kept_props(ps.subrange(0, i as int)).push(ps[i as int]));
                assert(kp.drop_last() =~= kept_props(ps.subrange(0, i as int)));
                assert(out@ =~= base + props_inner_text(kp));
            }
        } else {
            proof {
                assert(kept_props(ps.subrange(0, i + 1)) =~= kept_props(
                    ps.subrange(0, i as int),
                ));
            }
        }
        i = i + 1;
    }
    proof {
        assert(ps.subrange(0, ps.len() as int) =~= ps);
    }
    if emitted > 0 {
        out.append(",");
    }
    put_time_id_entries(out, ts, id);
    proof {
        lemma_merged_inner(ps, ts@, id@);
        assert(out@ =~= old(out)@ + props_inner_text(merged_props(ps, ts@, id@)));
    }
}

/// The record and base-property content of a list of records.
pub open spec fn recs_props_of<F: FootprintLike>(v: Vec<F>) -> Seq<
    (RecView, Seq<(Seq<char>, PropView)>),
> {
    Seq::new(v@.len(), |i: int| (v@[i].rec(), v@[i].props()))
}

/// The texts of built features, in order.
pub open spec fn strs_view(v: Vec<String>) -> Seq<Seq<char>> {
    Seq::new(v@.len(), |i: int| v@[i]@)
}

/// Prefixes already-built features to a continuation.
spec fn fjoin(pre: Seq<Seq<char>>, o: Option<Seq<Seq<char>>>) -> Option<Seq<Seq<char>>> {
    match o {
        None => None,
        Some(rest) => Some(pre + rest),
    }
}

/// Builds one feature's text.
fn feature_string<F: FootprintLike>(fp: &F) -> (r: Result<String, EncodingError>)
    ensures
        match r {
            Ok(s) => feature_of(fp.rec(), fp.props()) == Some(s@),
            Err(_) => feature_of(fp.rec(), fp.props()) is None,
        },
{
    let ti = fp.time_interval();
    let mt = f64_mean(ti.0, ti.1);
    match f64_time_text(mt) {
        None => Err(EncodingError::UnrepresentableTime),
        Some(ts) => {
            let mut out = String::new();
            out.append(
                "{\"type\":\"Feature\",\"geometry\":{\"type\":\"MultiPolygon\",\"coordinates\":",
            );
            put_mpoly_coords(&mut out, fp.outline());
            out.append("},\"properties\":{");
            let props = fp.properties();
            put_merged_props(&mut out, &props, ts.as_str(), fp.id());
            out.append("}}");
            proof {
                assert(out@ =~= feature_text(fp.rec(), fp.props(), ts@));
            }
            Ok(out)
        },
    }
}

/// Renders the whole feature collection exactly as [`geojson_of`]
/// states; fails with the first record whose midpoint timestamp the
/// target format cannot carry.
#[verifier::loop_isolation(false)]
#[verifier::rlimit(60)]
pub fn export_geojson_string<F: FootprintLike>(footprints: &Vec<F>, pretty: bool) -> (r: Result<
    String,
    EncodingError,
>)
    ensures
        match r {
            Ok(s) => geojson_of(recs_props_of(*footprints), pretty) == Some(s@),
            Err(_) => geojson_of(recs_props_of(*footprints), pretty) is None,
        },
{
    let ghost prs = recs_props_of(*footprints);
    let mut feats: Vec<String> = Vec::new();
    let mut i: usize = 0;
    proof {
        assert(prs.subrange(0, prs.len() as int) =~= prs);
        if features_of(prs) is Some {
            assert(strs_view(feats) + features_of(prs)->Some_0 =~= features_of(prs)->Some_0);
        }
    }
    while i < footprints.len()
        invariant
            i <= footprints.len(),
            features_of(prs) == fjoin(
                strs_view(feats),
                features_of(prs.subrange(i as int, prs.len() as int)),
            ),
        decreases footprints.len() - i,
    {
        let ghost tail = prs.subrange(i as int, prs.len() as int);
        proof {
            assert(tail[0] == prs[i as int]);
            assert(tail.drop_first() =~= prs.subrange(i + 1, prs.len() as int));
        }
        match feature_string(&footprints[i]) {
            Err(e) => {
                proof {
                    assert(features_of(tail) is None);
                }
                return Err(e);
            },
            Ok(f) => {
                let ghost f0 = strs_view(feats);
                let ghost fv = f@;
                feats.push(f);
                proof {
                    assert(strs_view(feats) =~= f0.push(fv));
                    let cont = features_of(prs.subrange(i + 1, prs.len() as int));
                    if cont is Some {
                        assert(f0 + (seq![fv] + cont->Some_0) =~= strs_view(feats)
                            + cont->Some_0);
                    }
                }
            },
        }
        i = i + 1;
    }
    proof {
        assert(prs.subrange(prs.len() as int, prs.len() as int) =~= Seq::<
            (RecView, Seq<(Seq<char>, PropView)>),
        >::empty());
        assert(strs_view(feats) + Seq::<Seq<char>>::empty() =~= strs_view(feats));
    }
    let ghost fvs = strs_view(feats);
    let mut out = String::new();
    if pretty {
        out.append("{\n  \"type\": \"FeatureCollection\",\n  \"features\": [");
        let ghost base = out@;
        let mut k: usize = 0;
        while k < feats.len()
            invariant
                k <= feats.len(),
                fvs == strs_view(feats),
                out@ == base + features_pretty_text(fvs.subrange(0, k as int)),
            decreases feats.len() - k,
        {
            if k == 0 {
                out.append("\n    ");
            } else {
                out.append(",\n    ");
            }
            out.append(feats[k].as_str());
            proof {
                let sub1 = fvs.subrange(0, k + 1);
                assert(sub1.drop_last() =~= fvs.subrange(0, k as int));
                assert(sub1.last() == fvs[k as int]);
                assert(sub1[0] == fvs[0]);
                assert(out@ =~= base + features_pretty_text(sub1));
            }
            k = k + 1;
        }
        out.append("\n  ]\n}");
        proof {
            assert(fvs.subrange(0, fvs.len() as int) =~= fvs);
            assert(out@ =~= collection_text(fvs, pretty));
        }
    } else {
        out.append("{\"type\":\"FeatureCollection\",\"features\":[");
        let ghost base = out@;
        let mut k: usize = 0;
        while k < feats.len()
            invariant
                k <= feats.len(),
                fvs == strs_view(feats),
                out@ == base + features_inner_text(fvs.subrange(0, k as int)),
            decreases feats.len() - k,
        {
            if k > 0 {
                out.append(",");
            }
            out.append(feats[k].as_str());
            proof {
                let sub1 = fvs.subrange(0, k + 1);
                assert(sub1.drop_last() =~= fvs.subrange(0, k as int));
                assert(sub1.last() == fvs[k as int]);
                assert(sub1[0] == fvs[0]);
                assert(out@ =~= base + features_inner_text(sub1));
            }
            k = k + 1;
        }
        out.append("]}");
        proof {
            assert(fvs.subrange(0, fvs.len() as int) =~= fvs);
            assert(out@ =~= collection_text(fvs, pretty));
        }
    }
    Ok(out)
}

impl Footprints {
    /// Renders this collection's feature-collection JSON.
    pub fn export_geojson_string(&self, pretty: bool) -> (r: Result<String, EncodingError>)
        ensures
            match r {
                Ok(s) => geojson_of(recs_props_of(self.footprints), pretty) == Some(s@),
                Err(_) => geojson_of(recs_props_of(self.footprints), pretty) is None,
            },
    {
        export_geojson_string(&self.footprints, pretty)
    }
}

} // verus!
