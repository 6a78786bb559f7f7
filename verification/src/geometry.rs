//! Vector geometries and their GeoPackage binary encoding.
//!
//! A GeoPackage geometry blob is `G`, `P`, a version byte, a flags byte, the
//! SRS id (4 bytes), an optional envelope, then an ISO WKB geometry.  The
//! writer produces little-endian blobs without an envelope; the reader takes
//! little-endian blobs with any of the standard envelope sizes.
//!
//! Coordinates are IEEE-754 doubles, held here by their bit patterns.

use crate::bytes::{
    get_u32, get_u64, lemma_read_le32, lemma_read_le64, lemma_window_split, le32, le64, push_le32,
    push_le64, read_u32, read_u64, window,
};
use vstd::prelude::*;

verus! {

/// A 2-D coordinate; `x` and `y` are the bit patterns of IEEE-754 doubles.
#[derive(Clone, Copy, PartialEq, Eq, Debug, Structural)]
pub struct Coord {
    pub x: u64,
    pub y: u64,
}

/// A vector geometry.
#[derive(Debug)]
pub enum Geometry {
    Point(Coord),
    LineString(Vec<Coord>),
    Polygon { exterior: Vec<Coord>, interiors: Vec<Vec<Coord>> },
    MultiPoint(Vec<Coord>),
    MultiLineString(Vec<Vec<Coord>>),
    MultiPolygon(Vec<(Vec<Coord>, Vec<Vec<Coord>>)>),
}

/// The mathematical value of a geometry.
pub enum GeometryV {
    Point(Coord),
    LineString(Seq<Coord>),
    Polygon(Seq<Coord>, Seq<Seq<Coord>>),
    MultiPoint(Seq<Coord>),
    MultiLineString(Seq<Seq<Coord>>),
    MultiPolygon(Seq<(Seq<Coord>, Seq<Seq<Coord>>)>),
}

/// The views of a list of coordinate lists.
pub open spec fn lines_view(v: Seq<Vec<Coord>>) -> Seq<Seq<Coord>> {
    v.map_values(|l: Vec<Coord>| l@)
}

/// The views of a list of polygons (exterior, interiors).
pub open spec fn polys_view(v: Seq<(Vec<Coord>, Vec<Vec<Coord>>)>) -> Seq<(Seq<Coord>, Seq<Seq<Coord>>)> {
    v.map_values(|p: (Vec<Coord>, Vec<Vec<Coord>>)| (p.0@, lines_view(p.1@)))
}

impl View for Geometry {
    type V = GeometryV;

    open spec fn view(&self) -> GeometryV {
        match self {
            Geometry::Point(c) => GeometryV::Point(*c),
            Geometry::LineString(s) => GeometryV::LineString(s@),
            Geometry::Polygon { exterior, interiors } => GeometryV::Polygon(
                exterior@,
                lines_view(interiors@),
            ),
            Geometry::MultiPoint(s) => GeometryV::MultiPoint(s@),
            Geometry::MultiLineString(ls) => GeometryV::MultiLineString(lines_view(ls@)),
            Geometry::MultiPolygon(ps) => GeometryV::MultiPolygon(polys_view(ps@)),
        }
    }
}

/// The geometry kinds that a layer can declare.
#[derive(Clone, Copy, PartialEq, Eq, Debug, Structural)]
pub enum GeometryType {
    Point,
    LineString,
    Polygon,
    MultiPoint,
    MultiLineString,
    MultiPolygon,
    GeometryCollection,
}

/// The name of a geometry kind.
pub open spec fn geometry_type_name(t: GeometryType) -> Seq<char> {
    match t {
        GeometryType::Point => "Point"@,
        GeometryType::LineString => "LineString"@,
        GeometryType::Polygon => "Polygon"@,
        GeometryType::MultiPoint => "MultiPoint"@,
        GeometryType::MultiLineString => "MultiLineString"@,
        GeometryType::MultiPolygon => "MultiPolygon"@,
        GeometryType::GeometryCollection => "GeometryCollection"@,
    }
}

impl GeometryType {
    /// The name of this geometry kind.
    pub fn as_str(&self) -> (r: &'static str)
        ensures
            r@ == geometry_type_name(*self),
    {
        match self {
            GeometryType::Point => "Point",
            GeometryType::LineString => "LineString",
            GeometryType::Polygon => "Polygon",
            GeometryType::MultiPoint => "MultiPoint",
            GeometryType::MultiLineString => "MultiLineString",
            GeometryType::MultiPolygon => "MultiPolygon",
            GeometryType::GeometryCollection => "GeometryCollection",
        }
    }
}

// ─────────────────────────────────────────────────────────────────────────────
// Encoding (spec)
// ─────────────────────────────────────────────────────────────────────────────

/// One coordinate: `x`, then `y`, as little-endian doubles.
pub open spec fn enc_coord(c: Coord) -> Seq<u8> {
    le64(c.x) + le64(c.y)
}

/// The coordinates of a list, in order, without a count.
pub open spec fn enc_coord_list(s: Seq<Coord>) -> Seq<u8>
    decreases s.len(),
{
    if s.len() == 0 {
        Seq::empty()
    } else {
        enc_coord_list(s.drop_last()) + enc_coord(s.last())
    }
}

/// A point list: its count, then the coordinates.
pub open spec fn enc_coords(s: Seq<Coord>) -> Seq<u8> {
    le32(s.len() as u32) + enc_coord_list(s)
}

/// The rings of a list, each with its count, in order.
pub open spec fn enc_ring_list(rs: Seq<Seq<Coord>>) -> Seq<u8>
    decreases rs.len(),
{
    if rs.len() == 0 {
        Seq::empty()
    } else {
        enc_ring_list(rs.drop_last()) + enc_coords(rs.last())
    }
}

/// The rings of a polygon: the exterior, then the interiors.
pub open spec fn poly_rings(e: Seq<Coord>, ints: Seq<Seq<Coord>>) -> Seq<Seq<Coord>> {
    seq![e] + ints
}

/// A polygon body: the ring count, then the rings.
pub open spec fn enc_poly_body(e: Seq<Coord>, ints: Seq<Seq<Coord>>) -> Seq<u8> {
    le32((ints.len() + 1) as u32) + enc_ring_list(poly_rings(e, ints))
}

/// The WKB header: little-endian byte order, then the geometry type code.
pub open spec fn wkb_head(t: u32) -> Seq<u8> {
    seq![1u8] + le32(t)
}

/// The points of a multipoint, each a WKB point.
pub open spec fn enc_mpoint_list(s: Seq<Coord>) -> Seq<u8>
    decreases s.len(),
{
    if s.len() == 0 {
        Seq::empty()
    } else {
        enc_mpoint_list(s.drop_last()) + (wkb_head(1) + enc_coord(s.last()))
    }
}

/// The lines of a multilinestring, each a WKB linestring.
pub open spec fn enc_mline_list(s: Seq<Seq<Coord>>) -> Seq<u8>
    decreases s.len(),
{
    if s.len() == 0 {
        Seq::empty()
    } else {
        enc_mline_list(s.drop_last()) + (wkb_head(2) + enc_coords(s.last()))
    }
}

/// The polygons of a multipolygon, each a WKB polygon.
pub open spec fn enc_mpoly_list(s: Seq<(Seq<Coord>, Seq<Seq<Coord>>)>) -> Seq<u8>
    decreases s.len(),
{
    if s.len() == 0 {
        Seq::empty()
    } else {
        enc_mpoly_list(s.drop_last()) + (wkb_head(3) + enc_poly_body(s.last().0, s.last().1))
    }
}

/// The ISO WKB encoding of a geometry (little endian, XY).
pub open spec fn enc_wkb(g: GeometryV) -> Seq<u8> {
    match g {
        GeometryV::Point(c) => wkb_head(1) + enc_coord(c),
        GeometryV::LineString(s) => wkb_head(2) + enc_coords(s),
        GeometryV::Polygon(e, ints) => wkb_head(3) + enc_poly_body(e, ints),
        GeometryV::MultiPoint(s) => wkb_head(4) + (le32(s.len() as u32) + enc_mpoint_list(s)),
        GeometryV::MultiLineString(s) => wkb_head(5) + (le32(s.len() as u32) + enc_mline_list(
            s,
        )),
        GeometryV::MultiPolygon(s) => wkb_head(6) + (le32(s.len() as u32) + enc_mpoly_list(s)),
    }
}

/// The GeoPackage blob of a geometry: magic `GP`, version 0, flags
/// (little endian, no envelope), the SRS id, then the WKB.
pub open spec fn gpkg_blob(g: GeometryV, srs_id: i32) -> Seq<u8> {
    seq![0x47u8, 0x50u8, 0u8, 1u8] + le32(srs_id as u32) + enc_wkb(g)
}

/// Every count in the geometry fits in the 32-bit counts of WKB.
pub open spec fn fits(g: GeometryV) -> bool {
    match g {
        GeometryV::Point(_) => true,
        GeometryV::LineString(s) => s.len() <= u32::MAX,
        GeometryV::Polygon(e, ints) => e.len() <= u32::MAX && ints.len() < u32::MAX && forall|
            i: int,
        | 0 <= i < ints.len() ==> (#[trigger] ints[i]).len() <= u32::MAX,
        GeometryV::MultiPoint(s) => s.len() <= u32::MAX,
        GeometryV::MultiLineString(s) => s.len() <= u32::MAX && forall|i: int|
            0 <= i < s.len() ==> (#[trigger] s[i]).len() <= u32::MAX,
        GeometryV::MultiPolygon(s) => s.len() <= u32::MAX && forall|i: int|
            0 <= i < s.len() ==> poly_fits(#[trigger] s[i]),
    }
}

// ─────────────────────────────────────────────────────────────────────────────
// Decoding (spec)
// ─────────────────────────────────────────────────────────────────────────────

/// The coordinate at byte `p`.
pub open spec fn p_coord(b: Seq<u8>, p: int) -> Option<Coord> {
    if 0 <= p && p + 16 <= b.len() {
        Some(Coord { x: get_u64(b, p), y: get_u64(b, p + 8) })
    } else {
        None
    }
}

/// `n` coordinates from byte `p`, and the position after them.
pub open spec fn p_coord_list(b: Seq<u8>, p: int, n: nat) -> Option<(Seq<Coord>, int)>
    decreases n,
{
    if n == 0 {
        Some((Seq::empty(), p))
    } else {
        match p_coord_list(b, p, (n - 1) as nat) {
            Some((cs, q)) => match p_coord(b, q) {
                Some(c) => Some((cs.push(c), q + 16)),
                None => None,
            },
            None => None,
        }
    }
}

/// A counted coordinate list from byte `p`, and the position after it.
pub open spec fn p_coords(b: Seq<u8>, p: int) -> Option<(Seq<Coord>, int)> {
    if 0 <= p && p + 4 <= b.len() {
        p_coord_list(b, p + 4, get_u32(b, p) as nat)
    } else {
        None
    }
}

/// `n` counted rings from byte `p`, and the position after them.
pub open spec fn p_ring_list(b: Seq<u8>, p: int, n: nat) -> Option<(Seq<Seq<Coord>>, int)>
    decreases n,
{
    if n == 0 {
        Some((Seq::empty(), p))
    } else {
        match p_ring_list(b, p, (n - 1) as nat) {
            Some((rs, q)) => match p_coords(b, q) {
                Some((r, q2)) => Some((rs.push(r), q2)),
                None => None,
            },
            None => None,
        }
    }
}

/// A polygon body from byte `p`, and the position after it.
pub open spec fn p_poly_body(b: Seq<u8>, p: int) -> Option<((Seq<Coord>, Seq<Seq<Coord>>), int)> {
    if 0 <= p && p + 4 <= b.len() && get_u32(b, p) >= 1 {
        match p_ring_list(b, p + 4, get_u32(b, p) as nat) {
            Some((rs, q)) => Some(((rs[0], rs.drop_first()), q)),
            None => None,
        }
    } else {
        None
    }
}

/// A little-endian WKB header of type `t` stands at byte `p`.
pub open spec fn p_head(b: Seq<u8>, p: int, t: u32) -> bool {
    0 <= p && p + 5 <= b.len() && b[p] == 1 && get_u32(b, p + 1) == t
}

/// `n` WKB points from byte `p`, and the position after them.
pub open spec fn p_mpoint_list(b: Seq<u8>, p: int, n: nat) -> Option<(Seq<Coord>, int)>
    decreases n,
{
    if n == 0 {
        Some((Seq::empty(), p))
    } else {
        match p_mpoint_list(b, p, (n - 1) as nat) {
            Some((cs, q)) => if p_head(b, q, 1) {
                match p_coord(b, q + 5) {
                    Some(c) => Some((cs.push(c), q + 21)),
                    None => None,
                }
            } else {
                None
            },
            None => None,
        }
    }
}

/// `n` WKB linestrings from byte `p`, and the position after them.
pub open spec fn p_mline_list(b: Seq<u8>, p: int, n: nat) -> Option<(Seq<Seq<Coord>>, int)>
    decreases n,
{
    if n == 0 {
        Some((Seq::empty(), p))
    } else {
        match p_mline_list(b, p, (n - 1) as nat) {
            Some((ls, q)) => if p_head(b, q, 2) {
                match p_coords(b, q + 5) {
                    Some((l, q2)) => Some((ls.push(l), q2)),
                    None => None,
                }
            } else {
                None
            },
            None => None,
        }
    }
}

/// `n` WKB polygons from byte `p`, and the position after them.
pub open spec fn p_mpoly_list(b: Seq<u8>, p: int, n: nat) -> Option<
    (Seq<(Seq<Coord>, Seq<Seq<Coord>>)>, int),
>
    decreases n,
{
    if n == 0 {
        Some((Seq::empty(), p))
    } else {
        match p_mpoly_list(b, p, (n - 1) as nat) {
            Some((ps, q)) => if p_head(b, q, 3) {
                match p_poly_body(b, q + 5) {
                    Some((poly, q2)) => Some((ps.push(poly), q2)),
                    None => None,
                }
            } else {
                None
            },
            None => None,
        }
    }
}

/// Decodes one little-endian XY WKB geometry at `b[p..]`.
pub open spec fn p_wkb(b: Seq<u8>, p: int) -> Option<(GeometryV, int)> {
    if 0 <= p && p + 5 <= b.len() && b[p] == 1 {
        let t = get_u32(b, p + 1);
        let q = p + 5;
        if t == 1 {
            match p_coord(b, q) {
                Some(c) => Some((GeometryV::Point(c), q + 16)),
                None => None,
            }
        } else if t == 2 {
            match p_coords(b, q) {
                Some((s, q2)) => Some((GeometryV::LineString(s), q2)),
                None => None,
            }
        } else if t == 3 {
            match p_poly_body(b, q) {
                Some((poly, q2)) => Some((GeometryV::Polygon(poly.0, poly.1), q2)),
                None => None,
            }
        } else if (t == 4 || t == 5 || t == 6) && q + 4 <= b.len() {
            let n = get_u32(b, q) as nat;
            if t == 4 {
                match p_mpoint_list(b, q + 4, n) {
                    Some((s, q2)) => Some((GeometryV::MultiPoint(s), q2)),
                    None => None,
                }
            } else if t == 5 {
                match p_mline_list(b, q + 4, n) {
                    Some((s, q2)) => Some((GeometryV::MultiLineString(s), q2)),
                    None => None,
                }
            } else {
                match p_mpoly_list(b, q + 4, n) {
                    Some((s, q2)) => Some((GeometryV::MultiPolygon(s), q2)),
                    None => None,
                }
            }
        } else {
            None
        }
    } else {
        None
    }
}

/// The size of the envelope that envelope-contents code `e` announces.
pub open spec fn envelope_len(e: u8) -> int {
    if e == 0 {
        0
    } else if e == 1 {
        32
    } else if e == 2 || e == 3 {
        48
    } else {
        64
    }
}

/// Decodes a GeoPackage geometry blob into the geometry and its SRS id.
pub open spec fn gpkg_decode(b: Seq<u8>) -> Option<(GeometryV, i32)> {
    if b.len() >= 8 && b[0] == 0x47 && b[1] == 0x50 && (b[3] & 1u8) == 1u8 && (b[3] & 0x20u8)
        == 0u8 && ((b[3] >> 1u8) & 7u8) <= 4 {
        match p_wkb(b, 8 + envelope_len(((b[3] >> 1u8) & 7u8))) {
            Some((g, _)) => Some((g, get_u32(b, 4) as i32)),
            None => None,
        }
    } else {
        None
    }
}

// ─────────────────────────────────────────────────────────────────────────────
// Round trip: decoding an encoding gives the geometry back
// ─────────────────────────────────────────────────────────────────────────────

proof fn lemma_coord(b: Seq<u8>, p: int, c: Coord)
    requires
        window(b, p, enc_coord(c)),
    ensures
        p_coord(b, p) == Some(c),
{
    lemma_window_split(b, p, le64(c.x), le64(c.y));
    lemma_read_le64(b, p, c.x);
    lemma_read_le64(b, p + 8, c.y);
}

proof fn lemma_coord_list(b: Seq<u8>, p: int, s: Seq<Coord>)
    requires
        window(b, p, enc_coord_list(s)),
    ensures
        enc_coord_list(s).len() == 16 * s.len(),
        p_coord_list(b, p, s.len()) == Some((s, p + 16 * s.len())),
    decreases s.len(),
{
    if s.len() > 0 {
        let s1 = s.drop_last();
        lemma_window_split(b, p, enc_coord_list(s1), enc_coord(s.last()));
        lemma_coord_list(b, p, s1);
        lemma_coord(b, p + 16 * s1.len(), s.last());
        assert(s1.push(s.last()) =~= s);
    }
}

proof fn lemma_coords(b: Seq<u8>, p: int, s: Seq<Coord>)
    requires
        window(b, p, enc_coords(s)),
        s.len() <= u32::MAX,
    ensures
        enc_coords(s).len() == 4 + 16 * s.len(),
        p_coords(b, p) == Some((s, p + enc_coords(s).len())),
{
    lemma_window_split(b, p, le32(s.len() as u32), enc_coord_list(s));
    lemma_read_le32(b, p, s.len() as u32);
    lemma_coord_list(b, p + 4, s);
}

proof fn lemma_ring_list(b: Seq<u8>, p: int, rs: Seq<Seq<Coord>>)
    requires
        window(b, p, enc_ring_list(rs)),
        forall|i: int| 0 <= i < rs.len() ==> (#[trigger] rs[i]).len() <= u32::MAX,
    ensures
        p_ring_list(b, p, rs.len()) == Some((rs, p + enc_ring_list(rs).len())),
    decreases rs.len(),
{
    if rs.len() > 0 {
        let r1 = rs.drop_last();
        lemma_window_split(b, p, enc_ring_list(r1), enc_coords(rs.last()));
        assert forall|i: int| 0 <= i < r1.len() implies (#[trigger] r1[i]).len() <= u32::MAX by {
            assert(r1[i] == rs[i]);
        }
        lemma_ring_list(b, p, r1);
        assert(rs.last() == rs[rs.len() - 1]);
        lemma_coords(b, p + enc_ring_list(r1).len(), rs.last());
        assert(r1.push(rs.last()) =~= rs);
    }
}

proof fn lemma_poly_body(b: Seq<u8>, p: int, e: Seq<Coord>, ints: Seq<Seq<Coord>>)
    requires
        window(b, p, enc_poly_body(e, ints)),
        e.len() <= u32::MAX,
        ints.len() < u32::MAX,
        forall|i: int| 0 <= i < ints.len() ==> (#[trigger] ints[i]).len() <= u32::MAX,
    ensures
        p_poly_body(b, p) == Some(((e, ints), p + enc_poly_body(e, ints).len())),
{
    let rs = poly_rings(e, ints);
    lemma_window_split(b, p, le32((ints.len() + 1) as u32), enc_ring_list(rs));
    lemma_read_le32(b, p, (ints.len() + 1) as u32);
    assert forall|i: int| 0 <= i < rs.len() implies (#[trigger] rs[i]).len() <= u32::MAX by {
        if i > 0 {
            assert(rs[i] == ints[i - 1]);
        }
    }
    assert(rs.len() == ints.len() + 1);
    lemma_ring_list(b, p + 4, rs);
    assert(rs.drop_first() =~= ints);
}

proof fn lemma_head(b: Seq<u8>, p: int, t: u32)
    requires
        window(b, p, wkb_head(t)),
    ensures
        p_head(b, p, t),
{
    lemma_window_split(b, p, seq![1u8], le32(t));
    assert(b.subrange(p, p + 1)[0] == b[p]);
    lemma_read_le32(b, p + 1, t);
}

proof fn lemma_mpoint_list(b: Seq<u8>, p: int, s: Seq<Coord>)
    requires
        window(b, p, enc_mpoint_list(s)),
    ensures
        enc_mpoint_list(s).len() == 21 * s.len(),
        p_mpoint_list(b, p, s.len()) == Some((s, p + 21 * s.len())),
    decreases s.len(),
{
    if s.len() > 0 {
        let s1 = s.drop_last();
        let el = wkb_head(1) + enc_coord(s.last());
        lemma_window_split(b, p, enc_mpoint_list(s1), el);
        lemma_mpoint_list(b, p, s1);
        let q = p + 21 * s1.len();
        lemma_window_split(b, q, wkb_head(1), enc_coord(s.last()));
        lemma_head(b, q, 1);
        lemma_coord(b, q + 5, s.last());
        assert(s1.push(s.last()) =~= s);
    }
}

proof fn lemma_mline_list(b: Seq<u8>, p: int, s: Seq<Seq<Coord>>)
    requires
        window(b, p, enc_mline_list(s)),
        forall|i: int| 0 <= i < s.len() ==> (#[trigger] s[i]).len() <= u32::MAX,
    ensures
        p_mline_list(b, p, s.len()) == Some((s, p + enc_mline_list(s).len())),
    decreases s.len(),
{
    if s.len() > 0 {
        let s1 = s.drop_last();
        let el = wkb_head(2) + enc_coords(s.last());
        lemma_window_split(b, p, enc_mline_list(s1), el);
        assert forall|i: int| 0 <= i < s1.len() implies (#[trigger] s1[i]).len() <= u32::MAX by {
            assert(s1[i] == s[i]);
        }
        lemma_mline_list(b, p, s1);
        let q = p + enc_mline_list(s1).len();
        lemma_window_split(b, q, wkb_head(2), enc_coords(s.last()));
        lemma_head(b, q, 2);
        assert(s.last() == s[s.len() - 1]);
        lemma_coords(b, q + 5, s.last());
        assert(s1.push(s.last()) =~= s);
    }
}

/// Every count of a polygon fits the 32-bit counts of WKB.
pub open spec fn poly_fits(p: (Seq<Coord>, Seq<Seq<Coord>>)) -> bool {
    &&& p.0.len() <= u32::MAX
    &&& p.1.len() < u32::MAX
    &&& forall|j: int| 0 <= j < p.1.len() ==> (#[trigger] p.1[j]).len() <= u32::MAX
}

proof fn lemma_mpoly_list(b: Seq<u8>, p: int, s: Seq<(Seq<Coord>, Seq<Seq<Coord>>)>)
    requires
        window(b, p, enc_mpoly_list(s)),
        forall|i: int| 0 <= i < s.len() ==> poly_fits(#[trigger] s[i]),
    ensures
        p_mpoly_list(b, p, s.len()) == Some((s, p + enc_mpoly_list(s).len())),
    decreases s.len(),
{
    if s.len() > 0 {
        let s1 = s.drop_last();
        let last = s.last();
        let el = wkb_head(3) + enc_poly_body(last.0, last.1);
        lemma_window_split(b, p, enc_mpoly_list(s1), el);
        assert forall|i: int| 0 <= i < s1.len() implies poly_fits(#[trigger] s1[i]) by {
            assert(s1[i] == s[i]);
        }
        lemma_mpoly_list(b, p, s1);
        let q = p + enc_mpoly_list(s1).len();
        lemma_window_split(b, q, wkb_head(3), enc_poly_body(last.0, last.1));
        lemma_head(b, q, 3);
        assert(last == s[s.len() - 1]);
        assert(poly_fits(last));
        lemma_poly_body(b, q + 5, last.0, last.1);
        assert(s1.push(last) =~= s);
    }
}

proof fn lemma_wkb_multi(b: Seq<u8>, p: int, g: GeometryV)
    requires
        window(b, p, enc_wkb(g)),
        fits(g),
        g is MultiPoint || g is MultiLineString || g is MultiPolygon,
    ensures
        p_wkb(b, p) == Some((g, p + enc_wkb(g).len())),
{
    match g {
        GeometryV::MultiPoint(s) => {
            let rest = le32(s.len() as u32) + enc_mpoint_list(s);
            lemma_window_split(b, p, wkb_head(4), rest);
            lemma_head(b, p, 4);
            lemma_window_split(b, p + 5, le32(s.len() as u32), enc_mpoint_list(s));
            lemma_read_le32(b, p + 5, s.len() as u32);
            lemma_mpoint_list(b, p + 9, s);
        },
        GeometryV::MultiLineString(s) => {
            let rest = le32(s.len() as u32) + enc_mline_list(s);
            lemma_window_split(b, p, wkb_head(5), rest);
            lemma_head(b, p, 5);
            lemma_window_split(b, p + 5, le32(s.len() as u32), enc_mline_list(s));
            lemma_read_le32(b, p + 5, s.len() as u32);
            lemma_mline_list(b, p + 9, s);
        },
        GeometryV::MultiPolygon(s) => {
            let rest = le32(s.len() as u32) + enc_mpoly_list(s);
            lemma_window_split(b, p, wkb_head(6), rest);
            lemma_head(b, p, 6);
            lemma_window_split(b, p + 5, le32(s.len() as u32), enc_mpoly_list(s));
            lemma_read_le32(b, p + 5, s.len() as u32);
            assert forall|i: int| 0 <= i < s.len() implies poly_fits(#[trigger] s[i]) by {}
            lemma_mpoly_list(b, p + 9, s);
        },
        _ => {},
    }
}

proof fn lemma_wkb(b: Seq<u8>, p: int, g: GeometryV)
    requires
        window(b, p, enc_wkb(g)),
        fits(g),
    ensures
        p_wkb(b, p) == Some((g, p + enc_wkb(g).len())),
{
    match g {
        GeometryV::Point(c) => {
            lemma_window_split(b, p, wkb_head(1), enc_coord(c));
            lemma_head(b, p, 1);
            lemma_coord(b, p + 5, c);
        },
        GeometryV::LineString(s) => {
            lemma_window_split(b, p, wkb_head(2), enc_coords(s));
            lemma_head(b, p, 2);
            lemma_coords(b, p + 5, s);
        },
        GeometryV::Polygon(e, ints) => {
            lemma_window_split(b, p, wkb_head(3), enc_poly_body(e, ints));
            lemma_head(b, p, 3);
            lemma_poly_body(b, p + 5, e, ints);
        },
        _ => {
            lemma_wkb_multi(b, p, g);
        },
    }
}

/// Decoding the GeoPackage blob of a geometry gives back the geometry and
/// its SRS id.
pub proof fn lemma_gpkg_roundtrip(g: GeometryV, srs_id: i32)
    requires
        fits(g),
    ensures
        gpkg_decode(gpkg_blob(g, srs_id)) == Some((g, srs_id)),
{
    let b = gpkg_blob(g, srs_id);
    let h = seq![0x47u8, 0x50u8, 0u8, 1u8];
    assert(b =~= h + le32(srs_id as u32) + enc_wkb(g));
    assert(b[3] == 1u8);
    assert((1u8 & 1u8) == 1u8 && (1u8 & 0x20u8) == 0u8 && ((1u8 >> 1u8) & 7u8) == 0u8) by (bit_vector);
    assert(b.subrange(0, b.len() as int) =~= b);
    assert(window(b, 0, b));
    lemma_window_split(b, 0, h + le32(srs_id as u32), enc_wkb(g));
    lemma_window_split(b, 0, h, le32(srs_id as u32));
    lemma_read_le32(b, 4, srs_id as u32);
    assert((srs_id as u32) as i32 == srs_id) by (bit_vector);
    lemma_wkb(b, 8, g);
}


// ─────────────────────────────────────────────────────────────────────────────
// Encoding (exec)
// ─────────────────────────────────────────────────────────────────────────────

fn push_coord(out: &mut Vec<u8>, c: Coord)
    ensures
        final(out)@ == old(out)@ + enc_coord(c),
{
    let ghost o = out@;
    push_le64(out, c.x);
    push_le64(out, c.y);
    assert(final(out)@ =~= o + enc_coord(c));
}

fn push_coords(out: &mut Vec<u8>, s: &Vec<Coord>)
    requires
        s.len() <= u32::MAX,
    ensures
        final(out)@ == old(out)@ + enc_coords(s@),
{
    let ghost o = out@;
    push_le32(out, s.len() as u32);
    let mut i: usize = 0;
    while i < s.len()
        invariant
            i <= s.len() <= u32::MAX,
            out@ == o + le32(s@.len() as u32) + enc_coord_list(s@.take(i as int)),
        decreases s.len() - i,
    {
        let ghost before = out@;
        push_coord(out, s[i]);
        assert(s@.take(i + 1).drop_last() =~= s@.take(i as int));
        assert(out@ =~= o + le32(s@.len() as u32) + enc_coord_list(s@.take(i + 1)));
        i += 1;
    }
    assert(s@.take(s@.len() as int) =~= s@);
    assert(out@ =~= o + enc_coords(s@));
}

fn push_poly_body(out: &mut Vec<u8>, e: &Vec<Coord>, ints: &Vec<Vec<Coord>>)
    requires
        e.len() <= u32::MAX,
        ints.len() < u32::MAX,
        forall|i: int| 0 <= i < ints.len() ==> (#[trigger] ints@[i]).len() <= u32::MAX,
    ensures
        final(out)@ == old(out)@ + enc_poly_body(e@, lines_view(ints@)),
{
    let ghost o = out@;
    let ghost iv = lines_view(ints@);
    push_le32(out, (ints.len() + 1) as u32);
    let ghost base = out@;
    push_coords(out, e);
    proof {
        let r1 = poly_rings(e@, iv.take(0));
        assert(r1.drop_last() =~= Seq::<Seq<Coord>>::empty());
        assert(enc_ring_list(r1.drop_last()) =~= Seq::<u8>::empty());
        assert(r1.last() == e@);
        assert(out@ =~= base + enc_ring_list(r1));
    }
    let mut i: usize = 0;
    while i < ints.len()
        invariant
            i <= ints.len(),
            iv == lines_view(ints@),
            forall|k: int| 0 <= k < ints.len() ==> (#[trigger] ints@[k]).len() <= u32::MAX,
            out@ == base + enc_ring_list(poly_rings(e@, iv.take(i as int))),
        decreases ints.len() - i,
    {
        push_coords(out, &ints[i]);
        proof {
            let rs = poly_rings(e@, iv.take(i + 1));
            assert(rs.drop_last() =~= poly_rings(e@, iv.take(i as int)));
            assert(rs.last() == ints@[i as int]@);
            assert(out@ =~= base + enc_ring_list(rs));
        }
        i += 1;
    }
    assert(iv.take(ints.len() as int) =~= iv);
    assert(out@ =~= o + enc_poly_body(e@, iv));
}

fn push_head(out: &mut Vec<u8>, t: u32)
    ensures
        final(out)@ == old(out)@ + wkb_head(t),
{
    let ghost o = out@;
    out.push(1u8);
    push_le32(out, t);
    assert(final(out)@ =~= o + wkb_head(t));
}

fn push_multipoint(out: &mut Vec<u8>, s: &Vec<Coord>)
    requires
        s.len() <= u32::MAX,
    ensures
        final(out)@ == old(out)@ + enc_wkb(GeometryV::MultiPoint(s@)),
{
    let ghost o = out@;
    push_head(out, 4);
    let ghost b1 = out@;
    push_le32(out, s.len() as u32);
    let mut i: usize = 0;
    while i < s.len()
        invariant
            i <= s.len(),
            out@ == b1 + le32(s@.len() as u32) + enc_mpoint_list(s@.take(i as int)),
        decreases s.len() - i,
    {
        push_head(out, 1);
        push_coord(out, s[i]);
        assert(s@.take(i + 1).drop_last() =~= s@.take(i as int));
        assert(out@ =~= b1 + le32(s@.len() as u32) + enc_mpoint_list(s@.take(i + 1)));
        i += 1;
    }
    assert(s@.take(s@.len() as int) =~= s@);
    assert(final(out)@ =~= o + enc_wkb(GeometryV::MultiPoint(s@)));
}

fn push_multiline(out: &mut Vec<u8>, ls: &Vec<Vec<Coord>>)
    requires
        fits(GeometryV::MultiLineString(lines_view(ls@))),
    ensures
        final(out)@ == old(out)@ + enc_wkb(GeometryV::MultiLineString(lines_view(ls@))),
{
    let ghost o = out@;
    push_head(out, 5);
    let ghost b1 = out@;
    let ghost lv = lines_view(ls@);
    push_le32(out, ls.len() as u32);
    let mut i: usize = 0;
    while i < ls.len()
        invariant
            i <= ls.len(),
            lv == lines_view(ls@),
            fits(GeometryV::MultiLineString(lv)),
            out@ == b1 + le32(lv.len() as u32) + enc_mline_list(lv.take(i as int)),
        decreases ls.len() - i,
    {
        push_head(out, 2);
        assert(lv[i as int] == ls@[i as int]@);
        push_coords(out, &ls[i]);
        assert(lv.take(i + 1).drop_last() =~= lv.take(i as int));
        assert(out@ =~= b1 + le32(lv.len() as u32) + enc_mline_list(lv.take(i + 1)));
        i += 1;
    }
    assert(lv.take(lv.len() as int) =~= lv);
    assert(final(out)@ =~= o + enc_wkb(GeometryV::MultiLineString(lv)));
}

fn push_multipoly(out: &mut Vec<u8>, ps: &Vec<(Vec<Coord>, Vec<Vec<Coord>>)>)
    requires
        fits(GeometryV::MultiPolygon(polys_view(ps@))),
    ensures
        final(out)@ == old(out)@ + enc_wkb(GeometryV::MultiPolygon(polys_view(ps@))),
{
    let ghost o = out@;
    push_head(out, 6);
    let ghost b1 = out@;
    let ghost pv = polys_view(ps@);
    push_le32(out, ps.len() as u32);
    let mut i: usize = 0;
    while i < ps.len()
        invariant
            i <= ps.len(),
            pv == polys_view(ps@),
            fits(GeometryV::MultiPolygon(pv)),
            out@ == b1 + le32(pv.len() as u32) + enc_mpoly_list(pv.take(i as int)),
        decreases ps.len() - i,
    {
        push_head(out, 3);
        let ghost pi = pv[i as int];
        assert(pi == (ps@[i as int].0@, lines_view(ps@[i as int].1@)));
        proof {
            assert forall|j: int| 0 <= j < ps@[i as int].1.len() implies (
            #[trigger] ps@[i as int].1@[j]).len() <= u32::MAX by {
                assert(pi.1[j] == ps@[i as int].1@[j]@);
            }
        }
        push_poly_body(out, &ps[i].0, &ps[i].1);
        assert(pv.take(i + 1).drop_last() =~= pv.take(i as int));
        assert(out@ =~= b1 + le32(pv.len() as u32) + enc_mpoly_list(pv.take(i + 1)));
        i += 1;
    }
    assert(pv.take(pv.len() as int) =~= pv);
    assert(final(out)@ =~= o + enc_wkb(GeometryV::MultiPolygon(pv)));
}

/// Appends the WKB encoding of `g`.
fn push_wkb(out: &mut Vec<u8>, g: &Geometry)
    requires
        fits(g@),
    ensures
        final(out)@ == old(out)@ + enc_wkb(g@),
{
    let ghost o = out@;
    match g {
        Geometry::Point(c) => {
            push_head(out, 1);
            push_coord(out, *c);
            assert(final(out)@ =~= o + enc_wkb(g@));
        },
        Geometry::LineString(s) => {
            push_head(out, 2);
            push_coords(out, s);
            assert(final(out)@ =~= o + enc_wkb(g@));
        },
        Geometry::Polygon { exterior, interiors } => {
            push_head(out, 3);
            proof {
                assert forall|i: int| 0 <= i < interiors.len() implies (
                #[trigger] interiors@[i]).len() <= u32::MAX by {
                    assert(lines_view(interiors@)[i] == interiors@[i]@);
                }
            }
            push_poly_body(out, exterior, interiors);
            assert(final(out)@ =~= o + enc_wkb(g@));
        },
        Geometry::MultiPoint(s) => push_multipoint(out, s),
        Geometry::MultiLineString(ls) => push_multiline(out, ls),
        Geometry::MultiPolygon(ps) => push_multipoly(out, ps),
    }
}

/// Whether every line has at most `u32::MAX` points.
fn lines_fit(ls: &Vec<Vec<Coord>>) -> (r: bool)
    ensures
        r == forall|k: int| 0 <= k < ls.len() ==> (#[trigger] lines_view(ls@)[k]).len() <= u32::MAX,
{
    let ghost lv = lines_view(ls@);
    let mut i: usize = 0;
    while i < ls.len()
        invariant
            i <= ls.len(),
            lv == lines_view(ls@),
            forall|k: int| 0 <= k < i ==> (#[trigger] lv[k]).len() <= u32::MAX,
        decreases ls.len() - i,
    {
        assert(lv[i as int] == ls@[i as int]@);
        if ls[i].len() > 0xffff_ffff {
            assert(lv[i as int].len() > u32::MAX);
            return false;
        }
        i += 1;
    }
    true
}

impl Geometry {
    /// The GeoPackage blob of this geometry with the given SRS id.
    pub fn to_gpkg_wkb(&self, srs_id: i32) -> (r: Vec<u8>)
        requires
            fits(self@),
        ensures
            r@ == gpkg_blob(self@, srs_id),
    {
        let mut out: Vec<u8> = Vec::new();
        out.push(0x47u8);
        out.push(0x50u8);
        out.push(0u8);
        out.push(1u8);
        push_le32(&mut out, srs_id as u32);
        push_wkb(&mut out, self);
        assert(out@ =~= gpkg_blob(self@, srs_id));
        out
    }

    /// Whether every count of this geometry fits the 32-bit counts of WKB.
    pub fn wkb_fits(&self) -> (r: bool)
        ensures
            r == fits(self@),
    {
        match self {
            Geometry::Point(_) => true,
            Geometry::LineString(s) => s.len() <= 0xffff_ffff,
            Geometry::MultiPoint(s) => s.len() <= 0xffff_ffff,
            Geometry::Polygon { exterior, interiors } => exterior.len() <= 0xffff_ffff
                && interiors.len() < 0xffff_ffff && lines_fit(interiors),
            Geometry::MultiLineString(ls) => ls.len() <= 0xffff_ffff && lines_fit(ls),
            Geometry::MultiPolygon(ps) => {
                if ps.len() > 0xffff_ffff {
                    return false;
                }
                let ghost pv = polys_view(ps@);
                let mut i: usize = 0;
                while i < ps.len()
                    invariant
                        i <= ps.len(),
                        pv == polys_view(ps@),
                        self@ == GeometryV::MultiPolygon(pv),
                        forall|k: int| 0 <= k < i ==> poly_fits(#[trigger] pv[k]),
                    decreases ps.len() - i,
                {
                    let ghost pi = pv[i as int];
                    assert(pi == (ps@[i as int].0@, lines_view(ps@[i as int].1@)));
                    if ps[i].0.len() > 0xffff_ffff || ps[i].1.len() >= 0xffff_ffff || !lines_fit(
                        &ps[i].1,
                    ) {
                        assert(!poly_fits(pv[i as int]));
                        assert(self@ == GeometryV::MultiPolygon(pv));
                        assert(!fits(self@));
                        return false;
                    }
                    i += 1;
                }
                true
            },
        }
    }
}

// ─────────────────────────────────────────────────────────────────────────────
// Decoding (exec)
// ─────────────────────────────────────────────────────────────────────────────

proof fn lemma_ring_list_len(b: Seq<u8>, p: int, n: nat)
    requires
        p_ring_list(b, p, n) is Some,
    ensures
        (p_ring_list(b, p, n)->0).0.len() == n,
    decreases n,
{
    if n > 0 {
        lemma_ring_list_len(b, p, (n - 1) as nat);
    }
}

proof fn lemma_coord_list_none(b: Seq<u8>, p: int, k: nat, m: nat)
    requires
        p_coord_list(b, p, k) is None,
        k <= m,
    ensures
        p_coord_list(b, p, m) is None,
    decreases m,
{
    if m > k {
        lemma_coord_list_none(b, p, k, (m - 1) as nat);
    }
}

proof fn lemma_ring_list_none(b: Seq<u8>, p: int, k: nat, m: nat)
    requires
        p_ring_list(b, p, k) is None,
        k <= m,
    ensures
        p_ring_list(b, p, m) is None,
    decreases m,
{
    if m > k {
        lemma_ring_list_none(b, p, k, (m - 1) as nat);
    }
}

proof fn lemma_mpoint_list_none(b: Seq<u8>, p: int, k: nat, m: nat)
    requires
        p_mpoint_list(b, p, k) is None,
        k <= m,
    ensures
        p_mpoint_list(b, p, m) is None,
    decreases m,
{
    if m > k {
        lemma_mpoint_list_none(b, p, k, (m - 1) as nat);
    }
}

proof fn lemma_mline_list_none(b: Seq<u8>, p: int, k: nat, m: nat)
    requires
        p_mline_list(b, p, k) is None,
        k <= m,
    ensures
        p_mline_list(b, p, m) is None,
    decreases m,
{
    if m > k {
        lemma_mline_list_none(b, p, k, (m - 1) as nat);
    }
}

proof fn lemma_mpoly_list_none(b: Seq<u8>, p: int, k: nat, m: nat)
    requires
        p_mpoly_list(b, p, k) is None,
        k <= m,
    ensures
        p_mpoly_list(b, p, m) is None,
    decreases m,
{
    if m > k {
        lemma_mpoly_list_none(b, p, k, (m - 1) as nat);
    }
}

fn read_coord(b: &Vec<u8>, p: usize) -> (r: Option<Coord>)
    ensures
        r == p_coord(b@, p as int),
{
    if b.len() < 16 || p > b.len() - 16 {
        None
    } else {
        Some(Coord { x: read_u64(b, p), y: read_u64(b, p + 8) })
    }
}

fn read_coord_list(b: &Vec<u8>, p: usize, n: u32) -> (r: Option<(Vec<Coord>, usize)>)
    requires
        p <= b.len(),
    ensures
        match p_coord_list(b@, p as int, n as nat) {
            Some((cs, q)) => r matches Some((v, rq)) && v@ == cs && rq == q,
            None => r is None,
        },
{
    let mut out: Vec<Coord> = Vec::new();
    let mut q = p;
    let mut i: u32 = 0;
    while i < n
        invariant
            i <= n,
            q <= b.len(),
            p_coord_list(b@, p as int, i as nat) == Some((out@, q as int)),
        decreases n - i,
    {
        match read_coord(b, q) {
            Some(c) => {
                out.push(c);
                q = q + 16;
            },
            None => {
                proof {
                    lemma_coord_list_none(b@, p as int, (i + 1) as nat, n as nat);
                }
                return None;
            },
        }
        i += 1;
    }
    Some((out, q))
}

fn read_coords(b: &Vec<u8>, p: usize) -> (r: Option<(Vec<Coord>, usize)>)
    requires
        p <= b.len(),
    ensures
        match p_coords(b@, p as int) {
            Some((cs, q)) => r matches Some((v, rq)) && v@ == cs && rq == q,
            None => r is None,
        },
{
    if b.len() - p < 4 {
        return None;
    }
    let n = read_u32(b, p);
    read_coord_list(b, p + 4, n)
}

fn read_ring_list(b: &Vec<u8>, p: usize, n: u32) -> (r: Option<(Vec<Vec<Coord>>, usize)>)
    requires
        p <= b.len(),
    ensures
        match p_ring_list(b@, p as int, n as nat) {
            Some((rs, q)) => r matches Some((v, rq)) && lines_view(v@) == rs && rq == q,
            None => r is None,
        },
{
    let mut out: Vec<Vec<Coord>> = Vec::new();
    let mut q = p;
    let mut i: u32 = 0;
    while i < n
        invariant
            i <= n,
            q <= b.len(),
            p_ring_list(b@, p as int, i as nat) == Some((lines_view(out@), q as int)),
        decreases n - i,
    {
        match read_coords(b, q) {
            Some((ring, q2)) => {
                let ghost prev = out@;
                out.push(ring);
                assert(lines_view(out@) =~= lines_view(prev).push(ring@));
                q = q2;
            },
            None => {
                proof {
                    lemma_ring_list_none(b@, p as int, (i + 1) as nat, n as nat);
                }
                return None;
            },
        }
        i += 1;
    }
    Some((out, q))
}

fn read_poly_body(b: &Vec<u8>, p: usize) -> (r: Option<((Vec<Coord>, Vec<Vec<Coord>>), usize)>)
    requires
        p <= b.len(),
    ensures
        match p_poly_body(b@, p as int) {
            Some((poly, q)) => r matches Some((v, rq)) && v.0@ == poly.0 && lines_view(v.1@)
                == poly.1 && rq == q,
            None => r is None,
        },
{
    if b.len() - p < 4 {
        return None;
    }
    let n = read_u32(b, p);
    if n < 1 {
        return None;
    }
    match read_ring_list(b, p + 4, n) {
        Some((mut rings, q)) => {
            let ghost rv = lines_view(rings@);
            proof {
                lemma_ring_list_len(b@, (p + 4) as int, n as nat);
            }
            assert(rv.len() == n);
            let ext = rings.remove(0);
            assert(lines_view(rings@) =~= rv.drop_first());
            Some(((ext, rings), q))
        },
        None => None,
    }
}

fn read_head(b: &Vec<u8>, p: usize, t: u32) -> (r: bool)
    requires
        p <= b.len(),
    ensures
        r == p_head(b@, p as int, t),
{
    if b.len() - p < 5 {
        return false;
    }
    b[p] == 1u8 && read_u32(b, p + 1) == t
}

fn read_mpoint_list(b: &Vec<u8>, p: usize, n: u32) -> (r: Option<(Vec<Coord>, usize)>)
    requires
        p <= b.len(),
    ensures
        match p_mpoint_list(b@, p as int, n as nat) {
            Some((cs, q)) => r matches Some((v, rq)) && v@ == cs && rq == q,
            None => r is None,
        },
{
    let mut out: Vec<Coord> = Vec::new();
    let mut q = p;
    let mut i: u32 = 0;
    while i < n
        invariant
            i <= n,
            q <= b.len(),
            p_mpoint_list(b@, p as int, i as nat) == Some((out@, q as int)),
        decreases n - i,
    {
        let ok = read_head(b, q, 1);
        let c = if ok {
            read_coord(b, q + 5)
        } else {
            None
        };
        match c {
            Some(c) => {
                out.push(c);
                q = q + 21;
            },
            None => {
                proof {
                    lemma_mpoint_list_none(b@, p as int, (i + 1) as nat, n as nat);
                }
                return None;
            },
        }
        i += 1;
    }
    Some((out, q))
}

fn read_mline_list(b: &Vec<u8>, p: usize, n: u32) -> (r: Option<(Vec<Vec<Coord>>, usize)>)
    requires
        p <= b.len(),
    ensures
        match p_mline_list(b@, p as int, n as nat) {
            Some((ls, q)) => r matches Some((v, rq)) && lines_view(v@) == ls && rq == q,
            None => r is None,
        },
{
    let mut out: Vec<Vec<Coord>> = Vec::new();
    let mut q = p;
    let mut i: u32 = 0;
    while i < n
        invariant
            i <= n,
            q <= b.len(),
            p_mline_list(b@, p as int, i as nat) == Some((lines_view(out@), q as int)),
        decreases n - i,
    {
        let ok = read_head(b, q, 2);
        let l = if ok {
            read_coords(b, q + 5)
        } else {
            None
        };
        match l {
            Some((line, q2)) => {
                let ghost prev = out@;
                out.push(line);
                assert(lines_view(out@) =~= lines_view(prev).push(line@));
                q = q2;
            },
            None => {
                proof {
                    lemma_mline_list_none(b@, p as int, (i + 1) as nat, n as nat);
                }
                return None;
            },
        }
        i += 1;
    }
    Some((out, q))
}

fn read_mpoly_list(b: &Vec<u8>, p: usize, n: u32) -> (r: Option<
    (Vec<(Vec<Coord>, Vec<Vec<Coord>>)>, usize),
>)
    requires
        p <= b.len(),
    ensures
        match p_mpoly_list(b@, p as int, n as nat) {
            Some((ps, q)) => r matches Some((v, rq)) && polys_view(v@) == ps && rq == q,
            None => r is None,
        },
{
    let mut out: Vec<(Vec<Coord>, Vec<Vec<Coord>>)> = Vec::new();
    let mut q = p;
    let mut i: u32 = 0;
    while i < n
        invariant
            i <= n,
            q <= b.len(),
            p_mpoly_list(b@, p as int, i as nat) == Some((polys_view(out@), q as int)),
        decreases n - i,
    {
        let ok = read_head(b, q, 3);
        let pb = if ok {
            read_poly_body(b, q + 5)
        } else {
            None
        };
        match pb {
            Some((poly, q2)) => {
                let ghost prev = out@;
                let ghost pvw = (poly.0@, lines_view(poly.1@));
                out.push(poly);
                assert(polys_view(out@) =~= polys_view(prev).push(pvw));
                q = q2;
            },
            None => {
                proof {
                    lemma_mpoly_list_none(b@, p as int, (i + 1) as nat, n as nat);
                }
                return None;
            },
        }
        i += 1;
    }
    Some((out, q))
}

fn read_wkb(b: &Vec<u8>, p: usize) -> (r: Option<Geometry>)
    requires
        p <= b.len(),
    ensures
        match p_wkb(b@, p as int) {
            Some((g, _)) => r matches Some(v) && v@ == g,
            None => r is None,
        },
{
    if b.len() - p < 5 || b[p] != 1u8 {
        return None;
    }
    let t = read_u32(b, p + 1);
    let q = p + 5;
    if t == 1 {
        match read_coord(b, q) {
            Some(c) => Some(Geometry::Point(c)),
            None => None,
        }
    } else if t == 2 {
        match read_coords(b, q) {
            Some((s, _)) => Some(Geometry::LineString(s)),
            None => None,
        }
    } else if t == 3 {
        match read_poly_body(b, q) {
            Some(((e, ints), _)) => Some(Geometry::Polygon { exterior: e, interiors: ints }),
            None => None,
        }
    } else if (t == 4 || t == 5 || t == 6) && b.len() - q >= 4 {
        let n = read_u32(b, q);
        if t == 4 {
            match read_mpoint_list(b, q + 4, n) {
                Some((s, _)) => Some(Geometry::MultiPoint(s)),
                None => None,
            }
        } else if t == 5 {
            match read_mline_list(b, q + 4, n) {
                Some((s, _)) => Some(Geometry::MultiLineString(s)),
                None => None,
            }
        } else {
            match read_mpoly_list(b, q + 4, n) {
                Some((s, _)) => Some(Geometry::MultiPolygon(s)),
                None => None,
            }
        }
    } else {
        None
    }
}

fn envelope_size(e: u8) -> (r: usize)
    requires
        e <= 4,
    ensures
        r == envelope_len(e),
{
    if e == 0 {
        0
    } else if e == 1 {
        32
    } else if e == 2 || e == 3 {
        48
    } else {
        64
    }
}

impl Geometry {
    /// Decodes a GeoPackage blob into the geometry and its SRS id.
    pub fn from_gpkg_wkb(b: &Vec<u8>) -> (r: Result<(Geometry, i32), crate::db::GeoError>)
        ensures
            match gpkg_decode(b@) {
                Some((g, srs)) => r matches Ok((v, s)) && v@ == g && s == srs,
                None => r is Err,
            },
    {
        if b.len() < 8 || b[0] != 0x47u8 || b[1] != 0x50u8 || (b[3] & 1u8) != 1u8 || (b[3]
            & 0x20u8) != 0u8 || ((b[3] >> 1u8) & 7u8) > 4 {
            return Err(crate::db::GeoError::Wkb(crate::text::to_owned_string("not a GeoPackage geometry blob")));
        }
        let env = envelope_size((b[3] >> 1u8) & 7u8);
        if b.len() - 8 < env {
            return Err(crate::db::GeoError::Wkb(crate::text::to_owned_string("truncated envelope")));
        }
        let srs = read_u32(b, 4) as i32;
        match read_wkb(b, 8 + env) {
            Some(g) => Ok((g, srs)),
            None => Err(crate::db::GeoError::Wkb(crate::text::to_owned_string("malformed WKB"))),
        }
    }
}

// ─────────────────────────────────────────────────────────────────────────────
// Bounding boxes
// ─────────────────────────────────────────────────────────────────────────────

/// The integer key under which IEEE-754 bit patterns are ordered by the
/// standard's `totalOrder` predicate (the order of `f64::total_cmp`).
pub open spec fn order_key(b: u64) -> u64 {
    if b >= 0x8000_0000_0000_0000u64 {
        !b
    } else {
        b | 0x8000_0000_0000_0000u64
    }
}

/// The `totalOrder` key of a double (see [`order_key`]).
pub fn order_key_exec(b: u64) -> (r: u64)
    ensures
        r == order_key(b),
{
    if b >= 0x8000_0000_0000_0000u64 {
        !b
    } else {
        b | 0x8000_0000_0000_0000u64
    }
}

/// The smaller of two doubles under `totalOrder`.
pub open spec fn min_bits(a: u64, b: u64) -> u64 {
    if order_key(a) <= order_key(b) {
        a
    } else {
        b
    }
}

/// The larger of two doubles under `totalOrder`.
pub open spec fn max_bits(a: u64, b: u64) -> u64 {
    if order_key(a) >= order_key(b) {
        a
    } else {
        b
    }
}

/// An axis-aligned bounding box; the bounds are bit patterns of doubles.
#[derive(Clone, Copy, PartialEq, Eq, Debug, Structural)]
pub struct BBox {
    pub min_x: u64,
    pub min_y: u64,
    pub max_x: u64,
    pub max_y: u64,
}

/// The box grown to hold `o` as well.
pub open spec fn union_box(a: BBox, o: BBox) -> BBox {
    BBox {
        min_x: min_bits(a.min_x, o.min_x),
        min_y: min_bits(a.min_y, o.min_y),
        max_x: max_bits(a.max_x, o.max_x),
        max_y: max_bits(a.max_y, o.max_y),
    }
}

/// The box of one point.
pub open spec fn point_box(c: Coord) -> BBox {
    BBox { min_x: c.x, min_y: c.y, max_x: c.x, max_y: c.y }
}

/// The box `acc` grown to hold `c`.
pub open spec fn add_point(acc: Option<BBox>, c: Coord) -> Option<BBox> {
    match acc {
        None => Some(point_box(c)),
        Some(b) => Some(union_box(b, point_box(c))),
    }
}

/// The box `acc` grown to hold every coordinate of `s`, in order.
pub open spec fn fold_coords(acc: Option<BBox>, s: Seq<Coord>) -> Option<BBox>
    decreases s.len(),
{
    if s.len() == 0 {
        acc
    } else {
        add_point(fold_coords(acc, s.drop_last()), s.last())
    }
}

/// The box `acc` grown to hold every coordinate of each line, in order.
pub open spec fn fold_lines(acc: Option<BBox>, ls: Seq<Seq<Coord>>) -> Option<BBox>
    decreases ls.len(),
{
    if ls.len() == 0 {
        acc
    } else {
        fold_coords(fold_lines(acc, ls.drop_last()), ls.last())
    }
}

/// The box `acc` grown to hold every ring of each polygon, in order.
pub open spec fn fold_polys(acc: Option<BBox>, ps: Seq<(Seq<Coord>, Seq<Seq<Coord>>)>) -> Option<BBox>
    decreases ps.len(),
{
    if ps.len() == 0 {
        acc
    } else {
        fold_lines(fold_coords(fold_polys(acc, ps.drop_last()), ps.last().0), ps.last().1)
    }
}

/// The bounding box of every coordinate of a geometry; `None` when it has none.
pub open spec fn geometry_bbox(g: GeometryV) -> Option<BBox> {
    match g {
        GeometryV::Point(c) => Some(point_box(c)),
        GeometryV::LineString(s) => fold_coords(None, s),
        GeometryV::Polygon(e, ints) => fold_lines(fold_coords(None, e), ints),
        GeometryV::MultiPoint(s) => fold_coords(None, s),
        GeometryV::MultiLineString(ls) => fold_lines(None, ls),
        GeometryV::MultiPolygon(ps) => fold_polys(None, ps),
    }
}

/// The box grown to hold `o` as well (`BBox::expand_to`).
pub fn union_box_exec(a: BBox, o: BBox) -> (r: BBox)
    ensures
        r == union_box(a, o),
{
    let min_x = if order_key_exec(a.min_x) <= order_key_exec(o.min_x) { a.min_x } else { o.min_x };
    let min_y = if order_key_exec(a.min_y) <= order_key_exec(o.min_y) { a.min_y } else { o.min_y };
    let max_x = if order_key_exec(a.max_x) >= order_key_exec(o.max_x) { a.max_x } else { o.max_x };
    let max_y = if order_key_exec(a.max_y) >= order_key_exec(o.max_y) { a.max_y } else { o.max_y };
    BBox { min_x, min_y, max_x, max_y }
}

fn add_point_exec(acc: Option<BBox>, c: Coord) -> (r: Option<BBox>)
    ensures
        r == add_point(acc, c),
{
    let pb = BBox { min_x: c.x, min_y: c.y, max_x: c.x, max_y: c.y };
    match acc {
        None => Some(pb),
        Some(b) => Some(union_box_exec(b, pb)),
    }
}

fn fold_coords_exec(acc: Option<BBox>, s: &Vec<Coord>) -> (r: Option<BBox>)
    ensures
        r == fold_coords(acc, s@),
{
    let mut cur = acc;
    let mut i: usize = 0;
    while i < s.len()
        invariant
            i <= s.len(),
            cur == fold_coords(acc, s@.take(i as int)),
        decreases s.len() - i,
    {
        cur = add_point_exec(cur, s[i]);
        assert(s@.take(i + 1).drop_last() =~= s@.take(i as int));
        i += 1;
    }
    assert(s@.take(s@.len() as int) =~= s@);
    cur
}

fn fold_lines_exec(acc: Option<BBox>, ls: &Vec<Vec<Coord>>) -> (r: Option<BBox>)
    ensures
        r == fold_lines(acc, lines_view(ls@)),
{
    let ghost lv = lines_view(ls@);
    let mut cur = acc;
    let mut i: usize = 0;
    while i < ls.len()
        invariant
            i <= ls.len(),
            lv == lines_view(ls@),
            cur == fold_lines(acc, lv.take(i as int)),
        decreases ls.len() - i,
    {
        cur = fold_coords_exec(cur, &ls[i]);
        assert(lv.take(i + 1).drop_last() =~= lv.take(i as int));
        assert(lv.take(i + 1).last() == ls@[i as int]@);
        i += 1;
    }
    assert(lv.take(lv.len() as int) =~= lv);
    cur
}

impl Geometry {
    /// The bounding box of every coordinate of this geometry (bounds under
    /// IEEE-754 `totalOrder`); `None` when it has no coordinate.
    pub fn bbox(&self) -> (r: Option<BBox>)
        ensures
            r == geometry_bbox(self@),
    {
        match self {
            Geometry::Point(c) => Some(BBox { min_x: c.x, min_y: c.y, max_x: c.x, max_y: c.y }),
            Geometry::LineString(s) => fold_coords_exec(None, s),
            Geometry::Polygon { exterior, interiors } => fold_lines_exec(
                fold_coords_exec(None, exterior),
                interiors,
            ),
            Geometry::MultiPoint(s) => fold_coords_exec(None, s),
            Geometry::MultiLineString(ls) => fold_lines_exec(None, ls),
            Geometry::MultiPolygon(ps) => {
                let ghost pv = polys_view(ps@);
                let mut cur: Option<BBox> = None;
                let mut i: usize = 0;
                while i < ps.len()
                    invariant
                        i <= ps.len(),
                        pv == polys_view(ps@),
                        cur == fold_polys(None, pv.take(i as int)),
                    decreases ps.len() - i,
                {
                    let a = fold_coords_exec(cur, &ps[i].0);
                    cur = fold_lines_exec(a, &ps[i].1);
                    assert(pv.take(i + 1).drop_last() =~= pv.take(i as int));
                    assert(pv.take(i + 1).last() == (ps@[i as int].0@, lines_view(ps@[i as int].1@)));
                    i += 1;
                }
                assert(pv.take(pv.len() as int) =~= pv);
                cur
            },
        }
    }
}

} // verus!
