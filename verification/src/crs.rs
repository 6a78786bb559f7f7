use vstd::prelude::*;
use crate::feature::opt_string_view;

verus! {

/// The OGC WKT that the EPSG registry of `wbprojection` generates for a
/// code; none for a code outside the registry.
pub uninterp spec fn ogc_wkt_of(code: u32) -> Option<Seq<char>>;

/// The CRS name that the EPSG registry of `wbprojection` records for a
/// code; none for a code outside the registry.
pub uninterp spec fn crs_name_of(code: u32) -> Option<Seq<char>>;

/// The EPSG code that `wbprojection` identifies, leniently, for a WKT
/// definition; none when it finds no match.
pub uninterp spec fn epsg_identified_in(wkt: Seq<char>) -> Option<u32>;

/// Calls `wbprojection::epsg::to_ogc_wkt`.  Trusted: the WKT it returns
/// depends on the code alone (it is built from the crate's static tables),
/// and an unsupported code gives none.  What the WKT says is not stated.
#[verifier::external_body]
pub(crate) fn ogc_wkt_from_epsg(code: u32) -> (r: Option<String>)
    ensures
        opt_string_view(r) == ogc_wkt_of(code),
{
    match wbprojection::epsg::to_ogc_wkt(code) {
        Ok(w) => Some(w),
        Err(_) => None,
    }
}

/// Calls `wbprojection::epsg::epsg_info` and takes the name it records.
/// Trusted: the name depends on the code alone (a static table); an
/// unknown code gives none.
#[verifier::external_body]
pub(crate) fn crs_name_from_epsg(code: u32) -> (r: Option<String>)
    ensures
        opt_string_view(r) == crs_name_of(code),
{
    match wbprojection::epsg::epsg_info(code) {
        Some(info) => Some(info.name.to_string()),
        None => None,
    }
}

/// Calls `wbprojection::epsg::identify_epsg_from_wkt`.  Trusted: the code
/// it finds depends on the WKT alone (an embedded EPSG authority, else the
/// best match among the crate's static candidates).
#[verifier::external_body]
pub(crate) fn epsg_from_wkt_lenient(wkt: &str) -> (r: Option<u32>)
    ensures
        r == epsg_identified_in(wkt@),
{
    wbprojection::epsg::identify_epsg_from_wkt(wkt)
}

} // verus!
