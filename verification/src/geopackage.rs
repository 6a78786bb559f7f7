//! GeoPackage (`.gpkg`) writer and reader over the in-memory database.
//!
//! A GeoPackage holds three mandatory tables:
//! `gpkg_spatial_ref_sys` (SRS definitions), `gpkg_contents` (one row per
//! layer with its bounding box and SRS) and `gpkg_geometry_columns` (the
//! geometry column of each layer).  Each vector layer is a table with an
//! integer primary key `fid`, a geometry column `geom` holding GeoPackage
//! blobs, and one column per attribute field.

use crate::crs::{
    crs_name_from_epsg, crs_name_of, epsg_from_wkt_lenient, epsg_identified_in,
    ogc_wkt_from_epsg, ogc_wkt_of,
};
use crate::db::{
    db_wf, distinct_ignore_case, find_table_spec, insert_spec, next_rowid, strings_view,
    table_cells, table_spec, Db, GeoError, TableV,
};
use crate::feature::{
    FeatureV, FieldDef, FieldDefV, FieldType, FieldValue, FieldValueV, Layer, LayerV,
    fields_view, opt_string_view, values_view,
};
use crate::geometry::{
    fits, geometry_bbox, geometry_type_name, gpkg_blob, union_box, union_box_exec, BBox,
    Geometry, GeometryType, GeometryV,
};
use crate::sqlval::{row_view, SqlVal, SqlValV};
use crate::text::{
    decimal_digits, eq_ignore_ascii_case, eq_ignore_case, push_str, to_ascii_uppercase, upper_char,
    to_owned_string, u64_to_decimal, upper_seq,
};
use vstd::prelude::*;

verus! {

// ─────────────────────────────────────────────────────────────────────────────
// The mandatory tables
// ─────────────────────────────────────────────────────────────────────────────

/// The name of the SRS table.
pub open spec fn srs_table() -> Seq<char> {
    "gpkg_spatial_ref_sys"@
}

/// The name of the layer registry table.
pub open spec fn contents_table() -> Seq<char> {
    "gpkg_contents"@
}

/// The name of the geometry column registry table.
pub open spec fn geomcols_table() -> Seq<char> {
    "gpkg_geometry_columns"@
}

/// The columns of `gpkg_spatial_ref_sys`.
pub open spec fn srs_columns() -> Seq<Seq<char>> {
    seq![
        "srs_name"@,
        "srs_id"@,
        "organization"@,
        "organization_coordsys_id"@,
        "definition"@,
        "description"@,
    ]
}

/// The columns of `gpkg_contents`.
pub open spec fn contents_columns() -> Seq<Seq<char>> {
    seq![
        "table_name"@,
        "data_type"@,
        "identifier"@,
        "description"@,
        "last_change"@,
        "min_x"@,
        "min_y"@,
        "max_x"@,
        "max_y"@,
        "srs_id"@,
    ]
}

/// The columns of `gpkg_geometry_columns`.
pub open spec fn geomcols_columns() -> Seq<Seq<char>> {
    seq![
        "table_name"@,
        "column_name"@,
        "geometry_type_name"@,
        "srs_id"@,
        "z"@,
        "m"@,
    ]
}

/// The DDL recorded for `gpkg_spatial_ref_sys`.
pub open spec fn ddl_srs() -> Seq<char> {
    "CREATE TABLE gpkg_spatial_ref_sys (  srs_name TEXT NOT NULL,    srs_id INTEGER NOT NULL,  organization TEXT NOT NULL,  organization_coordsys_id INTEGER NOT NULL,  definition TEXT NOT NULL,  description TEXT)"@
}

/// The DDL recorded for `gpkg_contents`.
pub open spec fn ddl_contents() -> Seq<char> {
    "CREATE TABLE gpkg_contents (    table_name TEXT NOT NULL,  data_type TEXT NOT NULL,    identifier TEXT,  description TEXT DEFAULT '',  last_change DATETIME NOT NULL DEFAULT (strftime('%Y-%m-%dT%H:%M:%SZ','now')),  min_x REAL,  min_y REAL,  max_x REAL,    max_y REAL,    srs_id INTEGER)"@
}

/// The DDL recorded for `gpkg_geometry_columns`.
pub open spec fn ddl_geomcols() -> Seq<char> {
    "CREATE TABLE gpkg_geometry_columns (  table_name TEXT NOT NULL,  column_name TEXT NOT NULL,  geometry_type_name TEXT NOT NULL,  srs_id INTEGER NOT NULL,  z TINYINT NOT NULL,    m TINYINT NOT NULL)"@
}

/// The WKT definition of WGS 84 (EPSG:4326).
pub open spec fn wgs84_wkt() -> Seq<char> {
    "GEOGCS[\"WGS 84\",DATUM[\"WGS_1984\",SPHEROID[\"WGS 84\",6378137,298.257223563]],PRIMEM[\"Greenwich\",0],UNIT[\"degree\",0.0174532925199433]]"@
}

/// The SRS rows that every GeoPackage starts with: WGS 84 (4326), the
/// undefined Cartesian SRS (-1) and the undefined geographic SRS (0).
pub open spec fn seed_rows() -> Seq<Seq<SqlValV>> {
    seq![
        seq![
            SqlValV::Text("WGS 84 geodetic"@),
            SqlValV::Int(4326),
            SqlValV::Text("EPSG"@),
            SqlValV::Int(4326),
            SqlValV::Text(wgs84_wkt()),
            SqlValV::Null,
        ],
        seq![
            SqlValV::Text("Undefined Cartesian SRS"@),
            SqlValV::Int(-1i64),
            SqlValV::Text("NONE"@),
            SqlValV::Int(-1i64),
            SqlValV::Text("undefined"@),
            SqlValV::Null,
        ],
        seq![
            SqlValV::Text("Undefined geographic SRS"@),
            SqlValV::Int(0),
            SqlValV::Text("NONE"@),
            SqlValV::Int(0),
            SqlValV::Text("undefined"@),
            SqlValV::Null,
        ],
    ]
}

/// The three mandatory tables, empty.
pub open spec fn system_tables() -> Seq<TableV> {
    seq![
        TableV { name: srs_table(), columns: srs_columns(), sql: ddl_srs(), rows: Seq::empty() },
        TableV {
            name: contents_table(),
            columns: contents_columns(),
            sql: ddl_contents(),
            rows: Seq::empty(),
        },
        TableV {
            name: geomcols_table(),
            columns: geomcols_columns(),
            sql: ddl_geomcols(),
            rows: Seq::empty(),
        },
    ]
}

/// A fresh GeoPackage: the mandatory tables with the seed SRS rows.
pub open spec fn empty_gpkg() -> Seq<TableV> {
    system_tables().update(
        0,
        TableV {
            rows: seq![
                (1i64, seed_rows()[0]),
                (2i64, seed_rows()[1]),
                (3i64, seed_rows()[2]),
            ],
            ..system_tables()[0]
        },
    )
}

fn strings_of(v: &Vec<&str>) -> (r: Vec<String>)
    ensures
        strings_view(r@) == v@.map_values(|s: &str| s@),
{
    let mut out: Vec<String> = Vec::new();
    let mut i: usize = 0;
    while i < v.len()
        invariant
            i <= v.len(),
            strings_view(out@) == v@.map_values(|s: &str| s@).take(i as int),
        decreases v.len() - i,
    {
        let s = to_owned_string(v[i]);
        let ghost prev = out@;
        out.push(s);
        assert(strings_view(out@) =~= strings_view(prev).push(s@));
        assert(strings_view(out@) =~= v@.map_values(|s: &str| s@).take(i + 1));
        i += 1;
    }
    assert(v@.map_values(|s: &str| s@).take(v@.len() as int) =~= v@.map_values(|s: &str| s@));
    out
}

proof fn lemma_srs_pair(i: int, j: int)
    requires
        0 <= i < 6,
        0 <= j < 6,
        i != j,
    ensures
        !eq_ignore_case(srs_columns()[i], srs_columns()[j]),
{
    reveal_strlit("definition");
    reveal_strlit("description");
    reveal_strlit("organization");
    reveal_strlit("organization_coordsys_id");
    reveal_strlit("srs_id");
    reveal_strlit("srs_name");
    let a = srs_columns()[i];
    let b = srs_columns()[j];
    if i == 0 {
        assert(a == "srs_name"@);
    } else if i == 1 {
        assert(a == "srs_id"@);
    } else if i == 2 {
        assert(a == "organization"@);
    } else if i == 3 {
        assert(a == "organization_coordsys_id"@);
    } else if i == 4 {
        assert(a == "definition"@);
    } else {
        assert(a == "description"@);
    }
    if j == 0 {
        assert(b == "srs_name"@);
    } else if j == 1 {
        assert(b == "srs_id"@);
    } else if j == 2 {
        assert(b == "organization"@);
    } else if j == 3 {
        assert(b == "organization_coordsys_id"@);
    } else if j == 4 {
        assert(b == "definition"@);
    } else {
        assert(b == "description"@);
    }
    let la = crate::text::lower_seq(a);
    let lb = crate::text::lower_seq(b);
    assert(la.len() == a.len() && lb.len() == b.len());
    if a.len() == b.len() {
        if a.len() > 0 {
            assert(la[0] == crate::text::lower_char(a[0]) && lb[0] == crate::text::lower_char(b[0]));
        }
        if a.len() > 1 {
            assert(la[1] == crate::text::lower_char(a[1]) && lb[1] == crate::text::lower_char(b[1]));
        }
        if a.len() > 4 {
            assert(la[4] == crate::text::lower_char(a[4]) && lb[4] == crate::text::lower_char(b[4]));
        }
    }
}

proof fn lemma_contents_pair(i: int, j: int)
    requires
        0 <= i < 10,
        0 <= j < 10,
        i != j,
    ensures
        !eq_ignore_case(contents_columns()[i], contents_columns()[j]),
{
    reveal_strlit("data_type");
    reveal_strlit("description");
    reveal_strlit("identifier");
    reveal_strlit("last_change");
    reveal_strlit("max_x");
    reveal_strlit("max_y");
    reveal_strlit("min_x");
    reveal_strlit("min_y");
    reveal_strlit("srs_id");
    reveal_strlit("table_name");
    let a = contents_columns()[i];
    let b = contents_columns()[j];
    if i == 0 {
        assert(a == "table_name"@);
    } else if i == 1 {
        assert(a == "data_type"@);
    } else if i == 2 {
        assert(a == "identifier"@);
    } else if i == 3 {
        assert(a == "description"@);
    } else if i == 4 {
        assert(a == "last_change"@);
    } else if i == 5 {
        assert(a == "min_x"@);
    } else if i == 6 {
        assert(a == "min_y"@);
    } else if i == 7 {
        assert(a == "max_x"@);
    } else if i == 8 {
        assert(a == "max_y"@);
    } else {
        assert(a == "srs_id"@);
    }
    if j == 0 {
        assert(b == "table_name"@);
    } else if j == 1 {
        assert(b == "data_type"@);
    } else if j == 2 {
        assert(b == "identifier"@);
    } else if j == 3 {
        assert(b == "description"@);
    } else if j == 4 {
        assert(b == "last_change"@);
    } else if j == 5 {
        assert(b == "min_x"@);
    } else if j == 6 {
        assert(b == "min_y"@);
    } else if j == 7 {
        assert(b == "max_x"@);
    } else if j == 8 {
        assert(b == "max_y"@);
    } else {
        assert(b == "srs_id"@);
    }
    let la = crate::text::lower_seq(a);
    let lb = crate::text::lower_seq(b);
    assert(la.len() == a.len() && lb.len() == b.len());
    if a.len() == b.len() {
        if a.len() > 0 {
            assert(la[0] == crate::text::lower_char(a[0]) && lb[0] == crate::text::lower_char(b[0]));
        }
        if a.len() > 1 {
            assert(la[1] == crate::text::lower_char(a[1]) && lb[1] == crate::text::lower_char(b[1]));
        }
        if a.len() > 4 {
            assert(la[4] == crate::text::lower_char(a[4]) && lb[4] == crate::text::lower_char(b[4]));
        }
    }
}

proof fn lemma_geomcols_pair(i: int, j: int)
    requires
        0 <= i < 6,
        0 <= j < 6,
        i != j,
    ensures
        !eq_ignore_case(geomcols_columns()[i], geomcols_columns()[j]),
{
    reveal_strlit("column_name");
    reveal_strlit("geometry_type_name");
    reveal_strlit("m");
    reveal_strlit("srs_id");
    reveal_strlit("table_name");
    reveal_strlit("z");
    let a = geomcols_columns()[i];
    let b = geomcols_columns()[j];
    if i == 0 {
        assert(a == "table_name"@);
    } else if i == 1 {
        assert(a == "column_name"@);
    } else if i == 2 {
        assert(a == "geometry_type_name"@);
    } else if i == 3 {
        assert(a == "srs_id"@);
    } else if i == 4 {
        assert(a == "z"@);
    } else {
        assert(a == "m"@);
    }
    if j == 0 {
        assert(b == "table_name"@);
    } else if j == 1 {
        assert(b == "column_name"@);
    } else if j == 2 {
        assert(b == "geometry_type_name"@);
    } else if j == 3 {
        assert(b == "srs_id"@);
    } else if j == 4 {
        assert(b == "z"@);
    } else {
        assert(b == "m"@);
    }
    let la = crate::text::lower_seq(a);
    let lb = crate::text::lower_seq(b);
    assert(la.len() == a.len() && lb.len() == b.len());
    if a.len() == b.len() {
        if a.len() > 0 {
            assert(la[0] == crate::text::lower_char(a[0]) && lb[0] == crate::text::lower_char(b[0]));
        }
        if a.len() > 1 {
            assert(la[1] == crate::text::lower_char(a[1]) && lb[1] == crate::text::lower_char(b[1]));
        }
        if a.len() > 4 {
            assert(la[4] == crate::text::lower_char(a[4]) && lb[4] == crate::text::lower_char(b[4]));
        }
    }
}

proof fn lemma_system_columns_distinct()
    ensures
        distinct_ignore_case(srs_columns()),
        distinct_ignore_case(contents_columns()),
        distinct_ignore_case(geomcols_columns()),
{
    assert forall|i: int, j: int|
        0 <= i < srs_columns().len() && 0 <= j < srs_columns().len() && i != j implies !eq_ignore_case(
        #[trigger] srs_columns()[i],
        #[trigger] srs_columns()[j],
    ) by {
        lemma_srs_pair(i, j);
    }
    assert forall|i: int, j: int|
        0 <= i < contents_columns().len() && 0 <= j < contents_columns().len() && i != j implies !eq_ignore_case(
        #[trigger] contents_columns()[i],
        #[trigger] contents_columns()[j],
    ) by {
        lemma_contents_pair(i, j);
    }
    assert forall|i: int, j: int|
        0 <= i < geomcols_columns().len() && 0 <= j < geomcols_columns().len() && i != j implies !eq_ignore_case(
        #[trigger] geomcols_columns()[i],
        #[trigger] geomcols_columns()[j],
    ) by {
        lemma_geomcols_pair(i, j);
    }
}

/// Creates the three mandatory tables in an empty database.
fn create_system_tables(db: &mut Db)
    requires
        old(db)@ == Seq::<TableV>::empty(),
        old(db).wf(),
    ensures
        final(db)@ == system_tables(),
        final(db).wf(),
{
    proof {
        lemma_system_columns_distinct();
        reveal_strlit("gpkg_spatial_ref_sys");
        reveal_strlit("gpkg_contents");
        reveal_strlit("gpkg_geometry_columns");
    }
    let c1 = strings_of(
        &vec![
            "srs_name",
            "srs_id",
            "organization",
            "organization_coordsys_id",
            "definition",
            "description",
        ],
    );
    assert(strings_view(c1@) =~= srs_columns());
    let r1 = db.create_table(
        "gpkg_spatial_ref_sys",
        &c1,
        "CREATE TABLE gpkg_spatial_ref_sys (  srs_name TEXT NOT NULL,    srs_id INTEGER NOT NULL,  organization TEXT NOT NULL,  organization_coordsys_id INTEGER NOT NULL,  definition TEXT NOT NULL,  description TEXT)",
    );
    assert(r1 is Ok);
    assert(db@ =~= system_tables().take(1));
    assert(db@[0] == system_tables()[0]);
    assert(db@[0].name == "gpkg_spatial_ref_sys"@);
    proof {
        reveal_strlit("gpkg_spatial_ref_sys");
        reveal_strlit("gpkg_contents");
        reveal_strlit("gpkg_geometry_columns");
    }
    assert(db@[0].name.len() != "gpkg_contents"@.len());
    assert(find_table_spec(db@, "gpkg_contents"@) is None);
    let c2 = strings_of(
        &vec![
            "table_name",
            "data_type",
            "identifier",
            "description",
            "last_change",
            "min_x",
            "min_y",
            "max_x",
            "max_y",
            "srs_id",
        ],
    );
    assert(strings_view(c2@) =~= contents_columns());
    let r2 = db.create_table(
        "gpkg_contents",
        &c2,
        "CREATE TABLE gpkg_contents (    table_name TEXT NOT NULL,  data_type TEXT NOT NULL,    identifier TEXT,  description TEXT DEFAULT '',  last_change DATETIME NOT NULL DEFAULT (strftime('%Y-%m-%dT%H:%M:%SZ','now')),  min_x REAL,  min_y REAL,  max_x REAL,    max_y REAL,    srs_id INTEGER)",
    );
    assert(r2 is Ok);
    assert(db@ =~= system_tables().take(2));
    assert(db@[0] == system_tables()[0]);
    assert(db@[1] == system_tables()[1]);
    assert(db@[0].name.len() != "gpkg_geometry_columns"@.len());
    assert(db@[1].name.len() != "gpkg_geometry_columns"@.len());
    assert(find_table_spec(db@, "gpkg_geometry_columns"@) is None);
    let c3 = strings_of(
        &vec!["table_name", "column_name", "geometry_type_name", "srs_id", "z", "m"],
    );
    assert(strings_view(c3@) =~= geomcols_columns());
    let r3 = db.create_table(
        "gpkg_geometry_columns",
        &c3,
        "CREATE TABLE gpkg_geometry_columns (  table_name TEXT NOT NULL,  column_name TEXT NOT NULL,  geometry_type_name TEXT NOT NULL,  srs_id INTEGER NOT NULL,  z TINYINT NOT NULL,    m TINYINT NOT NULL)",
    );
    assert(r3 is Ok);
    assert(db@ =~= system_tables());
}


// ─────────────────────────────────────────────────────────────────────────────
// Layer → database (spec)
// ─────────────────────────────────────────────────────────────────────────────

/// The database holds the three mandatory tables with their columns.
pub open spec fn has_table(d: Seq<TableV>, name: Seq<char>, cols: Seq<Seq<char>>) -> bool {
    table_spec(d, name) matches Some(t) && t.columns == cols
}

/// A well-formed database with the mandatory GeoPackage tables.
pub open spec fn gpkg_wf(d: Seq<TableV>) -> bool {
    &&& db_wf(d)
    &&& has_table(d, srs_table(), srs_columns())
    &&& has_table(d, contents_table(), contents_columns())
    &&& has_table(d, geomcols_table(), geomcols_columns())
}

/// The SRS id a layer is written with: its EPSG code, or 4326.
pub open spec fn layer_srs(l: LayerV) -> i64 {
    match l.crs_epsg {
        Some(e) => e as i64,
        None => 4326,
    }
}

/// The rows of the table named `name` (empty when there is none).
pub open spec fn cells_of(d: Seq<TableV>, name: Seq<char>) -> Seq<Seq<SqlValV>> {
    match table_spec(d, name) {
        Some(t) => table_cells(t),
        None => Seq::empty(),
    }
}

/// Some row has `Int(srs)` in its second cell.
pub open spec fn has_srs(rows: Seq<Seq<SqlValV>>, srs: i64) -> bool {
    exists|k: int| 0 <= k < rows.len() && (#[trigger] rows[k]).len() > 1 && rows[k][1] == SqlValV::Int(srs)
}

/// The definition recorded for an SRS a layer adds: its own WKT, else the
/// WKT the CRS registry knows for the code (`known_wkt`), else `undefined`.
pub open spec fn srs_definition_given(l: LayerV, known_wkt: Option<Seq<char>>) -> Seq<char> {
    match l.crs_wkt {
        Some(w) => w,
        None => match known_wkt {
            Some(w) => w,
            None => "undefined"@,
        },
    }
}

/// The name recorded for SRS `srs`: the one the CRS registry knows for
/// the code (`known_name`), else `EPSG:<code>`.
pub open spec fn srs_name_given(srs: i64, known_name: Option<Seq<char>>) -> Seq<char> {
    match known_name {
        Some(n) => n,
        None => "EPSG:"@ + decimal_digits((srs as u32) as nat),
    }
}

/// The `gpkg_spatial_ref_sys` row a layer adds for SRS `srs`, given the
/// name and the WKT the CRS registry knows for the code.
pub open spec fn srs_row_given(
    l: LayerV,
    srs: i64,
    known_name: Option<Seq<char>>,
    known_wkt: Option<Seq<char>>,
) -> Seq<SqlValV> {
    seq![
        SqlValV::Text(srs_name_given(srs, known_name)),
        SqlValV::Int(srs),
        SqlValV::Text("EPSG"@),
        SqlValV::Int(srs),
        SqlValV::Text(srs_definition_given(l, known_wkt)),
        SqlValV::Null,
    ]
}

/// The definition recorded for SRS `srs` of a layer (the registry is
/// asked for the WKT of the code `srs as u32`).
pub open spec fn srs_definition(l: LayerV, srs: i64) -> Seq<char> {
    srs_definition_given(l, ogc_wkt_of(srs as u32))
}

/// The `gpkg_spatial_ref_sys` row a layer adds for SRS `srs`.
pub open spec fn srs_row(l: LayerV, srs: i64) -> Seq<SqlValV> {
    srs_row_given(l, srs, crs_name_of(srs as u32), ogc_wkt_of(srs as u32))
}

/// Whether registering SRS `srs` adds a row to `gpkg_spatial_ref_sys`:
/// it is positive and no row has it yet.
pub open spec fn needs_srs(d: Seq<TableV>, srs: i64) -> bool {
    srs > 0 && !has_srs(cells_of(d, srs_table()), srs)
}

/// The database after making sure SRS `srs` of the layer is registered.
pub open spec fn ensure_srs_spec(d: Seq<TableV>, l: LayerV, srs: i64) -> Seq<TableV> {
    if needs_srs(d, srs) {
        insert_spec(d, srs_table(), srs_row(l, srs))
    } else {
        d
    }
}

/// A field named `fid` in any ASCII case; GeoPackage reserves that name.
pub open spec fn is_fid(name: Seq<char>) -> bool {
    eq_ignore_case(name, "fid"@)
}

/// Positions of the fields that become columns: all but those named `fid`.
pub open spec fn kept_fields(f: Seq<FieldDefV>) -> Seq<int>
    decreases f.len(),
{
    if f.len() == 0 {
        Seq::empty()
    } else {
        let p = kept_fields(f.drop_last());
        if is_fid(f.last().name) {
            p
        } else {
            p.push(f.len() - 1)
        }
    }
}

/// Positions as mathematical integers.
pub open spec fn idx_view(v: Seq<usize>) -> Seq<int> {
    v.map_values(|i: usize| i as int)
}

/// The column names of a layer's table.
pub open spec fn layer_columns(l: LayerV) -> Seq<Seq<char>> {
    seq!["fid"@, "geom"@] + kept_fields(l.fields).map_values(|i: int| l.fields[i].name)
}

/// The SQL column type of a field type.
pub open spec fn sql_type_name(t: FieldType) -> Seq<char> {
    match t {
        FieldType::Integer => "INTEGER"@,
        FieldType::Float => "REAL"@,
        FieldType::Boolean => "INTEGER"@,
        FieldType::Blob => "BLOB"@,
        _ => "TEXT"@,
    }
}

/// The DDL of one attribute column.
pub open spec fn column_ddl(f: FieldDefV) -> Seq<char> {
    ",\n  \""@ + f.name + "\" "@ + sql_type_name(f.field_type)
}

/// The DDL of the attribute columns at positions `ks`.
pub open spec fn columns_ddl(f: Seq<FieldDefV>, ks: Seq<int>) -> Seq<char>
    decreases ks.len(),
{
    if ks.len() == 0 {
        Seq::empty()
    } else {
        columns_ddl(f, ks.drop_last()) + column_ddl(f[ks.last()])
    }
}

/// The attribute columns are declared one after another, in the order of
/// their positions, each as `,` newline, two spaces, its quoted name, a
/// space and the SQL type that stores its field type: `REAL` for `Float`,
/// `INTEGER` for `Integer` and `Boolean`, `BLOB` for `Blob`, `TEXT` for the
/// others; no position declares nothing.
pub proof fn law_column_types(f: Seq<FieldDefV>, ks: Seq<int>, i: int)
    ensures
        columns_ddl(f, Seq::empty()) == Seq::<char>::empty(),
        columns_ddl(f, ks.push(i)) == columns_ddl(f, ks) + ",\n  \""@ + f[i].name + "\" "@ + (
        if f[i].field_type == FieldType::Float {
            "REAL"@
        } else if f[i].field_type == FieldType::Integer || f[i].field_type == FieldType::Boolean {
            "INTEGER"@
        } else if f[i].field_type == FieldType::Blob {
            "BLOB"@
        } else {
            "TEXT"@
        }),
{
    assert(ks.push(i).drop_last() =~= ks);
}

/// The `CREATE TABLE` statement of a layer's table.
pub open spec fn create_sql(l: LayerV) -> Seq<char> {
    "CREATE TABLE \""@ + l.name + "\" (\n  fid INTEGER PRIMARY KEY,\n  \"geom\" BLOB"@
        + columns_ddl(l.fields, kept_fields(l.fields)) + "\n)"@
}

/// The geometry type name registered for a layer.
pub open spec fn geom_type_label(t: Option<GeometryType>) -> Seq<char> {
    match t {
        Some(t) => upper_seq(geometry_type_name(t)),
        None => "GEOMETRY"@,
    }
}

/// The cell an attribute value is stored in.
pub open spec fn to_sql(v: FieldValueV) -> SqlValV {
    match v {
        FieldValueV::Null => SqlValV::Null,
        FieldValueV::Integer(n) => SqlValV::Int(n),
        FieldValueV::Float(b) => SqlValV::Real(b),
        FieldValueV::Boolean(b) => SqlValV::Int(if b { 1 } else { 0 }),
        FieldValueV::Text(s) => SqlValV::Text(s),
        FieldValueV::Date(s) => SqlValV::Text(s),
        FieldValueV::DateTime(s) => SqlValV::Text(s),
        FieldValueV::Blob(b) => SqlValV::Blob(b),
    }
}

/// The cell of the `i`-th attribute, `Null` when the feature has fewer.
pub open spec fn attr_cell(attrs: Seq<FieldValueV>, i: int) -> SqlValV {
    if 0 <= i < attrs.len() {
        to_sql(attrs[i])
    } else {
        SqlValV::Null
    }
}

/// The geometry cell of a feature.
pub open spec fn geom_cell(g: Option<GeometryV>, srs: i64) -> SqlValV {
    match g {
        Some(g) => SqlValV::Blob(gpkg_blob(g, srs as i32)),
        None => SqlValV::Null,
    }
}

/// The row of one feature: `fid` left `Null` for the rowid, the geometry,
/// then the attributes at the kept positions.
pub open spec fn feature_row(f: FeatureV, ks: Seq<int>, srs: i64) -> Seq<SqlValV> {
    cells_row(f.geometry, f.attributes, ks, srs)
}

/// The row of a geometry and attribute values: `fid` left `Null` for the
/// rowid, the geometry, then the attributes at positions `ks`.
pub open spec fn cells_row(g: Option<GeometryV>, attrs: Seq<FieldValueV>, ks: Seq<int>, srs: i64) -> Seq<SqlValV> {
    seq![SqlValV::Null, geom_cell(g, srs)] + ks.map_values(|i: int| attr_cell(attrs, i))
}

/// The rows of a layer's table, with rowids from 1.
pub open spec fn feature_rows(l: LayerV) -> Seq<(i64, Seq<SqlValV>)> {
    Seq::new(
        l.features.len(),
        |k: int| ((k + 1) as i64, feature_row(l.features[k], kept_fields(l.fields), layer_srs(l))),
    )
}

/// The box `acc` grown by `b`.
pub open spec fn grow(acc: Option<BBox>, b: Option<BBox>) -> Option<BBox> {
    match b {
        None => acc,
        Some(b) => match acc {
            None => Some(b),
            Some(a) => Some(union_box(a, b)),
        },
    }
}

/// The bounding box of a feature's geometry.
pub open spec fn feature_box(f: FeatureV) -> Option<BBox> {
    match f.geometry {
        Some(g) => geometry_bbox(g),
        None => None,
    }
}

/// The bounding box of all features' geometries.
pub open spec fn features_bbox(fs: Seq<FeatureV>) -> Option<BBox>
    decreases fs.len(),
{
    if fs.len() == 0 {
        None
    } else {
        grow(features_bbox(fs.drop_last()), feature_box(fs.last()))
    }
}

/// The four bound cells of `gpkg_contents`.
pub open spec fn bbox_cells(b: Option<BBox>) -> Seq<SqlValV> {
    match b {
        Some(b) => seq![
            SqlValV::Real(b.min_x),
            SqlValV::Real(b.min_y),
            SqlValV::Real(b.max_x),
            SqlValV::Real(b.max_y),
        ],
        None => seq![SqlValV::Null, SqlValV::Null, SqlValV::Null, SqlValV::Null],
    }
}

/// The `gpkg_contents` row of a layer.
pub open spec fn contents_row(name: Seq<char>, b: Option<BBox>, srs: i64) -> Seq<SqlValV> {
    seq![
        SqlValV::Text(name),
        SqlValV::Text("features"@),
        SqlValV::Text(name),
        SqlValV::Text(Seq::empty()),
        SqlValV::Text("2024-01-01T00:00:00Z"@),
    ] + bbox_cells(b) + seq![SqlValV::Int(srs)]
}

/// The `gpkg_geometry_columns` row of a layer.
pub open spec fn geomcols_row(name: Seq<char>, label: Seq<char>, srs: i64) -> Seq<SqlValV> {
    seq![
        SqlValV::Text(name),
        SqlValV::Text("geom"@),
        SqlValV::Text(label),
        SqlValV::Int(srs),
        SqlValV::Int(0),
        SqlValV::Int(0),
    ]
}

/// The table of a layer with all its features.
pub open spec fn layer_table(l: LayerV) -> TableV {
    TableV { name: l.name, columns: layer_columns(l), sql: create_sql(l), rows: feature_rows(l) }
}

/// The room left for one more row in the table named `name`.
pub open spec fn has_room(d: Seq<TableV>, name: Seq<char>) -> bool {
    table_spec(d, name) matches Some(t) && next_rowid(t) <= i64::MAX
}

/// Every geometry of the layer has counts that fit WKB's 32-bit counts.
pub open spec fn layer_fits(l: LayerV) -> bool {
    forall|k: int| 0 <= k < l.features.len() ==> match (#[trigger] l.features[k]).geometry {
        Some(g) => fits(g),
        None => true,
    }
}

/// Writing the layer succeeds: no table of that name yet, distinct column
/// names, and room for the rows it adds.
pub open spec fn write_ok(d: Seq<TableV>, l: LayerV) -> bool {
    &&& find_table_spec(d, l.name) is None
    &&& distinct_ignore_case(layer_columns(l))
    &&& needs_srs(d, layer_srs(l)) ==> has_room(d, srs_table())
    &&& has_room(d, geomcols_table())
    &&& has_room(d, contents_table())
    &&& l.features.len() <= i64::MAX
}

/// The database after writing the layer.
pub open spec fn write_layer_spec(d: Seq<TableV>, l: LayerV) -> Seq<TableV> {
    let srs = layer_srs(l);
    let d1 = ensure_srs_spec(d, l, srs);
    let d2 = insert_spec(d1, geomcols_table(), geomcols_row(l.name, geom_type_label(l.geom_type), srs));
    let d3 = insert_spec(d2, contents_table(), contents_row(l.name, features_bbox(l.features), srs));
    d3.push(layer_table(l))
}


/// The kept positions are increasing, in range, and name no `fid` field.
pub proof fn lemma_kept_fields(f: Seq<FieldDefV>)
    ensures
        forall|j: int|
            0 <= j < kept_fields(f).len() ==> 0 <= #[trigger] kept_fields(f)[j] < f.len() && !is_fid(
                f[kept_fields(f)[j]].name,
            ),
        forall|a: int, b: int|
            0 <= a < b < kept_fields(f).len() ==> #[trigger] kept_fields(f)[a] < #[trigger] kept_fields(
                f,
            )[b],
    decreases f.len(),
{
    if f.len() > 0 {
        lemma_kept_fields(f.drop_last());
        let p = kept_fields(f.drop_last());
        assert forall|j: int| 0 <= j < p.len() implies f.drop_last()[p[j]] == f[p[j]] by {}
    }
}

// ─────────────────────────────────────────────────────────────────────────────
// Layer → database (exec)
// ─────────────────────────────────────────────────────────────────────────────

/// The cell an attribute value is stored in.
pub fn field_to_sqlval(v: &FieldValue) -> (r: SqlVal)
    ensures
        r@ == to_sql(v@),
{
    match v {
        FieldValue::Null => SqlVal::Null,
        FieldValue::Integer(n) => SqlVal::Int(*n),
        FieldValue::Float(b) => SqlVal::Real(*b),
        FieldValue::Boolean(b) => SqlVal::Int(if *b { 1 } else { 0 }),
        FieldValue::Text(s) => SqlVal::Text(s.clone()),
        FieldValue::Date(s) => SqlVal::Text(s.clone()),
        FieldValue::DateTime(s) => SqlVal::Text(s.clone()),
        FieldValue::Blob(b) => SqlVal::Blob(crate::sqlval::copy_bytes(b)),
    }
}

/// Positions of the fields that become columns.
fn kept_positions(fields: &Vec<FieldDef>) -> (r: Vec<usize>)
    ensures
        idx_view(r@) == kept_fields(fields_view(fields@)),
{
    let ghost fv = fields_view(fields@);
    let mut out: Vec<usize> = Vec::new();
    let mut i: usize = 0;
    while i < fields.len()
        invariant
            i <= fields.len(),
            fv == fields_view(fields@),
            idx_view(out@) == kept_fields(fv.take(i as int)),
        decreases fields.len() - i,
    {
        assert(fv.take(i + 1).drop_last() =~= fv.take(i as int));
        assert(fv.take(i + 1).last() == fields@[i as int]@);
        if !eq_ignore_ascii_case(fields[i].name.as_str(), "fid") {
            let ghost prev = out@;
            out.push(i);
            assert(idx_view(out@) =~= idx_view(prev).push(i as int));
        }
        i += 1;
    }
    assert(fv.take(fv.len() as int) =~= fv);
    out
}

/// The column names of a layer's table.
fn layer_column_names(layer: &Layer, ks: &Vec<usize>) -> (r: Vec<String>)
    requires
        idx_view(ks@) == kept_fields(layer@.fields),
    ensures
        strings_view(r@) == layer_columns(layer@),
{
    proof {
        lemma_kept_fields(layer@.fields);
    }
    let ghost kv = kept_fields(layer@.fields);
    let mut out: Vec<String> = Vec::new();
    out.push(to_owned_string("fid"));
    out.push(to_owned_string("geom"));
    let mut j: usize = 0;
    while j < ks.len()
        invariant
            j <= ks.len(),
            kv == idx_view(ks@),
            kv == kept_fields(layer@.fields),
            forall|a: int| 0 <= a < kv.len() ==> 0 <= #[trigger] kv[a] < layer@.fields.len(),
            strings_view(out@) == seq!["fid"@, "geom"@] + kv.take(j as int).map_values(
                |i: int| layer@.fields[i].name,
            ),
        decreases ks.len() - j,
    {
        let k = ks[j];
        assert(kv[j as int] == k as int);
        assert(layer@.fields[k as int] == layer.fields@[k as int]@);
        let nm = layer.fields[k].name.clone();
        let ghost prev = out@;
        out.push(nm);
        assert(strings_view(out@) =~= strings_view(prev).push(nm@));
        assert(kv.take(j + 1) =~= kv.take(j as int).push(k as int));
        assert(kv.take(j + 1).map_values(|i: int| layer@.fields[i].name) =~= kv.take(
            j as int,
        ).map_values(|i: int| layer@.fields[i].name).push(nm@));
        j += 1;
    }
    assert(kv.take(kv.len() as int) =~= kv);
    out
}

/// The SQL column type of a field type.
fn sql_type_str(t: FieldType) -> (r: &'static str)
    ensures
        r@ == sql_type_name(t),
{
    match t {
        FieldType::Integer => "INTEGER",
        FieldType::Float => "REAL",
        FieldType::Boolean => "INTEGER",
        FieldType::Blob => "BLOB",
        _ => "TEXT",
    }
}

/// The `CREATE TABLE` statement of a layer's table.
fn build_create_sql(layer: &Layer, ks: &Vec<usize>) -> (r: String)
    requires
        idx_view(ks@) == kept_fields(layer@.fields),
    ensures
        r@ == create_sql(layer@),
{
    proof {
        lemma_kept_fields(layer@.fields);
    }
    let ghost kv = kept_fields(layer@.fields);
    let ghost fv = layer@.fields;
    let mut cols = String::new();
    let mut j: usize = 0;
    while j < ks.len()
        invariant
            j <= ks.len(),
            kv == idx_view(ks@),
            fv == layer@.fields,
            forall|a: int| 0 <= a < kv.len() ==> 0 <= #[trigger] kv[a] < fv.len(),
            cols@ == columns_ddl(fv, kv.take(j as int)),
        decreases ks.len() - j,
    {
        let k = ks[j];
        assert(kv[j as int] == k as int);
        assert(fv[k as int] == layer.fields@[k as int]@);
        let ghost before = cols@;
        push_str(&mut cols, ",\n  \"");
        push_str(&mut cols, layer.fields[k].name.as_str());
        push_str(&mut cols, "\" ");
        push_str(&mut cols, sql_type_str(layer.fields[k].field_type));
        assert(kv.take(j + 1).drop_last() =~= kv.take(j as int));
        assert(kv.take(j + 1).last() == k as int);
        assert(cols@ =~= before + column_ddl(fv[k as int]));
        j += 1;
    }
    assert(kv.take(kv.len() as int) =~= kv);
    let mut sql = String::new();
    push_str(&mut sql, "CREATE TABLE \"");
    push_str(&mut sql, layer.name.as_str());
    push_str(&mut sql, "\" (\n  fid INTEGER PRIMARY KEY,\n  \"geom\" BLOB");
    push_str(&mut sql, cols.as_str());
    push_str(&mut sql, "\n)");
    assert(sql@ =~= create_sql(layer@));
    sql
}

/// The geometry type name registered for a layer.
fn geom_label(t: Option<GeometryType>) -> (r: String)
    ensures
        r@ == geom_type_label(t),
{
    match t {
        Some(g) => to_ascii_uppercase(g.as_str()),
        None => to_owned_string("GEOMETRY"),
    }
}


/// Whether a row of `gpkg_spatial_ref_sys` has SRS id `srs`.  Fails when
/// the table is missing.
pub fn srs_row_exists(db: &Db, srs: i64) -> (r: Result<bool, GeoError>)
    requires
        db.wf(),
    ensures
        r is Ok <==> table_spec(db@, srs_table()) is Some,
        r matches Ok(b) ==> b == has_srs(cells_of(db@, srs_table()), srs),
{
    let rows = match db.select_all("gpkg_spatial_ref_sys") {
        Ok(rows) => rows,
        Err(e) => {
            return Err(e);
        },
    };
    let ghost cv = crate::db::cells_view(rows@);
    assert(cv == cells_of(db@, srs_table()));
    let mut k: usize = 0;
    while k < rows.len()
        invariant
            k <= rows.len(),
            cv == crate::db::cells_view(rows@),
            cv == cells_of(db@, srs_table()),
            table_spec(db@, srs_table()) is Some,
            forall|j: int| 0 <= j < k ==> !((#[trigger] cv[j]).len() > 1 && cv[j][1] == SqlValV::Int(srs)),
        decreases rows.len() - k,
    {
        assert(cv[k as int] == row_view(rows@[k as int]@));
        if rows[k].len() > 1 {
            assert(cv[k as int][1] == rows@[k as int]@[1]@);
            if rows[k][1].as_i64() == Some(srs) {
                assert(cv[k as int].len() > 1 && cv[k as int][1] == SqlValV::Int(srs));
                return Ok(true);
            }
        }
        k += 1;
    }
    Ok(false)
}

/// The `gpkg_spatial_ref_sys` row for SRS `srs` of a layer (see
/// [`srs_row_given`]), given the name and the WKT the CRS registry knows
/// for the code.
pub fn srs_row_values(
    layer: &Layer,
    srs: i64,
    known_name: Option<String>,
    known_wkt: Option<String>,
) -> (r: Vec<SqlVal>)
    ensures
        row_view(r@) == srs_row_given(
            layer@,
            srs,
            opt_string_view(known_name),
            opt_string_view(known_wkt),
        ),
{
    let ghost kn = opt_string_view(known_name);
    let ghost kw = opt_string_view(known_wkt);
    let definition = match &layer.crs_wkt {
        Some(w) => w.clone(),
        None => match known_wkt {
            Some(w) => w,
            None => to_owned_string("undefined"),
        },
    };
    let name = match known_name {
        Some(n) => n,
        None => {
            let mut name = to_owned_string("EPSG:");
            let code = u64_to_decimal((srs as u32) as u64);
            push_str(&mut name, code.as_str());
            name
        },
    };
    let row = vec![
        SqlVal::Text(name),
        SqlVal::Int(srs),
        SqlVal::Text(to_owned_string("EPSG")),
        SqlVal::Int(srs),
        SqlVal::Text(definition),
        SqlVal::Null,
    ];
    assert(row_view(row@) =~= srs_row_given(layer@, srs, kn, kw));
    row
}

/// Registers SRS `srs` in `gpkg_spatial_ref_sys` unless it is not positive
/// or already there.  The row is named as the CRS registry names the code
/// (else `EPSG:<code>`), and its definition is the layer's WKT, else the
/// registry's WKT for the code, else `undefined`.  Fails when that table
/// is full.
pub fn ensure_srs_row(db: &mut Db, layer: &Layer, srs: i64) -> (r: Result<(), GeoError>)
    requires
        gpkg_wf(old(db)@),
    ensures
        final(db).wf(),
        r is Ok <==> (needs_srs(old(db)@, srs) ==> has_room(old(db)@, srs_table())),
        r is Ok ==> final(db)@ == ensure_srs_spec(old(db)@, layer@, srs),
        r is Err ==> final(db)@ == old(db)@,
{
    if srs <= 0 {
        return Ok(());
    }
    let exists = match srs_row_exists(db, srs) {
        Ok(b) => b,
        Err(e) => {
            return Err(e);
        },
    };
    if exists {
        return Ok(());
    }
    let code = srs as u32;
    let known_name = crs_name_from_epsg(code);
    let known_wkt = match &layer.crs_wkt {
        Some(_) => None,
        None => ogc_wkt_from_epsg(code),
    };
    let row = srs_row_values(layer, srs, known_name, known_wkt);
    assert(row_view(row@) =~= srs_row(layer@, srs));
    db.insert("gpkg_spatial_ref_sys", row)
}

/// Registering an SRS twice leaves the GeoPackage as registering it once:
/// the second time finds the row the first added.
pub proof fn law_ensure_srs_idempotent(d: Seq<TableV>, l: LayerV, srs: i64)
    requires
        gpkg_wf(d),
        needs_srs(d, srs) ==> has_room(d, srs_table()),
    ensures
        ensure_srs_spec(ensure_srs_spec(d, l, srs), l, srs) == ensure_srs_spec(d, l, srs),
{
    if needs_srs(d, srs) {
        let row = srs_row(l, srs);
        lemma_insert_cells(d, srs_table(), row);
        let cells = cells_of(insert_spec(d, srs_table(), row), srs_table());
        assert(cells[cells.len() - 1] == row);
        assert(has_srs(cells, srs));
    }
}

/// The box `acc` grown by `b`.
fn grow_exec(acc: Option<BBox>, b: Option<BBox>) -> (r: Option<BBox>)
    ensures
        r == grow(acc, b),
{
    match b {
        None => acc,
        Some(b) => match acc {
            None => Some(b),
            Some(a) => Some(union_box_exec(a, b)),
        },
    }
}

/// The bounding box of all features' geometries.
fn layer_bbox(features: &Vec<crate::feature::Feature>) -> (r: Option<BBox>)
    ensures
        r == features_bbox(crate::feature::features_view(features@)),
{
    let ghost fv = crate::feature::features_view(features@);
    let mut cur: Option<BBox> = None;
    let mut k: usize = 0;
    while k < features.len()
        invariant
            k <= features.len(),
            fv == crate::feature::features_view(features@),
            cur == features_bbox(fv.take(k as int)),
        decreases features.len() - k,
    {
        let b = match &features[k].geometry {
            Some(g) => g.bbox(),
            None => None,
        };
        assert(fv[k as int] == features@[k as int]@);
        assert(b == feature_box(fv[k as int]));
        cur = grow_exec(cur, b);
        assert(fv.take(k + 1).drop_last() =~= fv.take(k as int));
        k += 1;
    }
    assert(fv.take(fv.len() as int) =~= fv);
    cur
}

/// The `gpkg_contents` row of a layer.
fn contents_row_exec(name: &String, b: Option<BBox>, srs: i64) -> (r: Vec<SqlVal>)
    ensures
        row_view(r@) == contents_row(name@, b, srs),
{
    let mut row = vec![
        SqlVal::Text(name.clone()),
        SqlVal::Text(to_owned_string("features")),
        SqlVal::Text(name.clone()),
        SqlVal::Text(String::new()),
        SqlVal::Text(to_owned_string("2024-01-01T00:00:00Z")),
    ];
    match b {
        Some(bb) => {
            row.push(SqlVal::Real(bb.min_x));
            row.push(SqlVal::Real(bb.min_y));
            row.push(SqlVal::Real(bb.max_x));
            row.push(SqlVal::Real(bb.max_y));
        },
        None => {
            row.push(SqlVal::Null);
            row.push(SqlVal::Null);
            row.push(SqlVal::Null);
            row.push(SqlVal::Null);
        },
    }
    row.push(SqlVal::Int(srs));
    assert(row_view(row@) =~= contents_row(name@, b, srs));
    row
}

/// The `gpkg_geometry_columns` row of a layer.
fn geomcols_row_exec(name: &String, geom_type: Option<GeometryType>, srs: i64) -> (r: Vec<SqlVal>)
    ensures
        row_view(r@) == geomcols_row(name@, geom_type_label(geom_type), srs),
{
    let row = vec![
        SqlVal::Text(name.clone()),
        SqlVal::Text(to_owned_string("geom")),
        SqlVal::Text(geom_label(geom_type)),
        SqlVal::Int(srs),
        SqlVal::Int(0),
        SqlVal::Int(0),
    ];
    assert(row_view(row@) =~= geomcols_row(name@, geom_type_label(geom_type), srs));
    row
}

/// The row of one feature.
fn feature_row_exec(f: &crate::feature::Feature, ks: &Vec<usize>, srs: i64) -> (r: Vec<SqlVal>)
    requires
        f@.geometry matches Some(g) ==> fits(g),
    ensures
        row_view(r@) == feature_row(f@, idx_view(ks@), srs),
{
    let geom = match &f.geometry {
        Some(g) => SqlVal::Blob(g.to_gpkg_wkb(srs as i32)),
        None => SqlVal::Null,
    };
    let ghost kv = idx_view(ks@);
    let ghost av = f@.attributes;
    let mut row = vec![SqlVal::Null, geom];
    let mut j: usize = 0;
    while j < ks.len()
        invariant
            j <= ks.len(),
            kv == idx_view(ks@),
            av == values_view(f.attributes@),
            row_view(row@) == seq![SqlValV::Null, geom_cell(f@.geometry, srs)] + kv.take(
                j as int,
            ).map_values(|i: int| attr_cell(av, i)),
        decreases ks.len() - j,
    {
        let k = ks[j];
        let v = if k < f.attributes.len() {
            field_to_sqlval(&f.attributes[k])
        } else {
            SqlVal::Null
        };
        assert(kv[j as int] == k as int);
        assert(v@ == attr_cell(av, k as int));
        let ghost prev = row@;
        row.push(v);
        assert(row_view(row@) =~= row_view(prev).push(v@));
        assert(kv.take(j + 1) =~= kv.take(j as int).push(k as int));
        assert(kv.take(j + 1).map_values(|i: int| attr_cell(av, i)) =~= kv.take(
            j as int,
        ).map_values(|i: int| attr_cell(av, i)).push(v@));
        j += 1;
    }
    assert(kv.take(kv.len() as int) =~= kv);
    row
}


/// An insert keeps the mandatory tables and the table names.
proof fn lemma_insert_keeps_gpkg(d: Seq<TableV>, n: Seq<char>, row: Seq<SqlValV>)
    requires
        gpkg_wf(d),
        crate::db::insert_ok(d, n, row.len() as int),
    ensures
        gpkg_wf(insert_spec(d, n, row)),
        insert_spec(d, n, row).len() == d.len(),
        forall|k: int| 0 <= k < d.len() ==> (#[trigger] insert_spec(d, n, row)[k]).name == d[k].name,
{
    crate::db::lemma_insert_wf(d, n, row);
    crate::db::lemma_insert_table_spec(d, n, row, srs_table());
    crate::db::lemma_insert_table_spec(d, n, row, contents_table());
    crate::db::lemma_insert_table_spec(d, n, row, geomcols_table());
}

/// Appending a table of a new name keeps the mandatory tables and the
/// positions of the others.
proof fn lemma_push_keeps_gpkg(d: Seq<TableV>, t: TableV, m: Seq<char>)
    requires
        gpkg_wf(d),
        db_wf(d.push(t)),
        find_table_spec(d, t.name) is None,
        table_spec(d, m) is Some,
    ensures
        gpkg_wf(d.push(t)),
        t.name != m,
        find_table_spec(d.push(t), m) == find_table_spec(d, m),
        table_spec(d.push(t), m) == table_spec(d, m),
{
    let i = find_table_spec(d, m)->0;
    assert(d[i].name == m);
    crate::db::lemma_find_push(d, t, m);
    assert(d.push(t)[i] == d[i]);
    crate::db::lemma_find_push(d, t, srs_table());
    crate::db::lemma_find_push(d, t, contents_table());
    crate::db::lemma_find_push(d, t, geomcols_table());
    let a = find_table_spec(d, srs_table())->0;
    let b = find_table_spec(d, contents_table())->0;
    let c = find_table_spec(d, geomcols_table())->0;
    assert(d.push(t)[a] == d[a]);
    assert(d.push(t)[b] == d[b]);
    assert(d.push(t)[c] == d[c]);
}

/// The mandatory tables have distinct names.
proof fn lemma_system_names()
    ensures
        srs_table() != contents_table(),
        srs_table() != geomcols_table(),
        contents_table() != geomcols_table(),
{
    reveal_strlit("gpkg_spatial_ref_sys");
    reveal_strlit("gpkg_contents");
    reveal_strlit("gpkg_geometry_columns");
    assert(srs_table().len() != contents_table().len());
    assert(srs_table().len() != geomcols_table().len());
    assert(contents_table().len() != geomcols_table().len());
}

/// No table of the database is named `n`.
proof fn lemma_no_table(d: Seq<TableV>, n: Seq<char>)
    requires
        find_table_spec(d, n) is None,
    ensures
        forall|i: int| 0 <= i < d.len() ==> (#[trigger] d[i]).name != n,
{
}

/// The number of feature rows writing a layer can insert: its features,
/// up to the last rowid there is.
pub open spec fn rows_written(l: LayerV) -> int {
    if l.features.len() <= i64::MAX {
        l.features.len() as int
    } else {
        i64::MAX as int
    }
}

/// What writing the layer leaves in the database, whether or not it
/// succeeds.  The steps run in turn (register the SRS, create the table,
/// register the geometry column, register the contents, insert the rows),
/// and a step that fails leaves what the steps before it did.
pub open spec fn write_layer_effect(d: Seq<TableV>, l: LayerV) -> Seq<TableV> {
    let srs = layer_srs(l);
    let d1 = ensure_srs_spec(d, l, srs);
    let full = layer_table(l);
    let t0 = TableV { rows: Seq::empty(), ..full };
    let d2 = insert_spec(d1, geomcols_table(), geomcols_row(l.name, geom_type_label(l.geom_type), srs));
    let d3 = insert_spec(d2, contents_table(), contents_row(l.name, features_bbox(l.features), srs));
    if !(needs_srs(d, srs) ==> has_room(d, srs_table())) {
        d
    } else if !(find_table_spec(d, l.name) is None && distinct_ignore_case(layer_columns(l))) {
        d1
    } else if !has_room(d, geomcols_table()) {
        d1.push(t0)
    } else if !has_room(d, contents_table()) {
        d2.push(t0)
    } else {
        d3.push(TableV { rows: full.rows.take(rows_written(l)), ..full })
    }
}

/// Writes one layer: registers its SRS, creates its table, registers it in
/// `gpkg_geometry_columns` and `gpkg_contents` (with the bounding box of its
/// geometries) and inserts one row per feature.  Fields named `fid` are
/// left out: the primary key takes that name.  Fails when a table of the
/// layer's name exists, when two column names clash, or when a table runs
/// out of rowids; what the steps before the failing one did stays (see
/// [`write_layer_effect`]).
#[verifier::spinoff_prover]
#[verifier::rlimit(30)]
pub fn write_layer(db: &mut Db, layer: &Layer) -> (r: Result<(), GeoError>)
    requires
        gpkg_wf(old(db)@),
        layer_fits(layer@),
    ensures
        final(db).wf(),
        r is Ok <==> write_ok(old(db)@, layer@),
        final(db)@ == write_layer_effect(old(db)@, layer@),
        r is Ok ==> final(db)@ == write_layer_spec(old(db)@, layer@) && gpkg_wf(final(db)@),
{
    let ghost d0 = db@;
    let ghost l = layer@;
    let srs: i64 = match layer.crs_epsg {
        Some(e) => e as i64,
        None => 4326,
    };
    assert(srs == layer_srs(l));
    proof {
        lemma_system_names();
    }
    match ensure_srs_row(db, layer, srs) {
        Ok(()) => {},
        Err(e) => {
            return Err(e);
        },
    }
    let ghost d1 = db@;
    assert(d1 == ensure_srs_spec(d0, l, srs));
    proof {
        if needs_srs(d0, srs) {
            lemma_insert_keeps_gpkg(d0, srs_table(), srs_row(l, srs));
            crate::db::lemma_insert_table_spec(d0, srs_table(), srs_row(l, srs), geomcols_table());
            crate::db::lemma_insert_table_spec(d0, srs_table(), srs_row(l, srs), contents_table());
            crate::db::lemma_insert_table_spec(d0, srs_table(), srs_row(l, srs), l.name);
        }
        assert(find_table_spec(d1, l.name) is None <==> find_table_spec(d0, l.name) is None);
    }
    let ks = kept_positions(&layer.fields);
    let cols = layer_column_names(layer, &ks);
    let sql = build_create_sql(layer, &ks);
    assert(cols.len() > 0) by {
        assert(strings_view(cols@).len() == layer_columns(l).len());
    }
    match db.create_table(layer.name.as_str(), &cols, sql.as_str()) {
        Ok(()) => {},
        Err(e) => {
            assert(!write_ok(d0, l));
            return Err(e);
        },
    }
    let ghost t0 = TableV {
        name: l.name,
        columns: layer_columns(l),
        sql: create_sql(l),
        rows: Seq::empty(),
    };
    assert(db@ == d1.push(t0));
    let gc_row = geomcols_row_exec(&layer.name, layer.geom_type, srs);
    let ghost gcv = geomcols_row(l.name, geom_type_label(l.geom_type), srs);
    proof {
        lemma_no_table(d1, l.name);
        assert(gpkg_wf(d1));
        assert(table_spec(d1, geomcols_table()) == table_spec(d0, geomcols_table()));
        lemma_push_keeps_gpkg(d1, t0, geomcols_table());
        assert(row_view(gc_row@).len() == 6);
        if has_room(d0, geomcols_table()) {
            crate::db::lemma_insert_push(d1, t0, geomcols_table(), gcv);
        }
    }
    match db.insert("gpkg_geometry_columns", gc_row) {
        Ok(()) => {},
        Err(e) => {
            return Err(e);
        },
    }
    let ghost d2 = insert_spec(d1, geomcols_table(), gcv);
    assert(db@ == d2.push(t0));
    let bb = layer_bbox(&layer.features);
    let ct_row = contents_row_exec(&layer.name, bb, srs);
    let ghost ctv = contents_row(l.name, features_bbox(l.features), srs);
    proof {
        lemma_insert_keeps_gpkg(d1, geomcols_table(), gcv);
        crate::db::lemma_insert_table_spec(d1, geomcols_table(), gcv, contents_table());
        assert forall|i: int| 0 <= i < d2.len() implies (#[trigger] d2[i]).name != l.name by {
            assert(d2[i].name == d1[i].name);
        }
        crate::db::lemma_find_none(d2, l.name);
        lemma_push_keeps_gpkg(d2, t0, contents_table());
        assert(bbox_cells(features_bbox(l.features)).len() == 4);
        assert(ctv.len() == 10);
        assert(row_view(ct_row@).len() == 10);
        if has_room(d0, contents_table()) {
            crate::db::lemma_insert_push(d2, t0, contents_table(), ctv);
        }
    }
    match db.insert("gpkg_contents", ct_row) {
        Ok(()) => {},
        Err(e) => {
            return Err(e);
        },
    }
    let ghost d3 = insert_spec(d2, contents_table(), ctv);
    assert(db@ == d3.push(t0));
    proof {
        lemma_insert_keeps_gpkg(d2, contents_table(), ctv);
        assert forall|i: int| 0 <= i < d3.len() implies (#[trigger] d3[i]).name != l.name by {
            assert(d3[i].name == d2[i].name);
        }
        crate::db::lemma_find_none(d3, l.name);
    }
    let ghost full = layer_table(l);
    assert(full.rows.take(0) =~= Seq::<(i64, Seq<SqlValV>)>::empty());
    assert(TableV { rows: full.rows.take(0), ..full } == t0);
    let ghost eff = write_layer_effect(d0, l);
    assert(eff == d3.push(TableV { rows: full.rows.take(rows_written(l)), ..full }));
    let mut k: usize = 0;
    while k < layer.features.len()
        invariant
            k <= layer.features.len(),
            k <= i64::MAX,
            l == layer@,
            srs == layer_srs(l),
            layer_fits(l),
            idx_view(ks@) == kept_fields(l.fields),
            db.wf(),
            gpkg_wf(d3),
            find_table_spec(d3, l.name) is None,
            full == layer_table(l),
            full.rows.len() == l.features.len(),
            db@ == d3.push(TableV { rows: full.rows.take(k as int), ..full }),
            eff == d3.push(TableV { rows: full.rows.take(rows_written(l)), ..full }),
            eff == write_layer_effect(old(db)@, l),
        decreases layer.features.len() - k,
    {
        let ghost tk = TableV { rows: full.rows.take(k as int), ..full };
        assert(l.features[k as int] == layer.features@[k as int]@);
        let row = feature_row_exec(&layer.features[k], &ks, srs);
        proof {
            crate::db::lemma_insert_last(d3, tk, row_view(row@));
            assert(row_view(row@).len() == layer_columns(l).len());
        }
        match db.insert(layer.name.as_str(), row) {
            Ok(()) => {},
            Err(e) => {
                assert(k == i64::MAX);
                assert(rows_written(l) == k);
                return Err(e);
            },
        }
        assert(full.rows.take(k + 1) =~= full.rows.take(k as int).push(
            ((k + 1) as i64, row_view(row@)),
        ));
        k += 1;
    }
    assert(full.rows.take(k as int) =~= full.rows);
    assert(rows_written(l) == k);
    proof {
        lemma_push_keeps_gpkg(d3, full, srs_table());
    }
    Ok(())
}

/// The database after inserting the seed SRS rows.
pub open spec fn seed_spec(d: Seq<TableV>) -> Seq<TableV> {
    insert_spec(
        insert_spec(insert_spec(d, srs_table(), seed_rows()[0]), srs_table(), seed_rows()[1]),
        srs_table(),
        seed_rows()[2],
    )
}

/// Inserts the SRS rows every GeoPackage starts with (see [`seed_rows`]).
/// Fails, leaving the database as it was, when `gpkg_spatial_ref_sys`
/// has no room for three more rows.
pub fn seed_srs(db: &mut Db) -> (r: Result<(), GeoError>)
    requires
        gpkg_wf(old(db)@),
    ensures
        final(db).wf(),
        r is Ok <==> table_spec(old(db)@, srs_table())->0.rows.len() + 3 <= i64::MAX,
        r is Ok ==> final(db)@ == seed_spec(old(db)@) && gpkg_wf(final(db)@),
        r is Err ==> final(db)@ == old(db)@,
{
    let ghost d0 = db@;
    let n = match db.row_count("gpkg_spatial_ref_sys") {
        Some(n) => n,
        None => {
            return Err(GeoError::GpkgSchema(to_owned_string("gpkg_spatial_ref_sys missing")));
        },
    };
    if n as u64 > 0x7fff_ffff_ffff_fffcu64 {
        return Err(GeoError::Sql(to_owned_string("database or disk is full")));
    }
    let r0 = vec![
        SqlVal::Text(to_owned_string("WGS 84 geodetic")),
        SqlVal::Int(4326),
        SqlVal::Text(to_owned_string("EPSG")),
        SqlVal::Int(4326),
        SqlVal::Text(
            to_owned_string(
                "GEOGCS[\"WGS 84\",DATUM[\"WGS_1984\",SPHEROID[\"WGS 84\",6378137,298.257223563]],PRIMEM[\"Greenwich\",0],UNIT[\"degree\",0.0174532925199433]]",
            ),
        ),
        SqlVal::Null,
    ];
    let r1 = vec![
        SqlVal::Text(to_owned_string("Undefined Cartesian SRS")),
        SqlVal::Int(-1),
        SqlVal::Text(to_owned_string("NONE")),
        SqlVal::Int(-1),
        SqlVal::Text(to_owned_string("undefined")),
        SqlVal::Null,
    ];
    let r2 = vec![
        SqlVal::Text(to_owned_string("Undefined geographic SRS")),
        SqlVal::Int(0),
        SqlVal::Text(to_owned_string("NONE")),
        SqlVal::Int(0),
        SqlVal::Text(to_owned_string("undefined")),
        SqlVal::Null,
    ];
    assert(row_view(r0@) =~= seed_rows()[0]);
    assert(row_view(r1@) =~= seed_rows()[1]);
    assert(row_view(r2@) =~= seed_rows()[2]);
    let ghost e1 = insert_spec(d0, srs_table(), seed_rows()[0]);
    let ghost e2 = insert_spec(e1, srs_table(), seed_rows()[1]);
    match db.insert("gpkg_spatial_ref_sys", r0) {
        Ok(()) => {},
        Err(e) => {
            return Err(e);
        },
    }
    proof {
        lemma_insert_keeps_gpkg(d0, srs_table(), seed_rows()[0]);
        crate::db::lemma_insert_table_spec(d0, srs_table(), seed_rows()[0], srs_table());
    }
    match db.insert("gpkg_spatial_ref_sys", r1) {
        Ok(()) => {},
        Err(e) => {
            return Err(e);
        },
    }
    proof {
        lemma_insert_keeps_gpkg(e1, srs_table(), seed_rows()[1]);
        crate::db::lemma_insert_table_spec(e1, srs_table(), seed_rows()[1], srs_table());
    }
    match db.insert("gpkg_spatial_ref_sys", r2) {
        Ok(()) => {},
        Err(e) => {
            return Err(e);
        },
    }
    proof {
        lemma_insert_keeps_gpkg(e2, srs_table(), seed_rows()[2]);
    }
    Ok(())
}

/// A fresh GeoPackage is well formed, and seeding the empty mandatory
/// tables gives it.
proof fn lemma_empty_gpkg()
    ensures
        gpkg_wf(system_tables()),
        seed_spec(system_tables()) == empty_gpkg(),
        gpkg_wf(empty_gpkg()),
{
    lemma_system_names();
    lemma_system_columns_distinct();
    let d = system_tables();
    assert(db_wf(d));
    crate::db::lemma_find_unique(d, 0);
    crate::db::lemma_find_unique(d, 1);
    crate::db::lemma_find_unique(d, 2);
    assert(gpkg_wf(d));
    let e1 = insert_spec(d, srs_table(), seed_rows()[0]);
    crate::db::lemma_insert_wf(d, srs_table(), seed_rows()[0]);
    crate::db::lemma_find_unique(e1, 0);
    let e2 = insert_spec(e1, srs_table(), seed_rows()[1]);
    crate::db::lemma_insert_wf(e1, srs_table(), seed_rows()[1]);
    crate::db::lemma_find_unique(e2, 0);
    let e3 = insert_spec(e2, srs_table(), seed_rows()[2]);
    crate::db::lemma_insert_wf(e2, srs_table(), seed_rows()[2]);
    assert(e1[0].rows =~= seq![(1i64, seed_rows()[0])]);
    assert(e2[0].rows =~= seq![(1i64, seed_rows()[0]), (2i64, seed_rows()[1])]);
    assert(e3[0].rows =~= seq![(1i64, seed_rows()[0]), (2i64, seed_rows()[1]), (3i64, seed_rows()[2])]);
    assert(e3[0] == empty_gpkg()[0]);
    assert(e3[1] == empty_gpkg()[1]);
    assert(e3[2] == empty_gpkg()[2]);
    assert(e3 =~= empty_gpkg());
    lemma_insert_keeps_gpkg(d, srs_table(), seed_rows()[0]);
    lemma_insert_keeps_gpkg(e1, srs_table(), seed_rows()[1]);
    lemma_insert_keeps_gpkg(e2, srs_table(), seed_rows()[2]);
}

/// A fresh GeoPackage: the mandatory tables and the seed SRS rows.
pub fn new_gpkg() -> (r: Db)
    ensures
        r@ == empty_gpkg(),
        r.wf(),
{
    let mut db = Db::new_empty();
    create_system_tables(&mut db);
    proof {
        lemma_empty_gpkg();
    }
    match seed_srs(&mut db) {
        Ok(()) => {},
        Err(_) => {},
    }
    db
}

/// The database holding the given layers, written in order.
pub open spec fn layers_db_spec(ls: Seq<LayerV>) -> Seq<TableV>
    decreases ls.len(),
{
    if ls.len() == 0 {
        empty_gpkg()
    } else {
        write_layer_spec(layers_db_spec(ls.drop_last()), ls.last())
    }
}

/// Every layer can be written after the ones before it.
pub open spec fn layers_ok(ls: Seq<LayerV>) -> bool {
    forall|k: int| 0 <= k < ls.len() ==> write_ok(layers_db_spec(#[trigger] ls.take(k)), ls[k])
}

/// The views of a list of layers.
pub open spec fn layer_refs_view(ls: Seq<&Layer>) -> Seq<LayerV> {
    ls.map_values(|l: &Layer| l@)
}

/// Builds a GeoPackage holding the given layers: the mandatory tables, the
/// seed SRS rows, then each layer as [`write_layer`] writes it.  Fails at
/// the first layer that cannot be written.
pub fn layers_to_db(layers: &[&Layer]) -> (r: Result<Db, GeoError>)
    requires
        forall|k: int| 0 <= k < layers@.len() ==> layer_fits((#[trigger] layers@[k])@),
    ensures
        r is Ok <==> layers_ok(layer_refs_view(layers@)),
        r matches Ok(db) ==> db@ == layers_db_spec(layer_refs_view(layers@)) && gpkg_wf(db@),
{
    let ghost lv = layer_refs_view(layers@);
    let mut db = new_gpkg();
    proof {
        lemma_empty_gpkg();
        assert(lv.take(0) =~= Seq::<LayerV>::empty());
    }
    let mut k: usize = 0;
    while k < layers.len()
        invariant
            k <= layers.len(),
            lv == layer_refs_view(layers@),
            forall|j: int| 0 <= j < layers@.len() ==> layer_fits((#[trigger] layers@[j])@),
            db@ == layers_db_spec(lv.take(k as int)),
            gpkg_wf(db@),
            forall|j: int| 0 <= j < k ==> write_ok(layers_db_spec(#[trigger] lv.take(j)), lv[j]),
        decreases layers.len() - k,
    {
        let ghost before = db@;
        assert(lv[k as int] == layers@[k as int]@);
        match write_layer(&mut db, layers[k]) {
            Ok(()) => {},
            Err(e) => {
                assert(!write_ok(layers_db_spec(lv.take(k as int)), lv[k as int]));
                return Err(e);
            },
        }
        assert(lv.take(k + 1).drop_last() =~= lv.take(k as int));
        assert(lv.take(k + 1).last() == lv[k as int]);
        k += 1;
    }
    assert(lv.take(k as int) =~= lv);
    Ok(db)
}


// ─────────────────────────────────────────────────────────────────────────────
// Streaming writer
// ─────────────────────────────────────────────────────────────────────────────

/// A writer that appends features one at a time to a new GeoPackage,
/// growing the layer's bounding box as it goes; the layer is registered in
/// `gpkg_contents` by [`GpkgStreamWriter::finish`].
pub struct GpkgStreamWriter {
    db: Db,
    table_name: String,
    srs_id: i64,
    /// The kept fields with their positions in the caller's attribute list.
    schema_fields: Vec<(usize, FieldDef)>,
    bbox: Option<BBox>,
    /// The path the finished GeoPackage is meant for.
    pub path: String,
}

/// The mathematical value of a streaming writer.
pub struct StreamV {
    pub db: Seq<TableV>,
    pub table_name: Seq<char>,
    pub srs_id: i64,
    pub fields: Seq<(int, FieldDefV)>,
    pub bbox: Option<BBox>,
    pub path: Seq<char>,
}

/// The kept fields with their positions.
pub open spec fn kept_pairs(f: Seq<FieldDefV>) -> Seq<(int, FieldDefV)> {
    kept_fields(f).map_values(|i: int| (i, f[i]))
}

/// The database a streaming writer starts from: a fresh GeoPackage with
/// the layer's SRS, its geometry column registered and its empty table.
pub open spec fn stream_base(l: LayerV) -> Seq<TableV> {
    let srs = layer_srs(l);
    let d1 = ensure_srs_spec(empty_gpkg(), l, srs);
    insert_spec(d1, geomcols_table(), geomcols_row(l.name, geom_type_label(l.geom_type), srs)).push(
        TableV { name: l.name, columns: layer_columns(l), sql: create_sql(l), rows: Seq::empty() },
    )
}

/// A streaming writer can be created for the layer: its name is not one
/// of the mandatory tables and its column names are distinct.
pub open spec fn create_ok(l: LayerV) -> bool {
    find_table_spec(empty_gpkg(), l.name) is None && distinct_ignore_case(layer_columns(l))
}

/// The view of an optional geometry reference.
pub open spec fn opt_geom_view(g: Option<&Geometry>) -> Option<GeometryV> {
    match g {
        Some(g) => Some(g@),
        None => None,
    }
}

/// The writer after its bounding box has grown by a geometry's.
pub open spec fn stream_grow(o: StreamV, g: Option<GeometryV>) -> StreamV {
    StreamV {
        bbox: grow(
            o.bbox,
            match g {
                Some(g) => geometry_bbox(g),
                None => None,
            },
        ),
        ..o
    }
}

/// The writer after appending a feature with geometry `g` and attribute
/// values `attrs` to its table (the last one).
pub open spec fn stream_push(o: StreamV, g: Option<GeometryV>, attrs: Seq<FieldValueV>) -> StreamV {
    let t = o.db.last();
    StreamV {
        db: o.db.drop_last().push(
            TableV {
                rows: t.rows.push(
                    (
                        next_rowid(t) as i64,
                        cells_row(g, attrs, o.fields.map_values(|p: (int, FieldDefV)| p.0), o.srs_id),
                    ),
                ),
                ..t
            },
        ),
        ..stream_grow(o, g)
    }
}

/// The writer after appending each feature in order.
pub open spec fn stream_push_all(o: StreamV, fs: Seq<FeatureV>) -> StreamV
    decreases fs.len(),
{
    if fs.len() == 0 {
        o
    } else {
        stream_push(stream_push_all(o, fs.drop_last()), fs.last().geometry, fs.last().attributes)
    }
}

/// The box `finish` registers: the accumulated one, or all zeros.
pub open spec fn finish_box(b: Option<BBox>) -> BBox {
    match b {
        Some(b) => b,
        None => BBox { min_x: 0, min_y: 0, max_x: 0, max_y: 0 },
    }
}

/// The database a writer finishes with.
pub open spec fn stream_finish(o: StreamV) -> Seq<TableV> {
    insert_spec(o.db, contents_table(), contents_row(o.table_name, Some(finish_box(o.bbox)), o.srs_id))
}

/// The writer `create` makes for a layer.
pub open spec fn stream_created(l: LayerV, path: Seq<char>) -> StreamV {
    StreamV {
        db: stream_base(l),
        table_name: l.name,
        srs_id: layer_srs(l),
        fields: kept_pairs(l.fields),
        bbox: None,
        path,
    }
}

impl View for GpkgStreamWriter {
    type V = StreamV;

    closed spec fn view(&self) -> StreamV {
        StreamV {
            db: self.db@,
            table_name: self.table_name@,
            srs_id: self.srs_id,
            fields: self.schema_fields@.map_values(|p: (usize, FieldDef)| (p.0 as int, p.1@)),
            bbox: self.bbox,
            path: self.path@,
        }
    }
}

impl GpkgStreamWriter {
    /// The writer's database ends with the layer's table, as wide as its
    /// kept fields plus `fid` and `geom`, and holds the mandatory tables.
    pub open spec fn wf(&self) -> bool {
        let v = self@;
        &&& gpkg_wf(v.db)
        &&& v.db.len() > 0
        &&& v.db.last().name == v.table_name
        &&& v.db.last().columns.len() == 2 + v.fields.len()
        &&& v.table_name != contents_table()
    }

    /// Starts a GeoPackage for the layer `schema` (whose features are not
    /// written): registers its SRS, creates its table and registers its
    /// geometry column.  Fields named `fid` are left out.  Fails when the
    /// layer's name is one of the mandatory tables or two column names
    /// clash.
    pub fn create(path: &str, schema: &Layer) -> (r: Result<GpkgStreamWriter, GeoError>)
        ensures
            r is Ok <==> create_ok(schema@),
            r matches Ok(w) ==> w.wf() && w@ == stream_created(schema@, path@),
    {
        let ghost l = schema@;
        let mut db = new_gpkg();
        let ghost d0 = db@;
        proof {
            lemma_empty_gpkg();
            lemma_system_names();
        }
        let srs: i64 = match schema.crs_epsg {
            Some(e) => e as i64,
            None => 4326,
        };
        let ks = kept_positions(&schema.fields);
        let cols = layer_column_names(schema, &ks);
        if db.find_table(schema.name.as_str()).is_some() {
            return Err(GeoError::Sql(to_owned_string("table already exists")));
        }
        if !crate::db::names_distinct(&cols) {
            return Err(GeoError::Sql(to_owned_string("duplicate column name")));
        }
        assert(create_ok(l));
        proof {
            reveal_strlit("gpkg_spatial_ref_sys");
            crate::db::lemma_find_unique(d0, 0);
            assert(table_spec(d0, srs_table())->0.rows.len() == 3);
        }
        match ensure_srs_row(&mut db, schema, srs) {
            Ok(()) => {},
            Err(e) => {
                return Err(e);
            },
        }
        let ghost d1 = db@;
        proof {
            lemma_no_table(d0, l.name);
            if needs_srs(d0, srs) {
                lemma_insert_keeps_gpkg(d0, srs_table(), srs_row(l, srs));
                crate::db::lemma_insert_table_spec(d0, srs_table(), srs_row(l, srs), geomcols_table());
            }
            assert forall|i: int| 0 <= i < d1.len() implies (#[trigger] d1[i]).name != l.name by {
                assert(d1[i].name == d0[i].name);
            }
            crate::db::lemma_find_none(d1, l.name);
            crate::db::lemma_find_unique(d0, 2);
        }
        let sql = build_create_sql(schema, &ks);
        match db.create_table(schema.name.as_str(), &cols, sql.as_str()) {
            Ok(()) => {},
            Err(e) => {
                return Err(e);
            },
        }
        let ghost t0 = TableV {
            name: l.name,
            columns: layer_columns(l),
            sql: create_sql(l),
            rows: Seq::empty(),
        };
        assert(db@ == d1.push(t0));
        let gc_row = geomcols_row_exec(&schema.name, schema.geom_type, srs);
        let ghost gcv = geomcols_row(l.name, geom_type_label(l.geom_type), srs);
        proof {
            lemma_push_keeps_gpkg(d1, t0, geomcols_table());
            crate::db::lemma_insert_push(d1, t0, geomcols_table(), gcv);
            assert(row_view(gc_row@).len() == 6);
        }
        match db.insert("gpkg_geometry_columns", gc_row) {
            Ok(()) => {},
            Err(e) => {
                return Err(e);
            },
        }
        let ghost d2 = insert_spec(d1, geomcols_table(), gcv);
        assert(db@ == d2.push(t0));
        proof {
            lemma_insert_keeps_gpkg(d1, geomcols_table(), gcv);
            assert forall|i: int| 0 <= i < d2.len() implies (#[trigger] d2[i]).name != l.name by {
                assert(d2[i].name == d1[i].name);
            }
            crate::db::lemma_find_none(d2, l.name);
            lemma_push_keeps_gpkg(d2, t0, srs_table());
        }
        let mut fields: Vec<(usize, FieldDef)> = Vec::new();
        let ghost kv = kept_fields(l.fields);
        proof {
            lemma_kept_fields(l.fields);
        }
        let mut j: usize = 0;
        while j < ks.len()
            invariant
                j <= ks.len(),
                kv == idx_view(ks@),
                kv == kept_fields(l.fields),
                l == schema@,
                forall|a: int| 0 <= a < kv.len() ==> 0 <= #[trigger] kv[a] < l.fields.len(),
                fields@.map_values(|p: (usize, FieldDef)| (p.0 as int, p.1@)) == kv.take(
                    j as int,
                ).map_values(|i: int| (i, l.fields[i])),
            decreases ks.len() - j,
        {
            let k = ks[j];
            assert(kv[j as int] == k as int);
            assert(l.fields[k as int] == schema.fields@[k as int]@);
            let fd = schema.fields[k].copy();
            let ghost prev = fields@;
            fields.push((k, fd));
            assert(fields@.map_values(|p: (usize, FieldDef)| (p.0 as int, p.1@)) =~= prev.map_values(
                |p: (usize, FieldDef)| (p.0 as int, p.1@),
            ).push((k as int, fd@)));
            assert(kv.take(j + 1) =~= kv.take(j as int).push(k as int));
            assert(kv.take(j + 1).map_values(|i: int| (i, l.fields[i])) =~= kv.take(
                j as int,
            ).map_values(|i: int| (i, l.fields[i])).push((k as int, fd@)));
            j += 1;
        }
        assert(kv.take(kv.len() as int) =~= kv);
        let w = GpkgStreamWriter {
            db,
            table_name: schema.name.clone(),
            srs_id: srs,
            schema_fields: fields,
            bbox: None,
            path: to_owned_string(path),
        };
        proof {
            reveal_strlit("gpkg_contents");
            assert(w@.db == stream_base(l));
            assert(w@.fields.len() == kv.len());
            assert(contents_table() != l.name);
        }
        Ok(w)
    }

    /// Appends one feature.  `attrs` holds values for all fields of the
    /// schema, in schema order; those of `fid` fields are ignored and
    /// missing ones are stored as `Null`.  The geometry's bounding box is
    /// added to the layer's.  Fails when the table has run out of rowids.
    pub fn push_feature(&mut self, geom: Option<&Geometry>, attrs: &[FieldValue]) -> (r: Result<(), GeoError>)
        requires
            old(self).wf(),
            geom matches Some(g) ==> fits(g@),
        ensures
            final(self).wf(),
            r is Ok <==> next_rowid(old(self)@.db.last()) <= i64::MAX,
            r is Ok ==> final(self)@ == stream_push(old(self)@, opt_geom_view(geom), values_view(attrs@)),
            r is Err ==> final(self)@ == stream_grow(old(self)@, opt_geom_view(geom)),
    {
        let ghost o = self@;
        let b = match geom {
            Some(g) => g.bbox(),
            None => None,
        };
        self.bbox = grow_exec(self.bbox, b);
        let gcell = match geom {
            Some(g) => SqlVal::Blob(g.to_gpkg_wkb(self.srs_id as i32)),
            None => SqlVal::Null,
        };
        let ghost gv = match geom {
            Some(g) => Some(g@),
            None => None,
        };
        let ghost av = values_view(attrs@);
        let ghost idx = o.fields.map_values(|p: (int, FieldDefV)| p.0);
        let mut row = vec![SqlVal::Null, gcell];
        let mut j: usize = 0;
        while j < self.schema_fields.len()
            invariant
                j <= self.schema_fields.len(),
                o.fields == self@.fields,
                idx == o.fields.map_values(|p: (int, FieldDefV)| p.0),
                av == values_view(attrs@),
                row_view(row@) == seq![SqlValV::Null, geom_cell(gv, o.srs_id)] + idx.take(
                    j as int,
                ).map_values(|i: int| attr_cell(av, i)),
            decreases self.schema_fields.len() - j,
        {
            let k = self.schema_fields[j].0;
            assert(idx[j as int] == k as int);
            let v = if k < attrs.len() {
                field_to_sqlval(&attrs[k])
            } else {
                SqlVal::Null
            };
            assert(v@ == attr_cell(av, k as int));
            let ghost prev = row@;
            row.push(v);
            assert(row_view(row@) =~= row_view(prev).push(v@));
            assert(idx.take(j + 1) =~= idx.take(j as int).push(k as int));
            assert(idx.take(j + 1).map_values(|i: int| attr_cell(av, i)) =~= idx.take(
                j as int,
            ).map_values(|i: int| attr_cell(av, i)).push(v@));
            j += 1;
        }
        assert(idx.take(idx.len() as int) =~= idx);
        let ghost t = o.db.last();
        proof {
            assert(o.db =~= o.db.drop_last().push(t));
            crate::db::lemma_insert_last(o.db.drop_last(), t, row_view(row@));
            crate::db::lemma_find_unique(o.db, o.db.len() - 1);
        }
        let r = self.db.insert(self.table_name.as_str(), row);
        proof {
            if r is Ok {
                let nt = TableV { rows: t.rows.push((next_rowid(t) as i64, row_view(row@))), ..t };
                assert(self@.db == o.db.drop_last().push(nt));
                lemma_insert_keeps_gpkg(o.db, o.table_name, row_view(row@));
                assert(self@.db.last() == nt);
            }
        }
        r
    }

    /// Registers the layer in `gpkg_contents` with the accumulated bounding
    /// box (all zeros when no geometry had one) and hands back the finished
    /// GeoPackage.  Fails when `gpkg_contents` has run out of rowids.
    pub fn finish(self) -> (r: Result<Db, GeoError>)
        requires
            self.wf(),
        ensures
            r is Ok <==> has_room(self@.db, contents_table()),
            r matches Ok(db) ==> db@ == stream_finish(self@) && gpkg_wf(db@),
    {
        let mut db = self.db;
        let bb = match self.bbox {
            Some(b) => b,
            None => BBox { min_x: 0, min_y: 0, max_x: 0, max_y: 0 },
        };
        let row = contents_row_exec(&self.table_name, Some(bb), self.srs_id);
        let ghost d = db@;
        proof {
            assert(row_view(row@).len() == 10);
        }
        match db.insert("gpkg_contents", row) {
            Ok(()) => {
                proof {
                    lemma_insert_keeps_gpkg(d, contents_table(), row_view(row@));
                }
                Ok(db)
            },
            Err(e) => Err(e),
        }
    }
}


// ─────────────────────────────────────────────────────────────────────────────
// Database → layer (spec)
// ─────────────────────────────────────────────────────────────────────────────

/// The `i`-th cell of a row, if the row has one.
pub open spec fn cell(row: Seq<SqlValV>, i: int) -> Option<SqlValV> {
    if 0 <= i < row.len() {
        Some(row[i])
    } else {
        None
    }
}

/// The text of the `i`-th cell, if it is a text cell.
pub open spec fn cell_text(row: Seq<SqlValV>, i: int) -> Option<Seq<char>> {
    match cell(row, i) {
        Some(SqlValV::Text(s)) => Some(s),
        _ => None,
    }
}

/// The integer of the `i`-th cell, if it is an integer cell.
pub open spec fn cell_int(row: Seq<SqlValV>, i: int) -> Option<i64> {
    match cell(row, i) {
        Some(SqlValV::Int(n)) => Some(n),
        _ => None,
    }
}

/// The bytes of the `i`-th cell, if it is a blob cell.
pub open spec fn cell_blob(row: Seq<SqlValV>, i: int) -> Option<Seq<u8>> {
    match cell(row, i) {
        Some(SqlValV::Blob(b)) => Some(b),
        _ => None,
    }
}

/// The text of the `i`-th cell, or `dflt`.
pub open spec fn text_or(row: Seq<SqlValV>, i: int, dflt: Seq<char>) -> Seq<char> {
    match cell_text(row, i) {
        Some(s) => s,
        None => dflt,
    }
}

/// The names of the `gpkg_contents` rows whose data type is `features`.
pub open spec fn feature_names(rows: Seq<Seq<SqlValV>>) -> Seq<Seq<char>>
    decreases rows.len(),
{
    if rows.len() == 0 {
        Seq::empty()
    } else {
        let p = feature_names(rows.drop_last());
        let r = rows.last();
        if cell_text(r, 1) == Some("features"@) && cell_text(r, 0) is Some {
            p.push(cell_text(r, 0)->0)
        } else {
            p
        }
    }
}

/// The table names that start with neither `gpkg_` nor `sqlite_`.
pub open spec fn user_table_names(names: Seq<Seq<char>>) -> Seq<Seq<char>>
    decreases names.len(),
{
    if names.len() == 0 {
        Seq::empty()
    } else {
        let p = user_table_names(names.drop_last());
        let n = names.last();
        if !crate::text::has_prefix(n, "gpkg_"@) && !crate::text::has_prefix(n, "sqlite_"@) {
            p.push(n)
        } else {
            p
        }
    }
}

/// The feature layers of a GeoPackage: the `features` entries of
/// `gpkg_contents`, or, without that table, every table that is not a
/// GeoPackage or SQLite system table.
pub open spec fn layer_names_spec(d: Seq<TableV>) -> Seq<Seq<char>> {
    match table_spec(d, contents_table()) {
        Some(t) => feature_names(table_cells(t)),
        None => user_table_names(d.map_values(|t: TableV| t.name)),
    }
}

/// The first index of `s` whose element satisfies `p`.
pub open spec fn first_where<A>(s: Seq<A>, p: spec_fn(A) -> bool) -> Option<int>
    decreases s.len(),
{
    if s.len() == 0 {
        None
    } else {
        match first_where(s.drop_last(), p) {
            Some(k) => Some(k),
            None => if p(s.last()) {
                Some(s.len() - 1)
            } else {
                None
            },
        }
    }
}

/// `first_where` finds the least index that satisfies the predicate.
pub proof fn lemma_first_where<A>(s: Seq<A>, p: spec_fn(A) -> bool)
    ensures
        match first_where(s, p) {
            Some(k) => 0 <= k < s.len() && p(s[k]) && forall|i: int| 0 <= i < k ==> !p(s[i]),
            None => forall|i: int| 0 <= i < s.len() ==> !p(s[i]),
        },
    decreases s.len(),
{
    if s.len() > 0 {
        lemma_first_where(s.drop_last(), p);
        assert forall|i: int| 0 <= i < s.len() - 1 implies s.drop_last()[i] == s[i] by {}
    }
}

/// The row names the table `name` in its first cell (a row without a text
/// there names the empty name).
pub open spec fn names_table(name: Seq<char>) -> spec_fn(Seq<SqlValV>) -> bool {
    |r: Seq<SqlValV>| text_or(r, 0, Seq::empty()) == name
}

/// The first row of `gpkg_geometry_columns` for the table `name`.
pub open spec fn first_geomcol(rows: Seq<Seq<SqlValV>>, name: Seq<char>) -> Option<int> {
    first_where(rows, names_table(name))
}

/// The column names the geometry column goes by when it is not registered.
pub open spec fn geom_like(c: Seq<char>) -> bool {
    let l = crate::text::lower_seq(c);
    l == "geom"@ || l == "geometry"@ || l == "shape"@ || l == "wkb_geometry"@ || l == "the_geom"@
}

/// The first column with a geometry-like name.
pub open spec fn first_geom_like(cols: Seq<Seq<char>>) -> Option<int> {
    first_where(cols, is_geom_like())
}

/// [`geom_like`] as a predicate.
pub open spec fn is_geom_like() -> spec_fn(Seq<char>) -> bool {
    |c: Seq<char>| geom_like(c)
}

/// The geometry column, SRS id and geometry type name of a table: from
/// `gpkg_geometry_columns` (with defaults `geom`, 4326, `GEOMETRY` for
/// missing cells), else the first geometry-like column with SRS 4326,
/// else `geom`.
pub open spec fn geom_info_spec(d: Seq<TableV>, name: Seq<char>) -> (Seq<char>, i64, Seq<char>) {
    let fallback = match table_spec(d, name) {
        Some(t) => match first_geom_like(t.columns) {
            Some(c) => (t.columns[c], 4326i64, "GEOMETRY"@),
            None => ("geom"@, 4326i64, "GEOMETRY"@),
        },
        None => ("geom"@, 4326i64, "GEOMETRY"@),
    };
    match table_spec(d, geomcols_table()) {
        Some(t) => match first_geomcol(table_cells(t), name) {
            Some(k) => {
                let row = table_cells(t)[k];
                (
                    text_or(row, 1, "geom"@),
                    match cell_int(row, 3) {
                        Some(n) => n,
                        None => 4326i64,
                    },
                    text_or(row, 2, "GEOMETRY"@),
                )
            },
            None => fallback,
        },
        None => fallback,
    }
}

/// The row has the integer `srs` in its second cell.
pub open spec fn has_srs_id(srs: i64) -> spec_fn(Seq<SqlValV>) -> bool {
    |r: Seq<SqlValV>| cell_int(r, 1) == Some(srs)
}

/// The first row whose second cell is the integer `srs`.
pub open spec fn first_srs(rows: Seq<Seq<SqlValV>>, srs: i64) -> Option<int> {
    first_where(rows, has_srs_id(srs))
}

/// The WKT definition registered for SRS `srs`, trimmed; none when the
/// first row of that SRS has no text definition, or an empty or
/// `undefined` one.
pub open spec fn spatial_ref_wkt_spec(d: Seq<TableV>, srs: i64) -> Option<Seq<char>> {
    match table_spec(d, srs_table()) {
        None => None,
        Some(t) => match first_srs(table_cells(t), srs) {
            None => None,
            Some(k) => match cell_text(table_cells(t)[k], 4) {
                None => None,
                Some(def) => {
                    let tr = crate::text::trim_spec(def);
                    if tr.len() == 0 || eq_ignore_case(tr, "undefined"@) {
                        None
                    } else {
                        Some(tr)
                    }
                },
            },
        },
    }
}

/// A text looks like a date when its UTF-8 bytes number at least ten with
/// `-` at byte offsets 4 and 7.
pub open spec fn looks_like_date_spec(s: Seq<char>) -> bool {
    let b = vstd::utf8::encode_utf8(s);
    b.len() >= 10 && b[4] == 45u8 && b[7] == 45u8
}

/// The field type a cell suggests; none for `Null`.
pub open spec fn cell_kind(v: SqlValV) -> Option<FieldType> {
    match v {
        SqlValV::Null => None,
        SqlValV::Int(_) => Some(FieldType::Integer),
        SqlValV::Real(_) => Some(FieldType::Float),
        SqlValV::Blob(_) => Some(FieldType::Blob),
        SqlValV::Text(s) => Some(
            if looks_like_date_spec(s) {
                FieldType::Date
            } else {
                FieldType::Text
            },
        ),
    }
}

/// The type inferred for column `c`: the kinds of its non-null cells,
/// widened together in row order; none when all are null or missing.
pub open spec fn infer_column(rows: Seq<Seq<SqlValV>>, c: int) -> Option<FieldType>
    decreases rows.len(),
{
    if rows.len() == 0 {
        None
    } else {
        let acc = infer_column(rows.drop_last(), c);
        match cell(rows.last(), c) {
            None => acc,
            Some(v) => match cell_kind(v) {
                None => acc,
                Some(ft) => Some(
                    match acc {
                        None => ft,
                        Some(e) => crate::feature::widen(e, ft),
                    },
                ),
            },
        }
    }
}

/// The kind of the cell in column `c` of row `k`, if it is there and not null.
pub open spec fn kind_at(rows: Seq<Seq<SqlValV>>, k: int, c: int) -> Option<FieldType> {
    match cell(rows[k], c) {
        Some(v) => cell_kind(v),
        None => None,
    }
}

/// The type inferred for a column holds the kind of each of its non-null
/// cells, and is the narrowest such type: any type holding them all holds
/// it.  It is none exactly when the column has no non-null cell.
pub proof fn law_infer_column(rows: Seq<Seq<SqlValV>>, c: int, w: FieldType)
    ensures
        forall|k: int|
            0 <= k < rows.len() && #[trigger] kind_at(rows, k, c) is Some ==> infer_column(rows, c)
                is Some && crate::feature::holds(infer_column(rows, c)->0, kind_at(rows, k, c)->0),
        infer_column(rows, c) is None <==> forall|k: int|
            0 <= k < rows.len() ==> #[trigger] kind_at(rows, k, c) is None,
        (forall|k: int|
            0 <= k < rows.len() && #[trigger] kind_at(rows, k, c) is Some ==> crate::feature::holds(
                w,
                kind_at(rows, k, c)->0,
            )) ==> infer_column(rows, c) is None || crate::feature::holds(w, infer_column(rows, c)->0),
    decreases rows.len(),
{
    if rows.len() > 0 {
        let p = rows.drop_last();
        law_infer_column(p, c, w);
        assert forall|k: int| 0 <= k < p.len() implies #[trigger] kind_at(p, k, c) == kind_at(rows, k, c) by {
            assert(p[k] == rows[k]);
        }
        let last = rows.len() - 1;
        assert(kind_at(rows, last, c) == match cell(rows.last(), c) {
            Some(v) => cell_kind(v),
            None => None,
        });
        match infer_column(p, c) {
            Some(e) => match kind_at(rows, last, c) {
                Some(ft) => {
                    crate::feature::law_widen(e, ft, w);
                    assert forall|k: int|
                        0 <= k < rows.len() && #[trigger] kind_at(rows, k, c) is Some implies crate::feature::holds(
                        infer_column(rows, c)->0,
                        kind_at(rows, k, c)->0,
                    ) by {
                        if k < last {
                            assert(kind_at(p, k, c) is Some);
                            crate::feature::law_widen(e, ft, crate::feature::widen(e, ft));
                            crate::feature::law_widen(crate::feature::widen(e, ft), e, kind_at(p, k, c)->0);
                            crate::feature::law_widen(e, ft, kind_at(p, k, c)->0);
                            assert(crate::feature::holds(crate::feature::widen(e, ft), e));
                            assert(crate::feature::holds(e, kind_at(p, k, c)->0));
                        }
                    }
                    if forall|k: int|
                        0 <= k < rows.len() && #[trigger] kind_at(rows, k, c) is Some ==> crate::feature::holds(
                            w,
                            kind_at(rows, k, c)->0,
                        ) {
                        assert(crate::feature::holds(w, ft));
                        assert forall|k: int|
                            0 <= k < p.len() && #[trigger] kind_at(p, k, c) is Some implies crate::feature::holds(
                            w,
                            kind_at(p, k, c)->0,
                        ) by {
                            assert(kind_at(rows, k, c) is Some);
                        }
                    }
                },
                None => {
                    assert forall|k: int|
                        0 <= k < rows.len() && #[trigger] kind_at(rows, k, c) is Some implies crate::feature::holds(
                        infer_column(rows, c)->0,
                        kind_at(rows, k, c)->0,
                    ) by {
                        if k < last {
                            assert(kind_at(p, k, c) is Some);
                        }
                    }
                    if forall|k: int|
                        0 <= k < rows.len() && #[trigger] kind_at(rows, k, c) is Some ==> crate::feature::holds(
                            w,
                            kind_at(rows, k, c)->0,
                        ) {
                        assert forall|k: int|
                            0 <= k < p.len() && #[trigger] kind_at(p, k, c) is Some implies crate::feature::holds(
                            w,
                            kind_at(p, k, c)->0,
                        ) by {
                            assert(kind_at(rows, k, c) is Some);
                        }
                    }
                },
            },
            None => {
                assert forall|k: int| 0 <= k < last implies #[trigger] kind_at(rows, k, c) is None by {
                    assert(kind_at(p, k, c) is None);
                }
                match kind_at(rows, last, c) {
                    Some(ft) => {
                        crate::feature::law_widen(ft, ft, w);
                        assert(infer_column(rows, c) == Some(ft));
                        assert forall|k: int|
                            0 <= k < rows.len() && #[trigger] kind_at(rows, k, c) is Some implies k == last by {
                            if k < last {
                                assert(kind_at(p, k, c) is None);
                            }
                        }
                    },
                    None => {},
                }
            },
        }
    }
}

/// The attribute value read from a cell.
pub open spec fn to_field(v: SqlValV) -> FieldValueV {
    match v {
        SqlValV::Null => FieldValueV::Null,
        SqlValV::Int(n) => FieldValueV::Integer(n),
        SqlValV::Real(b) => FieldValueV::Float(b),
        SqlValV::Text(s) => FieldValueV::Text(s),
        SqlValV::Blob(b) => FieldValueV::Blob(b),
    }
}

/// The sequence without its trailing `Z` and `M` characters.
pub open spec fn trim_zm(s: Seq<char>) -> Seq<char>
    decreases s.len(),
{
    if s.len() > 0 && (s.last() == 'Z' || s.last() == 'M') {
        trim_zm(s.drop_last())
    } else {
        s
    }
}

/// The geometry kind a type name stands for, in any ASCII case and with
/// any `Z`/`M` suffix.
pub open spec fn parse_geom_type_spec(s: Seq<char>) -> Option<GeometryType> {
    let u = trim_zm(upper_seq(s));
    if u == "POINT"@ {
        Some(GeometryType::Point)
    } else if u == "LINESTRING"@ {
        Some(GeometryType::LineString)
    } else if u == "POLYGON"@ {
        Some(GeometryType::Polygon)
    } else if u == "MULTIPOINT"@ {
        Some(GeometryType::MultiPoint)
    } else if u == "MULTILINESTRING"@ {
        Some(GeometryType::MultiLineString)
    } else if u == "MULTIPOLYGON"@ {
        Some(GeometryType::MultiPolygon)
    } else if u == "GEOMETRYCOLLECTION"@ {
        Some(GeometryType::GeometryCollection)
    } else {
        None
    }
}

/// The name equals `name` in any ASCII case.
pub open spec fn same_name(name: Seq<char>) -> spec_fn(Seq<char>) -> bool {
    |c: Seq<char>| eq_ignore_case(c, name)
}

/// The first column named `name` in any ASCII case.
pub open spec fn first_ci(cols: Seq<Seq<char>>, name: Seq<char>) -> Option<int> {
    first_where(cols, same_name(name))
}

/// The positions below `n` other than `fid` and `geom`.
pub open spec fn attr_positions(n: int, fid: Option<int>, geom: Option<int>) -> Seq<int>
    decreases n,
{
    if n <= 0 {
        Seq::empty()
    } else {
        let p = attr_positions(n - 1, fid, geom);
        if Some(n - 1) != fid && Some(n - 1) != geom {
            p.push(n - 1)
        } else {
            p
        }
    }
}

/// The feature read from the `k`-th row: its id is the `fid` cell when
/// that is an integer, else the rowid, and at least `k`; its geometry is
/// the decoded blob of the geometry column, if any decodes.
pub open spec fn read_feature(
    r: (i64, Seq<SqlValV>),
    k: int,
    fid: Option<int>,
    geom: Option<int>,
    ac: Seq<int>,
) -> FeatureV {
    let id = match fid {
        Some(i) => match cell_int(r.1, i) {
            Some(n) => n,
            None => r.0,
        },
        None => r.0,
    };
    FeatureV {
        fid: (if id >= k { id as int } else { k }) as u64,
        geometry: match geom {
            Some(i) => match cell_blob(r.1, i) {
                Some(b) => match crate::geometry::gpkg_decode(b) {
                    Some((g, _)) => Some(g),
                    None => None,
                },
                None => None,
            },
            None => None,
        },
        attributes: ac.map_values(
            |c: int|
                match cell(r.1, c) {
                    Some(v) => to_field(v),
                    None => FieldValueV::Null,
                },
        ),
    }
}

/// The EPSG code a layer read with SRS `srs` gets.
pub open spec fn read_epsg(srs: i64) -> Option<u32> {
    if srs > 0 {
        Some(srs as u32)
    } else {
        None
    }
}

/// The CRS a layer reads back with, from the SRS id `srs` of its geometry
/// column and the definition `registered` for it: as WKT the registered
/// definition, else (for a positive SRS) the registry's WKT for the code;
/// as EPSG code `srs` when positive, else the code the registry
/// identifies in that WKT.
pub open spec fn read_crs_spec(srs: i64, registered: Option<Seq<char>>) -> (
    Option<u32>,
    Option<Seq<char>>,
) {
    let wkt = match registered {
        Some(w) => Some(w),
        None => if srs > 0 {
            ogc_wkt_of(srs as u32)
        } else {
            None
        },
    };
    let epsg = if srs > 0 {
        Some(srs as u32)
    } else {
        match wkt {
            Some(w) => epsg_identified_in(w),
            None => None,
        }
    };
    (epsg, wkt)
}

/// The CRS (EPSG code, WKT) a layer reads back with (see [`read_crs_spec`]).
pub fn read_crs(srs: i64, registered: Option<String>) -> (r: (Option<u32>, Option<String>))
    ensures
        (r.0, opt_string_view(r.1)) == read_crs_spec(srs, opt_string_view(registered)),
{
    let wkt = match registered {
        Some(w) => Some(w),
        None => if srs > 0 {
            ogc_wkt_from_epsg(srs as u32)
        } else {
            None
        },
    };
    let epsg = if srs > 0 {
        Some(srs as u32)
    } else {
        match &wkt {
            Some(w) => epsg_from_wkt_lenient(w.as_str()),
            None => None,
        }
    };
    (epsg, wkt)
}

/// The layer read from the table `name`; none when there is no such table.
pub open spec fn extract_spec(d: Seq<TableV>, name: Seq<char>) -> Option<LayerV> {
    match table_spec(d, name) {
        None => None,
        Some(t) => {
            let info = geom_info_spec(d, name);
            let fid = first_ci(t.columns, "fid"@);
            let gi = first_ci(t.columns, info.0);
            let ac = attr_positions(t.columns.len() as int, fid, gi);
            let rows = table_cells(t);
            Some(
                LayerV {
                    name: name,
                    geom_type: parse_geom_type_spec(info.2),
                    crs_epsg: read_crs_spec(info.1, spatial_ref_wkt_spec(d, info.1)).0,
                    crs_wkt: read_crs_spec(info.1, spatial_ref_wkt_spec(d, info.1)).1,
                    fields: ac.map_values(
                        |c: int|
                            FieldDefV {
                                name: t.columns[c],
                                field_type: match infer_column(rows, c) {
                                    Some(ft) => ft,
                                    None => FieldType::Text,
                                },
                            },
                    ),
                    features: Seq::new(
                        t.rows.len(),
                        |k: int| read_feature(t.rows[k], k, fid, gi, ac),
                    ),
                },
            )
        },
    }
}


// ─────────────────────────────────────────────────────────────────────────────
// Database → layer (exec)
// ─────────────────────────────────────────────────────────────────────────────

/// The feature layer names of a GeoPackage (see [`layer_names_spec`]).
pub fn layer_names(db: &Db) -> (r: Result<Vec<String>, GeoError>)
    requires
        db.wf(),
    ensures
        r matches Ok(v) && strings_view(v@) == layer_names_spec(db@),
{
    if db.find_table("gpkg_contents").is_some() {
        let rows = match db.select_all("gpkg_contents") {
            Ok(rows) => rows,
            Err(e) => {
                return Err(e);
            },
        };
        let ghost cv = crate::db::cells_view(rows@);
        let mut out: Vec<String> = Vec::new();
        let mut k: usize = 0;
        while k < rows.len()
            invariant
                k <= rows.len(),
                cv == crate::db::cells_view(rows@),
                strings_view(out@) == feature_names(cv.take(k as int)),
            decreases rows.len() - k,
        {
            assert(cv[k as int] == row_view(rows@[k as int]@));
            assert(cv.take(k + 1).drop_last() =~= cv.take(k as int));
            assert(cv.take(k + 1).last() == cv[k as int]);
            let row = &rows[k];
            if row.len() > 1 && row.len() > 0 {
                assert(cv[k as int][1] == row@[1]@);
                assert(cv[k as int][0] == row@[0]@);
                match (row[1].as_str(), row[0].as_str()) {
                    (Some(dt), Some(nm)) => {
                        proof {
                            reveal_strlit("features");
                        }
                        if crate::text::str_eq(dt, "features") {
                            let ghost prev = out@;
                            out.push(to_owned_string(nm));
                            assert(strings_view(out@) =~= strings_view(prev).push(nm@));
                        }
                    },
                    _ => {},
                }
            } else if row.len() > 0 {
                assert(cv[k as int][0] == row@[0]@);
            }
            k += 1;
        }
        assert(cv.take(k as int) =~= cv);
        Ok(out)
    } else {
        let names = db.table_names();
        let ghost nv = db@.map_values(|t: TableV| t.name);
        let mut out: Vec<String> = Vec::new();
        let mut k: usize = 0;
        while k < names.len()
            invariant
                k <= names.len(),
                nv == db@.map_values(|t: TableV| t.name),
                strings_view(names@) == nv,
                strings_view(out@) == user_table_names(nv.take(k as int)),
            decreases names.len() - k,
        {
            assert(nv[k as int] == names@[k as int]@);
            assert(nv.take(k + 1).drop_last() =~= nv.take(k as int));
            if !crate::text::starts_with(names[k].as_str(), "gpkg_") && !crate::text::starts_with(
                names[k].as_str(),
                "sqlite_",
            ) {
                let ghost prev = out@;
                out.push(names[k].clone());
                assert(strings_view(out@) =~= strings_view(prev).push(names@[k as int]@));
            }
            k += 1;
        }
        assert(nv.take(k as int) =~= nv);
        Ok(out)
    }
}

/// The WKT registered for SRS `srs` (see [`spatial_ref_wkt_spec`]).
pub fn spatial_ref_wkt(db: &Db, srs: i64) -> (r: Option<String>)
    requires
        db.wf(),
    ensures
        match r {
            Some(s) => spatial_ref_wkt_spec(db@, srs) == Some(s@),
            None => spatial_ref_wkt_spec(db@, srs) is None,
        },
{
    if db.find_table("gpkg_spatial_ref_sys").is_none() {
        return None;
    }
    let rows = match db.select_all("gpkg_spatial_ref_sys") {
        Ok(rows) => rows,
        Err(_) => {
            return None;
        },
    };
    let ghost cv = crate::db::cells_view(rows@);
    proof {
        lemma_first_where(cv, has_srs_id(srs));
    }
    let mut k: usize = 0;
    while k < rows.len()
        invariant
            k <= rows.len(),
            cv == crate::db::cells_view(rows@),
            cv == table_cells(table_spec(db@, srs_table())->0),
            table_spec(db@, srs_table()) is Some,
            forall|i: int| 0 <= i < k ==> !has_srs_id(srs)(#[trigger] cv[i]),
            match first_where(cv, has_srs_id(srs)) {
                Some(j) => 0 <= j < cv.len() && has_srs_id(srs)(cv[j]) && forall|i: int|
                    0 <= i < j ==> !has_srs_id(srs)(cv[i]),
                None => forall|i: int| 0 <= i < cv.len() ==> !has_srs_id(srs)(cv[i]),
            },
        decreases rows.len() - k,
    {
        let row = &rows[k];
        assert(cv[k as int] == row_view(row@));
        let hit = if row.len() > 1 {
            assert(cv[k as int][1] == row@[1]@);
            row[1].as_i64() == Some(srs)
        } else {
            false
        };
        assert(hit == has_srs_id(srs)(cv[k as int]));
        if hit {
            assert(first_where(cv, has_srs_id(srs)) == Some(k as int));
            if row.len() <= 4 {
                return None;
            }
            assert(cv[k as int][4] == row@[4]@);
            let def = match row[4].as_str() {
                Some(d) => d,
                None => {
                    return None;
                },
            };
            let t = crate::text::trim(def);
            if crate::text::chars_of(t.as_str()).len() == 0 || eq_ignore_ascii_case(
                t.as_str(),
                "undefined",
            ) {
                return None;
            }
            return Some(t);
        }
        k += 1;
    }
    None
}

/// Whether a text looks like a date (see [`looks_like_date_spec`]).
pub fn looks_like_date(s: &str) -> (r: bool)
    ensures
        r == looks_like_date_spec(s@),
{
    let b = s.as_bytes();
    b.len() >= 10 && b[4] == 45u8 && b[7] == 45u8
}

/// The attribute value read from a cell.
pub fn sqlval_to_field(v: &SqlVal) -> (r: FieldValue)
    ensures
        r@ == to_field(v@),
{
    match v {
        SqlVal::Null => FieldValue::Null,
        SqlVal::Int(n) => FieldValue::Integer(*n),
        SqlVal::Real(b) => FieldValue::Float(*b),
        SqlVal::Text(s) => FieldValue::Text(s.clone()),
        SqlVal::Blob(b) => FieldValue::Blob(crate::sqlval::copy_bytes(b)),
    }
}


/// The geometry kind a type name stands for (see [`parse_geom_type_spec`]).
pub fn parse_geom_type_name(s: &str) -> (r: Option<GeometryType>)
    ensures
        r == parse_geom_type_spec(s@),
{
    let up = to_ascii_uppercase(s);
    let v = crate::text::chars_of(up.as_str());
    let mut k: usize = v.len();
    assert(v@.subrange(0, k as int) =~= v@);
    while k > 0 && (v[k - 1] == 'Z' || v[k - 1] == 'M')
        invariant
            k <= v.len(),
            trim_zm(v@) == trim_zm(v@.subrange(0, k as int)),
        decreases k,
    {
        assert(v@.subrange(0, k as int).drop_last() =~= v@.subrange(0, k - 1));
        k -= 1;
    }
    let t = crate::text::string_from_range(&v, 0, k);
    assert(trim_zm(v@.subrange(0, k as int)) == v@.subrange(0, k as int));
    assert(v@ == upper_seq(s@));
    assert(t@ == trim_zm(upper_seq(s@)));
    let ts = t.as_str();
    if crate::text::str_eq(ts, "POINT") {
        Some(GeometryType::Point)
    } else if crate::text::str_eq(ts, "LINESTRING") {
        Some(GeometryType::LineString)
    } else if crate::text::str_eq(ts, "POLYGON") {
        Some(GeometryType::Polygon)
    } else if crate::text::str_eq(ts, "MULTIPOINT") {
        Some(GeometryType::MultiPoint)
    } else if crate::text::str_eq(ts, "MULTILINESTRING") {
        Some(GeometryType::MultiLineString)
    } else if crate::text::str_eq(ts, "MULTIPOLYGON") {
        Some(GeometryType::MultiPolygon)
    } else if crate::text::str_eq(ts, "GEOMETRYCOLLECTION") {
        Some(GeometryType::GeometryCollection)
    } else {
        None
    }
}

/// The geometry column, SRS id and geometry type name of the table `name`
/// (see [`geom_info_spec`]).
pub fn geometry_column_info(db: &Db, name: &str) -> (r: Result<(String, i64, String), GeoError>)
    requires
        db.wf(),
    ensures
        r matches Ok(info) && (info.0@, info.1, info.2@) == geom_info_spec(db@, name@),
{
    if db.find_table("gpkg_geometry_columns").is_some() {
        if let Ok(rows) = db.select_all("gpkg_geometry_columns") {
            let ghost cv = crate::db::cells_view(rows@);
            proof {
                lemma_first_where(cv, names_table(name@));
            }
            let mut k: usize = 0;
            while k < rows.len()
                invariant
                    k <= rows.len(),
                    cv == crate::db::cells_view(rows@),
                    cv == table_cells(table_spec(db@, geomcols_table())->0),
                    table_spec(db@, geomcols_table()) is Some,
                    forall|i: int| 0 <= i < k ==> !names_table(name@)(#[trigger] cv[i]),
                    match first_where(cv, names_table(name@)) {
                        Some(j) => 0 <= j < cv.len() && names_table(name@)(cv[j]) && forall|i: int|
                            0 <= i < j ==> !names_table(name@)(cv[i]),
                        None => forall|i: int| 0 <= i < cv.len() ==> !names_table(name@)(cv[i]),
                    },
                decreases rows.len() - k,
            {
                let row = &rows[k];
                assert(cv[k as int] == row_view(row@));
                let ghost rv = cv[k as int];
                let tn: &str = if row.len() > 0 {
                    assert(rv[0] == row@[0]@);
                    match row[0].as_str() {
                        Some(t) => t,
                        None => "",
                    }
                } else {
                    ""
                };
                proof {
                    reveal_strlit("");
                }
                assert(tn@ == text_or(rv, 0, Seq::empty()));
                if crate::text::str_eq(tn, name) {
                    assert(first_where(cv, names_table(name@)) == Some(k as int));
                    let col = if row.len() > 1 {
                        assert(rv[1] == row@[1]@);
                        match row[1].as_str() {
                            Some(c) => to_owned_string(c),
                            None => to_owned_string("geom"),
                        }
                    } else {
                        to_owned_string("geom")
                    };
                    let srs: i64 = if row.len() > 3 {
                        assert(rv[3] == row@[3]@);
                        match row[3].as_i64() {
                            Some(n) => n,
                            None => 4326,
                        }
                    } else {
                        4326
                    };
                    let gtype = if row.len() > 2 {
                        assert(rv[2] == row@[2]@);
                        match row[2].as_str() {
                            Some(g) => to_owned_string(g),
                            None => to_owned_string("GEOMETRY"),
                        }
                    } else {
                        to_owned_string("GEOMETRY")
                    };
                    return Ok((col, srs, gtype));
                }
                k += 1;
            }
        }
    }
    assert(table_spec(db@, geomcols_table()) matches Some(t) ==> first_geomcol(table_cells(t), name@) is None);
    match db.table_columns(name) {
        Some(cols) => {
            let ghost cv = strings_view(cols@);
            proof {
                lemma_first_where(cv, is_geom_like());
            }
            let mut k: usize = 0;
            while k < cols.len()
                invariant
                    k <= cols.len(),
                    cv == strings_view(cols@),
                    table_spec(db@, name@) is Some,
                    cv == table_spec(db@, name@)->0.columns,
                    table_spec(db@, geomcols_table()) matches Some(t) ==> first_geomcol(
                        table_cells(t),
                        name@,
                    ) is None,
                    forall|i: int| 0 <= i < k ==> !is_geom_like()(#[trigger] cv[i]),
                    match first_where(cv, is_geom_like()) {
                        Some(j) => 0 <= j < cv.len() && is_geom_like()(cv[j]) && forall|i: int|
                            0 <= i < j ==> !is_geom_like()(cv[i]),
                        None => forall|i: int| 0 <= i < cv.len() ==> !is_geom_like()(cv[i]),
                    },
                decreases cols.len() - k,
            {
                let lc = crate::text::to_ascii_lowercase(cols[k].as_str());
                let l = lc.as_str();
                assert(cv[k as int] == cols@[k as int]@);
                if crate::text::str_eq(l, "geom") || crate::text::str_eq(l, "geometry")
                    || crate::text::str_eq(l, "shape") || crate::text::str_eq(l, "wkb_geometry")
                    || crate::text::str_eq(l, "the_geom") {
                    assert(is_geom_like()(cv[k as int]));
                    assert(first_where(cv, is_geom_like()) == Some(k as int));
                    assert(first_geom_like(table_spec(db@, name@)->0.columns) == Some(k as int));
                    return Ok((cols[k].clone(), 4326, to_owned_string("GEOMETRY")));
                }
                assert(!is_geom_like()(cv[k as int]));
                k += 1;
            }
        },
        None => {},
    }
    Ok((to_owned_string("geom"), 4326, to_owned_string("GEOMETRY")))
}

/// The field type a cell suggests.
fn cell_kind_exec(v: &SqlVal) -> (r: Option<FieldType>)
    ensures
        r == cell_kind(v@),
{
    match v {
        SqlVal::Null => None,
        SqlVal::Int(_) => Some(FieldType::Integer),
        SqlVal::Real(_) => Some(FieldType::Float),
        SqlVal::Blob(_) => Some(FieldType::Blob),
        SqlVal::Text(s) => Some(
            if looks_like_date(s.as_str()) {
                FieldType::Date
            } else {
                FieldType::Text
            },
        ),
    }
}

/// The type inferred for column `c` (see [`infer_column`]).
fn infer_one(rows: &Vec<Vec<SqlVal>>, c: usize) -> (r: Option<FieldType>)
    ensures
        r == infer_column(crate::db::cells_view(rows@), c as int),
{
    let ghost cv = crate::db::cells_view(rows@);
    let mut acc: Option<FieldType> = None;
    let mut k: usize = 0;
    while k < rows.len()
        invariant
            k <= rows.len(),
            cv == crate::db::cells_view(rows@),
            acc == infer_column(cv.take(k as int), c as int),
        decreases rows.len() - k,
    {
        assert(cv[k as int] == row_view(rows@[k as int]@));
        assert(cv.take(k + 1).drop_last() =~= cv.take(k as int));
        assert(cv.take(k + 1).last() == cv[k as int]);
        if c < rows[k].len() {
            assert(cv[k as int][c as int] == rows@[k as int]@[c as int]@);
            match cell_kind_exec(&rows[k][c]) {
                Some(ft) => {
                    acc = Some(
                        match acc {
                            None => ft,
                            Some(e) => crate::feature::widen_type(e, ft),
                        },
                    );
                },
                None => {},
            }
        }
        k += 1;
    }
    assert(cv.take(k as int) =~= cv);
    acc
}

/// The type inferred for each of the columns `cols`; none for a column
/// whose cells are all null.
pub fn infer_types(rows: &Vec<Vec<SqlVal>>, cols: &Vec<usize>) -> (r: Vec<Option<FieldType>>)
    ensures
        r.len() == cols.len(),
        forall|j: int|
            0 <= j < cols.len() ==> #[trigger] r@[j] == infer_column(
                crate::db::cells_view(rows@),
                cols@[j] as int,
            ),
{
    let mut out: Vec<Option<FieldType>> = Vec::new();
    let mut j: usize = 0;
    while j < cols.len()
        invariant
            j <= cols.len(),
            out.len() == j,
            forall|i: int|
                0 <= i < j ==> #[trigger] out@[i] == infer_column(
                    crate::db::cells_view(rows@),
                    cols@[i] as int,
                ),
        decreases cols.len() - j,
    {
        out.push(infer_one(rows, cols[j]));
        j += 1;
    }
    out
}


/// A position as a mathematical integer.
pub open spec fn opt_int(o: Option<usize>) -> Option<int> {
    match o {
        Some(i) => Some(i as int),
        None => None,
    }
}

/// The first column named `name` in any ASCII case (see [`first_ci`]).
fn first_ci_exec(cols: &Vec<String>, name: &str) -> (r: Option<usize>)
    ensures
        opt_int(r) == first_ci(strings_view(cols@), name@),
{
    let ghost cv = strings_view(cols@);
    proof {
        lemma_first_where(cv, same_name(name@));
    }
    let mut k: usize = 0;
    while k < cols.len()
        invariant
            k <= cols.len(),
            cv == strings_view(cols@),
            forall|i: int| 0 <= i < k ==> !same_name(name@)(#[trigger] cv[i]),
            match first_where(cv, same_name(name@)) {
                Some(j) => 0 <= j < cv.len() && same_name(name@)(cv[j]) && forall|i: int|
                    0 <= i < j ==> !same_name(name@)(cv[i]),
                None => forall|i: int| 0 <= i < cv.len() ==> !same_name(name@)(cv[i]),
            },
        decreases cols.len() - k,
    {
        assert(cv[k as int] == cols@[k as int]@);
        if eq_ignore_ascii_case(cols[k].as_str(), name) {
            assert(first_where(cv, same_name(name@)) == Some(k as int));
            return Some(k);
        }
        k += 1;
    }
    None
}

/// The positions below `n` other than `fid` and `geom`.
fn attr_positions_exec(n: usize, fid: Option<usize>, geom: Option<usize>) -> (r: Vec<usize>)
    ensures
        idx_view(r@) == attr_positions(n as int, opt_int(fid), opt_int(geom)),
{
    let mut out: Vec<usize> = Vec::new();
    let mut i: usize = 0;
    while i < n
        invariant
            i <= n,
            idx_view(out@) == attr_positions(i as int, opt_int(fid), opt_int(geom)),
        decreases n - i,
    {
        if fid != Some(i) && geom != Some(i) {
            let ghost prev = out@;
            out.push(i);
            assert(idx_view(out@) =~= idx_view(prev).push(i as int));
        }
        i += 1;
    }
    out
}

/// The feature read from the `k`-th row (see [`read_feature`]).
fn read_feature_exec(
    rowid: i64,
    row: &Vec<SqlVal>,
    k: usize,
    fid: Option<usize>,
    geom: Option<usize>,
    ac: &Vec<usize>,
) -> (r: crate::feature::Feature)
    requires
        k <= i64::MAX,
    ensures
        r@ == read_feature((rowid, row_view(row@)), k as int, opt_int(fid), opt_int(geom), idx_view(ac@)),
{
    let ghost rv = row_view(row@);
    let id: i64 = match fid {
        Some(i) => if i < row.len() {
            assert(rv[i as int] == row@[i as int]@);
            match row[i].as_i64() {
                Some(n) => n,
                None => rowid,
            }
        } else {
            rowid
        },
        None => rowid,
    };
    let ki = k as i64;
    let m: i64 = if id >= ki { id } else { ki };
    let g: Option<Geometry> = match geom {
        Some(i) => if i < row.len() {
            assert(rv[i as int] == row@[i as int]@);
            match row[i].as_blob() {
                Some(b) => match Geometry::from_gpkg_wkb(b) {
                    Ok((g, _)) => Some(g),
                    Err(_) => None,
                },
                None => None,
            }
        } else {
            None
        },
        None => None,
    };
    let ghost av = idx_view(ac@).map_values(
        |c: int|
            match cell(rv, c) {
                Some(v) => to_field(v),
                None => FieldValueV::Null,
            },
    );
    let mut attrs: Vec<FieldValue> = Vec::new();
    let mut j: usize = 0;
    while j < ac.len()
        invariant
            j <= ac.len(),
            rv == row_view(row@),
            av == idx_view(ac@).map_values(
                |c: int|
                    match cell(rv, c) {
                        Some(v) => to_field(v),
                        None => FieldValueV::Null,
                    },
            ),
            values_view(attrs@) == av.take(j as int),
        decreases ac.len() - j,
    {
        let c = ac[j];
        let v = if c < row.len() {
            assert(rv[c as int] == row@[c as int]@);
            sqlval_to_field(&row[c])
        } else {
            FieldValue::Null
        };
        assert(v@ == av[j as int]);
        let ghost prev = attrs@;
        attrs.push(v);
        assert(values_view(attrs@) =~= values_view(prev).push(v@));
        assert(av.take(j + 1) =~= av.take(j as int).push(av[j as int]));
        j += 1;
    }
    assert(av.take(av.len() as int) =~= av);
    let r = crate::feature::Feature { fid: m as u64, geometry: g, attributes: attrs };
    assert(r@.attributes == av);
    r
}

/// Reads the layer stored in the table `name` (see [`extract_spec`]):
/// the geometry column and SRS come from `gpkg_geometry_columns`, the
/// CRS definition from `gpkg_spatial_ref_sys` (or the CRS registry, see
/// [`read_crs_spec`]), the field types are
/// inferred from the data, and every row becomes a feature.  Fails when
/// there is no such table.
#[verifier::spinoff_prover]
pub fn extract_layer(db: &Db, name: &str) -> (r: Result<Layer, GeoError>)
    requires
        db.wf(),
    ensures
        r is Ok <==> extract_spec(db@, name@) is Some,
        r matches Ok(l) ==> l@ == extract_spec(db@, name@)->0,
        r matches Err(e) ==> e@ == crate::db::GeoErrorV::GpkgSchema(
            "table '"@ + name@ + "' not found"@,
        ),
{
    let cols = match db.table_columns(name) {
        Some(c) => c,
        None => {
            let mut msg = to_owned_string("table '");
            push_str(&mut msg, name);
            push_str(&mut msg, "' not found");
            return Err(GeoError::GpkgSchema(msg));
        },
    };
    let ghost t = table_spec(db@, name@)->0;
    let (geom_col, srs, gtn) = match geometry_column_info(db, name) {
        Ok(info) => info,
        Err(_) => {
            return Err(GeoError::GpkgSchema(to_owned_string("geometry column lookup failed")));
        },
    };
    let mut layer = Layer::new(name);
    let (epsg, wkt) = read_crs(srs, spatial_ref_wkt(db, srs));
    layer.crs_epsg = epsg;
    layer.crs_wkt = wkt;
    layer.geom_type = parse_geom_type_name(gtn.as_str());
    let fid_idx = first_ci_exec(&cols, "fid");
    let geom_idx = first_ci_exec(&cols, geom_col.as_str());
    let ac = attr_positions_exec(cols.len(), fid_idx, geom_idx);
    let all_rows = match db.select_all(name) {
        Ok(rows) => rows,
        Err(e) => {
            return Err(GeoError::GpkgSchema(to_owned_string("table rows unreadable")));
        },
    };
    let with_rowid = match db.select_all_with_rowid(name) {
        Ok(rows) => rows,
        Err(e) => {
            return Err(GeoError::GpkgSchema(to_owned_string("table rows unreadable")));
        },
    };
    let inferred = infer_types(&all_rows, &ac);
    let ghost spec = extract_spec(db@, name@)->0;
    let ghost acv = idx_view(ac@);
    proof {
        assert(acv == attr_positions(t.columns.len() as int, first_ci(t.columns, "fid"@), first_ci(t.columns, geom_col@)));
        lemma_attr_positions(t.columns.len() as int, first_ci(t.columns, "fid"@), first_ci(t.columns, geom_col@));
    }
    let ghost lv0 = layer@;
    assert(acv.take(0) =~= Seq::<int>::empty());
    let mut j: usize = 0;
    while j < ac.len()
        invariant
            j <= ac.len(),
            acv == idx_view(ac@),
            lv0.fields.len() == 0,
            layer@ == (LayerV { fields: layer@.fields, ..lv0 }),
            forall|a: int| 0 <= a < acv.len() ==> 0 <= #[trigger] acv[a] < t.columns.len(),
            strings_view(cols@) == t.columns,
            inferred.len() == ac.len(),
            forall|a: int|
                0 <= a < ac.len() ==> #[trigger] inferred@[a] == infer_column(
                    crate::db::cells_view(all_rows@),
                    ac@[a] as int,
                ),
            crate::db::cells_view(all_rows@) == table_cells(t),
            layer@.features.len() == 0,
            layer@.fields == acv.take(j as int).map_values(
                |c: int|
                    FieldDefV {
                        name: t.columns[c],
                        field_type: match infer_column(table_cells(t), c) {
                            Some(ft) => ft,
                            None => FieldType::Text,
                        },
                    },
            ),
        decreases ac.len() - j,
    {
        let c = ac[j];
        assert(acv[j as int] == c as int);
        assert(t.columns[c as int] == cols@[c as int]@);
        let ft = match inferred[j] {
            Some(ft) => ft,
            None => FieldType::Text,
        };
        let fd = FieldDef::new(cols[c].as_str(), ft);
        let ghost prev = layer@.fields;
        layer.add_field(fd);
        assert(acv.take(j + 1) =~= acv.take(j as int).push(c as int));
        assert(layer@.fields =~= acv.take(j + 1).map_values(
            |c: int|
                FieldDefV {
                    name: t.columns[c],
                    field_type: match infer_column(table_cells(t), c) {
                        Some(ft) => ft,
                        None => FieldType::Text,
                    },
                },
        ));
        j += 1;
    }
    assert(acv.take(acv.len() as int) =~= acv);
    let ghost fid_s = first_ci(t.columns, "fid"@);
    let ghost gi_s = first_ci(t.columns, geom_col@);
    let ghost lv1 = layer@;
    assert(lv1.features =~= Seq::new(0, |i: int| read_feature(t.rows[i], i, fid_s, gi_s, acv)));
    let mut k: usize = 0;
    while k < with_rowid.len()
        invariant
            k <= with_rowid.len(),
            crate::db::rows_view(with_rowid@) == t.rows,
            crate::db::table_wf(t),
            opt_int(fid_idx) == fid_s,
            opt_int(geom_idx) == gi_s,
            acv == idx_view(ac@),
            layer@ == (LayerV { features: layer@.features, ..lv1 }),
            layer@.features == Seq::new(
                k as nat,
                |i: int| read_feature(t.rows[i], i, fid_s, gi_s, acv),
            ),
        decreases with_rowid.len() - k,
    {
        assert(t.rows[k as int] == (with_rowid@[k as int].0, row_view(with_rowid@[k as int].1@)));
        assert(t.rows[k as int].0 == k + 1);
        let f = read_feature_exec(with_rowid[k].0, &with_rowid[k].1, k, fid_idx, geom_idx, &ac);
        let ghost prev = layer@.features;
        layer.push(f);
        assert(layer@.features =~= Seq::new(
            (k + 1) as nat,
            |i: int| read_feature(t.rows[i], i, fid_s, gi_s, acv),
        ));
        k += 1;
    }
    proof {
        assert(layer@.fields == spec.fields);
        assert(layer@.features =~= spec.features);
    }
    Ok(layer)
}

/// The positions `attr_positions` lists are below `n`.
proof fn lemma_attr_positions(n: int, fid: Option<int>, geom: Option<int>)
    ensures
        forall|a: int|
            0 <= a < attr_positions(n, fid, geom).len() ==> 0 <= #[trigger] attr_positions(
                n,
                fid,
                geom,
            )[a] < n,
    decreases n,
{
    if n > 0 {
        lemma_attr_positions(n - 1, fid, geom);
        let p = attr_positions(n - 1, fid, geom);
        assert forall|a: int| 0 <= a < attr_positions(n, fid, geom).len() implies 0
            <= #[trigger] attr_positions(n, fid, geom)[a] < n by {
            if a < p.len() {
                assert(attr_positions(n, fid, geom)[a] == p[a]);
            }
        }
    }
}


/// Reads the first feature layer (see [`layer_names_spec`]).  Fails when
/// the GeoPackage has no feature layer, or its table is missing.
pub fn read_first_layer(db: &Db) -> (r: Result<Layer, GeoError>)
    requires
        db.wf(),
    ensures
        layer_names_spec(db@).len() == 0 ==> (r matches Err(e) && e@ == crate::db::GeoErrorV::GpkgSchema(
            "no feature layers found"@,
        )),
        layer_names_spec(db@).len() > 0 ==> {
            let n = layer_names_spec(db@)[0];
            &&& r is Ok <==> extract_spec(db@, n) is Some
            &&& r matches Ok(l) ==> l@ == extract_spec(db@, n)->0
            &&& r matches Err(e) ==> e@ == crate::db::GeoErrorV::GpkgSchema(
                "table '"@ + n + "' not found"@,
            )
        },
{
    let names = match layer_names(db) {
        Ok(v) => v,
        Err(e) => {
            return Err(e);
        },
    };
    if names.len() == 0 {
        return Err(GeoError::GpkgSchema(to_owned_string("no feature layers found")));
    }
    assert(layer_names_spec(db@)[0] == names@[0]@);
    extract_layer(db, names[0].as_str())
}


// ─────────────────────────────────────────────────────────────────────────────
// What writing a layer leaves in the database
// ─────────────────────────────────────────────────────────────────────────────

/// The cells of a table after one more row.
proof fn lemma_cells_push(t: TableV, id: i64, row: Seq<SqlValV>)
    ensures
        table_cells(TableV { rows: t.rows.push((id, row)), ..t }) == table_cells(t).push(row),
{
    assert(table_cells(TableV { rows: t.rows.push((id, row)), ..t }) =~= table_cells(t).push(row));
}

/// The rows of the table of `name` after an insert into it.
proof fn lemma_insert_cells(d: Seq<TableV>, n: Seq<char>, row: Seq<SqlValV>)
    requires
        db_wf(d),
        crate::db::insert_ok(d, n, row.len() as int),
    ensures
        cells_of(insert_spec(d, n, row), n) == cells_of(d, n).push(row),
{
    crate::db::lemma_insert_table_spec(d, n, row, n);
    let t = table_spec(d, n)->0;
    lemma_cells_push(t, next_rowid(t) as i64, row);
}

/// The table a layer is written to is well formed.
proof fn lemma_layer_table_wf(l: LayerV)
    requires
        distinct_ignore_case(layer_columns(l)),
        l.features.len() <= i64::MAX,
    ensures
        crate::db::table_wf(layer_table(l)),
{
    let t = layer_table(l);
    assert forall|k: int| 0 <= k < t.rows.len() implies (#[trigger] t.rows[k]).1.len()
        == t.columns.len() by {
        assert(t.rows[k].1 == feature_row(l.features[k], kept_fields(l.fields), layer_srs(l)));
    }
}

/// Writing a layer keeps the mandatory tables, adds one row to
/// `gpkg_geometry_columns` and `gpkg_contents`, at most one to
/// `gpkg_spatial_ref_sys`, and appends the layer's table.
#[verifier::spinoff_prover]
pub proof fn lemma_write_layer_facts(d: Seq<TableV>, l: LayerV)
    requires
        gpkg_wf(d),
        write_ok(d, l),
    ensures
        gpkg_wf(write_layer_spec(d, l)),
        write_layer_spec(d, l).len() == d.len() + 1,
        forall|i: int| 0 <= i < d.len() ==> (#[trigger] write_layer_spec(d, l)[i]).name == d[i].name,
        write_layer_spec(d, l)[d.len() as int] == layer_table(l),
        table_spec(write_layer_spec(d, l), l.name) == Some(layer_table(l)),
        forall|m: Seq<char>|
            m != srs_table() && m != contents_table() && m != geomcols_table() && #[trigger] table_spec(
                d,
                m,
            ) is Some ==> table_spec(write_layer_spec(d, l), m) == table_spec(d, m),
        cells_of(write_layer_spec(d, l), geomcols_table()) == cells_of(d, geomcols_table()).push(
            geomcols_row(l.name, geom_type_label(l.geom_type), layer_srs(l)),
        ),
        cells_of(write_layer_spec(d, l), contents_table()) == cells_of(d, contents_table()).push(
            contents_row(l.name, features_bbox(l.features), layer_srs(l)),
        ),
        cells_of(write_layer_spec(d, l), srs_table()) == if needs_srs(d, layer_srs(l)) {
            cells_of(d, srs_table()).push(srs_row(l, layer_srs(l)))
        } else {
            cells_of(d, srs_table())
        },
{
    lemma_system_names();
    let srs = layer_srs(l);
    let d1 = ensure_srs_spec(d, l, srs);
    let gcv = geomcols_row(l.name, geom_type_label(l.geom_type), srs);
    let ctv = contents_row(l.name, features_bbox(l.features), srs);
    let d2 = insert_spec(d1, geomcols_table(), gcv);
    let d3 = insert_spec(d2, contents_table(), ctv);
    let lt = layer_table(l);
    lemma_no_table(d, l.name);
    if needs_srs(d, srs) {
        lemma_insert_keeps_gpkg(d, srs_table(), srs_row(l, srs));
        lemma_insert_cells(d, srs_table(), srs_row(l, srs));
        crate::db::lemma_insert_table_spec(d, srs_table(), srs_row(l, srs), geomcols_table());
        crate::db::lemma_insert_table_spec(d, srs_table(), srs_row(l, srs), contents_table());
    }
    assert(table_spec(d1, geomcols_table()) == table_spec(d, geomcols_table()));
    assert(table_spec(d1, contents_table()) == table_spec(d, contents_table()));
    assert(bbox_cells(features_bbox(l.features)).len() == 4);
    lemma_insert_keeps_gpkg(d1, geomcols_table(), gcv);
    lemma_insert_cells(d1, geomcols_table(), gcv);
    crate::db::lemma_insert_table_spec(d1, geomcols_table(), gcv, contents_table());
    crate::db::lemma_insert_table_spec(d1, geomcols_table(), gcv, srs_table());
    lemma_insert_keeps_gpkg(d2, contents_table(), ctv);
    lemma_insert_cells(d2, contents_table(), ctv);
    crate::db::lemma_insert_table_spec(d2, contents_table(), ctv, geomcols_table());
    crate::db::lemma_insert_table_spec(d2, contents_table(), ctv, srs_table());
    assert forall|i: int| 0 <= i < d3.len() implies (#[trigger] d3[i]).name != l.name by {
        assert(d3[i].name == d2[i].name);
        assert(d2[i].name == d1[i].name);
        assert(d1[i].name == d[i].name);
    }
    crate::db::lemma_find_none(d3, l.name);
    lemma_layer_table_wf(l);
    let e = d3.push(lt);
    assert(db_wf(e)) by {
        assert forall|i: int| 0 <= i < e.len() implies crate::db::table_wf(#[trigger] e[i]) by {
            if i < d3.len() {
                assert(e[i] == d3[i]);
            }
        }
        assert forall|i: int, j: int|
            0 <= i < e.len() && 0 <= j < e.len() && i != j implies (#[trigger] e[i]).name != (
        #[trigger] e[j]).name by {
            if i < d3.len() && j < d3.len() {
                assert(e[i] == d3[i] && e[j] == d3[j]);
            } else if i < d3.len() {
                assert(e[i] == d3[i]);
            } else {
                assert(e[j] == d3[j]);
            }
        }
    }
    lemma_push_keeps_gpkg(d3, lt, srs_table());
    lemma_push_keeps_gpkg(d3, lt, contents_table());
    lemma_push_keeps_gpkg(d3, lt, geomcols_table());
    crate::db::lemma_insert_last(d3, lt, Seq::empty());
    assert(e =~= write_layer_spec(d, l));
    assert forall|m: Seq<char>|
        m != srs_table() && m != contents_table() && m != geomcols_table() && #[trigger] table_spec(
            d,
            m,
        ) is Some implies table_spec(e, m) == table_spec(d, m) by {
        if needs_srs(d, srs) {
            crate::db::lemma_insert_table_spec(d, srs_table(), srs_row(l, srs), m);
        }
        crate::db::lemma_insert_table_spec(d1, geomcols_table(), gcv, m);
        crate::db::lemma_insert_table_spec(d2, contents_table(), ctv, m);
        lemma_push_keeps_gpkg(d3, lt, m);
    }
}


/// The layers that can be written before the last one can be written too.
proof fn lemma_layers_ok_prefix(ls: Seq<LayerV>)
    requires
        ls.len() > 0,
        layers_ok(ls),
    ensures
        layers_ok(ls.drop_last()),
        write_ok(layers_db_spec(ls.drop_last()), ls.last()),
{
    let p = ls.drop_last();
    assert forall|k: int| 0 <= k < p.len() implies write_ok(layers_db_spec(#[trigger] p.take(k)), p[k]) by {
        assert(p.take(k) =~= ls.take(k));
        assert(write_ok(layers_db_spec(ls.take(k)), ls[k]));
    }
    assert(ls.take(p.len() as int) =~= p);
    assert(write_ok(layers_db_spec(ls.take(p.len() as int)), ls[p.len() as int]));
}

/// What a GeoPackage built from `ls` holds: the mandatory tables with one
/// `gpkg_geometry_columns` and one `gpkg_contents` row per layer, in
/// order, and each layer's table.
#[verifier::spinoff_prover]
#[verifier::rlimit(40)]
pub proof fn lemma_layers_db_facts(ls: Seq<LayerV>)
    requires
        layers_ok(ls),
    ensures
        gpkg_wf(layers_db_spec(ls)),
        layers_db_spec(ls).len() == 3 + ls.len(),
        forall|k: int| 0 <= k < ls.len() ==> table_spec(layers_db_spec(ls), (#[trigger] ls[k]).name) == Some(layer_table(ls[k])),
        forall|k: int| 0 <= k < ls.len() ==> (#[trigger] layers_db_spec(ls)[3 + k]).name == ls[k].name,
        layers_db_spec(ls)[0].name == srs_table(),
        layers_db_spec(ls)[1].name == contents_table(),
        layers_db_spec(ls)[2].name == geomcols_table(),
        cells_of(layers_db_spec(ls), contents_table()) == Seq::new(
            ls.len(),
            |k: int| contents_row(ls[k].name, features_bbox(ls[k].features), layer_srs(ls[k])),
        ),
        cells_of(layers_db_spec(ls), geomcols_table()) == Seq::new(
            ls.len(),
            |k: int| geomcols_row(ls[k].name, geom_type_label(ls[k].geom_type), layer_srs(ls[k])),
        ),
        cells_of(layers_db_spec(ls), srs_table()).len() >= 3,
        forall|i: int| 0 <= i < 3 ==> #[trigger] cells_of(layers_db_spec(ls), srs_table())[i] == seed_rows()[i],
    decreases ls.len(),
{
    lemma_empty_gpkg();
    if ls.len() == 0 {
        let d = empty_gpkg();
        crate::db::lemma_find_unique(d, 0);
        crate::db::lemma_find_unique(d, 1);
        crate::db::lemma_find_unique(d, 2);
        assert(cells_of(d, srs_table()) =~= seed_rows());
        assert(cells_of(d, contents_table()) =~= Seq::<Seq<SqlValV>>::empty());
        assert(cells_of(d, geomcols_table()) =~= Seq::<Seq<SqlValV>>::empty());
    } else {
        let p = ls.drop_last();
        let l = ls.last();
        lemma_layers_ok_prefix(ls);
        lemma_layers_db_facts(p);
        let d = layers_db_spec(p);
        lemma_write_layer_facts(d, l);
        let e = layers_db_spec(ls);
        assert(e == write_layer_spec(d, l));
        assert(cells_of(e, contents_table()) =~= Seq::new(
            ls.len(),
            |k: int| contents_row(ls[k].name, features_bbox(ls[k].features), layer_srs(ls[k])),
        ));
        assert(cells_of(e, geomcols_table()) =~= Seq::new(
            ls.len(),
            |k: int| geomcols_row(ls[k].name, geom_type_label(ls[k].geom_type), layer_srs(ls[k])),
        ));
        assert forall|k: int| 0 <= k < ls.len() implies table_spec(e, (#[trigger] ls[k]).name) == Some(
            layer_table(ls[k]),
        ) by {
            if k < p.len() {
                assert(p[k] == ls[k]);
                assert(d[3 + k].name == p[k].name);
                assert(d[0].name != d[3 + k].name);
                assert(d[1].name != d[3 + k].name);
                assert(d[2].name != d[3 + k].name);
            }
        }
    }
}


/// When every row is a `features` entry, the feature names are the names
/// of all rows, in order.
proof fn lemma_feature_names_all(rows: Seq<Seq<SqlValV>>)
    requires
        forall|k: int|
            0 <= k < rows.len() ==> cell_text(#[trigger] rows[k], 1) == Some("features"@) && cell_text(
                rows[k],
                0,
            ) is Some,
    ensures
        feature_names(rows) == rows.map_values(|r: Seq<SqlValV>| cell_text(r, 0)->0),
    decreases rows.len(),
{
    if rows.len() > 0 {
        let p = rows.drop_last();
        assert forall|k: int| 0 <= k < p.len() implies cell_text(#[trigger] p[k], 1) == Some(
            "features"@,
        ) && cell_text(p[k], 0) is Some by {
            assert(p[k] == rows[k]);
        }
        lemma_feature_names_all(p);
        assert(cell_text(rows.last(), 1) == Some("features"@));
        assert(rows.map_values(|r: Seq<SqlValV>| cell_text(r, 0)->0) =~= p.map_values(
            |r: Seq<SqlValV>| cell_text(r, 0)->0,
        ).push(cell_text(rows.last(), 0)->0));
    }
}

/// The name of a `gpkg_contents` row that registers a feature layer: its
/// first cell, when its second (the data type) is the text `features`.
pub open spec fn feature_entry(r: Seq<SqlValV>) -> Option<Seq<char>> {
    if cell_text(r, 1) == Some("features"@) {
        cell_text(r, 0)
    } else {
        None
    }
}

/// Some row registers a feature layer named `name`.
pub open spec fn names_feature_entry(rows: Seq<Seq<SqlValV>>, name: Seq<char>) -> bool {
    exists|k: int| 0 <= k < rows.len() && #[trigger] feature_entry(rows[k]) == Some(name)
}

/// The names the rows give are the names of their `features` entries, in
/// row order; each comes from a row whose data type is `features`, and
/// every such row with a text name gives it.
proof fn lemma_feature_names(rows: Seq<Seq<SqlValV>>)
    ensures
        feature_names(rows) == rows.filter_map(|r: Seq<SqlValV>| feature_entry(r)),
        forall|i: int|
            0 <= i < feature_names(rows).len() ==> names_feature_entry(rows, #[trigger] feature_names(rows)[i]),
        forall|k: int|
            0 <= k < rows.len() && #[trigger] feature_entry(rows[k]) is Some ==> feature_names(rows).contains(
                feature_entry(rows[k])->0,
            ),
    decreases rows.len(),
{
    if rows.len() > 0 {
        let p = rows.drop_last();
        lemma_feature_names(p);
        let n = feature_names(rows);
        let np = feature_names(p);
        let last = rows.len() - 1;
        if feature_entry(rows.last()) is Some {
            assert(n =~= np + seq![feature_entry(rows.last())->0]);
            assert(n[np.len() as int] == feature_entry(rows.last())->0);
        } else {
            assert(n == np);
        }
        assert forall|i: int| 0 <= i < n.len() implies names_feature_entry(rows, #[trigger] n[i]) by {
            if i < np.len() {
                assert(n[i] == np[i]);
                assert(names_feature_entry(p, np[i]));
                let k = choose|k: int| 0 <= k < p.len() && #[trigger] feature_entry(p[k]) == Some(np[i]);
                assert(p[k] == rows[k]);
                assert(feature_entry(rows[k]) == Some(n[i]));
            } else {
                assert(feature_entry(rows[last]) == Some(n[i]));
            }
        }
        assert forall|k: int| 0 <= k < rows.len() && #[trigger] feature_entry(rows[k]) is Some implies n.contains(
            feature_entry(rows[k])->0,
        ) by {
            if k < last {
                assert(p[k] == rows[k]);
                assert(feature_entry(p[k]) is Some);
                assert(np.contains(feature_entry(rows[k])->0));
                let j = choose|j: int| 0 <= j < np.len() && np[j] == feature_entry(rows[k])->0;
                assert(n[j] == np[j]);
            } else {
                assert(n[np.len() as int] == feature_entry(rows[last])->0);
            }
        }
    }
}

/// The layers a GeoPackage with a `gpkg_contents` table lists are its
/// `features` entries, in row order: each name listed is the name of a row
/// whose data type is the text `features`, every such row gives its name,
/// and rows of other data types (tiles, attributes) give none.
pub proof fn law_layer_names_are_feature_entries(d: Seq<TableV>)
    requires
        table_spec(d, contents_table()) is Some,
    ensures
        layer_names_spec(d) == cells_of(d, contents_table()).filter_map(
            |r: Seq<SqlValV>| feature_entry(r),
        ),
        forall|i: int|
            0 <= i < layer_names_spec(d).len() ==> names_feature_entry(
                cells_of(d, contents_table()),
                #[trigger] layer_names_spec(d)[i],
            ),
        forall|k: int|
            0 <= k < cells_of(d, contents_table()).len() && #[trigger] feature_entry(
                cells_of(d, contents_table())[k],
            ) is Some ==> layer_names_spec(d).contains(
                feature_entry(cells_of(d, contents_table())[k])->0,
            ),
{
    let rows = cells_of(d, contents_table());
    lemma_feature_names(rows);
    assert(layer_names_spec(d) == feature_names(rows));
}

/// Listing the layers of a GeoPackage built from `ls` gives their names,
/// in the order they were written.
pub proof fn law_layer_names(ls: Seq<LayerV>)
    requires
        layers_ok(ls),
    ensures
        layer_names_spec(layers_db_spec(ls)) == ls.map_values(|l: LayerV| l.name),
{
    lemma_layers_db_facts(ls);
    let d = layers_db_spec(ls);
    let rows = cells_of(d, contents_table());
    assert forall|k: int| 0 <= k < rows.len() implies cell_text(#[trigger] rows[k], 1) == Some(
        "features"@,
    ) && cell_text(rows[k], 0) is Some by {
        assert(rows[k] == contents_row(ls[k].name, features_bbox(ls[k].features), layer_srs(ls[k])));
    }
    lemma_feature_names_all(rows);
    assert(rows.map_values(|r: Seq<SqlValV>| cell_text(r, 0)->0) =~= ls.map_values(
        |l: LayerV| l.name,
    ));
}


// ─────────────────────────────────────────────────────────────────────────────
// Reading back what was written
// ─────────────────────────────────────────────────────────────────────────────

/// Upper-casing an upper-case name keeps it.
proof fn lemma_upper_literal(a: Seq<char>, b: Seq<char>)
    requires
        a.len() == b.len(),
        forall|i: int| 0 <= i < a.len() ==> upper_char(#[trigger] a[i]) == b[i],
        forall|i: int| 0 <= i < b.len() ==> upper_char(#[trigger] b[i]) == b[i],
    ensures
        upper_seq(a) == b,
        upper_seq(b) == b,
{
    assert(upper_seq(a) =~= b);
    assert(upper_seq(b) =~= b);
}

/// The geometry type name a layer is registered with parses back to the
/// layer's geometry kind.
pub proof fn law_geom_type_label(t: Option<GeometryType>)
    ensures
        parse_geom_type_spec(geom_type_label(t)) == t,
{
    reveal_strlit("Point");
    reveal_strlit("LineString");
    reveal_strlit("Polygon");
    reveal_strlit("MultiPoint");
    reveal_strlit("MultiLineString");
    reveal_strlit("MultiPolygon");
    reveal_strlit("GeometryCollection");
    reveal_strlit("POINT");
    reveal_strlit("LINESTRING");
    reveal_strlit("POLYGON");
    reveal_strlit("MULTIPOINT");
    reveal_strlit("MULTILINESTRING");
    reveal_strlit("MULTIPOLYGON");
    reveal_strlit("GEOMETRYCOLLECTION");
    reveal_strlit("GEOMETRY");
    let l = geom_type_label(t);
    let u = match t {
        Some(GeometryType::Point) => "POINT"@,
        Some(GeometryType::LineString) => "LINESTRING"@,
        Some(GeometryType::Polygon) => "POLYGON"@,
        Some(GeometryType::MultiPoint) => "MULTIPOINT"@,
        Some(GeometryType::MultiLineString) => "MULTILINESTRING"@,
        Some(GeometryType::MultiPolygon) => "MULTIPOLYGON"@,
        Some(GeometryType::GeometryCollection) => "GEOMETRYCOLLECTION"@,
        None => "GEOMETRY"@,
    };
    match t {
        Some(g) => {
            lemma_upper_literal(geometry_type_name(g), u);
        },
        None => {
            lemma_upper_literal(u, u);
        },
    }
    assert(upper_seq(l) == u);
    assert(u.last() != 'Z' && u.last() != 'M');
    assert(trim_zm(u) == u);
    assert("POINT"@.len() == 5 && "GEOMETRY"@.len() == 8 && "LINESTRING"@.len() == 10);
    assert("LINESTRING"@ != "MULTIPOINT"@) by {
        assert("LINESTRING"@[0] != "MULTIPOINT"@[0]);
    }
}

/// In a layer's columns, `fid` is the first and `geom` the second.
proof fn lemma_layer_first_columns(l: LayerV)
    ensures
        first_ci(layer_columns(l), "fid"@) == Some(0int),
        first_ci(layer_columns(l), "geom"@) == Some(1int),
{
    reveal_strlit("fid");
    reveal_strlit("geom");
    let c = layer_columns(l);
    assert(c[0] == "fid"@);
    assert(c[1] == "geom"@);
    lemma_first_where(c, same_name("fid"@));
    lemma_first_where(c, same_name("geom"@));
    assert(same_name("fid"@)(c[0]));
    assert(same_name("geom"@)(c[1]));
    assert(!same_name("geom"@)(c[0])) by {
        assert(crate::text::lower_seq(c[0]).len() == 3);
        assert(crate::text::lower_seq("geom"@).len() == 4);
    }
}

/// Without the first two positions, the attribute positions are all the others.
proof fn lemma_attr_positions_01(n: int)
    requires
        n >= 2,
    ensures
        attr_positions(n, Some(0int), Some(1int)) == Seq::new((n - 2) as nat, |j: int| j + 2),
    decreases n,
{
    if n == 2 {
        assert(attr_positions(0, Some(0int), Some(1int)) =~= Seq::<int>::empty());
        assert(attr_positions(1, Some(0int), Some(1int)) =~= Seq::<int>::empty());
        assert(attr_positions(2, Some(0int), Some(1int)) =~= Seq::<int>::empty());
        assert(Seq::new(0, |j: int| j + 2) =~= Seq::<int>::empty());
    } else {
        lemma_attr_positions_01(n - 1);
        assert(attr_positions(n, Some(0int), Some(1int)) =~= Seq::new((n - 2) as nat, |j: int| j + 2));
    }
}

/// The features of a layer as reading back its table gives them:
/// numbered from 1, with their geometries and with the values of their
/// non-`fid` fields as stored (booleans become integers, dates text).
pub open spec fn written_features(l: LayerV) -> Seq<FeatureV> {
    Seq::new(
        l.features.len(),
        |k: int|
            FeatureV {
                fid: (k + 1) as u64,
                geometry: l.features[k].geometry,
                attributes: kept_fields(l.fields).map_values(
                    |i: int| to_field(attr_cell(l.features[k].attributes, i)),
                ),
            },
    )
}

/// Reading back a layer's own table gives its features.
proof fn lemma_read_layer_table(l: LayerV)
    requires
        layer_fits(l),
        l.features.len() <= i64::MAX,
    ensures
        Seq::new(
            l.features.len(),
            |k: int|
                read_feature(
                    layer_table(l).rows[k],
                    k,
                    Some(0int),
                    Some(1int),
                    Seq::new(kept_fields(l.fields).len(), |j: int| j + 2),
                ),
        ) == written_features(l),
{
    let ks = kept_fields(l.fields);
    let ac = Seq::new(ks.len(), |j: int| j + 2);
    let srs = layer_srs(l);
    assert forall|k: int| 0 <= k < l.features.len() implies read_feature(
        layer_table(l).rows[k],
        k,
        Some(0int),
        Some(1int),
        ac,
    ) == #[trigger] written_features(l)[k] by {
        let f = l.features[k];
        let row = feature_row(f, ks, srs);
        assert(layer_table(l).rows[k] == ((k + 1) as i64, row));
        assert(cell_int(row, 0) is None);
        match f.geometry {
            Some(g) => {
                assert(fits(g));
                crate::geometry::lemma_gpkg_roundtrip(g, srs as i32);
            },
            None => {},
        }
        let got = read_feature(layer_table(l).rows[k], k, Some(0int), Some(1int), ac);
        assert(got.attributes =~= written_features(l)[k].attributes) by {
            assert forall|j: int| 0 <= j < ks.len() implies got.attributes[j] == to_field(
                attr_cell(f.attributes, #[trigger] ks[j]),
            ) by {
                assert(row[j + 2] == attr_cell(f.attributes, ks[j]));
            }
        }
    }
    assert(Seq::new(
        l.features.len(),
        |k: int| read_feature(layer_table(l).rows[k], k, Some(0int), Some(1int), ac),
    ) =~= written_features(l));
}


/// In a GeoPackage built from layers, SRS 0 has no definition.
proof fn lemma_srs_zero_undefined(ls: Seq<LayerV>)
    requires
        layers_ok(ls),
    ensures
        spatial_ref_wkt_spec(layers_db_spec(ls), 0) is None,
{
    lemma_layers_db_facts(ls);
    let d = layers_db_spec(ls);
    let cells = cells_of(d, srs_table());
    lemma_first_where(cells, has_srs_id(0));
    reveal_strlit("undefined");
    assert(cells[0] == seed_rows()[0]);
    assert(cells[1] == seed_rows()[1]);
    assert(cells[2] == seed_rows()[2]);
    assert(!has_srs_id(0)(cells[0]));
    assert(!has_srs_id(0)(cells[1]));
    assert(has_srs_id(0)(cells[2]));
    assert(first_srs(cells, 0) == Some(2int));
    lemma_trim_id("undefined"@);
}

/// Reading back the `k`-th layer of a GeoPackage built from `ls` gives its
/// name, geometry kind and SRS (4326 when it had none; none for SRS 0),
/// one field per non-`fid` field, under the same name, and its features
/// as [`written_features`] describes them.
#[verifier::spinoff_prover]
pub proof fn law_read_written_layer(ls: Seq<LayerV>, k: int)
    requires
        layers_ok(ls),
        0 <= k < ls.len(),
        layer_fits(ls[k]),
    ensures
        extract_spec(layers_db_spec(ls), ls[k].name) matches Some(r) && {
            &&& r.name == ls[k].name
            &&& r.geom_type == ls[k].geom_type
            &&& r.crs_epsg == read_epsg(layer_srs(ls[k]))
            &&& r.fields.map_values(|f: FieldDefV| f.name) == kept_fields(ls[k].fields).map_values(
                |i: int| ls[k].fields[i].name,
            )
            &&& r.features == written_features(ls[k])
        },
{
    lemma_layers_db_facts(ls);
    let d = layers_db_spec(ls);
    let l = ls[k];
    let n = l.name;
    assert(write_ok(layers_db_spec(ls.take(k)), ls[k]));
    let t = layer_table(l);
    assert(table_spec(d, n) == Some(t));
    let gc = cells_of(d, geomcols_table());
    assert forall|i: int| 0 <= i < ls.len() && i != k implies (#[trigger] ls[i]).name != n by {
        assert(d[3 + i].name == ls[i].name);
        assert(d[3 + k].name == ls[k].name);
    }
    lemma_first_where(gc, names_table(n));
    assert(names_table(n)(gc[k]));
    assert forall|i: int| 0 <= i < k implies !names_table(n)(#[trigger] gc[i]) by {
        assert(gc[i] == geomcols_row(ls[i].name, geom_type_label(ls[i].geom_type), layer_srs(ls[i])));
    }
    assert(first_geomcol(gc, n) == Some(k));
    reveal_strlit("geom");
    let info = geom_info_spec(d, n);
    assert(info == ("geom"@, layer_srs(l), geom_type_label(l.geom_type)));
    law_geom_type_label(l.geom_type);
    lemma_layer_first_columns(l);
    let ks = kept_fields(l.fields);
    lemma_attr_positions_01(t.columns.len() as int);
    let ac = attr_positions(t.columns.len() as int, Some(0int), Some(1int));
    assert(ac == Seq::new(ks.len(), |j: int| j + 2));
    lemma_read_layer_table(l);
    if layer_srs(l) == 0 {
        lemma_srs_zero_undefined(ls);
    }
    let r = extract_spec(d, n)->0;
    assert(r.features =~= written_features(l));
    assert(r.fields.map_values(|f: FieldDefV| f.name) =~= ks.map_values(|i: int| l.fields[i].name));
}


/// The CRS definition a layer written alone reads back with: the WGS 84
/// definition for SRS 4326, none for SRS 0, else the definition recorded
/// for its SRS (its own WKT, else the registry's WKT for the code),
/// trimmed, unless that is empty or `undefined`, in which case the
/// registry's WKT for the code.
pub open spec fn written_wkt(l: LayerV) -> Option<Seq<char>> {
    let srs = layer_srs(l);
    if srs == 4326 {
        Some(wgs84_wkt())
    } else if srs == 0 {
        None
    } else {
        let tr = crate::text::trim_spec(srs_definition(l, srs));
        if tr.len() == 0 || eq_ignore_case(tr, "undefined"@) {
            ogc_wkt_of(srs as u32)
        } else {
            Some(tr)
        }
    }
}

/// A text that neither starts nor ends with whitespace trims to itself.
proof fn lemma_trim_id(s: Seq<char>)
    requires
        s.len() > 0,
        !crate::text::is_ws(s[0]),
        !crate::text::is_ws(s.last()),
    ensures
        crate::text::trim_spec(s) == s,
{
}

/// A layer written alone into a GeoPackage reads back with the CRS
/// definition [`written_wkt`] gives.
#[verifier::spinoff_prover]
pub proof fn law_read_written_wkt(l: LayerV)
    requires
        layers_ok(seq![l]),
    ensures
        extract_spec(layers_db_spec(seq![l]), l.name) matches Some(r) && r.crs_wkt == written_wkt(l),
{
    let ls = seq![l];
    assert(ls.take(0) =~= Seq::<LayerV>::empty());
    assert(write_ok(empty_gpkg(), l));
    assert(ls.drop_last() =~= Seq::<LayerV>::empty());
    let d = layers_db_spec(ls);
    assert(d == write_layer_spec(empty_gpkg(), l));
    lemma_empty_gpkg();
    lemma_write_layer_facts(empty_gpkg(), l);
    lemma_layers_db_facts(ls);
    law_read_written_layer_info(l);
    let srs = layer_srs(l);
    crate::db::lemma_find_unique(empty_gpkg(), 0);
    let seeds = cells_of(empty_gpkg(), srs_table());
    assert(seeds =~= seed_rows());
    let cells = cells_of(d, srs_table());
    lemma_first_where(cells, has_srs_id(srs));
    reveal_strlit("undefined");
    if srs == 4326 {
        assert(has_srs_id(srs)(cells[0]));
        assert(first_srs(cells, srs) == Some(0int));
        reveal_strlit("GEOGCS[\"WGS 84\",DATUM[\"WGS_1984\",SPHEROID[\"WGS 84\",6378137,298.257223563]],PRIMEM[\"Greenwich\",0],UNIT[\"degree\",0.0174532925199433]]");
        lemma_trim_id(wgs84_wkt());
        assert(wgs84_wkt().len() != "undefined"@.len());
        assert(crate::text::lower_seq(wgs84_wkt()).len() != crate::text::lower_seq("undefined"@).len());
    } else if srs == 0 {
        assert(!has_srs_id(srs)(cells[0]));
        assert(!has_srs_id(srs)(cells[1]));
        assert(has_srs_id(srs)(cells[2]));
        assert(first_srs(cells, srs) == Some(2int));
        lemma_trim_id("undefined"@);
    } else {
        assert(!has_srs(seeds, srs)) by {
            assert forall|j: int| 0 <= j < seeds.len() implies !((#[trigger] seeds[j]).len() > 1
                && seeds[j][1] == SqlValV::Int(srs)) by {}
        }
        assert(needs_srs(empty_gpkg(), srs));
        assert(cells.len() == 4);
        assert(!has_srs_id(srs)(cells[0]));
        assert(!has_srs_id(srs)(cells[1]));
        assert(!has_srs_id(srs)(cells[2]));
        assert(has_srs_id(srs)(cells[3]));
        assert(first_srs(cells, srs) == Some(3int));
    }
}

/// A layer written alone reads back with its SRS id as the one recorded
/// for its geometry column.
proof fn law_read_written_layer_info(l: LayerV)
    requires
        layers_ok(seq![l]),
    ensures
        geom_info_spec(layers_db_spec(seq![l]), l.name) == ("geom"@, layer_srs(l), geom_type_label(
            l.geom_type,
        )),
{
    let ls = seq![l];
    lemma_layers_db_facts(ls);
    let d = layers_db_spec(ls);
    let gc = cells_of(d, geomcols_table());
    lemma_first_where(gc, names_table(l.name));
    assert(names_table(l.name)(gc[0]));
    reveal_strlit("geom");
}


/// The table of a layer with its first `k` features.
pub open spec fn layer_table_prefix(l: LayerV, k: int) -> TableV {
    TableV { rows: feature_rows(l).take(k), ..layer_table(l) }
}

/// Pushing the first `k` features of a layer into a fresh writer fills its
/// table with their rows and its box with theirs.
proof fn lemma_stream_prefix(l: LayerV, path: Seq<char>, k: int)
    requires
        0 <= k <= l.features.len(),
        l.features.len() <= i64::MAX,
    ensures
        stream_push_all(stream_created(l, path), l.features.take(k)) == (StreamV {
            db: stream_base(l).drop_last().push(layer_table_prefix(l, k)),
            bbox: features_bbox(l.features.take(k)),
            ..stream_created(l, path)
        }),
    decreases k,
{
    let c = stream_created(l, path);
    if k == 0 {
        assert(l.features.take(0) =~= Seq::<FeatureV>::empty());
        assert(feature_rows(l).take(0) =~= Seq::<(i64, Seq<SqlValV>)>::empty());
        assert(stream_base(l).drop_last().push(layer_table_prefix(l, 0)) =~= stream_base(l));
    } else {
        lemma_stream_prefix(l, path, k - 1);
        let fs = l.features.take(k);
        assert(fs.drop_last() =~= l.features.take(k - 1));
        assert(fs.last() == l.features[k - 1]);
        let o = stream_push_all(c, l.features.take(k - 1));
        let t = o.db.last();
        assert(t == layer_table_prefix(l, k - 1));
        assert(c.fields.map_values(|p: (int, FieldDefV)| p.0) =~= kept_fields(l.fields));
        assert(feature_rows(l).take(k) =~= feature_rows(l).take(k - 1).push(
            (k as i64, feature_row(l.features[k - 1], kept_fields(l.fields), layer_srs(l))),
        ));
        assert(stream_push_all(c, fs).db =~= stream_base(l).drop_last().push(layer_table_prefix(l, k)));
    }
}

/// Streaming a layer's features through [`GpkgStreamWriter`] and finishing
/// gives the same GeoPackage as writing the layer whole, for a layer
/// whose geometries have a bounding box (without one, the writer
/// registers an all-zero box where writing the layer leaves the bounds
/// null).
#[verifier::spinoff_prover]
pub proof fn law_stream_matches_write(l: LayerV, path: Seq<char>)
    requires
        write_ok(empty_gpkg(), l),
        features_bbox(l.features) is Some,
    ensures
        stream_finish(stream_push_all(stream_created(l, path), l.features)) == write_layer_spec(
            empty_gpkg(),
            l,
        ),
{
    lemma_empty_gpkg();
    lemma_system_names();
    lemma_stream_prefix(l, path, l.features.len() as int);
    assert(l.features.take(l.features.len() as int) =~= l.features);
    assert(feature_rows(l).take(l.features.len() as int) =~= feature_rows(l));
    let srs = layer_srs(l);
    let d = empty_gpkg();
    let d1 = ensure_srs_spec(d, l, srs);
    let gcv = geomcols_row(l.name, geom_type_label(l.geom_type), srs);
    let d2 = insert_spec(d1, geomcols_table(), gcv);
    let lt = layer_table(l);
    assert(stream_base(l).drop_last() =~= d2);
    let o = stream_push_all(stream_created(l, path), l.features);
    assert(o.db == d2.push(lt));
    assert(finish_box(o.bbox) == features_bbox(l.features)->0);
    // d2 is well formed and has no table of the layer's name.
    lemma_no_table(d, l.name);
    if needs_srs(d, srs) {
        lemma_insert_keeps_gpkg(d, srs_table(), srs_row(l, srs));
        crate::db::lemma_insert_table_spec(d, srs_table(), srs_row(l, srs), geomcols_table());
    }
    assert(table_spec(d1, geomcols_table()) == table_spec(d, geomcols_table()));
    lemma_insert_keeps_gpkg(d1, geomcols_table(), gcv);
    assert forall|i: int| 0 <= i < d2.len() implies (#[trigger] d2[i]).name != l.name by {
        assert(d2[i].name == d1[i].name);
        assert(d1[i].name == d[i].name);
    }
    crate::db::lemma_find_none(d2, l.name);
    lemma_layer_table_wf(l);
    crate::db::lemma_push_wf(d2, lt);
    crate::db::lemma_insert_push(d2, lt, contents_table(), contents_row(l.name, features_bbox(l.features), srs));
}

/// The bounding box a streaming writer accumulates over the features
/// pushed into it is the union of their geometries' boxes: a feature
/// without geometry, or whose geometry has no box, leaves it as it was,
/// and it stays none until some geometry has one.  The table and SRS the
/// writer was made for stay the same.
pub proof fn law_stream_box(l: LayerV, path: Seq<char>, fs: Seq<FeatureV>)
    ensures
        stream_push_all(stream_created(l, path), fs).bbox == features_bbox(fs),
        stream_push_all(stream_created(l, path), fs).table_name == l.name,
        stream_push_all(stream_created(l, path), fs).srs_id == layer_srs(l),
    decreases fs.len(),
{
    if fs.len() > 0 {
        law_stream_box(l, path, fs.drop_last());
    }
}

/// The value a caller passes for a field named `fid` never reaches the
/// table: two pushes whose attribute lists differ only at that field
/// append the same row, whose `fid` cell is `Null`, left to the rowid.
pub proof fn law_stream_ignores_fid(
    l: LayerV,
    o: StreamV,
    g: Option<GeometryV>,
    a1: Seq<FieldValueV>,
    a2: Seq<FieldValueV>,
    k: int,
)
    requires
        o.fields == kept_pairs(l.fields),
        0 <= k < l.fields.len(),
        is_fid(l.fields[k].name),
        a1.len() == a2.len(),
        forall|i: int| 0 <= i < a1.len() && i != k ==> a1[i] == a2[i],
    ensures
        stream_push(o, g, a1) == stream_push(o, g, a2),
        stream_push(o, g, a1).db.last().rows.last().1[0] == SqlValV::Null,
{
    lemma_kept_fields(l.fields);
    let ks = o.fields.map_values(|p: (int, FieldDefV)| p.0);
    assert(ks =~= kept_fields(l.fields));
    assert(ks.map_values(|i: int| attr_cell(a1, i)) =~= ks.map_values(|i: int| attr_cell(a2, i))) by {
        assert forall|j: int| 0 <= j < ks.len() implies attr_cell(a1, #[trigger] ks[j]) == attr_cell(
            a2,
            ks[j],
        ) by {
            assert(!is_fid(l.fields[ks[j]].name));
        }
    }
    assert(cells_row(g, a1, ks, o.srs_id) =~= cells_row(g, a2, ks, o.srs_id));
}

/// Reading the layer back from the GeoPackage a streaming writer finishes,
/// once all of the layer's features were pushed, gives what reading it
/// back from the GeoPackage built by writing the layer whole gives,
/// whatever the features' bounding boxes: the two differ at most in the
/// box `gpkg_contents` records.
#[verifier::spinoff_prover]
#[verifier::rlimit(40)]
pub proof fn law_stream_reads_as_written(l: LayerV, path: Seq<char>)
    requires
        write_ok(empty_gpkg(), l),
    ensures
        extract_spec(stream_finish(stream_push_all(stream_created(l, path), l.features)), l.name)
            == extract_spec(write_layer_spec(empty_gpkg(), l), l.name),
{
    lemma_empty_gpkg();
    lemma_system_names();
    lemma_stream_prefix(l, path, l.features.len() as int);
    assert(l.features.take(l.features.len() as int) =~= l.features);
    assert(feature_rows(l).take(l.features.len() as int) =~= feature_rows(l));
    let srs = layer_srs(l);
    let d = empty_gpkg();
    let d1 = ensure_srs_spec(d, l, srs);
    let gcv = geomcols_row(l.name, geom_type_label(l.geom_type), srs);
    let d2 = insert_spec(d1, geomcols_table(), gcv);
    let lt = layer_table(l);
    assert(stream_base(l).drop_last() =~= d2);
    let o = stream_push_all(stream_created(l, path), l.features);
    assert(o.db == d2.push(lt));
    lemma_no_table(d, l.name);
    if needs_srs(d, srs) {
        lemma_insert_keeps_gpkg(d, srs_table(), srs_row(l, srs));
        crate::db::lemma_insert_table_spec(d, srs_table(), srs_row(l, srs), geomcols_table());
        crate::db::lemma_insert_table_spec(d, srs_table(), srs_row(l, srs), contents_table());
    }
    assert(table_spec(d1, geomcols_table()) == table_spec(d, geomcols_table()));
    assert(table_spec(d1, contents_table()) == table_spec(d, contents_table()));
    lemma_insert_keeps_gpkg(d1, geomcols_table(), gcv);
    crate::db::lemma_insert_table_spec(d1, geomcols_table(), gcv, contents_table());
    assert forall|i: int| 0 <= i < d2.len() implies (#[trigger] d2[i]).name != l.name by {
        assert(d2[i].name == d1[i].name);
        assert(d1[i].name == d[i].name);
    }
    crate::db::lemma_find_none(d2, l.name);
    lemma_layer_table_wf(l);
    crate::db::lemma_push_wf(d2, lt);
    let cs = contents_row(l.name, Some(finish_box(o.bbox)), srs);
    let cw = contents_row(l.name, features_bbox(l.features), srs);
    crate::db::lemma_insert_push(d2, lt, contents_table(), cs);
    assert(stream_finish(o) == insert_spec(d2, contents_table(), cs).push(lt));
    assert(write_layer_spec(d, l) == insert_spec(d2, contents_table(), cw).push(lt));
    lemma_same_but_contents(d2, lt, cs, cw);
}

/// Two GeoPackages that differ only in the row last added to
/// `gpkg_contents` before a table was appended read that table back alike.
proof fn lemma_same_but_contents(d: Seq<TableV>, t: TableV, r1: Seq<SqlValV>, r2: Seq<SqlValV>)
    requires
        gpkg_wf(d),
        crate::db::table_wf(t),
        find_table_spec(d, t.name) is None,
        t.name != contents_table(),
        has_room(d, contents_table()),
        r1.len() == 10,
        r2.len() == 10,
    ensures
        extract_spec(insert_spec(d, contents_table(), r1).push(t), t.name) == extract_spec(
            insert_spec(d, contents_table(), r2).push(t),
            t.name,
        ),
{
    let x1 = insert_spec(d, contents_table(), r1);
    let x2 = insert_spec(d, contents_table(), r2);
    lemma_insert_keeps_gpkg(d, contents_table(), r1);
    lemma_insert_keeps_gpkg(d, contents_table(), r2);
    lemma_system_names();
    assert forall|m: Seq<char>| m != contents_table() implies #[trigger] table_spec(x1, m) == table_spec(
        x2,
        m,
    ) by {
        crate::db::lemma_insert_table_spec(d, contents_table(), r1, m);
        crate::db::lemma_insert_table_spec(d, contents_table(), r2, m);
    }
    assert forall|i: int| 0 <= i < x1.len() implies (#[trigger] x1[i]).name != t.name by {
        assert(x1[i].name == d[i].name);
    }
    assert forall|i: int| 0 <= i < x2.len() implies (#[trigger] x2[i]).name != t.name by {
        assert(x2[i].name == d[i].name);
    }
    crate::db::lemma_find_none(x1, t.name);
    crate::db::lemma_find_none(x2, t.name);
    crate::db::lemma_push_wf(x1, t);
    crate::db::lemma_push_wf(x2, t);
    crate::db::lemma_insert_last(x1, t, Seq::empty());
    crate::db::lemma_insert_last(x2, t, Seq::empty());
    lemma_push_keeps_gpkg(x1, t, geomcols_table());
    lemma_push_keeps_gpkg(x2, t, geomcols_table());
    lemma_push_keeps_gpkg(x1, t, srs_table());
    lemma_push_keeps_gpkg(x2, t, srs_table());
    assert(table_spec(x1.push(t), t.name) == table_spec(x2.push(t), t.name));
    assert(table_spec(x1.push(t), geomcols_table()) == table_spec(x2.push(t), geomcols_table()));
    assert(table_spec(x1.push(t), srs_table()) == table_spec(x2.push(t), srs_table()));
}

} // verus!


















