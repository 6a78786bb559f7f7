use wbtools::db::Db;
use wbtools::feature::{Feature, FieldDef, FieldType, FieldValue, Layer};
use wbtools::geometry::{Coord, Geometry, GeometryType};
use wbtools::geopackage::{
    ensure_srs_row, extract_layer, field_to_sqlval, geometry_column_info, infer_types, layer_names, layers_to_db,
    looks_like_date, parse_geom_type_name, read_crs, read_first_layer, spatial_ref_wkt,
    sqlval_to_field, srs_row_exists, srs_row_values, GpkgStreamWriter,
};
use wbtools::sqlval::SqlVal;

fn xy(x: f64, y: f64) -> Coord {
    Coord { x: x.to_bits(), y: y.to_bits() }
}

fn add_feature(l: &mut Layer, g: Option<Geometry>, attrs: Vec<FieldValue>) {
    let fid = l.features.len() as u64;
    l.push(Feature { fid, geometry: g, attributes: attrs });
}

fn point_layer() -> Layer {
    let mut l = Layer::new("cities");
    l.geom_type = Some(GeometryType::Point);
    l.crs_epsg = Some(4326);
    l.add_field(FieldDef::new("name", FieldType::Text));
    l.add_field(FieldDef::new("population", FieldType::Integer));
    add_feature(
        &mut l,
        Some(Geometry::Point(xy(-0.1278, 51.5074))),
        vec![FieldValue::Text("London".to_string()), FieldValue::Integer(9_000_000)],
    );
    add_feature(
        &mut l,
        Some(Geometry::Point(xy(2.3522, 48.8566))),
        vec![FieldValue::Text("Paris".to_string()), FieldValue::Integer(2_100_000)],
    );
    l
}

fn polygon_layer() -> Layer {
    let mut l = Layer::new("regions");
    l.geom_type = Some(GeometryType::Polygon);
    l.crs_epsg = Some(4326);
    l.add_field(FieldDef::new("region_id", FieldType::Integer));
    add_feature(
        &mut l,
        Some(Geometry::Polygon {
            exterior: vec![xy(0., 0.), xy(10., 0.), xy(10., 10.), xy(0., 10.)],
            interiors: vec![],
        }),
        vec![FieldValue::Integer(42)],
    );
    l
}

fn field_value<'a>(l: &'a Layer, k: usize, name: &str) -> Option<&'a FieldValue> {
    let i = l.fields.iter().position(|f| f.name == name)?;
    l.features[k].attributes.get(i)
}

#[test]
fn roundtrip_points() {
    let l1 = point_layer();
    let db = layers_to_db(&[&l1]).unwrap();
    let l2 = read_first_layer(&db).unwrap();
    assert_eq!(l2.len(), 2);
    if let Some(Geometry::Point(c)) = &l2.features[0].geometry {
        assert!((f64::from_bits(c.x) - (-0.1278)).abs() < 1e-6);
    } else {
        panic!("expected Point");
    }
}

#[test]
fn attributes_preserved() {
    let db = layers_to_db(&[&point_layer()]).unwrap();
    let l = read_first_layer(&db).unwrap();
    let name = field_value(&l, 0, "name").unwrap();
    assert_eq!(name.as_str(), Some("London"));
    let pop = field_value(&l, 0, "population").unwrap().as_i64();
    assert_eq!(pop, Some(9_000_000));
}

#[test]
fn roundtrip_polygon() {
    let db = layers_to_db(&[&polygon_layer()]).unwrap();
    let l = read_first_layer(&db).unwrap();
    assert_eq!(l.len(), 1);
    assert!(matches!(l.features[0].geometry, Some(Geometry::Polygon { .. })));
}

#[test]
fn list_layers_works() {
    let db = layers_to_db(&[&point_layer(), &polygon_layer()]).unwrap();
    let names = layer_names(&db).unwrap();
    assert!(names.contains(&"cities".to_owned()));
    assert!(names.contains(&"regions".to_owned()));
}

#[test]
fn read_named_layer() {
    let db = layers_to_db(&[&point_layer(), &polygon_layer()]).unwrap();
    let l = extract_layer(&db, "regions").unwrap();
    assert_eq!(l.len(), 1);
}

#[test]
fn columns_with_special_characters_are_quoted() {
    let mut layer = Layer::new("test_special_cols");
    layer.geom_type = Some(GeometryType::Point);
    layer.crs_epsg = Some(4326);
    layer.add_field(FieldDef::new("dist.m", FieldType::Float));
    layer.add_field(FieldDef::new("name-en", FieldType::Text));
    layer.add_field(FieldDef::new("normal_field", FieldType::Integer));
    add_feature(
        &mut layer,
        Some(Geometry::Point(xy(0.0, 0.0))),
        vec![
            FieldValue::Float(42.5f64.to_bits()),
            FieldValue::Text("test".to_string()),
            FieldValue::Integer(123),
        ],
    );
    let db = layers_to_db(&[&layer]).unwrap();
    let rows = db.select_all("test_special_cols").unwrap();
    assert!(!rows.is_empty(), "expected rows in test_special_cols table");
    let roundtrip = extract_layer(&db, "test_special_cols").unwrap();
    assert_eq!(roundtrip.fields.len(), 3);
    assert_eq!(roundtrip.features.len(), 1);
    let field_names: Vec<&str> = roundtrip.fields.iter().map(|f| f.name.as_str()).collect();
    assert!(field_names.contains(&"dist.m"), "expected dist.m column");
    assert!(field_names.contains(&"name-en"), "expected name-en column");
}

#[test]
fn written_features_read_back_in_order_with_ids_from_one() {
    let db = layers_to_db(&[&point_layer()]).unwrap();
    let l = read_first_layer(&db).unwrap();
    assert_eq!(l.name, "cities");
    assert_eq!(l.geom_type, Some(GeometryType::Point));
    assert_eq!(l.crs_epsg, Some(4326));
    assert_eq!(l.features[0].fid, 1);
    assert_eq!(l.features[1].fid, 2);
    assert_eq!(field_value(&l, 1, "name").unwrap().as_str(), Some("Paris"));
    assert_eq!(l.fields[0].field_type, FieldType::Text);
    assert_eq!(l.fields[1].field_type, FieldType::Integer);
    assert!(l.crs_wkt.as_deref().unwrap().starts_with("GEOGCS[\"WGS 84\""));
}

#[test]
fn fid_fields_are_left_out_and_booleans_become_integers() {
    let mut l = Layer::new("flags");
    l.add_field(FieldDef::new("FID", FieldType::Integer));
    l.add_field(FieldDef::new("ok", FieldType::Boolean));
    l.add_field(FieldDef::new("when", FieldType::Date));
    add_feature(
        &mut l,
        None,
        vec![
            FieldValue::Integer(77),
            FieldValue::Boolean(true),
            FieldValue::Date("2024-05-06".to_string()),
        ],
    );
    let db = layers_to_db(&[&l]).unwrap();
    let cols = db.table_columns("flags").unwrap();
    assert_eq!(cols, vec!["fid", "geom", "ok", "when"]);
    let back = extract_layer(&db, "flags").unwrap();
    assert_eq!(back.fields.len(), 2);
    assert_eq!(back.crs_epsg, Some(4326));
    assert_eq!(back.geom_type, None);
    assert!(back.features[0].geometry.is_none());
    assert_eq!(back.features[0].attributes[0].as_i64(), Some(1));
    assert_eq!(back.fields[1].field_type, FieldType::Date);
    assert_eq!(back.features[0].attributes[1].as_str(), Some("2024-05-06"));
}

#[test]
fn layer_with_its_own_srs_registers_it() {
    let mut l = Layer::new("utm");
    l.crs_epsg = Some(32617);
    l.crs_wkt = Some("  PROJCS[\"WGS 84 / UTM zone 17N\"]  ".to_string());
    add_feature(&mut l, Some(Geometry::Point(xy(500000.0, 4800000.0))), vec![]);
    let db = layers_to_db(&[&l]).unwrap();
    assert_eq!(srs_row_exists(&db, 32617).unwrap(), true);
    assert_eq!(srs_row_exists(&db, 3857).unwrap(), false);
    assert_eq!(spatial_ref_wkt(&db, 32617).as_deref(), Some("PROJCS[\"WGS 84 / UTM zone 17N\"]"));
    assert_eq!(spatial_ref_wkt(&db, 0), None);
    let back = read_first_layer(&db).unwrap();
    assert_eq!(back.crs_epsg, Some(32617));
    let info = geometry_column_info(&db, "utm").unwrap();
    assert_eq!(info, ("geom".to_string(), 32617, "GEOMETRY".to_string()));
}

#[test]
fn duplicate_layer_names_are_refused() {
    let r = layers_to_db(&[&point_layer(), &point_layer()]);
    assert!(r.is_err());
    let mut sys = Layer::new("gpkg_contents");
    sys.crs_epsg = Some(4326);
    assert!(layers_to_db(&[&sys]).is_err());
}

#[test]
fn empty_geopackage_has_no_layers() {
    let db = layers_to_db(&[]).unwrap();
    assert!(layer_names(&db).unwrap().is_empty());
    assert!(read_first_layer(&db).is_err());
    assert!(extract_layer(&db, "missing").is_err());
    assert_eq!(db.select_all("gpkg_spatial_ref_sys").unwrap().len(), 3);
}

#[test]
fn geometry_type_names_parse_in_any_case_with_zm_suffixes() {
    assert_eq!(parse_geom_type_name("POINT"), Some(GeometryType::Point));
    assert_eq!(parse_geom_type_name("multipolygonZM"), Some(GeometryType::MultiPolygon));
    assert_eq!(parse_geom_type_name("LineStringZ"), Some(GeometryType::LineString));
    assert_eq!(parse_geom_type_name("GeometryCollection"), Some(GeometryType::GeometryCollection));
    assert_eq!(parse_geom_type_name("GEOMETRY"), None);
    assert_eq!(parse_geom_type_name("curve"), None);
}

#[test]
fn dates_are_recognised_by_their_dashes() {
    assert!(looks_like_date("2024-01-31"));
    assert!(looks_like_date("2024-01-31T10:00:00Z"));
    assert!(!looks_like_date("2024/01/31"));
    assert!(!looks_like_date("2024-01-3"));
}

#[test]
fn cell_values_convert_both_ways() {
    let v = field_to_sqlval(&FieldValue::Boolean(false));
    assert!(matches!(v, SqlVal::Int(0)));
    let v = field_to_sqlval(&FieldValue::DateTime("2020-01-01T00:00:00".to_string()));
    assert!(matches!(v, SqlVal::Text(ref s) if s == "2020-01-01T00:00:00"));
    let f = sqlval_to_field(&SqlVal::Real(1.5f64.to_bits()));
    assert!(matches!(f, FieldValue::Float(b) if b == 1.5f64.to_bits()));
    let f = sqlval_to_field(&SqlVal::Blob(vec![1, 2, 3]));
    assert!(matches!(f, FieldValue::Blob(ref b) if b == &vec![1u8, 2, 3]));
}

#[test]
fn column_types_widen_over_rows() {
    let rows = vec![
        vec![SqlVal::Int(1), SqlVal::Null, SqlVal::Text("a".to_string())],
        vec![SqlVal::Real(2.0f64.to_bits()), SqlVal::Null, SqlVal::Int(3)],
    ];
    let types = infer_types(&rows, &vec![0, 1, 2]);
    assert_eq!(types, vec![Some(FieldType::Float), None, Some(FieldType::Text)]);
}

#[test]
fn stream_writer_builds_the_layer_table() {
    let mut schema = Layer::new("contours");
    schema.geom_type = Some(GeometryType::LineString);
    schema.add_field(FieldDef::new("FID", FieldType::Integer));
    schema.add_field(FieldDef::new("HEIGHT", FieldType::Float));
    let mut w = GpkgStreamWriter::create("out.gpkg", &schema).unwrap();
    assert_eq!(w.path, "out.gpkg");
    w.push_feature(
        Some(&Geometry::LineString(vec![xy(0.0, 0.0), xy(3.0, 4.0)])),
        &[FieldValue::Integer(1), FieldValue::Float(100.0f64.to_bits())],
    )
    .unwrap();
    w.push_feature(None, &[FieldValue::Integer(2)]).unwrap();
    let db: Db = w.finish().unwrap();
    let rows = db.select_all("contours").unwrap();
    assert_eq!(rows.len(), 2);
    assert!(matches!(rows[0][0], SqlVal::Null));
    assert!(matches!(rows[0][2], SqlVal::Real(b) if b == 100.0f64.to_bits()));
    assert!(matches!(rows[1][1], SqlVal::Null));
    assert!(matches!(rows[1][2], SqlVal::Null));
    let contents = db.select_all("gpkg_contents").unwrap();
    assert_eq!(contents.len(), 1);
    assert!(matches!(contents[0][5], SqlVal::Real(b) if b == 0.0f64.to_bits()));
    assert!(matches!(contents[0][7], SqlVal::Real(b) if b == 3.0f64.to_bits()));
    assert!(matches!(contents[0][8], SqlVal::Real(b) if b == 4.0f64.to_bits()));
    let back = read_first_layer(&db).unwrap();
    assert_eq!(back.geom_type, Some(GeometryType::LineString));
    assert_eq!(back.fields.len(), 1);
    assert_eq!(back.fields[0].name, "HEIGHT");
}

#[test]
fn stream_writer_refuses_clashing_columns() {
    let mut schema = Layer::new("bad");
    schema.add_field(FieldDef::new("geom", FieldType::Text));
    assert!(GpkgStreamWriter::create("x.gpkg", &schema).is_err());
}

#[test]
fn geometry_blobs_roundtrip() {
    let g = Geometry::MultiPolygon(vec![(
        vec![xy(0.0, 0.0), xy(1.0, 0.0), xy(1.0, 1.0), xy(0.0, 0.0)],
        vec![vec![xy(0.2, 0.2), xy(0.4, 0.2), xy(0.2, 0.4), xy(0.2, 0.2)]],
    )]);
    let blob = g.to_gpkg_wkb(3857);
    assert_eq!(&blob[0..4], &[0x47, 0x50, 0, 1]);
    let (back, srs) = Geometry::from_gpkg_wkb(&blob).unwrap();
    assert_eq!(srs, 3857);
    match back {
        Geometry::MultiPolygon(ps) => {
            assert_eq!(ps.len(), 1);
            assert_eq!(ps[0].0.len(), 4);
            assert_eq!(ps[0].1[0][1], xy(0.4, 0.2));
        }
        _ => panic!("expected MultiPolygon"),
    }
    assert!(Geometry::from_gpkg_wkb(&vec![0x47, 0x50, 0, 1]).is_err());
    let bb = g.bbox().unwrap();
    assert_eq!(bb.max_x, 1.0f64.to_bits());
    assert_eq!(bb.min_y, 0.0f64.to_bits());
}

fn table_dump(db: &Db) -> Vec<String> {
    db.table_names()
        .iter()
        .map(|t| format!("{}: {:?}", t, db.select_all_with_rowid(t).unwrap()))
        .collect()
}

#[test]
fn streaming_a_layer_matches_writing_it_whole() {
    let l = point_layer();
    let whole = layers_to_db(&[&l]).unwrap();
    let mut w = GpkgStreamWriter::create("cities.gpkg", &l).unwrap();
    for f in &l.features {
        w.push_feature(f.geometry.as_ref(), &f.attributes).unwrap();
    }
    let streamed = w.finish().unwrap();
    assert_eq!(table_dump(&streamed), table_dump(&whole));
}

#[test]
fn registered_geometry_type_names_parse_back() {
    for t in [
        GeometryType::Point,
        GeometryType::LineString,
        GeometryType::Polygon,
        GeometryType::MultiPoint,
        GeometryType::MultiLineString,
        GeometryType::MultiPolygon,
        GeometryType::GeometryCollection,
    ] {
        assert_eq!(parse_geom_type_name(&t.as_str().to_ascii_uppercase()), Some(t));
    }
}

#[test]
fn missing_tables_are_named_in_the_error() {
    let db = layers_to_db(&[&point_layer()]).unwrap();
    match extract_layer(&db, "nope") {
        Err(wbtools::db::GeoError::GpkgSchema(m)) => assert_eq!(m, "table 'nope' not found"),
        _ => panic!("expected GpkgSchema"),
    }
}

#[test]
fn preserves_non_default_epsg_and_wkt() {
    let mut layer = Layer::new("mercator_pts");
    layer.geom_type = Some(GeometryType::Point);
    layer.crs_epsg = Some(3857);
    layer.add_field(FieldDef::new("name", FieldType::Text));
    add_feature(
        &mut layer,
        Some(Geometry::Point(xy(0.0, 0.0))),
        vec![FieldValue::Text("origin".to_string())],
    );

    let db = layers_to_db(&[&layer]).unwrap();
    let out = read_first_layer(&db).unwrap();

    assert_eq!(out.crs_epsg, Some(3857));
    assert!(out.crs_wkt.as_deref().map(|w| !w.trim().is_empty()).unwrap_or(false));
}

#[test]
fn srs_rows_take_name_and_wkt_from_the_registry() {
    let mut layer = Layer::new("merc");
    layer.crs_epsg = Some(3857);
    let db = layers_to_db(&[&layer]).unwrap();
    let wkt = spatial_ref_wkt(&db, 3857).unwrap();
    assert!(wkt.contains("PROJCS["));
    assert_ne!(wkt, "undefined");
    let row = srs_row_values(&layer, 3857, None, None);
    assert!(matches!(&row[0], SqlVal::Text(n) if n == "EPSG:3857"));
    assert!(matches!(&row[4], SqlVal::Text(d) if d == "undefined"));
    let named = srs_row_values(&layer, 3857, Some("Web".to_string()), Some("W".to_string()));
    assert!(matches!(&named[0], SqlVal::Text(n) if n == "Web"));
    assert!(matches!(&named[4], SqlVal::Text(d) if d == "W"));
}

#[test]
fn an_unknown_code_keeps_the_plain_name_and_no_definition() {
    let mut layer = Layer::new("odd");
    layer.crs_epsg = Some(999_999);
    let db = layers_to_db(&[&layer]).unwrap();
    assert_eq!(spatial_ref_wkt(&db, 999_999), None);
    let back = read_first_layer(&db).unwrap();
    assert_eq!(back.crs_epsg, Some(999_999));
    assert_eq!(back.crs_wkt, None);
}

#[test]
fn crs_is_read_from_the_registry_when_none_is_recorded() {
    let (e, w) = read_crs(3857, None);
    assert_eq!(e, Some(3857));
    assert!(w.map(|w| w.contains("PROJCS[")).unwrap_or(false));
    let (e, w) = read_crs(3857, Some("MINE".to_string()));
    assert_eq!((e, w.as_deref()), (Some(3857), Some("MINE")));
    let (e, _) = read_crs(0, Some("GEOGCS[\"WGS 84\",AUTHORITY[\"EPSG\",4326]]".to_string()));
    assert_eq!(e, Some(4326));
    assert_eq!(read_crs(0, None), (None, None));
}

#[test]
fn stream_box_is_the_union_of_the_geometry_boxes() {
    let mut schema = Layer::new("pts");
    schema.geom_type = Some(GeometryType::Point);
    let mut w = GpkgStreamWriter::create("pts.gpkg", &schema).unwrap();
    w.push_feature(None, &[]).unwrap();
    w.push_feature(Some(&Geometry::Point(xy(2.0, -1.0))), &[]).unwrap();
    w.push_feature(None, &[]).unwrap();
    w.push_feature(Some(&Geometry::Point(xy(-3.0, 5.0))), &[]).unwrap();
    let db = w.finish().unwrap();
    let contents = db.select_all("gpkg_contents").unwrap();
    let want = [-3.0f64, -1.0, 2.0, 5.0];
    for (i, v) in want.iter().enumerate() {
        assert!(matches!(contents[0][5 + i], SqlVal::Real(b) if b == v.to_bits()));
    }
    let mut empty = GpkgStreamWriter::create("none.gpkg", &schema).unwrap();
    empty.push_feature(None, &[]).unwrap();
    let db = empty.finish().unwrap();
    let contents = db.select_all("gpkg_contents").unwrap();
    for i in 0..4 {
        assert!(matches!(contents[0][5 + i], SqlVal::Real(b) if b == 0.0f64.to_bits()));
    }
}

#[test]
fn stream_fid_values_never_reach_the_table() {
    let mut schema = Layer::new("t");
    schema.add_field(FieldDef::new("fid", FieldType::Integer));
    schema.add_field(FieldDef::new("name", FieldType::Text));
    let mut a = GpkgStreamWriter::create("a.gpkg", &schema).unwrap();
    let mut b = GpkgStreamWriter::create("b.gpkg", &schema).unwrap();
    a.push_feature(None, &[FieldValue::Integer(99), FieldValue::Text("x".to_string())]).unwrap();
    b.push_feature(None, &[FieldValue::Integer(7), FieldValue::Text("x".to_string())]).unwrap();
    let ra = a.finish().unwrap().select_all_with_rowid("t").unwrap();
    let rb = b.finish().unwrap().select_all_with_rowid("t").unwrap();
    assert_eq!(format!("{:?}", ra), format!("{:?}", rb));
    assert!(matches!(ra[0].1[0], SqlVal::Null));
}

#[test]
fn a_streamed_layer_without_boxes_reads_back_as_written() {
    let mut l = Layer::new("plain");
    l.add_field(FieldDef::new("n", FieldType::Integer));
    add_feature(&mut l, None, vec![FieldValue::Integer(1)]);
    add_feature(&mut l, None, vec![FieldValue::Integer(2)]);
    let whole = layers_to_db(&[&l]).unwrap();
    let mut w = GpkgStreamWriter::create("plain.gpkg", &l).unwrap();
    for f in &l.features {
        w.push_feature(f.geometry.as_ref(), &f.attributes).unwrap();
    }
    let streamed = w.finish().unwrap();
    let a = extract_layer(&streamed, "plain").unwrap();
    let b = extract_layer(&whole, "plain").unwrap();
    assert_eq!(format!("{:?}", a), format!("{:?}", b));
    assert_eq!(a.len(), 2);
}

#[test]
fn registering_an_srs_twice_adds_one_row() {
    let mut l = Layer::new("m");
    l.crs_epsg = Some(3857);
    let mut db = layers_to_db(&[]).unwrap();
    let before = db.select_all("gpkg_spatial_ref_sys").unwrap().len();
    ensure_srs_row(&mut db, &l, 3857).unwrap();
    ensure_srs_row(&mut db, &l, 3857).unwrap();
    let rows = db.select_all("gpkg_spatial_ref_sys").unwrap();
    assert_eq!(rows.len(), before + 1);
    assert!(matches!(rows[before][1], SqlVal::Int(3857)));
}

#[test]
fn a_failed_write_keeps_the_srs_row_it_registered() {
    let mut db = layers_to_db(&[&point_layer()]).unwrap();
    let before = db.select_all("gpkg_spatial_ref_sys").unwrap().len();
    let mut clash = Layer::new("cities");
    clash.crs_epsg = Some(3857);
    assert!(wbtools::geopackage::write_layer(&mut db, &clash).is_err());
    assert_eq!(db.select_all("gpkg_spatial_ref_sys").unwrap().len(), before + 1);
    assert!(srs_row_exists(&db, 3857).unwrap());
    assert_eq!(db.select_all("gpkg_contents").unwrap().len(), 1);
}
