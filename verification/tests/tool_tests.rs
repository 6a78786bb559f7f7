use wbtools::catalog::{
    append_sensor_bundle_colour_helper_manifests, days_remaining, legacy_param_order_override,
    license_tier_to_str, lock_reason, lock_reason_str, manifest_display_default_rank,
    manifest_display_defaults, manifest_has_tag, manifest_render_hints, not_found_error, parse_i64,
    parse_tier, reorder_param_names_logical, seconds_remaining,
    sensor_bundle_colour_helper_manifests, validate_include_pro, LockReason,
};
use wbtools::catalog::{license_state_path, missing_field_error, python_error_kind, PyErrorKind};
use wbtools::feature::{FieldDef, FieldType, Layer};
use wbtools::kriging::{
    check_spacetime_points, check_training_points, derive_variance_path, time_field_index,
    value_field_index, variogram_family, SimpleKrigingTool, SpaceTimeKrigingTool,
    UniversalKrigingTool, VariogramFamily,
};
use wbtools::tool::{
    parse_bool_arg, parse_optional_i64_arg, parse_optional_string_arg, parse_string_arg,
    vector_path_arg, ArgValue, LicenseTier, ToolArgs, ToolCategory, ToolError, ToolManifest,
    ToolStability,
};

fn s(x: &str) -> ArgValue {
    ArgValue::Str(x.to_string())
}

fn demo_manifest(tags: &[&str]) -> ToolManifest {
    ToolManifest {
        id: "demo_hint".to_string(),
        display_name: "Demo Hint".to_string(),
        summary: "Hint parsing".to_string(),
        category: ToolCategory::Raster,
        license_tier: LicenseTier::Open,
        params: Vec::new(),
        defaults: ToolArgs::new(),
        examples: Vec::new(),
        tags: tags.iter().map(|t| t.to_string()).collect(),
        stability: ToolStability::Stable,
    }
}

fn hint<'a>(h: &'a [(String, String)], k: &str) -> Option<&'a str> {
    h.iter().find(|(a, _)| a == k).map(|(_, b)| b.as_str())
}

fn kriging_args() -> ToolArgs {
    let mut a = ToolArgs::new();
    a.insert("training_points".to_string(), s(" samples.gpkg "));
    a.insert("field".to_string(), s(" value "));
    a.insert("variogram_json".to_string(), s("{}"));
    a.insert("template_raster".to_string(), s("template.tif"));
    a.insert("output".to_string(), s("out/kriged.tif"));
    a
}

#[test]
fn manifest_render_hints_parses_tag_conventions() {
    let manifest = demo_manifest(&[
        "render_hint:categorical_raster",
        "render_hint:output=categorical",
        "render_hint:probability=continuous",
    ]);
    let hints = manifest_render_hints(&manifest);
    assert_eq!(hint(&hints, "raster"), Some("categorical"));
    assert_eq!(hint(&hints, "output"), Some("categorical"));
    assert_eq!(hint(&hints, "probability"), Some("continuous"));
}

#[test]
fn invalid_tier_rejected() {
    let err = parse_tier("gold").expect_err("should reject invalid tier");
    assert!(matches!(err, ToolError::InvalidRequest(_)));
}

#[test]
fn tiers_parse_in_any_case_and_round_trip() {
    assert_eq!(parse_tier("PRO").unwrap(), LicenseTier::Pro);
    for t in [LicenseTier::Open, LicenseTier::Pro, LicenseTier::Enterprise] {
        assert_eq!(parse_tier(license_tier_to_str(t)).unwrap(), t);
    }
    match parse_tier("gold") {
        Err(ToolError::InvalidRequest(m)) => {
            assert_eq!(m, "invalid tier 'gold', expected open|pro|enterprise")
        }
        _ => panic!("expected InvalidRequest"),
    }
}

#[test]
fn include_pro_is_refused_in_this_build() {
    assert!(validate_include_pro(false).is_ok());
    assert!(matches!(validate_include_pro(true), Err(ToolError::InvalidRequest(_))));
}

#[test]
fn render_hints_ignore_malformed_tags_and_later_tags_win() {
    let m = demo_manifest(&[
        "  render_hint:  elevation = continuous ",
        "render_hint:=x",
        "render_hint:",
        "render_hint:nothing",
        "render_hint:elevation=hillshade",
        "other:tag",
    ]);
    let hints = manifest_render_hints(&m);
    assert_eq!(hints.len(), 1);
    assert_eq!(hint(&hints, "elevation"), Some("hillshade"));
}

#[test]
fn display_defaults_come_from_tags() {
    let plain = demo_manifest(&["raster"]);
    assert_eq!(manifest_display_defaults(&plain), (true, false, None));
    let m = demo_manifest(&["UI:Hidden_By_Default", "ui_default_favorite", "display_rank:x", " ui:display_rank= -7 "]);
    assert_eq!(manifest_display_defaults(&m), (false, true, Some(-7)));
    assert_eq!(manifest_display_default_rank(&demo_manifest(&["ui_display_rank:+12"])), Some(12));
    assert!(manifest_has_tag(&m, &vec!["ui:hidden_by_default"]));
    assert!(!manifest_has_tag(&m, &vec!["default_hidden"]));
}

#[test]
fn integers_parse_like_std() {
    for t in ["0", "-0", "+15", "9223372036854775807", "-9223372036854775808", "007"] {
        assert_eq!(parse_i64(t), t.parse::<i64>().ok(), "{}", t);
    }
    for t in ["", "-", "+", " 1", "1 ", "9223372036854775808", "-9223372036854775809", "1a", "--1"] {
        assert_eq!(parse_i64(t), None, "{}", t);
    }
}

#[test]
fn legacy_order_puts_output_after_input() {
    let names: Vec<String> = ["clip", "ESRI_PNTR", "input", "log_transform", "extra", "Output", "out_type", "input_is_pointer", "extra"]
        .iter()
        .map(|x| x.to_string())
        .collect();
    let r = reorder_param_names_logical("d8_flow_accum", &names);
    assert_eq!(
        r,
        vec!["input", "Output", "out_type", "log_transform", "clip", "input_is_pointer", "ESRI_PNTR", "extra"]
    );
    let same = reorder_param_names_logical("slope", &names);
    assert_eq!(same, names);
    assert_eq!(legacy_param_order_override("dinf_pointer"), Some(vec!["dem", "output"]));
    assert_eq!(legacy_param_order_override("nope"), None);
}

#[test]
fn locked_tools_explain_why() {
    assert_eq!(lock_reason(false, LicenseTier::Pro, LicenseTier::Enterprise), Some(LockReason::ProNotIncluded));
    assert_eq!(lock_reason(true, LicenseTier::Enterprise, LicenseTier::Pro), Some(LockReason::TierInsufficient));
    assert_eq!(lock_reason(false, LicenseTier::Open, LicenseTier::Open), None);
    assert_eq!(lock_reason_str(LockReason::TierInsufficient), "tier_insufficient");
    match not_found_error("raster_power", Some(LicenseTier::Pro), true, LicenseTier::Open, LicenseTier::Open) {
        ToolError::LicenseDenied(m) => assert_eq!(
            m,
            "This is a PRO tool: raster_power. Current runtime: include_pro=true, tier=open, effective_tier=open. Reason: tier_insufficient (requires pro). Action: use tier='pro' or higher with a valid entitlement."
        ),
        _ => panic!("expected LicenseDenied"),
    }
    match not_found_error("raster_power", Some(LicenseTier::Pro), false, LicenseTier::Pro, LicenseTier::Pro) {
        ToolError::LicenseDenied(m) => assert!(m.contains("Reason: pro_not_included.")),
        _ => panic!("expected LicenseDenied"),
    }
    assert!(matches!(not_found_error("x", None, true, LicenseTier::Pro, LicenseTier::Pro), ToolError::NotFound(ref m) if m == "x"));
    assert!(matches!(not_found_error("x", Some(LicenseTier::Open), false, LicenseTier::Open, LicenseTier::Open), ToolError::NotFound(_)));
}

#[test]
fn license_time_left() {
    assert_eq!(seconds_remaining(100, 40), 60);
    assert_eq!(seconds_remaining(40, 100), 0);
    assert_eq!(days_remaining(0), 0);
    assert_eq!(days_remaining(1), 1);
    assert_eq!(days_remaining(86_400), 1);
    assert_eq!(days_remaining(86_401), 2);
}

#[test]
fn colour_helpers_are_appended_once() {
    let helpers = sensor_bundle_colour_helper_manifests();
    assert_eq!(helpers.len(), 2);
    assert_eq!(helpers[0].id, "true_colour_composite");
    assert_eq!(helpers[1].params[0].name, "bundle_root");
    let mut ms = vec![demo_manifest(&[])];
    ms[0].id = "false_colour_composite".to_string();
    append_sensor_bundle_colour_helper_manifests(&mut ms);
    let ids: Vec<&str> = ms.iter().map(|m| m.id.as_str()).collect();
    assert_eq!(ids, vec!["false_colour_composite", "true_colour_composite"]);
    append_sensor_bundle_colour_helper_manifests(&mut ms);
    assert_eq!(ms.len(), 2);
}

#[test]
fn arguments_read_back_what_was_stored() {
    let mut a = ToolArgs::new();
    a.insert("k".to_string(), ArgValue::PosInt(3));
    a.insert("b".to_string(), ArgValue::Bool(true));
    a.insert("k".to_string(), ArgValue::NegInt(-4));
    assert_eq!(a.len(), 2);
    assert_eq!(parse_optional_i64_arg(&a, "k"), Some(-4));
    assert!(parse_bool_arg(&a, "b", false));
    assert!(parse_bool_arg(&a, "missing", true));
    assert_eq!(parse_optional_i64_arg(&a, "b"), None);
}

#[test]
fn string_arguments_are_trimmed_and_required() {
    let mut a = ToolArgs::new();
    a.insert("name".to_string(), s("  x  "));
    a.insert("blank".to_string(), s("   "));
    a.insert("num".to_string(), ArgValue::PosInt(1));
    assert_eq!(parse_string_arg(&a, "name").unwrap(), "x");
    match parse_string_arg(&a, "blank") {
        Err(ToolError::Validation(m)) => assert_eq!(m, "parameter 'blank' is required"),
        _ => panic!("expected Validation"),
    }
    assert!(parse_string_arg(&a, "num").is_err());
    assert_eq!(parse_optional_string_arg(&a, "blank").unwrap(), None);
    assert_eq!(parse_optional_string_arg(&a, "name").unwrap(), Some("x".to_string()));
    assert_eq!(vector_path_arg(&a, "blank").unwrap(), "");
    assert!(vector_path_arg(&a, "num").is_err());
}

#[test]
fn variance_paths_go_beside_the_output() {
    assert_eq!(derive_variance_path("out/kriged.tif"), "out/kriged_variance.tif");
    assert_eq!(derive_variance_path("a.b.c"), "a.b_variance.c");
    assert_eq!(derive_variance_path("noext"), "noext_variance");
}

#[test]
fn a_dot_in_a_directory_name_is_no_extension() {
    assert_eq!(derive_variance_path("runs.v2/out"), "runs.v2/out_variance");
    assert_eq!(derive_variance_path("runs.v2\\out"), "runs.v2\\out_variance");
    assert_eq!(derive_variance_path("runs.v2/out.tif"), "runs.v2/out_variance.tif");
}

#[test]
fn trend_order_must_be_one_or_two() {
    let mut a = kriging_args();
    for (n, ok) in [(0u64, false), (1, true), (2, true), (3, false)] {
        a.insert("trend_order".to_string(), ArgValue::PosInt(n));
        match UniversalKrigingTool.validate_params(&a) {
            Ok(()) => assert!(ok),
            Err(ToolError::Validation(m)) => {
                assert!(!ok);
                assert_eq!(m, "trend_order must be 1 or 2");
            }
            Err(_) => panic!(),
        }
    }
}

#[test]
fn variogram_families() {
    assert_eq!(variogram_family(None).unwrap(), VariogramFamily::Exponential);
    assert_eq!(variogram_family(Some("gaussian")).unwrap(), VariogramFamily::Gaussian);
    assert_eq!(variogram_family(Some("spherical")).unwrap(), VariogramFamily::Spherical);
    match variogram_family(Some("cubic")) {
        Err(ToolError::Execution(m)) => assert_eq!(m, "Unknown variogram family 'cubic'"),
        _ => panic!("expected Execution"),
    }
}

#[test]
fn training_point_counts() {
    assert!(check_training_points(3).is_ok());
    match check_training_points(2) {
        Err(ToolError::Execution(m)) => assert_eq!(m, "At least 3 training points required for kriging"),
        _ => panic!(),
    }
    assert!(check_spacetime_points(4).is_ok());
    match check_spacetime_points(1) {
        Err(ToolError::Execution(m)) => {
            assert_eq!(m, "At least 4 points with valid values and times required, found 1")
        }
        _ => panic!(),
    }
}

#[test]
fn kriging_metadata_and_manifests() {
    let m = SimpleKrigingTool.metadata();
    assert_eq!(m.id, "simple_kriging");
    assert_eq!(m.params.len(), 7);
    assert!(m.params[0].required && !m.params[5].required);
    let man = UniversalKrigingTool.manifest();
    assert_eq!(man.id, "universal_kriging");
    assert!(matches!(man.defaults.get("trend_order"), Some(ArgValue::PosInt(1))));
    assert!(matches!(man.examples[0].args.get("trend_order"), Some(ArgValue::PosInt(2))));
    assert!(matches!(man.examples[0].args.get("output_variance"), Some(ArgValue::Bool(true))));
    let st = SpaceTimeKrigingTool.manifest();
    assert!(matches!(st.examples[0].args.get("prediction_time"), Some(ArgValue::Float(b)) if *b == 150.0f64.to_bits()));
    assert!(st.defaults.get("prediction_time").is_none());
    assert_eq!(SpaceTimeKrigingTool.metadata().params.len(), 9);
    assert_eq!(SimpleKrigingTool.manifest().tags.len(), 5);
}

#[test]
fn kriging_arguments_are_checked_in_order() {
    let mut a = kriging_args();
    assert!(SimpleKrigingTool.validate_params(&a).is_ok());
    assert_eq!(SimpleKrigingTool.training_points_path(&a).unwrap(), "samples.gpkg");
    a.insert("trend_order".to_string(), ArgValue::PosInt(3));
    match UniversalKrigingTool.validate_params(&a) {
        Err(ToolError::Validation(m)) => assert_eq!(m, "trend_order must be 1 or 2"),
        _ => panic!(),
    }
    a.insert("output".to_string(), s(" "));
    a.insert("template_raster".to_string(), ArgValue::Null);
    match SimpleKrigingTool.validate_params(&a) {
        Err(ToolError::Validation(m)) => assert_eq!(m, "parameter 'template_raster' is required"),
        _ => panic!(),
    }
    match SpaceTimeKrigingTool.validate_params(&kriging_args()) {
        Err(ToolError::Validation(m)) => assert_eq!(m, "parameter 'time_field' is required"),
        _ => panic!(),
    }
}

#[test]
fn kriging_plans() {
    let mut a = kriging_args();
    a.insert("output_variance".to_string(), ArgValue::Bool(true));
    let p = UniversalKrigingTool.plan(&a).unwrap();
    assert_eq!(p.field, "value");
    assert_eq!(p.output, "out/kriged.tif");
    assert_eq!(p.trend_order, Some(1));
    assert_eq!(p.variance_path.as_deref(), Some("out/kriged_variance.tif"));
    let p = SimpleKrigingTool.plan(&kriging_args()).unwrap();
    assert_eq!(p.variance_path, None);
    let mut st = kriging_args();
    st.insert("time_field".to_string(), s("t"));
    st.insert("spatial_variogram_json".to_string(), s("{\"family\":\"gaussian\"}"));
    st.insert("temporal_variogram_json".to_string(), s("{}"));
    let p = SpaceTimeKrigingTool.plan(&st).unwrap();
    assert_eq!(p.time_field.as_deref(), Some("t"));
    assert_eq!(p.variogram_json, "{\"family\":\"gaussian\"}");
}

#[test]
fn license_state_lives_under_home_unless_overridden() {
    assert_eq!(license_state_path(Some("  /tmp/state.json "), Some("/home/u"), None), "/tmp/state.json");
    assert_eq!(
        license_state_path(Some("   "), Some("/home/u"), Some("C:/Users/u")),
        "/home/u/.whitebox/wbw_ng_license_state.json"
    );
    assert_eq!(license_state_path(None, None, Some("/users/u/")), "/users/u/.whitebox/wbw_ng_license_state.json");
    assert_eq!(license_state_path(None, None, None), "./.whitebox/wbw_ng_license_state.json");
}

#[test]
fn tool_errors_map_to_python_exception_kinds() {
    assert_eq!(python_error_kind(&ToolError::NotFound("x".to_string())), PyErrorKind::Value);
    assert_eq!(python_error_kind(&ToolError::Execution("x".to_string())), PyErrorKind::Runtime);
    assert_eq!(python_error_kind(&ToolError::LicenseDenied("x".to_string())), PyErrorKind::Runtime);
    match missing_field_error("public_key_kid") {
        ToolError::InvalidRequest(m) => assert_eq!(m, "license state missing 'public_key_kid'"),
        _ => panic!(),
    }
}

#[test]
fn value_and_time_fields_are_found_by_name() {
    let mut l = Layer::new("obs");
    l.add_field(FieldDef::new("site", FieldType::Text));
    l.add_field(FieldDef::new("value", FieldType::Float));
    l.add_field(FieldDef::new("t", FieldType::Float));
    l.add_field(FieldDef::new("value", FieldType::Integer));
    assert_eq!(value_field_index(&l, "value").unwrap(), 1);
    assert_eq!(time_field_index(&l, "t").unwrap(), 2);
    match value_field_index(&l, "depth") {
        Err(ToolError::Validation(m)) => assert_eq!(m, "field 'depth' does not exist"),
        _ => panic!(),
    }
    match time_field_index(&l, "when") {
        Err(ToolError::Validation(m)) => assert_eq!(m, "time field 'when' does not exist"),
        _ => panic!(),
    }
}
