use wbtools::catalog::{
    build_catalog_param_metadata, enrich_manifest_params, merge_param_docs_with_metadata,
    sorted_insert, CatalogEntry, CatalogParamMetadata,
};
use wbtools::tool::{
    LicenseTier, ToolArgs, ToolCategory, ToolManifest, ToolMetadata, ToolParamDescriptor,
    ToolParamSpec, ToolStability,
};

fn meta(id: &str, params: &[(&str, &str, bool)]) -> ToolMetadata {
    ToolMetadata {
        id: id.to_string(),
        display_name: id.to_string(),
        summary: String::new(),
        category: ToolCategory::Raster,
        license_tier: LicenseTier::Open,
        params: params.iter().map(|(n, d, r)| ToolParamSpec::new(n, d, *r)).collect(),
    }
}

fn manifest(params: Vec<ToolParamDescriptor>) -> ToolManifest {
    ToolManifest {
        id: "t".to_string(),
        display_name: "T".to_string(),
        summary: String::new(),
        category: ToolCategory::Raster,
        license_tier: LicenseTier::Open,
        params,
        defaults: ToolArgs::new(),
        examples: Vec::new(),
        tags: vec!["x".to_string()],
        stability: ToolStability::Stable,
    }
}

fn pairs(v: &[(&str, &str)]) -> Vec<(String, String)> {
    v.iter().map(|(a, b)| (a.to_string(), b.to_string())).collect()
}

#[test]
fn catalog_metadata_gathers_names_descriptions_and_flags() {
    let tools = vec![
        meta("d8_pointer", &[("esri_pntr", "ESRI style", false), ("dem", " DEM file ", true), ("output", "", true), ("dem", "dup", false)]),
        meta("slope", &[("input", "in", true)]),
    ];
    let m = build_catalog_param_metadata(&tools);
    assert_eq!(m.entries.len(), 2);
    let (id, e) = &m.entries[0];
    assert_eq!(id, "d8_pointer");
    assert_eq!(e.order, vec!["dem", "output", "esri_pntr"]);
    assert_eq!(e.descriptions, pairs(&[("esri_pntr", "ESRI style"), ("dem", "dup")]));
    assert_eq!(
        e.required,
        vec![("esri_pntr".to_string(), false), ("dem".to_string(), false), ("output".to_string(), true)]
    );
    assert_eq!(m.entries[1].1.order, vec!["input"]);
}

#[test]
fn merged_docs_fill_only_what_is_missing() {
    let meta = CatalogParamMetadata {
        entries: vec![(
            "t".to_string(),
            CatalogEntry {
                order: vec![],
                descriptions: pairs(&[("a", "meta a"), ("b", "meta b"), ("c", "meta c")]),
                required: vec![("a".to_string(), true), ("z".to_string(), true)],
            },
        )],
    };
    let mut descs = pairs(&[("a", "own a"), ("b", "  ")]);
    let mut req = vec![("a".to_string(), false)];
    merge_param_docs_with_metadata("t", &mut descs, &mut req, &meta);
    assert_eq!(descs, pairs(&[("a", "own a"), ("b", "meta b"), ("c", "meta c")]));
    assert_eq!(req, vec![("a".to_string(), false), ("z".to_string(), true)]);
    let mut d2 = pairs(&[("q", "")]);
    let mut r2 = vec![];
    merge_param_docs_with_metadata("other", &mut d2, &mut r2, &meta);
    assert_eq!(d2, pairs(&[("q", "")]));
    assert!(r2.is_empty());
}

#[test]
fn enriched_manifest_lists_ordered_then_sorted_extras() {
    let m = manifest(vec![]);
    let ordered = vec![" b ".to_string(), "".to_string(), "a".to_string(), "b".to_string()];
    let schema = vec!["z".to_string(), "a".to_string()];
    let descs = pairs(&[("m", "m desc"), ("a", "a desc")]);
    let req = vec![("c".to_string(), true)];
    let r = enrich_manifest_params(&m, &schema, &descs, &req, Some(&ordered));
    let names: Vec<&str> = r.params.iter().map(|p| p.name.as_str()).collect();
    assert_eq!(names, vec!["b", "a", "c", "m", "z"]);
    assert_eq!(r.params[1].description, "a desc");
    assert!(r.params[2].required);
    assert!(!r.params[4].required);
    assert_eq!(r.tags, vec!["x"]);
}

#[test]
fn enriched_manifest_completes_listed_params() {
    let m = manifest(vec![
        ToolParamDescriptor::new("a", " ", false),
        ToolParamDescriptor::new("b", "own", false),
    ]);
    let descs = pairs(&[("a", "filled"), ("b", "ignored")]);
    let req = vec![("b".to_string(), true)];
    let r = enrich_manifest_params(&m, &vec![], &descs, &req, None);
    assert_eq!(r.params.len(), 2);
    assert_eq!(r.params[0].description, "filled");
    assert_eq!(r.params[1].description, "own");
    assert!(r.params[1].required);
}

#[test]
fn sorted_insertion_keeps_names_sorted_and_unique() {
    let mut v: Vec<String> = Vec::new();
    for x in ["pear", "apple", "zoo", "apple", "Apple", "éclair", "app"] {
        sorted_insert(&mut v, &x.to_string());
    }
    let mut expect: Vec<String> = ["pear", "apple", "zoo", "Apple", "éclair", "app"].iter().map(|s| s.to_string()).collect();
    expect.sort();
    assert_eq!(v, expect);
}

#[test]
fn param_docs_are_looked_up_with_the_schema_keys() {
    let keys = vec!["output".to_string(), "input".to_string(), "input".to_string()];
    let r = wbtools::catalog::tool_param_descriptions("slope", Some(keys), |id: &str, ks: &Vec<String>| {
        assert_eq!(id, "slope");
        Some(ks.iter().map(|k| (k.clone(), format!("about {k}"))).collect::<Vec<(String, String)>>())
    });
    assert_eq!(
        r.unwrap(),
        vec![
            ("input".to_string(), "about input".to_string()),
            ("output".to_string(), "about output".to_string())
        ]
    );
    let r = wbtools::catalog::tool_param_required("x", None, |_: &str, ks: &Vec<String>| {
        assert!(ks.is_empty());
        None
    });
    assert!(r.is_none());
    let r = wbtools::catalog::tool_param_required("x", Some(vec!["z".to_string()]), |_: &str, ks: &Vec<String>| {
        Some(ks.iter().map(|k| (k.clone(), true)).collect::<Vec<(String, bool)>>())
    });
    assert_eq!(r.unwrap(), vec![("z".to_string(), true)]);
    assert_eq!(
        wbtools::catalog::known_param_keys(Some(vec!["b".to_string(), "a".to_string(), "b".to_string()])),
        vec!["a".to_string(), "b".to_string()]
    );
    assert!(wbtools::catalog::known_param_keys(None).is_empty());
}
