//! The kriging interpolation tools: their metadata and manifests, the
//! checks on their arguments, and the decisions their runs make before and
//! after the kriging engine does its numeric work.

use crate::feature::{FieldDefV, Layer};
use crate::text::{push_str, rfind_char, str_eq, string_from_range, to_owned_string, chars_of, last_index_of, trim_spec, decimal_digits};
use crate::tool::{
    arg_insert, arg_lookup, arg_u64, parse_bool_arg, parse_string_arg, required_msg, string_arg,
    vector_path_arg, ArgValue, ArgValueV, LicenseTier, ParamV, ToolArgs, ToolCategory, ToolError,
    ToolErrorV, ToolExample, ToolExampleV, ToolManifest, ToolManifestV, ToolMetadata,
    ToolMetadataV, ToolParamDescriptor, ToolParamSpec, ToolStability,
};
use vstd::prelude::*;

verus! {

/// Simple kriging: interpolation with a known constant mean.
pub struct SimpleKrigingTool;

/// Universal kriging: interpolation with a polynomial trend.
pub struct UniversalKrigingTool;

/// Space-time kriging: interpolation of spatially distributed time series.
pub struct SpaceTimeKrigingTool;

/// The metadata of the SimpleKrigingTool tool.
pub open spec fn simple_metadata_spec() -> ToolMetadataV {
    ToolMetadataV {
        id: "simple_kriging"@,
        display_name: "Simple Kriging"@,
        summary: "Performs simple kriging interpolation when the mean of the spatial field is known a priori. Unlike ordinary kriging (which estimates an unknown mean), simple kriging incorporates a user-supplied constant mean, reducing kriging variance and providing more stable predictions when the mean is reliably known from external information.\n\nSimple kriging is appropriate when you have strong prior knowledge of the field mean (e.g., from regional climate normals, geological surveys, or calibration data). Compared to ordinary kriging, it generally produces lower prediction variance due to the fixed mean constraint.\n\nWorkflow: estimate_variogram → fit_variogram → (optional) kriging_cross_validation → simple_kriging. Output includes predictions and optional kriging variance raster."@,
        category: ToolCategory::Raster,
        license_tier: LicenseTier::Open,
        params: seq![
        ParamV { name: "training_points"@, description: "Vector layer with training points"@, required: true },
        ParamV { name: "field"@, description: "Field containing measurement values"@, required: true },
        ParamV { name: "variogram_json"@, description: "Fitted variogram model as JSON (from fit_variogram)"@, required: true },
        ParamV { name: "template_raster"@, description: "Raster template defining output grid and CRS"@, required: true },
        ParamV { name: "output"@, description: "Output kriged raster path"@, required: true },
        ParamV { name: "known_mean"@, description: "Known constant mean of the spatial field (default: sample mean)"@, required: false },
        ParamV { name: "output_variance"@, description: "If true, write kriging variance raster alongside predictions"@, required: false },
        ],
    }
}

/// The default arguments of the SimpleKrigingTool tool.
pub open spec fn simple_defaults_spec() -> Seq<(Seq<char>, ArgValueV)> {
    arg_insert(arg_insert(arg_insert(arg_insert(arg_insert(arg_insert(Seq::<(Seq<char>, ArgValueV)>::empty(), "training_points"@, ArgValueV::Str("samples.gpkg"@)), "field"@, ArgValueV::Str("value"@)), "variogram_json"@, ArgValueV::Str("{}"@)), "template_raster"@, ArgValueV::Str("template.tif"@)), "output"@, ArgValueV::Str("simple_kriging.tif"@)), "output_variance"@, ArgValueV::Bool(false))
}

/// The example arguments of the SimpleKrigingTool tool.
pub open spec fn simple_example_args_spec() -> Seq<(Seq<char>, ArgValueV)> {
    arg_insert(arg_insert(arg_insert(arg_insert(arg_insert(arg_insert(arg_insert(arg_insert(Seq::<(Seq<char>, ArgValueV)>::empty(), "training_points"@, ArgValueV::Str("samples.gpkg"@)), "field"@, ArgValueV::Str("value"@)), "variogram_json"@, ArgValueV::Str("{}"@)), "template_raster"@, ArgValueV::Str("template.tif"@)), "output"@, ArgValueV::Str("simple_kriging.tif"@)), "output_variance"@, ArgValueV::Bool(false)), "known_mean"@, ArgValueV::Float(0x4059000000000000u64)), "output_variance"@, ArgValueV::Bool(true))
}

/// The manifest of the SimpleKrigingTool tool.
pub open spec fn simple_manifest_spec() -> ToolManifestV {
    ToolManifestV {
        id: "simple_kriging"@,
        display_name: "Simple Kriging"@,
        summary: "Performs simple kriging with a known constant mean. Requires a pre-fitted variogram model (from fit_variogram). Produces lower variance than ordinary kriging when the mean is reliably known."@,
        category: ToolCategory::Raster,
        license_tier: LicenseTier::Open,
        params: seq![
            ParamV { name: "training_points"@, description: "Vector layer with training points"@, required: true },
            ParamV { name: "field"@, description: "Field containing measurement values"@, required: true },
            ParamV { name: "variogram_json"@, description: "Fitted variogram model as JSON (from fit_variogram)"@, required: true },
            ParamV { name: "template_raster"@, description: "Raster template defining output grid and CRS"@, required: true },
            ParamV { name: "output"@, description: "Output kriged raster path"@, required: true },
            ParamV { name: "known_mean"@, description: "Known constant mean of the spatial field (omit to use sample mean)"@, required: false },
            ParamV { name: "output_variance"@, description: "If true, write kriging variance raster alongside predictions"@, required: false },
        ],
        defaults: simple_defaults_spec(),
        examples: seq![
            ToolExampleV {
                name: "simple_kriging_basic"@,
                description: "Simple kriging with a known mean and variance output."@,
                args: simple_example_args_spec(),
            },
        ],
        tags: seq!["geostatistics"@, "kriging"@, "raster"@, "interpolation"@, "uncertainty"@],
        stability: ToolStability::Stable,
    }
}

impl SimpleKrigingTool {
    /// The tool's metadata.
    pub fn metadata(&self) -> (r: ToolMetadata)
        ensures
            r@ == simple_metadata_spec(),
    {
        let mut params: Vec<ToolParamSpec> = Vec::new();
        params.push(ToolParamSpec::new("training_points", "Vector layer with training points", true));
        params.push(ToolParamSpec::new("field", "Field containing measurement values", true));
        params.push(ToolParamSpec::new("variogram_json", "Fitted variogram model as JSON (from fit_variogram)", true));
        params.push(ToolParamSpec::new("template_raster", "Raster template defining output grid and CRS", true));
        params.push(ToolParamSpec::new("output", "Output kriged raster path", true));
        params.push(ToolParamSpec::new("known_mean", "Known constant mean of the spatial field (default: sample mean)", false));
        params.push(ToolParamSpec::new("output_variance", "If true, write kriging variance raster alongside predictions", false));
        let r = ToolMetadata {
            id: to_owned_string("simple_kriging"),
            display_name: to_owned_string("Simple Kriging"),
            summary: to_owned_string("Performs simple kriging interpolation when the mean of the spatial field is known a priori. Unlike ordinary kriging (which estimates an unknown mean), simple kriging incorporates a user-supplied constant mean, reducing kriging variance and providing more stable predictions when the mean is reliably known from external information.\n\nSimple kriging is appropriate when you have strong prior knowledge of the field mean (e.g., from regional climate normals, geological surveys, or calibration data). Compared to ordinary kriging, it generally produces lower prediction variance due to the fixed mean constraint.\n\nWorkflow: estimate_variogram → fit_variogram → (optional) kriging_cross_validation → simple_kriging. Output includes predictions and optional kriging variance raster."),
            category: ToolCategory::Raster,
            license_tier: LicenseTier::Open,
            params,
        };
        assert(r@.params =~= simple_metadata_spec().params);
        r
    }

    /// The tool's manifest.
    pub fn manifest(&self) -> (r: ToolManifest)
        ensures
            r@ == simple_manifest_spec(),
    {
        let mut defaults = ToolArgs::new();
        defaults.insert(to_owned_string("training_points"), ArgValue::Str(to_owned_string("samples.gpkg")));
        defaults.insert(to_owned_string("field"), ArgValue::Str(to_owned_string("value")));
        defaults.insert(to_owned_string("variogram_json"), ArgValue::Str(to_owned_string("{}")));
        defaults.insert(to_owned_string("template_raster"), ArgValue::Str(to_owned_string("template.tif")));
        defaults.insert(to_owned_string("output"), ArgValue::Str(to_owned_string("simple_kriging.tif")));
        defaults.insert(to_owned_string("output_variance"), ArgValue::Bool(false));
        let mut example_args = defaults.copy();
        example_args.insert(to_owned_string("known_mean"), ArgValue::Float(0x4059000000000000u64));
        example_args.insert(to_owned_string("output_variance"), ArgValue::Bool(true));
        let mut params: Vec<ToolParamDescriptor> = Vec::new();
        params.push(ToolParamDescriptor::new("training_points", "Vector layer with training points", true));
        params.push(ToolParamDescriptor::new("field", "Field containing measurement values", true));
        params.push(ToolParamDescriptor::new("variogram_json", "Fitted variogram model as JSON (from fit_variogram)", true));
        params.push(ToolParamDescriptor::new("template_raster", "Raster template defining output grid and CRS", true));
        params.push(ToolParamDescriptor::new("output", "Output kriged raster path", true));
        params.push(ToolParamDescriptor::new("known_mean", "Known constant mean of the spatial field (omit to use sample mean)", false));
        params.push(ToolParamDescriptor::new("output_variance", "If true, write kriging variance raster alongside predictions", false));
        let mut tags: Vec<String> = Vec::new();
        tags.push(to_owned_string("geostatistics"));
        tags.push(to_owned_string("kriging"));
        tags.push(to_owned_string("raster"));
        tags.push(to_owned_string("interpolation"));
        tags.push(to_owned_string("uncertainty"));
        let example = ToolExample {
            name: to_owned_string("simple_kriging_basic"),
            description: to_owned_string("Simple kriging with a known mean and variance output."),
            args: example_args,
        };
        let mut examples: Vec<ToolExample> = Vec::new();
        examples.push(example);
        let r = ToolManifest {
            id: to_owned_string("simple_kriging"),
            display_name: to_owned_string("Simple Kriging"),
            summary: to_owned_string("Performs simple kriging with a known constant mean. Requires a pre-fitted variogram model (from fit_variogram). Produces lower variance than ordinary kriging when the mean is reliably known."),
            category: ToolCategory::Raster,
            license_tier: LicenseTier::Open,
            params,
            defaults,
            examples,
            tags,
            stability: ToolStability::Stable,
        };
        assert(r@.params =~= simple_manifest_spec().params);
        assert(r@.examples =~= simple_manifest_spec().examples);
        assert(r@.tags =~= simple_manifest_spec().tags);
        r
    }
}

/// The metadata of the UniversalKrigingTool tool.
pub open spec fn universal_metadata_spec() -> ToolMetadataV {
    ToolMetadataV {
        id: "universal_kriging"@,
        display_name: "Universal Kriging"@,
        summary: "Performs universal kriging (kriging with a trend) when the spatial phenomenon has a systematic trend or drift that varies across the study area. Universal kriging combines polynomial trend surface estimation with kriging of the residuals, separating large-scale trend from small-scale spatial variation.\n\nThe trend_order parameter controls the polynomial degree: 1 fits a linear trend (sloping plane); 2 fits a quadratic trend (curved surface). After removing the trend, ordinary kriging is applied to residuals. This produces better predictions than ordinary kriging alone when spatial trends are present.\n\nWorkflow: estimate_variogram → fit_variogram → (optional) kriging_cross_validation → universal_kriging. Note: the variogram should be fitted to the de-trended residuals for best results. Output includes predictions and optional kriging variance raster."@,
        category: ToolCategory::Raster,
        license_tier: LicenseTier::Open,
        params: seq![
        ParamV { name: "training_points"@, description: "Vector layer with training points"@, required: true },
        ParamV { name: "field"@, description: "Field containing measurement values"@, required: true },
        ParamV { name: "variogram_json"@, description: "Fitted variogram model as JSON (from fit_variogram)"@, required: true },
        ParamV { name: "template_raster"@, description: "Raster template defining output grid and CRS"@, required: true },
        ParamV { name: "output"@, description: "Output kriged raster path"@, required: true },
        ParamV { name: "trend_order"@, description: "Polynomial trend degree: 1=linear, 2=quadratic (default: 1)"@, required: false },
        ParamV { name: "output_variance"@, description: "If true, write kriging variance raster alongside predictions"@, required: false },
        ],
    }
}

/// The default arguments of the UniversalKrigingTool tool.
pub open spec fn universal_defaults_spec() -> Seq<(Seq<char>, ArgValueV)> {
    arg_insert(arg_insert(arg_insert(arg_insert(arg_insert(arg_insert(arg_insert(Seq::<(Seq<char>, ArgValueV)>::empty(), "training_points"@, ArgValueV::Str("samples.gpkg"@)), "field"@, ArgValueV::Str("value"@)), "variogram_json"@, ArgValueV::Str("{}"@)), "template_raster"@, ArgValueV::Str("template.tif"@)), "output"@, ArgValueV::Str("universal_kriging.tif"@)), "trend_order"@, ArgValueV::PosInt(1u64)), "output_variance"@, ArgValueV::Bool(false))
}

/// The example arguments of the UniversalKrigingTool tool.
pub open spec fn universal_example_args_spec() -> Seq<(Seq<char>, ArgValueV)> {
    arg_insert(arg_insert(arg_insert(arg_insert(arg_insert(arg_insert(arg_insert(arg_insert(arg_insert(Seq::<(Seq<char>, ArgValueV)>::empty(), "training_points"@, ArgValueV::Str("samples.gpkg"@)), "field"@, ArgValueV::Str("value"@)), "variogram_json"@, ArgValueV::Str("{}"@)), "template_raster"@, ArgValueV::Str("template.tif"@)), "output"@, ArgValueV::Str("universal_kriging.tif"@)), "trend_order"@, ArgValueV::PosInt(1u64)), "output_variance"@, ArgValueV::Bool(false)), "trend_order"@, ArgValueV::PosInt(2u64)), "output_variance"@, ArgValueV::Bool(true))
}

/// The manifest of the UniversalKrigingTool tool.
pub open spec fn universal_manifest_spec() -> ToolManifestV {
    ToolManifestV {
        id: "universal_kriging"@,
        display_name: "Universal Kriging"@,
        summary: "Performs universal kriging (kriging with a polynomial trend). Requires a pre-fitted variogram model (from fit_variogram). Use when spatial data has a systematic trend."@,
        category: ToolCategory::Raster,
        license_tier: LicenseTier::Open,
        params: seq![
            ParamV { name: "training_points"@, description: "Vector layer with training points"@, required: true },
            ParamV { name: "field"@, description: "Field containing measurement values"@, required: true },
            ParamV { name: "variogram_json"@, description: "Fitted variogram model as JSON (from fit_variogram)"@, required: true },
            ParamV { name: "template_raster"@, description: "Raster template defining output grid and CRS"@, required: true },
            ParamV { name: "output"@, description: "Output kriged raster path"@, required: true },
            ParamV { name: "trend_order"@, description: "Polynomial trend degree: 1=linear, 2=quadratic (default: 1)"@, required: false },
            ParamV { name: "output_variance"@, description: "If true, write kriging variance raster alongside predictions"@, required: false },
        ],
        defaults: universal_defaults_spec(),
        examples: seq![
            ToolExampleV {
                name: "universal_kriging_quadratic"@,
                description: "Universal kriging with quadratic trend and variance output."@,
                args: universal_example_args_spec(),
            },
        ],
        tags: seq!["geostatistics"@, "kriging"@, "raster"@, "interpolation"@, "trend"@, "uncertainty"@],
        stability: ToolStability::Stable,
    }
}

impl UniversalKrigingTool {
    /// The tool's metadata.
    pub fn metadata(&self) -> (r: ToolMetadata)
        ensures
            r@ == universal_metadata_spec(),
    {
        let mut params: Vec<ToolParamSpec> = Vec::new();
        params.push(ToolParamSpec::new("training_points", "Vector layer with training points", true));
        params.push(ToolParamSpec::new("field", "Field containing measurement values", true));
        params.push(ToolParamSpec::new("variogram_json", "Fitted variogram model as JSON (from fit_variogram)", true));
        params.push(ToolParamSpec::new("template_raster", "Raster template defining output grid and CRS", true));
        params.push(ToolParamSpec::new("output", "Output kriged raster path", true));
        params.push(ToolParamSpec::new("trend_order", "Polynomial trend degree: 1=linear, 2=quadratic (default: 1)", false));
        params.push(ToolParamSpec::new("output_variance", "If true, write kriging variance raster alongside predictions", false));
        let r = ToolMetadata {
            id: to_owned_string("universal_kriging"),
            display_name: to_owned_string("Universal Kriging"),
            summary: to_owned_string("Performs universal kriging (kriging with a trend) when the spatial phenomenon has a systematic trend or drift that varies across the study area. Universal kriging combines polynomial trend surface estimation with kriging of the residuals, separating large-scale trend from small-scale spatial variation.\n\nThe trend_order parameter controls the polynomial degree: 1 fits a linear trend (sloping plane); 2 fits a quadratic trend (curved surface). After removing the trend, ordinary kriging is applied to residuals. This produces better predictions than ordinary kriging alone when spatial trends are present.\n\nWorkflow: estimate_variogram → fit_variogram → (optional) kriging_cross_validation → universal_kriging. Note: the variogram should be fitted to the de-trended residuals for best results. Output includes predictions and optional kriging variance raster."),
            category: ToolCategory::Raster,
            license_tier: LicenseTier::Open,
            params,
        };
        assert(r@.params =~= universal_metadata_spec().params);
        r
    }

    /// The tool's manifest.
    pub fn manifest(&self) -> (r: ToolManifest)
        ensures
            r@ == universal_manifest_spec(),
    {
        let mut defaults = ToolArgs::new();
        defaults.insert(to_owned_string("training_points"), ArgValue::Str(to_owned_string("samples.gpkg")));
        defaults.insert(to_owned_string("field"), ArgValue::Str(to_owned_string("value")));
        defaults.insert(to_owned_string("variogram_json"), ArgValue::Str(to_owned_string("{}")));
        defaults.insert(to_owned_string("template_raster"), ArgValue::Str(to_owned_string("template.tif")));
        defaults.insert(to_owned_string("output"), ArgValue::Str(to_owned_string("universal_kriging.tif")));
        defaults.insert(to_owned_string("trend_order"), ArgValue::PosInt(1u64));
        defaults.insert(to_owned_string("output_variance"), ArgValue::Bool(false));
        let mut example_args = defaults.copy();
        example_args.insert(to_owned_string("trend_order"), ArgValue::PosInt(2u64));
        example_args.insert(to_owned_string("output_variance"), ArgValue::Bool(true));
        let mut params: Vec<ToolParamDescriptor> = Vec::new();
        params.push(ToolParamDescriptor::new("training_points", "Vector layer with training points", true));
        params.push(ToolParamDescriptor::new("field", "Field containing measurement values", true));
        params.push(ToolParamDescriptor::new("variogram_json", "Fitted variogram model as JSON (from fit_variogram)", true));
        params.push(ToolParamDescriptor::new("template_raster", "Raster template defining output grid and CRS", true));
        params.push(ToolParamDescriptor::new("output", "Output kriged raster path", true));
        params.push(ToolParamDescriptor::new("trend_order", "Polynomial trend degree: 1=linear, 2=quadratic (default: 1)", false));
        params.push(ToolParamDescriptor::new("output_variance", "If true, write kriging variance raster alongside predictions", false));
        let mut tags: Vec<String> = Vec::new();
        tags.push(to_owned_string("geostatistics"));
        tags.push(to_owned_string("kriging"));
        tags.push(to_owned_string("raster"));
        tags.push(to_owned_string("interpolation"));
        tags.push(to_owned_string("trend"));
        tags.push(to_owned_string("uncertainty"));
        let example = ToolExample {
            name: to_owned_string("universal_kriging_quadratic"),
            description: to_owned_string("Universal kriging with quadratic trend and variance output."),
            args: example_args,
        };
        let mut examples: Vec<ToolExample> = Vec::new();
        examples.push(example);
        let r = ToolManifest {
            id: to_owned_string("universal_kriging"),
            display_name: to_owned_string("Universal Kriging"),
            summary: to_owned_string("Performs universal kriging (kriging with a polynomial trend). Requires a pre-fitted variogram model (from fit_variogram). Use when spatial data has a systematic trend."),
            category: ToolCategory::Raster,
            license_tier: LicenseTier::Open,
            params,
            defaults,
            examples,
            tags,
            stability: ToolStability::Stable,
        };
        assert(r@.params =~= universal_manifest_spec().params);
        assert(r@.examples =~= universal_manifest_spec().examples);
        assert(r@.tags =~= universal_manifest_spec().tags);
        r
    }
}

/// The metadata of the SpaceTimeKrigingTool tool.
pub open spec fn spacetime_metadata_spec() -> ToolMetadataV {
    ToolMetadataV {
        id: "spacetime_kriging"@,
        display_name: "Space-Time Kriging"@,
        summary: "Performs space-time kriging to jointly model spatial and temporal variation in point observations. Extends ordinary kriging to 3D (x, y, t), weighting nearby observations more heavily in both space and time. Suitable for spatially-distributed time series: air quality networks, climate stations, environmental sensor arrays.\n\nRequires separate fitted variograms for the spatial and temporal dimensions. The prediction_time parameter specifies the target time slice for the output raster; if omitted it defaults to the mean training time. All grid cells are predicted at the same target time, producing a snapshot interpolation.\n\nWorkflow: estimate_variogram (spatial) → fit_variogram (spatial) → estimate_variogram (temporal) → fit_variogram (temporal) → spacetime_kriging. Output includes predictions and optional kriging variance raster."@,
        category: ToolCategory::Raster,
        license_tier: LicenseTier::Open,
        params: seq![
        ParamV { name: "training_points"@, description: "Vector layer with training points (must include a numeric time field)"@, required: true },
        ParamV { name: "field"@, description: "Field containing measurement values"@, required: true },
        ParamV { name: "time_field"@, description: "Field containing numeric time values (e.g. Julian day, epoch seconds)"@, required: true },
        ParamV { name: "spatial_variogram_json"@, description: "Fitted spatial variogram model as JSON (from fit_variogram)"@, required: true },
        ParamV { name: "temporal_variogram_json"@, description: "Fitted temporal variogram model as JSON (from fit_variogram on time axis)"@, required: true },
        ParamV { name: "template_raster"@, description: "Raster template defining output grid and CRS"@, required: true },
        ParamV { name: "output"@, description: "Output kriged raster path"@, required: true },
        ParamV { name: "prediction_time"@, description: "Target time value for the output snapshot (default: mean training time)"@, required: false },
        ParamV { name: "output_variance"@, description: "If true, write kriging variance raster alongside predictions"@, required: false },
        ],
    }
}

/// The default arguments of the SpaceTimeKrigingTool tool.
pub open spec fn spacetime_defaults_spec() -> Seq<(Seq<char>, ArgValueV)> {
    arg_insert(arg_insert(arg_insert(arg_insert(arg_insert(arg_insert(arg_insert(arg_insert(Seq::<(Seq<char>, ArgValueV)>::empty(), "training_points"@, ArgValueV::Str("samples.gpkg"@)), "field"@, ArgValueV::Str("value"@)), "time_field"@, ArgValueV::Str("time"@)), "spatial_variogram_json"@, ArgValueV::Str("{}"@)), "temporal_variogram_json"@, ArgValueV::Str("{}"@)), "template_raster"@, ArgValueV::Str("template.tif"@)), "output"@, ArgValueV::Str("spacetime_kriging.tif"@)), "output_variance"@, ArgValueV::Bool(false))
}

/// The example arguments of the SpaceTimeKrigingTool tool.
pub open spec fn spacetime_example_args_spec() -> Seq<(Seq<char>, ArgValueV)> {
    arg_insert(arg_insert(arg_insert(arg_insert(arg_insert(arg_insert(arg_insert(arg_insert(arg_insert(arg_insert(Seq::<(Seq<char>, ArgValueV)>::empty(), "training_points"@, ArgValueV::Str("samples.gpkg"@)), "field"@, ArgValueV::Str("value"@)), "time_field"@, ArgValueV::Str("time"@)), "spatial_variogram_json"@, ArgValueV::Str("{}"@)), "temporal_variogram_json"@, ArgValueV::Str("{}"@)), "template_raster"@, ArgValueV::Str("template.tif"@)), "output"@, ArgValueV::Str("spacetime_kriging.tif"@)), "output_variance"@, ArgValueV::Bool(false)), "prediction_time"@, ArgValueV::Float(0x4062c00000000000u64)), "output_variance"@, ArgValueV::Bool(true))
}

/// The manifest of the SpaceTimeKrigingTool tool.
pub open spec fn spacetime_manifest_spec() -> ToolManifestV {
    ToolManifestV {
        id: "spacetime_kriging"@,
        display_name: "Space-Time Kriging"@,
        summary: "Performs space-time kriging for spatially-distributed time series data. Requires separate fitted spatial and temporal variogram models."@,
        category: ToolCategory::Raster,
        license_tier: LicenseTier::Open,
        params: seq![
            ParamV { name: "training_points"@, description: "Vector layer with training points (must include a numeric time field)"@, required: true },
            ParamV { name: "field"@, description: "Field containing measurement values"@, required: true },
            ParamV { name: "time_field"@, description: "Field containing numeric time values"@, required: true },
            ParamV { name: "spatial_variogram_json"@, description: "Fitted spatial variogram model as JSON"@, required: true },
            ParamV { name: "temporal_variogram_json"@, description: "Fitted temporal variogram model as JSON"@, required: true },
            ParamV { name: "template_raster"@, description: "Raster template defining output grid and CRS"@, required: true },
            ParamV { name: "output"@, description: "Output kriged raster path"@, required: true },
            ParamV { name: "prediction_time"@, description: "Target time value for prediction snapshot (default: mean training time)"@, required: false },
            ParamV { name: "output_variance"@, description: "If true, write kriging variance raster alongside predictions"@, required: false },
        ],
        defaults: spacetime_defaults_spec(),
        examples: seq![
            ToolExampleV {
                name: "spacetime_kriging_snapshot"@,
                description: "Space-time kriging snapshot at a specific time with variance output."@,
                args: spacetime_example_args_spec(),
            },
        ],
        tags: seq!["geostatistics"@, "kriging"@, "raster"@, "interpolation"@, "spatiotemporal"@, "uncertainty"@],
        stability: ToolStability::Stable,
    }
}

impl SpaceTimeKrigingTool {
    /// The tool's metadata.
    pub fn metadata(&self) -> (r: ToolMetadata)
        ensures
            r@ == spacetime_metadata_spec(),
    {
        let mut params: Vec<ToolParamSpec> = Vec::new();
        params.push(ToolParamSpec::new("training_points", "Vector layer with training points (must include a numeric time field)", true));
        params.push(ToolParamSpec::new("field", "Field containing measurement values", true));
        params.push(ToolParamSpec::new("time_field", "Field containing numeric time values (e.g. Julian day, epoch seconds)", true));
        params.push(ToolParamSpec::new("spatial_variogram_json", "Fitted spatial variogram model as JSON (from fit_variogram)", true));
        params.push(ToolParamSpec::new("temporal_variogram_json", "Fitted temporal variogram model as JSON (from fit_variogram on time axis)", true));
        params.push(ToolParamSpec::new("template_raster", "Raster template defining output grid and CRS", true));
        params.push(ToolParamSpec::new("output", "Output kriged raster path", true));
        params.push(ToolParamSpec::new("prediction_time", "Target time value for the output snapshot (default: mean training time)", false));
        params.push(ToolParamSpec::new("output_variance", "If true, write kriging variance raster alongside predictions", false));
        let r = ToolMetadata {
            id: to_owned_string("spacetime_kriging"),
            display_name: to_owned_string("Space-Time Kriging"),
            summary: to_owned_string("Performs space-time kriging to jointly model spatial and temporal variation in point observations. Extends ordinary kriging to 3D (x, y, t), weighting nearby observations more heavily in both space and time. Suitable for spatially-distributed time series: air quality networks, climate stations, environmental sensor arrays.\n\nRequires separate fitted variograms for the spatial and temporal dimensions. The prediction_time parameter specifies the target time slice for the output raster; if omitted it defaults to the mean training time. All grid cells are predicted at the same target time, producing a snapshot interpolation.\n\nWorkflow: estimate_variogram (spatial) → fit_variogram (spatial) → estimate_variogram (temporal) → fit_variogram (temporal) → spacetime_kriging. Output includes predictions and optional kriging variance raster."),
            category: ToolCategory::Raster,
            license_tier: LicenseTier::Open,
            params,
        };
        assert(r@.params =~= spacetime_metadata_spec().params);
        r
    }

    /// The tool's manifest.
    pub fn manifest(&self) -> (r: ToolManifest)
        ensures
            r@ == spacetime_manifest_spec(),
    {
        let mut defaults = ToolArgs::new();
        defaults.insert(to_owned_string("training_points"), ArgValue::Str(to_owned_string("samples.gpkg")));
        defaults.insert(to_owned_string("field"), ArgValue::Str(to_owned_string("value")));
        defaults.insert(to_owned_string("time_field"), ArgValue::Str(to_owned_string("time")));
        defaults.insert(to_owned_string("spatial_variogram_json"), ArgValue::Str(to_owned_string("{}")));
        defaults.insert(to_owned_string("temporal_variogram_json"), ArgValue::Str(to_owned_string("{}")));
        defaults.insert(to_owned_string("template_raster"), ArgValue::Str(to_owned_string("template.tif")));
        defaults.insert(to_owned_string("output"), ArgValue::Str(to_owned_string("spacetime_kriging.tif")));
        defaults.insert(to_owned_string("output_variance"), ArgValue::Bool(false));
        let mut example_args = defaults.copy();
        example_args.insert(to_owned_string("prediction_time"), ArgValue::Float(0x4062c00000000000u64));
        example_args.insert(to_owned_string("output_variance"), ArgValue::Bool(true));
        let mut params: Vec<ToolParamDescriptor> = Vec::new();
        params.push(ToolParamDescriptor::new("training_points", "Vector layer with training points (must include a numeric time field)", true));
        params.push(ToolParamDescriptor::new("field", "Field containing measurement values", true));
        params.push(ToolParamDescriptor::new("time_field", "Field containing numeric time values", true));
        params.push(ToolParamDescriptor::new("spatial_variogram_json", "Fitted spatial variogram model as JSON", true));
        params.push(ToolParamDescriptor::new("temporal_variogram_json", "Fitted temporal variogram model as JSON", true));
        params.push(ToolParamDescriptor::new("template_raster", "Raster template defining output grid and CRS", true));
        params.push(ToolParamDescriptor::new("output", "Output kriged raster path", true));
        params.push(ToolParamDescriptor::new("prediction_time", "Target time value for prediction snapshot (default: mean training time)", false));
        params.push(ToolParamDescriptor::new("output_variance", "If true, write kriging variance raster alongside predictions", false));
        let mut tags: Vec<String> = Vec::new();
        tags.push(to_owned_string("geostatistics"));
        tags.push(to_owned_string("kriging"));
        tags.push(to_owned_string("raster"));
        tags.push(to_owned_string("interpolation"));
        tags.push(to_owned_string("spatiotemporal"));
        tags.push(to_owned_string("uncertainty"));
        let example = ToolExample {
            name: to_owned_string("spacetime_kriging_snapshot"),
            description: to_owned_string("Space-time kriging snapshot at a specific time with variance output."),
            args: example_args,
        };
        let mut examples: Vec<ToolExample> = Vec::new();
        examples.push(example);
        let r = ToolManifest {
            id: to_owned_string("spacetime_kriging"),
            display_name: to_owned_string("Space-Time Kriging"),
            summary: to_owned_string("Performs space-time kriging for spatially-distributed time series data. Requires separate fitted spatial and temporal variogram models."),
            category: ToolCategory::Raster,
            license_tier: LicenseTier::Open,
            params,
            defaults,
            examples,
            tags,
            stability: ToolStability::Stable,
        };
        assert(r@.params =~= spacetime_manifest_spec().params);
        assert(r@.examples =~= spacetime_manifest_spec().examples);
        assert(r@.tags =~= spacetime_manifest_spec().tags);
        r
    }
}

// ─────────────────────────────────────────────────────────────────────────────
// Argument checks and run decisions
// ─────────────────────────────────────────────────────────────────────────────

/// A character that separates the parts of a path.
pub open spec fn is_path_sep(c: char) -> bool {
    c == '/' || c == '\\'
}

/// The position of the dot that starts the file extension: the last `.`
/// of the path, when no separator follows it (a dot in a directory name
/// starts no extension).
pub open spec fn extension_dot(p: Seq<char>) -> Option<int> {
    match last_index_of(p, '.') {
        Some(i) => if forall|j: int| i < j < p.len() ==> !is_path_sep(#[trigger] p[j]) {
            Some(i)
        } else {
            None
        },
        None => None,
    }
}

/// The path of the variance raster: `_variance` inserted before the file
/// extension, or appended to the file name when it has none.
pub open spec fn variance_path_spec(p: Seq<char>) -> Seq<char> {
    match extension_dot(p) {
        Some(i) => p.subrange(0, i) + "_variance"@ + p.subrange(i, p.len() as int),
        None => p + "_variance"@,
    }
}

/// Whether a path separator stands at a position from `from` on.
fn separator_from(v: &Vec<char>, from: usize) -> (r: bool)
    requires
        from <= v.len(),
    ensures
        r <==> exists|j: int| from <= j < v.len() && is_path_sep(#[trigger] v@[j]),
{
    let mut k = from;
    while k < v.len()
        invariant
            from <= k <= v.len(),
            forall|j: int| from <= j < k ==> !is_path_sep(#[trigger] v@[j]),
        decreases v.len() - k,
    {
        if v[k] == '/' || v[k] == '\\' {
            return true;
        }
        k += 1;
    }
    false
}

/// The path of the variance raster written beside `output_path`.
pub fn derive_variance_path(output_path: &str) -> (r: String)
    ensures
        r@ == variance_path_spec(output_path@),
{
    let v = chars_of(output_path);
    let ext = match rfind_char(&v, '.') {
        Some(dot) => if separator_from(&v, dot + 1) {
            None
        } else {
            Some(dot)
        },
        None => None,
    };
    match ext {
        Some(dot) => {
            let mut s = string_from_range(&v, 0, dot);
            push_str(&mut s, "_variance");
            let rest = string_from_range(&v, dot, v.len());
            push_str(&mut s, rest.as_str());
            s
        },
        None => {
            let mut s = to_owned_string(output_path);
            push_str(&mut s, "_variance");
            s
        },
    }
}

/// The variogram model families.
#[derive(Clone, Copy, PartialEq, Eq, Debug, Structural)]
pub enum VariogramFamily {
    Spherical,
    Exponential,
    Gaussian,
}

/// The family a variogram JSON names; `exponential` when it names none.
pub open spec fn family_spec(name: Option<Seq<char>>) -> Option<VariogramFamily> {
    let n = match name {
        Some(s) => s,
        None => "exponential"@,
    };
    if n == "spherical"@ {
        Some(VariogramFamily::Spherical)
    } else if n == "exponential"@ {
        Some(VariogramFamily::Exponential)
    } else if n == "gaussian"@ {
        Some(VariogramFamily::Gaussian)
    } else {
        None
    }
}

/// Each of the names `spherical`, `exponential` and `gaussian` gives its
/// own family, every other name none, and naming no family gives the
/// exponential family, as naming it does.
pub proof fn law_family_names(n: Seq<char>)
    ensures
        family_spec(None) == Some(VariogramFamily::Exponential),
        family_spec(None) == family_spec(Some("exponential"@)),
        family_spec(Some(n)) == Some(VariogramFamily::Spherical) <==> n == "spherical"@,
        family_spec(Some(n)) == Some(VariogramFamily::Exponential) <==> n == "exponential"@,
        family_spec(Some(n)) == Some(VariogramFamily::Gaussian) <==> n == "gaussian"@,
        family_spec(Some(n)) is None <==> (n != "spherical"@ && n != "exponential"@ && n
            != "gaussian"@),
{
    reveal_strlit("spherical");
    reveal_strlit("exponential");
    reveal_strlit("gaussian");
    assert("spherical"@ != "exponential"@) by {
        assert("spherical"@[0] != "exponential"@[0]);
    }
    assert("spherical"@ != "gaussian"@) by {
        assert("spherical"@[0] != "gaussian"@[0]);
    }
    assert("exponential"@ != "gaussian"@) by {
        assert("exponential"@[0] != "gaussian"@[0]);
    }
}

/// The text of the error for an unknown variogram family.
pub open spec fn unknown_family_msg(name: Seq<char>) -> Seq<char> {
    "Unknown variogram family '"@ + name + "'"@
}

/// The variogram family named by the `family` entry of a variogram JSON
/// (`exponential` when absent); fails with "Unknown variogram family
/// '<name>'" for any other name.
pub fn variogram_family(name: Option<&str>) -> (r: Result<VariogramFamily, ToolError>)
    ensures
        match family_spec(
            match name {
                Some(s) => Some(s@),
                None => None,
            },
        ) {
            Some(f) => r == Ok::<VariogramFamily, ToolError>(f),
            None => r matches Err(e) && e@ == ToolErrorV::Execution(unknown_family_msg(name->0@)),
        },
{
    let n = match name {
        Some(s) => s,
        None => "exponential",
    };
    if str_eq(n, "spherical") {
        Ok(VariogramFamily::Spherical)
    } else if str_eq(n, "exponential") {
        Ok(VariogramFamily::Exponential)
    } else if str_eq(n, "gaussian") {
        Ok(VariogramFamily::Gaussian)
    } else {
        proof {
            reveal_strlit("exponential");
        }
        let mut m = to_owned_string("Unknown variogram family '");
        push_str(&mut m, n);
        push_str(&mut m, "'");
        Err(ToolError::Execution(m))
    }
}

/// The position of the first field named `name`.
pub open spec fn field_position(fields: Seq<FieldDefV>, name: Seq<char>) -> Option<int> {
    if exists|i: int| 0 <= i < fields.len() && (#[trigger] fields[i]).name == name {
        Some(
            choose|i: int|
                0 <= i < fields.len() && (#[trigger] fields[i]).name == name && forall|j: int|
                    0 <= j < i ==> (#[trigger] fields[j]).name != name,
        )
    } else {
        None
    }
}

/// The position of the first field of the layer named `name`.
fn find_field(layer: &Layer, name: &str) -> (r: Option<usize>)
    ensures
        match r {
            Some(i) => field_position(layer@.fields, name@) == Some(i as int),
            None => field_position(layer@.fields, name@) is None,
        },
{
    let ghost fs = layer@.fields;
    let mut k: usize = 0;
    while k < layer.fields.len()
        invariant
            k <= layer.fields.len(),
            fs == layer@.fields,
            fs.len() == layer.fields.len(),
            forall|j: int| 0 <= j < k ==> (#[trigger] fs[j]).name != name@,
        decreases layer.fields.len() - k,
    {
        assert(fs[k as int] == layer.fields@[k as int]@);
        if str_eq(layer.fields[k].name.as_str(), name) {
            assert(fs[k as int].name == name@);
            let ghost c = choose|i: int|
                0 <= i < fs.len() && (#[trigger] fs[i]).name == name@ && forall|j: int|
                    0 <= j < i ==> (#[trigger] fs[j]).name != name@;
            assert(c == k as int) by {
                if c < k {
                    assert(fs[c].name != name@);
                } else if c > k {
                    assert(fs[k as int].name != name@);
                }
            }
            return Some(k);
        }
        k += 1;
    }
    None
}

/// The text of the error for a missing value field.
pub open spec fn missing_field_msg(name: Seq<char>) -> Seq<char> {
    "field '"@ + name + "' does not exist"@
}

/// The text of the error for a missing time field.
pub open spec fn missing_time_field_msg(name: Seq<char>) -> Seq<char> {
    "time field '"@ + name + "' does not exist"@
}

/// The position of the field holding the values to interpolate: the first
/// one named `name`; fails with "field '<name>' does not exist" when the
/// layer has none.
pub fn value_field_index(layer: &Layer, name: &str) -> (r: Result<usize, ToolError>)
    ensures
        match field_position(layer@.fields, name@) {
            Some(i) => r == Ok::<usize, ToolError>(i as usize),
            None => r matches Err(e) && e@ == ToolErrorV::Validation(missing_field_msg(name@)),
        },
{
    match find_field(layer, name) {
        Some(i) => Ok(i),
        None => {
            let mut m = to_owned_string("field '");
            push_str(&mut m, name);
            push_str(&mut m, "' does not exist");
            Err(ToolError::Validation(m))
        },
    }
}

/// The position of the field holding the observation times: the first
/// one named `name`; fails with "time field '<name>' does not exist" when
/// the layer has none.
pub fn time_field_index(layer: &Layer, name: &str) -> (r: Result<usize, ToolError>)
    ensures
        match field_position(layer@.fields, name@) {
            Some(i) => r == Ok::<usize, ToolError>(i as usize),
            None => r matches Err(e) && e@ == ToolErrorV::Validation(missing_time_field_msg(name@)),
        },
{
    match find_field(layer, name) {
        Some(i) => Ok(i),
        None => {
            let mut m = to_owned_string("time field '");
            push_str(&mut m, name);
            push_str(&mut m, "' does not exist");
            Err(ToolError::Validation(m))
        },
    }
}

/// Kriging needs at least three training points; fails with "At least 3
/// training points required for kriging" otherwise.
pub fn check_training_points(count: usize) -> (r: Result<(), ToolError>)
    ensures
        count >= 3 ==> r is Ok,
        count < 3 ==> (r matches Err(e) && e@ == ToolErrorV::Execution(
            "At least 3 training points required for kriging"@,
        )),
{
    if count < 3 {
        Err(ToolError::Execution(to_owned_string("At least 3 training points required for kriging")))
    } else {
        Ok(())
    }
}

/// Space-time kriging needs at least four points with valid values and
/// times; fails with "At least 4 points with valid values and times
/// required, found <count>" otherwise.
pub fn check_spacetime_points(count: usize) -> (r: Result<(), ToolError>)
    ensures
        count >= 4 ==> r is Ok,
        count < 4 ==> (r matches Err(e) && e@ == ToolErrorV::Execution(
            "At least 4 points with valid values and times required, found "@ + decimal_digits(
                count as nat,
            ),
        )),
{
    if count < 4 {
        let mut m = to_owned_string("At least 4 points with valid values and times required, found ");
        let n = crate::text::u64_to_decimal(count as u64);
        push_str(&mut m, n.as_str());
        Err(ToolError::Execution(m))
    } else {
        Ok(())
    }
}

/// The polynomial trend order asked for: `trend_order` when it is a
/// non-negative integer, else 1.
pub open spec fn trend_order_spec(args: Seq<(Seq<char>, ArgValueV)>) -> u64 {
    match arg_lookup(args, "trend_order"@) {
        Some(v) => match arg_u64(v) {
            Some(n) => n,
            None => 1,
        },
        None => 1,
    }
}

/// The polynomial trend order asked for (see [`trend_order_spec`]).
pub fn trend_order(args: &ToolArgs) -> (r: u64)
    ensures
        r == trend_order_spec(args@),
{
    match args.get("trend_order") {
        Some(v) => match v.as_u64() {
            Some(n) => n,
            None => 1,
        },
        None => 1,
    }
}

/// The first failing check among the string arguments `keys`, in order.
pub open spec fn first_missing(args: Seq<(Seq<char>, ArgValueV)>, keys: Seq<Seq<char>>) -> Option<Seq<char>>
    decreases keys.len(),
{
    if keys.len() == 0 {
        None
    } else {
        match first_missing(args, keys.drop_last()) {
            Some(k) => Some(k),
            None => if string_arg(args, keys.last()) is None {
                Some(keys.last())
            } else {
                None
            },
        }
    }
}

/// Checks the string arguments `keys` in order; the first missing or
/// blank one fails with "parameter '<key>' is required".
pub fn require_string_args(args: &ToolArgs, keys: &Vec<&str>) -> (r: Result<(), ToolError>)
    ensures
        match first_missing(args@, keys@.map_values(|k: &str| k@)) {
            None => r is Ok,
            Some(k) => r matches Err(e) && e@ == ToolErrorV::Validation(required_msg(k)),
        },
{
    let ghost kv = keys@.map_values(|k: &str| k@);
    let mut i: usize = 0;
    while i < keys.len()
        invariant
            i <= keys.len(),
            kv == keys@.map_values(|k: &str| k@),
            first_missing(args@, kv.take(i as int)) is None,
        decreases keys.len() - i,
    {
        assert(kv.take(i + 1).drop_last() =~= kv.take(i as int));
        assert(kv.take(i + 1).last() == keys@[i as int]@);
        match parse_string_arg(args, keys[i]) {
            Ok(_) => {},
            Err(e) => {
                proof {
                    lemma_first_missing_prefix(args@, kv, i as int + 1);
                }
                return Err(e);
            },
        }
        i += 1;
    }
    assert(kv.take(kv.len() as int) =~= kv);
    Ok(())
}

/// Once a prefix of the keys has a missing one, all keys do, and it is the same.
proof fn lemma_first_missing_prefix(args: Seq<(Seq<char>, ArgValueV)>, keys: Seq<Seq<char>>, m: int)
    requires
        0 <= m <= keys.len(),
        first_missing(args, keys.take(m)) is Some,
    ensures
        first_missing(args, keys) == first_missing(args, keys.take(m)),
    decreases keys.len() - m,
{
    if m < keys.len() {
        lemma_first_missing_prefix_step(args, keys, m);
        lemma_first_missing_prefix(args, keys, m + 1);
    } else {
        assert(keys.take(m) =~= keys);
    }
}

proof fn lemma_first_missing_prefix_step(args: Seq<(Seq<char>, ArgValueV)>, keys: Seq<Seq<char>>, m: int)
    requires
        0 <= m < keys.len(),
        first_missing(args, keys.take(m)) is Some,
    ensures
        first_missing(args, keys.take(m + 1)) == first_missing(args, keys.take(m)),
{
    assert(keys.take(m + 1).drop_last() =~= keys.take(m));
}

/// The string arguments simple and universal kriging check, in order.
pub open spec fn kriging_string_keys() -> Seq<Seq<char>> {
    seq!["field"@, "variogram_json"@, "template_raster"@, "output"@]
}

/// The string arguments space-time kriging checks, in order.
pub open spec fn spacetime_string_keys() -> Seq<Seq<char>> {
    seq![
        "field"@,
        "time_field"@,
        "spatial_variogram_json"@,
        "temporal_variogram_json"@,
        "template_raster"@,
        "output"@,
    ]
}

/// The outcome of checking the string arguments `keys`.
pub open spec fn check_spec(args: Seq<(Seq<char>, ArgValueV)>, keys: Seq<Seq<char>>) -> Option<ToolErrorV> {
    match first_missing(args, keys) {
        Some(k) => Some(ToolErrorV::Validation(required_msg(k))),
        None => None,
    }
}

/// The error, if any, of a result without a value.
pub open spec fn err_of(r: Result<(), ToolError>) -> Option<ToolErrorV> {
    match r {
        Ok(()) => None,
        Err(e) => Some(e@),
    }
}

/// What a kriging run does once the training points are loaded: the
/// trimmed string arguments, and where the variance raster goes.
pub struct KrigingPlan {
    pub field: String,
    /// The time field (space-time kriging only).
    pub time_field: Option<String>,
    /// The variogram JSON (the spatial one for space-time kriging).
    pub variogram_json: String,
    /// The temporal variogram JSON (space-time kriging only).
    pub temporal_variogram_json: Option<String>,
    pub template_raster: String,
    pub output: String,
    /// The trend order (universal kriging only).
    pub trend_order: Option<u64>,
    /// Where the variance raster is written, when `output_variance` is set.
    pub variance_path: Option<String>,
}

/// The variance path of a run: set when `output_variance` is true.
pub open spec fn variance_plan(args: Seq<(Seq<char>, ArgValueV)>, output: Seq<char>) -> Option<Seq<char>> {
    let wanted = match arg_lookup(args, "output_variance"@) {
        Some(v) => match crate::tool::arg_bool(v) {
            Some(b) => b,
            None => false,
        },
        None => false,
    };
    if wanted {
        Some(variance_path_spec(output))
    } else {
        None
    }
}

/// The view of an optional string.
pub open spec fn opt_view(o: Option<String>) -> Option<Seq<char>> {
    match o {
        Some(s) => Some(s@),
        None => None,
    }
}

/// The variance path of a run whose output is `output`.
fn variance_for(args: &ToolArgs, output: &String) -> (r: Option<String>)
    ensures
        opt_view(r) == variance_plan(args@, output@),
{
    if parse_bool_arg(args, "output_variance", false) {
        Some(derive_variance_path(output.as_str()))
    } else {
        None
    }
}

impl SimpleKrigingTool {
    /// Checks the arguments after the training points have loaded:
    /// `field`, `variogram_json`, `template_raster` and `output` must be
    /// non-blank strings, checked in that order.
    pub fn validate_params(&self, args: &ToolArgs) -> (r: Result<(), ToolError>)
        ensures
            err_of(r) == check_spec(args@, kriging_string_keys()),
    {
        let keys = vec!["field", "variogram_json", "template_raster", "output"];
        assert(keys@.map_values(|k: &str| k@) =~= kriging_string_keys());
        require_string_args(args, &keys)
    }

    /// The path of the training points layer; see [`vector_path_arg`].
    pub fn training_points_path(&self, args: &ToolArgs) -> (r: Result<String, ToolError>)
        ensures
            match arg_lookup(args@, "training_points"@) {
                Some(ArgValueV::Str(s)) => r matches Ok(t) && t@ == trim_spec(s),
                _ => r matches Err(e) && e@ == ToolErrorV::Validation(required_msg("training_points"@)),
            },
    {
        vector_path_arg(args, "training_points")
    }

    /// The plan of a run once the training points have loaded; fails as
    /// [`SimpleKrigingTool::validate_params`] does.
    pub fn plan(&self, args: &ToolArgs) -> (r: Result<KrigingPlan, ToolError>)
        ensures
            r is Ok <==> check_spec(args@, kriging_string_keys()) is None,
            r matches Err(e) ==> Some(e@) == check_spec(args@, kriging_string_keys()),
            r matches Ok(p) ==> {
                &&& Some(p.field@) == string_arg(args@, "field"@)
                &&& p.time_field is None
                &&& Some(p.variogram_json@) == string_arg(args@, "variogram_json"@)
                &&& p.temporal_variogram_json is None
                &&& Some(p.template_raster@) == string_arg(args@, "template_raster"@)
                &&& Some(p.output@) == string_arg(args@, "output"@)
                &&& p.trend_order is None
                &&& opt_view(p.variance_path) == variance_plan(args@, p.output@)
            },
    {
        match self.validate_params(args) {
            Ok(()) => {},
            Err(e) => {
                return Err(e);
            },
        }
        proof {
            lemma_no_missing(args@, kriging_string_keys());
        }
        let field = unwrap_present(parse_string_arg(args, "field"));
        let variogram_json = unwrap_present(parse_string_arg(args, "variogram_json"));
        let template_raster = unwrap_present(parse_string_arg(args, "template_raster"));
        let output = unwrap_present(parse_string_arg(args, "output"));
        let variance_path = variance_for(args, &output);
        Ok(KrigingPlan {
            field,
            time_field: None,
            variogram_json,
            temporal_variogram_json: None,
            template_raster,
            output,
            trend_order: None,
            variance_path,
        })
    }
}

/// With no key missing, every key has a non-blank string.
proof fn lemma_no_missing(args: Seq<(Seq<char>, ArgValueV)>, keys: Seq<Seq<char>>)
    requires
        first_missing(args, keys) is None,
    ensures
        forall|i: int| 0 <= i < keys.len() ==> string_arg(args, #[trigger] keys[i]) is Some,
    decreases keys.len(),
{
    if keys.len() > 0 {
        lemma_no_missing(args, keys.drop_last());
        assert forall|i: int| 0 <= i < keys.len() implies string_arg(args, #[trigger] keys[i]) is Some by {
            if i < keys.len() - 1 {
                assert(keys.drop_last()[i] == keys[i]);
            }
        }
    }
}

/// The string of a string argument known to be there.
fn unwrap_present(r: Result<String, ToolError>) -> (s: String)
    requires
        r is Ok,
    ensures
        r == Ok::<String, ToolError>(s),
{
    match r {
        Ok(s) => s,
        Err(_) => to_owned_string(""),
    }
}

impl UniversalKrigingTool {
    /// Checks the arguments after the training points have loaded: the
    /// string arguments as simple kriging checks them, then `trend_order`
    /// (default 1) must be 1 or 2, else "trend_order must be 1 or 2".
    pub fn validate_params(&self, args: &ToolArgs) -> (r: Result<(), ToolError>)
        ensures
            err_of(r) == match check_spec(args@, kriging_string_keys()) {
                Some(e) => Some(e),
                None => if trend_order_spec(args@) != 1 && trend_order_spec(args@) != 2 {
                    Some(ToolErrorV::Validation("trend_order must be 1 or 2"@))
                } else {
                    None
                },
            },
    {
        let keys = vec!["field", "variogram_json", "template_raster", "output"];
        assert(keys@.map_values(|k: &str| k@) =~= kriging_string_keys());
        match require_string_args(args, &keys) {
            Ok(()) => {},
            Err(e) => {
                return Err(e);
            },
        }
        let order = trend_order(args);
        if order != 1 && order != 2 {
            return Err(ToolError::Validation(to_owned_string("trend_order must be 1 or 2")));
        }
        Ok(())
    }

    /// The path of the training points layer; see [`vector_path_arg`].
    pub fn training_points_path(&self, args: &ToolArgs) -> (r: Result<String, ToolError>)
        ensures
            match arg_lookup(args@, "training_points"@) {
                Some(ArgValueV::Str(s)) => r matches Ok(t) && t@ == trim_spec(s),
                _ => r matches Err(e) && e@ == ToolErrorV::Validation(required_msg("training_points"@)),
            },
    {
        vector_path_arg(args, "training_points")
    }

    /// The plan of a run once the training points have loaded.  The run
    /// reads the string arguments only, so a trend order above 2 is
    /// passed on here.
    pub fn plan(&self, args: &ToolArgs) -> (r: Result<KrigingPlan, ToolError>)
        ensures
            r is Ok <==> check_spec(args@, kriging_string_keys()) is None,
            r matches Err(e) ==> Some(e@) == check_spec(args@, kriging_string_keys()),
            r matches Ok(p) ==> {
                &&& Some(p.field@) == string_arg(args@, "field"@)
                &&& p.time_field is None
                &&& Some(p.variogram_json@) == string_arg(args@, "variogram_json"@)
                &&& p.temporal_variogram_json is None
                &&& Some(p.template_raster@) == string_arg(args@, "template_raster"@)
                &&& Some(p.output@) == string_arg(args@, "output"@)
                &&& p.trend_order == Some(trend_order_spec(args@))
                &&& opt_view(p.variance_path) == variance_plan(args@, p.output@)
            },
    {
        let keys = vec!["field", "variogram_json", "template_raster", "output"];
        assert(keys@.map_values(|k: &str| k@) =~= kriging_string_keys());
        match require_string_args(args, &keys) {
            Ok(()) => {},
            Err(e) => {
                return Err(e);
            },
        }
        proof {
            lemma_no_missing(args@, kriging_string_keys());
        }
        let field = unwrap_present(parse_string_arg(args, "field"));
        let variogram_json = unwrap_present(parse_string_arg(args, "variogram_json"));
        let template_raster = unwrap_present(parse_string_arg(args, "template_raster"));
        let output = unwrap_present(parse_string_arg(args, "output"));
        let variance_path = variance_for(args, &output);
        Ok(KrigingPlan {
            field,
            time_field: None,
            variogram_json,
            temporal_variogram_json: None,
            template_raster,
            output,
            trend_order: Some(trend_order(args)),
            variance_path,
        })
    }
}

impl SpaceTimeKrigingTool {
    /// Checks the arguments after the training points have loaded:
    /// `field`, `time_field`, `spatial_variogram_json`,
    /// `temporal_variogram_json`, `template_raster` and `output` must be
    /// non-blank strings, checked in that order.
    pub fn validate_params(&self, args: &ToolArgs) -> (r: Result<(), ToolError>)
        ensures
            err_of(r) == check_spec(args@, spacetime_string_keys()),
    {
        let keys = vec![
            "field",
            "time_field",
            "spatial_variogram_json",
            "temporal_variogram_json",
            "template_raster",
            "output",
        ];
        assert(keys@.map_values(|k: &str| k@) =~= spacetime_string_keys());
        require_string_args(args, &keys)
    }

    /// The path of the training points layer; see [`vector_path_arg`].
    pub fn training_points_path(&self, args: &ToolArgs) -> (r: Result<String, ToolError>)
        ensures
            match arg_lookup(args@, "training_points"@) {
                Some(ArgValueV::Str(s)) => r matches Ok(t) && t@ == trim_spec(s),
                _ => r matches Err(e) && e@ == ToolErrorV::Validation(required_msg("training_points"@)),
            },
    {
        vector_path_arg(args, "training_points")
    }

    /// The plan of a run once the training points have loaded; fails as
    /// [`SpaceTimeKrigingTool::validate_params`] does.
    pub fn plan(&self, args: &ToolArgs) -> (r: Result<KrigingPlan, ToolError>)
        ensures
            r is Ok <==> check_spec(args@, spacetime_string_keys()) is None,
            r matches Err(e) ==> Some(e@) == check_spec(args@, spacetime_string_keys()),
            r matches Ok(p) ==> {
                &&& Some(p.field@) == string_arg(args@, "field"@)
                &&& opt_view(p.time_field) == string_arg(args@, "time_field"@)
                &&& Some(p.variogram_json@) == string_arg(args@, "spatial_variogram_json"@)
                &&& opt_view(p.temporal_variogram_json) == string_arg(args@, "temporal_variogram_json"@)
                &&& Some(p.template_raster@) == string_arg(args@, "template_raster"@)
                &&& Some(p.output@) == string_arg(args@, "output"@)
                &&& p.trend_order is None
                &&& opt_view(p.variance_path) == variance_plan(args@, p.output@)
            },
    {
        match self.validate_params(args) {
            Ok(()) => {},
            Err(e) => {
                return Err(e);
            },
        }
        proof {
            lemma_no_missing(args@, spacetime_string_keys());
        }
        let field = unwrap_present(parse_string_arg(args, "field"));
        let time_field = unwrap_present(parse_string_arg(args, "time_field"));
        let variogram_json = unwrap_present(parse_string_arg(args, "spatial_variogram_json"));
        let temporal = unwrap_present(parse_string_arg(args, "temporal_variogram_json"));
        let template_raster = unwrap_present(parse_string_arg(args, "template_raster"));
        let output = unwrap_present(parse_string_arg(args, "output"));
        let variance_path = variance_for(args, &output);
        Ok(KrigingPlan {
            field,
            time_field: Some(time_field),
            variogram_json,
            temporal_variogram_json: Some(temporal),
            template_raster,
            output,
            trend_order: None,
            variance_path,
        })
    }
}

} // verus!
