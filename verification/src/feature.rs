//! Attribute fields, features and vector layers.

use crate::geometry::{Geometry, GeometryType, GeometryV};
use crate::sqlval::copy_bytes;
use vstd::prelude::*;

verus! {

/// The type of an attribute field.
#[derive(Clone, Copy, PartialEq, Eq, Debug, Structural)]
pub enum FieldType {
    Integer,
    Float,
    Text,
    Boolean,
    Blob,
    Date,
    DateTime,
}

/// The narrowest type that holds values of both types: a type widened
/// with itself stays; `Integer` and `Float` widen to `Float`; any other
/// mix widens to `Text`.
pub open spec fn widen(a: FieldType, b: FieldType) -> FieldType {
    if a == b {
        a
    } else if (a == FieldType::Integer && b == FieldType::Float) || (a == FieldType::Float && b
        == FieldType::Integer) {
        FieldType::Float
    } else {
        FieldType::Text
    }
}

/// A column of type `w` can hold a value of kind `a`: the same type, a
/// `Float` column for an integer, or a `Text` column for anything.
pub open spec fn holds(w: FieldType, a: FieldType) -> bool {
    w == a || (a == FieldType::Integer && w == FieldType::Float) || w == FieldType::Text
}

/// Widening does not depend on the order of the two types, gives a type
/// that holds both, and the narrowest such: any type holding both holds
/// the widened one.  Holding is transitive.
pub proof fn law_widen(a: FieldType, b: FieldType, w: FieldType)
    ensures
        widen(a, b) == widen(b, a),
        holds(widen(a, b), a),
        holds(widen(a, b), b),
        holds(w, a) && holds(w, b) ==> holds(w, widen(a, b)),
        holds(w, a) && holds(a, b) ==> holds(w, b),
{
}

/// See [`widen`].
pub fn widen_type(a: FieldType, b: FieldType) -> (r: FieldType)
    ensures
        r == widen(a, b),
{
    if a == b {
        a
    } else if (a == FieldType::Integer && b == FieldType::Float) || (a == FieldType::Float && b
        == FieldType::Integer) {
        FieldType::Float
    } else {
        FieldType::Text
    }
}

/// One attribute value.
#[derive(Debug)]
pub enum FieldValue {
    Null,
    Integer(i64),
    /// An IEEE-754 double held by its bit pattern.
    Float(u64),
    Text(String),
    Boolean(bool),
    Blob(Vec<u8>),
    Date(String),
    DateTime(String),
}

/// The mathematical value of an attribute value.
pub enum FieldValueV {
    Null,
    Integer(i64),
    Float(u64),
    Text(Seq<char>),
    Boolean(bool),
    Blob(Seq<u8>),
    Date(Seq<char>),
    DateTime(Seq<char>),
}

impl View for FieldValue {
    type V = FieldValueV;

    open spec fn view(&self) -> FieldValueV {
        match self {
            FieldValue::Null => FieldValueV::Null,
            FieldValue::Integer(n) => FieldValueV::Integer(*n),
            FieldValue::Float(b) => FieldValueV::Float(*b),
            FieldValue::Text(s) => FieldValueV::Text(s@),
            FieldValue::Boolean(b) => FieldValueV::Boolean(*b),
            FieldValue::Blob(b) => FieldValueV::Blob(b@),
            FieldValue::Date(s) => FieldValueV::Date(s@),
            FieldValue::DateTime(s) => FieldValueV::DateTime(s@),
        }
    }
}

/// The views of a list of attribute values.
pub open spec fn values_view(v: Seq<FieldValue>) -> Seq<FieldValueV> {
    v.map_values(|x: FieldValue| x@)
}

impl FieldValue {
    /// A copy of this value.
    pub fn copy(&self) -> (r: FieldValue)
        ensures
            r@ == self@,
    {
        match self {
            FieldValue::Null => FieldValue::Null,
            FieldValue::Integer(n) => FieldValue::Integer(*n),
            FieldValue::Float(b) => FieldValue::Float(*b),
            FieldValue::Text(s) => FieldValue::Text(s.clone()),
            FieldValue::Boolean(b) => FieldValue::Boolean(*b),
            FieldValue::Blob(b) => FieldValue::Blob(copy_bytes(b)),
            FieldValue::Date(s) => FieldValue::Date(s.clone()),
            FieldValue::DateTime(s) => FieldValue::DateTime(s.clone()),
        }
    }

    /// The integer held by an `Integer` value.
    pub fn as_i64(&self) -> (r: Option<i64>)
        ensures
            r == (match self@ {
                FieldValueV::Integer(n) => Some(n),
                _ => None,
            }),
    {
        match self {
            FieldValue::Integer(n) => Some(*n),
            _ => None,
        }
    }

    /// The text held by a `Text`, `Date` or `DateTime` value.
    pub fn as_str(&self) -> (r: Option<&str>)
        ensures
            r is Some <==> (self@ is Text || self@ is Date || self@ is DateTime),
            r matches Some(s) ==> (self@ == FieldValueV::Text(s@) || self@ == FieldValueV::Date(
                s@,
            ) || self@ == FieldValueV::DateTime(s@)),
    {
        match self {
            FieldValue::Text(s) => Some(s.as_str()),
            FieldValue::Date(s) => Some(s.as_str()),
            FieldValue::DateTime(s) => Some(s.as_str()),
            _ => None,
        }
    }
}

/// The definition of one attribute field.
#[derive(Debug)]
pub struct FieldDef {
    pub name: String,
    pub field_type: FieldType,
}

/// The mathematical value of a field definition.
pub struct FieldDefV {
    pub name: Seq<char>,
    pub field_type: FieldType,
}

impl View for FieldDef {
    type V = FieldDefV;

    open spec fn view(&self) -> FieldDefV {
        FieldDefV { name: self.name@, field_type: self.field_type }
    }
}

/// The views of a list of field definitions.
pub open spec fn fields_view(v: Seq<FieldDef>) -> Seq<FieldDefV> {
    v.map_values(|f: FieldDef| f@)
}

impl FieldDef {
    /// A field definition.
    pub fn new(name: &str, field_type: FieldType) -> (r: FieldDef)
        ensures
            r@ == (FieldDefV { name: name@, field_type }),
    {
        FieldDef { name: crate::text::to_owned_string(name), field_type }
    }

    /// A copy of this definition.
    pub fn copy(&self) -> (r: FieldDef)
        ensures
            r@ == self@,
    {
        FieldDef { name: self.name.clone(), field_type: self.field_type }
    }
}

/// One feature: its id, optional geometry and attribute values.
#[derive(Debug)]
pub struct Feature {
    pub fid: u64,
    pub geometry: Option<Geometry>,
    pub attributes: Vec<FieldValue>,
}

/// The mathematical value of a feature.
pub struct FeatureV {
    pub fid: u64,
    pub geometry: Option<GeometryV>,
    pub attributes: Seq<FieldValueV>,
}

/// The view of an optional geometry.
pub open spec fn opt_geometry_view(g: Option<Geometry>) -> Option<GeometryV> {
    match g {
        Some(x) => Some(x@),
        None => None,
    }
}

impl View for Feature {
    type V = FeatureV;

    open spec fn view(&self) -> FeatureV {
        FeatureV {
            fid: self.fid,
            geometry: opt_geometry_view(self.geometry),
            attributes: values_view(self.attributes@),
        }
    }
}

/// The views of a list of features.
pub open spec fn features_view(v: Seq<Feature>) -> Seq<FeatureV> {
    v.map_values(|f: Feature| f@)
}

/// A vector layer: name, geometry kind, CRS, field schema and features.
#[derive(Debug)]
pub struct Layer {
    pub name: String,
    pub geom_type: Option<GeometryType>,
    pub crs_epsg: Option<u32>,
    pub crs_wkt: Option<String>,
    pub fields: Vec<FieldDef>,
    pub features: Vec<Feature>,
}

/// The mathematical value of a layer.
pub struct LayerV {
    pub name: Seq<char>,
    pub geom_type: Option<GeometryType>,
    pub crs_epsg: Option<u32>,
    pub crs_wkt: Option<Seq<char>>,
    pub fields: Seq<FieldDefV>,
    pub features: Seq<FeatureV>,
}

/// The view of an optional string.
pub open spec fn opt_string_view(s: Option<String>) -> Option<Seq<char>> {
    match s {
        Some(x) => Some(x@),
        None => None,
    }
}

impl View for Layer {
    type V = LayerV;

    open spec fn view(&self) -> LayerV {
        LayerV {
            name: self.name@,
            geom_type: self.geom_type,
            crs_epsg: self.crs_epsg,
            crs_wkt: opt_string_view(self.crs_wkt),
            fields: fields_view(self.fields@),
            features: features_view(self.features@),
        }
    }
}

impl Layer {
    /// An empty layer without CRS, geometry kind or fields.
    pub fn new(name: &str) -> (r: Layer)
        ensures
            r@ == (LayerV {
                name: name@,
                geom_type: None,
                crs_epsg: None,
                crs_wkt: None,
                fields: Seq::empty(),
                features: Seq::empty(),
            }),
    {
        let r = Layer {
            name: crate::text::to_owned_string(name),
            geom_type: None,
            crs_epsg: None,
            crs_wkt: None,
            fields: Vec::new(),
            features: Vec::new(),
        };
        assert(r@.fields =~= Seq::<FieldDefV>::empty());
        assert(r@.features =~= Seq::<FeatureV>::empty());
        r
    }

    /// Appends a field definition.
    pub fn add_field(&mut self, f: FieldDef)
        ensures
            final(self)@ == (LayerV { fields: old(self)@.fields.push(f@), ..old(self)@ }),
    {
        self.fields.push(f);
        assert(final(self)@.fields =~= old(self)@.fields.push(f@));
    }

    /// Appends a feature.
    pub fn push(&mut self, f: Feature)
        ensures
            final(self)@ == (LayerV { features: old(self)@.features.push(f@), ..old(self)@ }),
    {
        self.features.push(f);
        assert(final(self)@.features =~= old(self)@.features.push(f@));
    }

    /// The number of features.
    pub fn len(&self) -> (r: usize)
        ensures
            r == self@.features.len(),
    {
        self.features.len()
    }
}

} // verus!
