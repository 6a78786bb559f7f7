//! The tool framework: license tiers, tool errors, argument maps, and the
//! metadata and manifests that describe a tool.

use crate::text::{push_str, str_eq, to_owned_string, trim, trim_spec};
use vstd::prelude::*;

verus! {

/// The license tier a tool needs, ordered `Open < Pro < Enterprise`.
#[derive(Clone, Copy, PartialEq, Eq, Debug, Structural)]
pub enum LicenseTier {
    Open,
    Pro,
    Enterprise,
}

/// The position of a tier in the order `Open < Pro < Enterprise`.
pub open spec fn tier_rank(t: LicenseTier) -> int {
    match t {
        LicenseTier::Open => 0,
        LicenseTier::Pro => 1,
        LicenseTier::Enterprise => 2,
    }
}

/// Whether tier `a` is above tier `b`.
pub fn tier_above(a: LicenseTier, b: LicenseTier) -> (r: bool)
    ensures
        r == (tier_rank(a) > tier_rank(b)),
{
    let ra: u8 = match a {
        LicenseTier::Open => 0,
        LicenseTier::Pro => 1,
        LicenseTier::Enterprise => 2,
    };
    let rb: u8 = match b {
        LicenseTier::Open => 0,
        LicenseTier::Pro => 1,
        LicenseTier::Enterprise => 2,
    };
    ra > rb
}

/// Why a tool request failed.
#[derive(Debug)]
pub enum ToolError {
    Validation(String),
    NotFound(String),
    InvalidRequest(String),
    LicenseDenied(String),
    Execution(String),
}

/// The mathematical value of a tool error.
pub enum ToolErrorV {
    Validation(Seq<char>),
    NotFound(Seq<char>),
    InvalidRequest(Seq<char>),
    LicenseDenied(Seq<char>),
    Execution(Seq<char>),
}

impl View for ToolError {
    type V = ToolErrorV;

    open spec fn view(&self) -> ToolErrorV {
        match self {
            ToolError::Validation(s) => ToolErrorV::Validation(s@),
            ToolError::NotFound(s) => ToolErrorV::NotFound(s@),
            ToolError::InvalidRequest(s) => ToolErrorV::InvalidRequest(s@),
            ToolError::LicenseDenied(s) => ToolErrorV::LicenseDenied(s@),
            ToolError::Execution(s) => ToolErrorV::Execution(s@),
        }
    }
}

/// A tool argument: a JSON value.  Numbers keep the three kinds JSON
/// numbers are read as; a float is held by its IEEE-754 bit pattern; an
/// array or object is held as its JSON text.
#[derive(Debug)]
pub enum ArgValue {
    Null,
    Bool(bool),
    PosInt(u64),
    NegInt(i64),
    Float(u64),
    Str(String),
    Other(String),
}

/// The mathematical value of a tool argument.
pub enum ArgValueV {
    Null,
    Bool(bool),
    PosInt(u64),
    NegInt(i64),
    Float(u64),
    Str(Seq<char>),
    Other(Seq<char>),
}

impl View for ArgValue {
    type V = ArgValueV;

    open spec fn view(&self) -> ArgValueV {
        match self {
            ArgValue::Null => ArgValueV::Null,
            ArgValue::Bool(b) => ArgValueV::Bool(*b),
            ArgValue::PosInt(n) => ArgValueV::PosInt(*n),
            ArgValue::NegInt(n) => ArgValueV::NegInt(*n),
            ArgValue::Float(b) => ArgValueV::Float(*b),
            ArgValue::Str(s) => ArgValueV::Str(s@),
            ArgValue::Other(s) => ArgValueV::Other(s@),
        }
    }
}

/// The string of a string value.
pub open spec fn arg_str(v: ArgValueV) -> Option<Seq<char>> {
    match v {
        ArgValueV::Str(s) => Some(s),
        _ => None,
    }
}

/// The unsigned integer a value reads as: a non-negative integer.
pub open spec fn arg_u64(v: ArgValueV) -> Option<u64> {
    match v {
        ArgValueV::PosInt(n) => Some(n),
        _ => None,
    }
}

/// The signed integer a value reads as: an integer that fits `i64`.
pub open spec fn arg_i64(v: ArgValueV) -> Option<i64> {
    match v {
        ArgValueV::PosInt(n) => if n <= i64::MAX {
            Some(n as i64)
        } else {
            None
        },
        ArgValueV::NegInt(n) => Some(n),
        _ => None,
    }
}

/// The boolean of a boolean value.
pub open spec fn arg_bool(v: ArgValueV) -> Option<bool> {
    match v {
        ArgValueV::Bool(b) => Some(b),
        _ => None,
    }
}

impl ArgValue {
    /// A copy of this value.
    pub fn copy(&self) -> (r: ArgValue)
        ensures
            r@ == self@,
    {
        match self {
            ArgValue::Null => ArgValue::Null,
            ArgValue::Bool(b) => ArgValue::Bool(*b),
            ArgValue::PosInt(n) => ArgValue::PosInt(*n),
            ArgValue::NegInt(n) => ArgValue::NegInt(*n),
            ArgValue::Float(b) => ArgValue::Float(*b),
            ArgValue::Str(s) => ArgValue::Str(s.clone()),
            ArgValue::Other(s) => ArgValue::Other(s.clone()),
        }
    }

    /// The string of a string value.
    pub fn as_str(&self) -> (r: Option<&str>)
        ensures
            match r {
                Some(s) => arg_str(self@) == Some(s@),
                None => arg_str(self@) is None,
            },
    {
        match self {
            ArgValue::Str(s) => Some(s.as_str()),
            _ => None,
        }
    }

    /// The value as a non-negative integer.
    pub fn as_u64(&self) -> (r: Option<u64>)
        ensures
            r == arg_u64(self@),
    {
        match self {
            ArgValue::PosInt(n) => Some(*n),
            _ => None,
        }
    }

    /// The value as a signed integer.
    pub fn as_i64(&self) -> (r: Option<i64>)
        ensures
            r == arg_i64(self@),
    {
        match self {
            ArgValue::PosInt(n) => if *n <= 0x7fff_ffff_ffff_ffffu64 {
                Some(*n as i64)
            } else {
                None
            },
            ArgValue::NegInt(n) => Some(*n),
            _ => None,
        }
    }

    /// The boolean of a boolean value.
    pub fn as_bool(&self) -> (r: Option<bool>)
        ensures
            r == arg_bool(self@),
    {
        match self {
            ArgValue::Bool(b) => Some(*b),
            _ => None,
        }
    }
}

/// Named tool arguments.  Each key occurs at most once.
pub struct ToolArgs {
    entries: Vec<(String, ArgValue)>,
}

/// The position of `key` in a list of entries.
pub open spec fn arg_index(s: Seq<(Seq<char>, ArgValueV)>, key: Seq<char>) -> Option<int>
    decreases s.len(),
{
    if s.len() == 0 {
        None
    } else {
        match arg_index(s.drop_last(), key) {
            Some(i) => Some(i),
            None => if s.last().0 == key {
                Some(s.len() - 1)
            } else {
                None
            },
        }
    }
}

/// The value stored under `key`.
pub open spec fn arg_lookup(s: Seq<(Seq<char>, ArgValueV)>, key: Seq<char>) -> Option<ArgValueV> {
    match arg_index(s, key) {
        Some(i) => Some(s[i].1),
        None => None,
    }
}

/// The entries after storing `v` under `key`: an existing entry is
/// replaced in place, a new key goes last.
pub open spec fn arg_insert(s: Seq<(Seq<char>, ArgValueV)>, key: Seq<char>, v: ArgValueV) -> Seq<
    (Seq<char>, ArgValueV),
> {
    match arg_index(s, key) {
        Some(i) => s.update(i, (key, v)),
        None => s.push((key, v)),
    }
}

/// `arg_index` finds the first entry with the key.
pub proof fn lemma_arg_index(s: Seq<(Seq<char>, ArgValueV)>, key: Seq<char>)
    ensures
        match arg_index(s, key) {
            Some(i) => 0 <= i < s.len() && s[i].0 == key && forall|j: int|
                0 <= j < i ==> (#[trigger] s[j]).0 != key,
            None => forall|j: int| 0 <= j < s.len() ==> (#[trigger] s[j]).0 != key,
        },
    decreases s.len(),
{
    if s.len() > 0 {
        lemma_arg_index(s.drop_last(), key);
        assert forall|j: int| 0 <= j < s.len() - 1 implies s.drop_last()[j] == s[j] by {}
    }
}

/// Reading an argument gives back what was last stored under its key, and
/// storing under one key leaves the others as they were.
pub proof fn law_arg_insert_lookup(
    s: Seq<(Seq<char>, ArgValueV)>,
    key: Seq<char>,
    v: ArgValueV,
    other: Seq<char>,
)
    ensures
        arg_lookup(arg_insert(s, key, v), key) == Some(v),
        other != key ==> arg_lookup(arg_insert(s, key, v), other) == arg_lookup(s, other),
{
    let e = arg_insert(s, key, v);
    lemma_arg_index(s, key);
    lemma_arg_index(e, key);
    lemma_arg_index(s, other);
    lemma_arg_index(e, other);
    match arg_index(e, key) {
        Some(i) => {
            match arg_index(s, key) {
                Some(k) => {
                    if i < k {
                        assert(e[i] == s[i]);
                    } else if i > k {
                        assert(e[k].0 == key);
                    }
                },
                None => {
                    if i < s.len() {
                        assert(e[i] == s[i]);
                    }
                },
            }
        },
        None => {
            match arg_index(s, key) {
                Some(k) => {
                    assert(e[k].0 == key);
                },
                None => {
                    assert(e[s.len() as int].0 == key);
                },
            }
        },
    }
    if other != key {
        match arg_index(s, other) {
            Some(i) => {
                assert(e[i] == s[i]) by {
                    match arg_index(s, key) {
                        Some(k) => {
                            assert(k != i);
                        },
                        None => {},
                    }
                }
                match arg_index(e, other) {
                    Some(j) => {
                        if j < i {
                            if j < s.len() {
                                assert(e[j].0 == other);
                                match arg_index(s, key) {
                                    Some(k) => {
                                        if j == k {
                                            assert(e[j].0 == key);
                                        } else {
                                            assert(e[j] == s[j]);
                                        }
                                    },
                                    None => {
                                        assert(e[j] == s[j]);
                                    },
                                }
                            }
                        }
                    },
                    None => {
                        assert(e[i].0 == other);
                    },
                }
            },
            None => {
                match arg_index(e, other) {
                    Some(j) => {
                        match arg_index(s, key) {
                            Some(k) => {
                                if j == k {
                                    assert(e[j].0 == key);
                                } else {
                                    assert(e[j] == s[j]);
                                }
                            },
                            None => {
                                if j < s.len() {
                                    assert(e[j] == s[j]);
                                } else {
                                    assert(e[j].0 == key);
                                }
                            },
                        }
                    },
                    None => {},
                }
            },
        }
    }
}

impl View for ToolArgs {
    type V = Seq<(Seq<char>, ArgValueV)>;

    closed spec fn view(&self) -> Seq<(Seq<char>, ArgValueV)> {
        self.entries@.map_values(|e: (String, ArgValue)| (e.0@, e.1@))
    }
}

impl ToolArgs {
    /// No arguments.
    pub fn new() -> (r: ToolArgs)
        ensures
            r@ == Seq::<(Seq<char>, ArgValueV)>::empty(),
    {
        let r = ToolArgs { entries: Vec::new() };
        assert(r@ =~= Seq::<(Seq<char>, ArgValueV)>::empty());
        r
    }

    /// The position of `key`.
    fn index_of(&self, key: &str) -> (r: Option<usize>)
        ensures
            match r {
                Some(i) => arg_index(self@, key@) == Some(i as int) && i < self.entries.len(),
                None => arg_index(self@, key@) is None,
            },
    {
        let ghost v = self@;
        proof {
            lemma_arg_index(v, key@);
        }
        let mut i: usize = 0;
        while i < self.entries.len()
            invariant
                i <= self.entries.len(),
                v == self@,
                forall|j: int| 0 <= j < i ==> (#[trigger] v[j]).0 != key@,
                match arg_index(v, key@) {
                    Some(k) => 0 <= k < v.len() && v[k].0 == key@ && forall|j: int|
                        0 <= j < k ==> (#[trigger] v[j]).0 != key@,
                    None => forall|j: int| 0 <= j < v.len() ==> (#[trigger] v[j]).0 != key@,
                },
            decreases self.entries.len() - i,
        {
            assert(v[i as int] == (self.entries@[i as int].0@, self.entries@[i as int].1@));
            if str_eq(self.entries[i].0.as_str(), key) {
                assert(arg_index(v, key@) == Some(i as int));
                return Some(i);
            }
            i += 1;
        }
        None
    }

    /// The value stored under `key`.
    pub fn get(&self, key: &str) -> (r: Option<&ArgValue>)
        ensures
            match r {
                Some(v) => arg_lookup(self@, key@) == Some(v@),
                None => arg_lookup(self@, key@) is None,
            },
    {
        match self.index_of(key) {
            Some(i) => {
                assert(self@[i as int] == (self.entries@[i as int].0@, self.entries@[i as int].1@));
                Some(&self.entries[i].1)
            },
            None => None,
        }
    }

    /// Stores `v` under `key`, replacing what was there.
    pub fn insert(&mut self, key: String, v: ArgValue)
        ensures
            final(self)@ == arg_insert(old(self)@, key@, v@),
    {
        let ghost o = self@;
        let ghost kv = (key@, v@);
        match self.index_of(key.as_str()) {
            Some(i) => {
                self.entries.set(i, (key, v));
                assert(self@ =~= o.update(i as int, kv));
            },
            None => {
                self.entries.push((key, v));
                assert(self@ =~= o.push(kv));
            },
        }
    }

    /// The number of arguments.
    pub fn len(&self) -> (r: usize)
        ensures
            r == self@.len(),
    {
        self.entries.len()
    }

    /// A copy of these arguments.
    pub fn copy(&self) -> (r: ToolArgs)
        ensures
            r@ == self@,
    {
        let mut out: Vec<(String, ArgValue)> = Vec::new();
        let mut i: usize = 0;
        while i < self.entries.len()
            invariant
                i <= self.entries.len(),
                out@.map_values(|e: (String, ArgValue)| (e.0@, e.1@)) == self@.take(i as int),
            decreases self.entries.len() - i,
        {
            let e = (self.entries[i].0.clone(), self.entries[i].1.copy());
            let ghost prev = out@;
            out.push(e);
            assert(self@[i as int] == (self.entries@[i as int].0@, self.entries@[i as int].1@));
            assert(out@.map_values(|e: (String, ArgValue)| (e.0@, e.1@)) =~= prev.map_values(
                |e: (String, ArgValue)| (e.0@, e.1@),
            ).push((e.0@, e.1@)));
            assert(self@.take(i + 1) =~= self@.take(i as int).push(self@[i as int]));
            i += 1;
        }
        assert(self@.take(self@.len() as int) =~= self@);
        ToolArgs { entries: out }
    }

    /// The key and value at position `i`.
    pub fn entry(&self, i: usize) -> (r: (&String, &ArgValue))
        requires
            i < self@.len(),
        ensures
            (r.0@, r.1@) == self@[i as int],
    {
        (&self.entries[i].0, &self.entries[i].1)
    }
}

/// The text of the error for a missing required parameter.
pub open spec fn required_msg(key: Seq<char>) -> Seq<char> {
    "parameter '"@ + key + "' is required"@
}

/// The error for a missing required parameter.
pub fn required_error(key: &str) -> (r: ToolError)
    ensures
        r@ == ToolErrorV::Validation(required_msg(key@)),
{
    let mut m = to_owned_string("parameter '");
    push_str(&mut m, key);
    push_str(&mut m, "' is required");
    ToolError::Validation(m)
}

/// The trimmed text of a string argument that is not blank.
pub open spec fn string_arg(args: Seq<(Seq<char>, ArgValueV)>, key: Seq<char>) -> Option<Seq<char>> {
    match arg_lookup(args, key) {
        Some(v) => match arg_str(v) {
            Some(s) => if trim_spec(s).len() > 0 {
                Some(trim_spec(s))
            } else {
                None
            },
            None => None,
        },
        None => None,
    }
}

/// The trimmed text of the string argument `key`; fails with
/// "parameter '<key>' is required" when it is missing, not a string or
/// blank.
pub fn parse_string_arg(args: &ToolArgs, key: &str) -> (r: Result<String, ToolError>)
    ensures
        match string_arg(args@, key@) {
            Some(s) => r matches Ok(t) && t@ == s,
            None => r matches Err(e) && e@ == ToolErrorV::Validation(required_msg(key@)),
        },
{
    match args.get(key) {
        Some(v) => match v.as_str() {
            Some(s) => {
                let t = trim(s);
                if crate::text::chars_of(t.as_str()).len() > 0 {
                    Ok(t)
                } else {
                    Err(required_error(key))
                }
            },
            None => Err(required_error(key)),
        },
        None => Err(required_error(key)),
    }
}

/// The trimmed text of the string argument `key`, when it is given and
/// not blank.
pub fn parse_optional_string_arg(args: &ToolArgs, key: &str) -> (r: Result<Option<String>, ToolError>)
    ensures
        r matches Ok(o) && match string_arg(args@, key@) {
            Some(s) => o matches Some(t) && t@ == s,
            None => o is None,
        },
{
    match parse_string_arg(args, key) {
        Ok(s) => Ok(Some(s)),
        Err(_) => Ok(None),
    }
}

/// The boolean argument `key`, or `default` when it is missing or not a
/// boolean.
pub fn parse_bool_arg(args: &ToolArgs, key: &str, default: bool) -> (r: bool)
    ensures
        r == match arg_lookup(args@, key@) {
            Some(v) => match arg_bool(v) {
                Some(b) => b,
                None => default,
            },
            None => default,
        },
{
    match args.get(key) {
        Some(v) => match v.as_bool() {
            Some(b) => b,
            None => default,
        },
        None => default,
    }
}

/// The integer argument `key`, when it is an integer that fits `i64`.
pub fn parse_optional_i64_arg(args: &ToolArgs, key: &str) -> (r: Option<i64>)
    ensures
        r == match arg_lookup(args@, key@) {
            Some(v) => arg_i64(v),
            None => None,
        },
{
    match args.get(key) {
        Some(v) => v.as_i64(),
        None => None,
    }
}

/// The trimmed path of the vector argument `key`; fails with "parameter
/// '<key>' is required" when it is missing or not a string.  A blank path
/// is passed on: loading it is what fails.
pub fn vector_path_arg(args: &ToolArgs, key: &str) -> (r: Result<String, ToolError>)
    ensures
        match arg_lookup(args@, key@) {
            Some(ArgValueV::Str(s)) => r matches Ok(t) && t@ == trim_spec(s),
            _ => r matches Err(e) && e@ == ToolErrorV::Validation(required_msg(key@)),
        },
{
    match args.get(key) {
        Some(v) => match v.as_str() {
            Some(s) => Ok(trim(s)),
            None => Err(required_error(key)),
        },
        None => Err(required_error(key)),
    }
}


/// The kind of data a tool works on.
#[derive(Clone, Copy, PartialEq, Eq, Debug, Structural)]
pub enum ToolCategory {
    Raster,
}

/// How settled a tool's interface is.
#[derive(Clone, Copy, PartialEq, Eq, Debug, Structural)]
pub enum ToolStability {
    Stable,
}

/// One parameter of a tool, as its metadata lists it.
pub struct ToolParamSpec {
    pub name: String,
    pub description: String,
    pub required: bool,
}

/// One parameter of a tool, as its manifest lists it.
pub struct ToolParamDescriptor {
    pub name: String,
    pub description: String,
    pub required: bool,
}

/// The mathematical value of a parameter description.
pub struct ParamV {
    pub name: Seq<char>,
    pub description: Seq<char>,
    pub required: bool,
}

impl View for ToolParamSpec {
    type V = ParamV;

    open spec fn view(&self) -> ParamV {
        ParamV { name: self.name@, description: self.description@, required: self.required }
    }
}

impl View for ToolParamDescriptor {
    type V = ParamV;

    open spec fn view(&self) -> ParamV {
        ParamV { name: self.name@, description: self.description@, required: self.required }
    }
}

impl ToolParamSpec {
    /// A parameter description.
    pub fn new(name: &str, description: &str, required: bool) -> (r: ToolParamSpec)
        ensures
            r@ == (ParamV { name: name@, description: description@, required }),
    {
        ToolParamSpec { name: to_owned_string(name), description: to_owned_string(description), required }
    }
}

impl ToolParamDescriptor {
    /// A parameter description.
    pub fn new(name: &str, description: &str, required: bool) -> (r: ToolParamDescriptor)
        ensures
            r@ == (ParamV { name: name@, description: description@, required }),
    {
        ToolParamDescriptor {
            name: to_owned_string(name),
            description: to_owned_string(description),
            required,
        }
    }

    /// A copy of this description.
    pub fn copy(&self) -> (r: ToolParamDescriptor)
        ensures
            r@ == self@,
    {
        ToolParamDescriptor {
            name: self.name.clone(),
            description: self.description.clone(),
            required: self.required,
        }
    }
}

/// What a tool is: its id, names, tier and parameters.
pub struct ToolMetadata {
    pub id: String,
    pub display_name: String,
    pub summary: String,
    pub category: ToolCategory,
    pub license_tier: LicenseTier,
    pub params: Vec<ToolParamSpec>,
}

/// The mathematical value of tool metadata.
pub struct ToolMetadataV {
    pub id: Seq<char>,
    pub display_name: Seq<char>,
    pub summary: Seq<char>,
    pub category: ToolCategory,
    pub license_tier: LicenseTier,
    pub params: Seq<ParamV>,
}

impl View for ToolMetadata {
    type V = ToolMetadataV;

    open spec fn view(&self) -> ToolMetadataV {
        ToolMetadataV {
            id: self.id@,
            display_name: self.display_name@,
            summary: self.summary@,
            category: self.category,
            license_tier: self.license_tier,
            params: self.params@.map_values(|p: ToolParamSpec| p@),
        }
    }
}

/// A worked example of a tool call.
pub struct ToolExample {
    pub name: String,
    pub description: String,
    pub args: ToolArgs,
}

/// The mathematical value of an example.
pub struct ToolExampleV {
    pub name: Seq<char>,
    pub description: Seq<char>,
    pub args: Seq<(Seq<char>, ArgValueV)>,
}

impl View for ToolExample {
    type V = ToolExampleV;

    open spec fn view(&self) -> ToolExampleV {
        ToolExampleV { name: self.name@, description: self.description@, args: self.args@ }
    }
}

/// The full description of a tool that catalogs show: metadata, default
/// arguments, examples and tags.
pub struct ToolManifest {
    pub id: String,
    pub display_name: String,
    pub summary: String,
    pub category: ToolCategory,
    pub license_tier: LicenseTier,
    pub params: Vec<ToolParamDescriptor>,
    pub defaults: ToolArgs,
    pub examples: Vec<ToolExample>,
    pub tags: Vec<String>,
    pub stability: ToolStability,
}

/// The mathematical value of a manifest.
pub struct ToolManifestV {
    pub id: Seq<char>,
    pub display_name: Seq<char>,
    pub summary: Seq<char>,
    pub category: ToolCategory,
    pub license_tier: LicenseTier,
    pub params: Seq<ParamV>,
    pub defaults: Seq<(Seq<char>, ArgValueV)>,
    pub examples: Seq<ToolExampleV>,
    pub tags: Seq<Seq<char>>,
    pub stability: ToolStability,
}

impl View for ToolManifest {
    type V = ToolManifestV;

    open spec fn view(&self) -> ToolManifestV {
        ToolManifestV {
            id: self.id@,
            display_name: self.display_name@,
            summary: self.summary@,
            category: self.category,
            license_tier: self.license_tier,
            params: self.params@.map_values(|p: ToolParamDescriptor| p@),
            defaults: self.defaults@,
            examples: self.examples@.map_values(|e: ToolExample| e@),
            tags: self.tags@.map_values(|t: String| t@),
            stability: self.stability,
        }
    }
}


impl ToolExample {
    /// A copy of this example.
    pub fn copy(&self) -> (r: ToolExample)
        ensures
            r@ == self@,
    {
        ToolExample { name: self.name.clone(), description: self.description.clone(), args: self.args.copy() }
    }
}

impl ToolManifest {
    /// A copy of this manifest.
    pub fn copy(&self) -> (r: ToolManifest)
        ensures
            r@ == self@,
    {
        let mut params: Vec<ToolParamDescriptor> = Vec::new();
        let mut i: usize = 0;
        while i < self.params.len()
            invariant
                i <= self.params.len(),
                params@.map_values(|p: ToolParamDescriptor| p@) == self@.params.take(i as int),
            decreases self.params.len() - i,
        {
            let p = self.params[i].copy();
            let ghost prev = params@.map_values(|p: ToolParamDescriptor| p@);
            assert(self@.params[i as int] == self.params@[i as int]@);
            params.push(p);
            assert(params@.map_values(|p: ToolParamDescriptor| p@) =~= prev.push(self@.params[i as int]));
            assert(params@.map_values(|p: ToolParamDescriptor| p@) =~= self@.params.take(i + 1));
            i += 1;
        }
        assert(self@.params.take(i as int) =~= self@.params);
        let mut examples: Vec<ToolExample> = Vec::new();
        let mut j: usize = 0;
        while j < self.examples.len()
            invariant
                j <= self.examples.len(),
                examples@.map_values(|e: ToolExample| e@) == self@.examples.take(j as int),
            decreases self.examples.len() - j,
        {
            let e = self.examples[j].copy();
            let ghost prev = examples@.map_values(|e: ToolExample| e@);
            assert(self@.examples[j as int] == self.examples@[j as int]@);
            examples.push(e);
            assert(examples@.map_values(|e: ToolExample| e@) =~= prev.push(self@.examples[j as int]));
            assert(examples@.map_values(|e: ToolExample| e@) =~= self@.examples.take(j + 1));
            j += 1;
        }
        assert(self@.examples.take(j as int) =~= self@.examples);
        let tags = crate::db::copy_strings(&self.tags);
        let r = ToolManifest {
            id: self.id.clone(),
            display_name: self.display_name.clone(),
            summary: self.summary.clone(),
            category: self.category,
            license_tier: self.license_tier,
            params,
            defaults: self.defaults.copy(),
            examples,
            tags,
            stability: self.stability,
        };
        assert(r@.tags =~= self@.tags);
        r
    }
}

} // verus!


