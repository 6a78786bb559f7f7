use vstd::prelude::*;

pub mod bytes;
pub mod sqlval;
pub mod text;
pub mod db;
pub mod crs;
pub mod geometry;
pub mod feature;
pub mod geopackage;
pub mod tool;
pub mod kriging;
pub mod assoc;
pub mod catalog;

verus! {

} // verus!
