//! Verified readers for the data files an orbit simulator loads, and the
//! decisions around its sensors and event search.
use vstd::prelude::*;

pub mod icgem;
pub mod icgem_laws;
pub mod earth;
pub mod finals2000a;
pub mod reading;
pub mod root;
pub mod sun_sensor;
pub mod text;

verus! {

} // verus!
