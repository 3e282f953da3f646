use vstd::prelude::*;

pub mod frame;
pub mod grid_text;
pub mod map;
pub mod motion;
pub mod ray;
pub mod round_trip;
pub mod shade;

verus! {

} // verus!
