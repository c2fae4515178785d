//! Exact mixed-number arithmetic for recipe quantities, a catalog of
//! measurement units with rational conversion factors, and a heuristic that
//! re-expresses a quantity in whichever unit reads best.

use vstd::prelude::*;

pub mod approx;
pub mod convert;
pub mod history;
pub mod ingredient;
pub mod measure;
pub mod mixed_rational;
pub mod parse;
pub mod planning;
pub mod recipe;
pub mod render;
pub mod units;

verus! {

} // verus!
