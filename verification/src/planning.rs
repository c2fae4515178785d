//! Meal planning shapes: a day of meals, a week of days, and the cook's
//! history of past and coming weeks. Recipes are shared by reference
//! counting; the planning layer itself holds no logic.

use vstd::prelude::*;
use std::rc::Rc;
use crate::recipe::ParsedRecipe;

verus! {

/// One day's planned meals.
pub struct Day {
    pub breakfast: Option<Rc<ParsedRecipe>>,
    pub lunch: Option<Rc<ParsedRecipe>>,
    pub diner: Option<Rc<ParsedRecipe>>,
}

/// A week of planned days.
pub struct Week {
    pub sunday: Day,
    pub monday: Day,
    pub tuesday: Day,
    pub wednesday: Day,
    pub thursday: Day,
    pub friday: Day,
    pub saturday: Day,
}

/// The plan's memory: weeks already cooked and weeks ahead.
pub struct CookHistory {
    pub past_weeks: Vec<Week>,
    pub next_weeks: Vec<Week>,
}

} // verus!
