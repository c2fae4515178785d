//! Recipe data: ingredient items (a measure, an optional upper-bound
//! measure for ranges, a name and a note), direction sections, nutrition
//! facts and the recipe itself. Scaling a recipe multiplies every measured
//! part by a rational factor and re-runs the best-unit rewriting on each.

use vstd::prelude::*;
use vstd::layout::{layout_for_type_is_valid, size_of};
use crate::measure::{spec_scale_measure, MeasureType};
use crate::mixed_rational::{spec_div, spec_mul, MixedRational};
use crate::units::Measure;

verus! {

/// One measured ingredient line.
#[derive(Clone, Debug)]
pub struct RecipeItem {
    pub measure: MeasureType,
    pub measure_b: Option<MeasureType>,
    pub name: String,
    pub note: Option<String>,
    pub plural: bool,
}

/// A titled run of direction steps.
#[derive(Clone, Debug)]
pub struct DirectionSection {
    pub name: String,
    pub sections: Vec<String>,
}

/// Per-serving nutrition facts, reusing the ingredient item shape.
#[derive(Clone, Debug)]
pub struct NutritionInfo {
    pub servings_size: MixedRational,
    pub servings_unit: String,
    pub nutrients: Vec<RecipeItem>,
}

/// The measured body of a recipe.
#[derive(Clone, Debug)]
pub struct RecipeData {
    pub original_servings: Option<MixedRational>,
    pub servings: MixedRational,
    pub ingredients: Vec<RecipeItem>,
    pub directions: Vec<DirectionSection>,
    pub nutrition_info: NutritionInfo,
}

/// The text around a recipe.
#[derive(Clone, Debug)]
pub struct RecipeText {
    pub title: String,
    pub prep_time: String,
    pub author_name: String,
    pub origin: String,
    pub description: String,
}

/// A parsed recipe: keywords, its text and its measured data.
#[derive(Clone, Debug)]
pub struct ParsedRecipe {
    pub keywords: Vec<String>,
    pub text: RecipeText,
    pub data: RecipeData,
}

impl Default for RecipeItem {
    /// An empty, unmeasured item.
    fn default() -> (r: Self)
        ensures
            r.measure == MeasureType::spec_default(),
            r.measure_b is None,
            r.name@ == Seq::<char>::empty(),
            r.note is None,
            !r.plural,
    {
        RecipeItem {
            measure: MeasureType::default(),
            measure_b: None,
            name: String::new(),
            note: None,
            plural: false,
        }
    }
}

impl Default for DirectionSection {
    /// An empty, unnamed section.
    fn default() -> (r: Self)
        ensures
            r.name@ == Seq::<char>::empty(),
            r.sections@ == Seq::<String>::empty(),
    {
        DirectionSection { name: String::new(), sections: Vec::new() }
    }
}

impl Default for NutritionInfo {
    /// An empty nutrition block.
    fn default() -> (r: Self)
        ensures
            r.servings_size == (MixedRational { value: 0, num: 0, den: 0 }),
            r.servings_unit@ == Seq::<char>::empty(),
            r.nutrients@ == Seq::<RecipeItem>::empty(),
    {
        NutritionInfo {
            servings_size: MixedRational::zero(),
            servings_unit: String::new(),
            nutrients: Vec::new(),
        }
    }
}

impl Default for RecipeData {
    /// An empty recipe body.
    fn default() -> (r: Self)
        ensures
            r.original_servings is None,
            r.servings == (MixedRational { value: 0, num: 0, den: 0 }),
            r.ingredients@ == Seq::<RecipeItem>::empty(),
            r.directions@ == Seq::<DirectionSection>::empty(),
            r.nutrition_info.servings_size == (MixedRational { value: 0, num: 0, den: 0 }),
            r.nutrition_info.servings_unit@ == Seq::<char>::empty(),
            r.nutrition_info.nutrients@ == Seq::<RecipeItem>::empty(),
    {
        RecipeData {
            original_servings: None,
            servings: MixedRational::zero(),
            ingredients: Vec::new(),
            directions: Vec::new(),
            nutrition_info: NutritionInfo::default(),
        }
    }
}

impl Default for RecipeText {
    /// An empty text block.
    fn default() -> (r: Self)
        ensures
            r.title@ == Seq::<char>::empty(),
            r.prep_time@ == Seq::<char>::empty(),
            r.author_name@ == Seq::<char>::empty(),
            r.origin@ == Seq::<char>::empty(),
            r.description@ == Seq::<char>::empty(),
    {
        RecipeText {
            title: String::new(),
            prep_time: String::new(),
            author_name: String::new(),
            origin: String::new(),
            description: String::new(),
        }
    }
}

impl Default for ParsedRecipe {
    /// An empty recipe.
    fn default() -> (r: Self)
        ensures
            r.keywords@ == Seq::<String>::empty(),
            text_eq(r.text, r.text),
            r.data.ingredients@ == Seq::<RecipeItem>::empty(),
            r.data.directions@ == Seq::<DirectionSection>::empty(),
            r.data.servings == (MixedRational { value: 0, num: 0, den: 0 }),
            r.text.title@ == Seq::<char>::empty(),
            r.text.origin@ == Seq::<char>::empty(),
    {
        ParsedRecipe {
            keywords: Vec::new(),
            text: RecipeText::default(),
            data: RecipeData::default(),
        }
    }
}

/// Whether two items hold the same content (up to string views).
pub open spec fn item_eq(a: RecipeItem, b: RecipeItem) -> bool {
    &&& a.measure == b.measure
    &&& a.measure_b == b.measure_b
    &&& a.name@ == b.name@
    &&& (a.note is Some) == (b.note is Some)
    &&& (a.note is Some ==> a.note->0@ == b.note->0@)
    &&& a.plural == b.plural
}

/// Whether `dst` is `src` with every measure scaled by `rhs` (and then
/// rewritten to the best unit), the rest kept.
pub open spec fn item_scaled(src: RecipeItem, dst: RecipeItem, rhs: MixedRational) -> bool {
    &&& dst.measure == spec_scale_measure(src.measure, rhs)
    &&& dst.measure_b == match src.measure_b {
        Some(m) => Some(spec_scale_measure(m, rhs)),
        None => None::<MeasureType>,
    }
    &&& dst.name@ == src.name@
    &&& (dst.note is Some) == (src.note is Some)
    &&& (src.note is Some ==> dst.note->0@ == src.note->0@)
    &&& dst.plural == src.plural
}

/// Whether two direction sections hold the same text.
pub open spec fn section_eq(a: DirectionSection, b: DirectionSection) -> bool {
    &&& a.name@ == b.name@
    &&& a.sections.deep_view() == b.sections.deep_view()
}

/// Whether two nutrition blocks hold the same content.
pub open spec fn nutrition_eq(a: NutritionInfo, b: NutritionInfo) -> bool {
    &&& a.servings_size == b.servings_size
    &&& a.servings_unit@ == b.servings_unit@
    &&& a.nutrients@.len() == b.nutrients@.len()
    &&& forall|i: int| 0 <= i < a.nutrients@.len() ==> item_eq(#[trigger] a.nutrients@[i], b.nutrients@[i])
}

/// Whether two recipe text blocks hold the same content.
pub open spec fn text_eq(a: RecipeText, b: RecipeText) -> bool {
    &&& a.title@ == b.title@
    &&& a.prep_time@ == b.prep_time@
    &&& a.author_name@ == b.author_name@
    &&& a.origin@ == b.origin@
    &&& a.description@ == b.description@
}

/// Whether `dst` is `src` scaled by `rhs`: the serving count and every
/// ingredient multiplied, the prose and nutrition facts kept.
pub open spec fn data_scaled(src: RecipeData, dst: RecipeData, rhs: MixedRational) -> bool {
    &&& dst.original_servings == src.original_servings
    &&& dst.servings == spec_mul(src.servings, rhs)
    &&& dst.ingredients@.len() == src.ingredients@.len()
    &&& forall|i: int|
        0 <= i < src.ingredients@.len() ==> item_scaled(
            #[trigger] src.ingredients@[i],
            dst.ingredients@[i],
            rhs,
        )
    &&& dst.directions@.len() == src.directions@.len()
    &&& forall|i: int|
        0 <= i < src.directions@.len() ==> section_eq(
            #[trigger] src.directions@[i],
            dst.directions@[i],
        )
    &&& nutrition_eq(src.nutrition_info, dst.nutrition_info)
}

fn clone_opt_string(s: &Option<String>) -> (r: Option<String>)
    ensures
        (r is Some) == (s is Some),
        s is Some ==> r->0@ == s->0@,
{
    match s {
        Some(x) => Some(x.clone()),
        None => None,
    }
}

fn clone_strings(v: &Vec<String>) -> (r: Vec<String>)
    ensures
        r.deep_view() == v.deep_view(),
{
    let mut r: Vec<String> = Vec::new();
    let mut i: usize = 0;
    while i < v.len()
        invariant
            0 <= i <= v@.len(),
            r@.len() == i,
            forall|j: int| 0 <= j < i ==> #[trigger] r@[j]@ == v@[j]@,
        decreases v@.len() - i,
    {
        r.push(v[i].clone());
        i += 1;
    }
    proof {
        assert(r.deep_view() =~~= v.deep_view());
    }
    r
}

fn clone_item(it: &RecipeItem) -> (r: RecipeItem)
    ensures
        item_eq(*it, r),
{
    RecipeItem {
        measure: it.measure,
        measure_b: it.measure_b,
        name: it.name.clone(),
        note: clone_opt_string(&it.note),
        plural: it.plural,
    }
}

fn clone_section(s: &DirectionSection) -> (r: DirectionSection)
    ensures
        section_eq(*s, r),
{
    DirectionSection { name: s.name.clone(), sections: clone_strings(&s.sections) }
}

fn clone_nutrition(n: &NutritionInfo) -> (r: NutritionInfo)
    ensures
        nutrition_eq(*n, r),
{
    let mut nutrients: Vec<RecipeItem> = Vec::new();
    let mut i: usize = 0;
    while i < n.nutrients.len()
        invariant
            0 <= i <= n.nutrients@.len(),
            nutrients@.len() == i,
            forall|j: int| 0 <= j < i ==> item_eq(#[trigger] n.nutrients@[j], nutrients@[j]),
        decreases n.nutrients@.len() - i,
    {
        let c = clone_item(&n.nutrients[i]);
        nutrients.push(c);
        i += 1;
    }
    NutritionInfo {
        servings_size: n.servings_size,
        servings_unit: n.servings_unit.clone(),
        nutrients,
    }
}

fn clone_text(t: &RecipeText) -> (r: RecipeText)
    ensures
        text_eq(*t, r),
{
    RecipeText {
        title: t.title.clone(),
        prep_time: t.prep_time.clone(),
        author_name: t.author_name.clone(),
        origin: t.origin.clone(),
        description: t.description.clone(),
    }
}

impl RecipeItem {
    /// The item with both measures scaled by `rhs` and rewritten to their
    /// best units; name, note and plurality kept.
    pub fn scale(&self, rhs: MixedRational) -> (r: Self)
        ensures
            item_scaled(*self, r, rhs),
    {
        RecipeItem {
            measure: self.measure.scale(rhs),
            measure_b: match self.measure_b {
                Some(m) => Some(m.scale(rhs)),
                None => None,
            },
            name: self.name.clone(),
            note: clone_opt_string(&self.note),
            plural: self.plural,
        }
    }
}

impl RecipeData {
    /// The recipe body scaled by `rhs`: serving count and every ingredient
    /// multiplied, directions and nutrition facts kept.
    pub fn scale(&self, rhs: MixedRational) -> (r: Self)
        ensures
            data_scaled(*self, r, rhs),
    {
        let mut ingredients: Vec<RecipeItem> = Vec::new();
        let mut i: usize = 0;
        while i < self.ingredients.len()
            invariant
                0 <= i <= self.ingredients@.len(),
                ingredients@.len() == i,
                forall|j: int|
                    0 <= j < i ==> item_scaled(
                        #[trigger] self.ingredients@[j],
                        ingredients@[j],
                        rhs,
                    ),
            decreases self.ingredients@.len() - i,
        {
            let s = self.ingredients[i].scale(rhs);
            ingredients.push(s);
            i += 1;
        }
        let mut directions: Vec<DirectionSection> = Vec::new();
        let mut k: usize = 0;
        while k < self.directions.len()
            invariant
                0 <= k <= self.directions@.len(),
                directions@.len() == k,
                forall|j: int|
                    0 <= j < k ==> section_eq(#[trigger] self.directions@[j], directions@[j]),
            decreases self.directions@.len() - k,
        {
            let s = clone_section(&self.directions[k]);
            directions.push(s);
            k += 1;
        }
        RecipeData {
            original_servings: self.original_servings,
            servings: self.servings.mul(rhs),
            ingredients,
            directions,
            nutrition_info: clone_nutrition(&self.nutrition_info),
        }
    }

    /// The recipe body rescaled to `target_servings`: everything is
    /// multiplied by the ratio of the target to the current serving count.
    pub fn scale_servings(&self, target_servings: MixedRational) -> (r: Self)
        ensures
            data_scaled(*self, r, spec_div(target_servings, self.servings)),
    {
        let scale = target_servings.div(self.servings);
        self.scale(scale)
    }
}

impl ParsedRecipe {
    /// The recipe rescaled to `target_servings`; keywords and text kept.
    pub fn get_recipe_for_servings(&self, target_servings: MixedRational) -> (r: Self)
        ensures
            data_scaled(self.data, r.data, spec_div(target_servings, self.data.servings)),
            text_eq(self.text, r.text),
            r.keywords.deep_view() == self.keywords.deep_view(),
    {
        ParsedRecipe {
            data: self.data.scale_servings(target_servings),
            text: clone_text(&self.text),
            keywords: clone_strings(&self.keywords),
        }
    }
}

/// What `nutrient_from_text` reads out of one nutrition field's value text:
/// the whole number before the first space, and the unit the rest of the
/// text (spaces dropped) resolves to. Text without a space, or without a
/// readable number, carries no nutrient.
pub open spec fn spec_nutrient(val: Seq<char>) -> Option<(i32, Measure)> {
    match crate::parse::spec_find(val, ' ') {
        Some(sp) => match crate::parse::spec_parse_uint(val.take(sp), i32::MAX as nat) {
            Some(v) => Some(
                (
                    v as i32,
                    crate::units::spec_unit_from_text(
                        crate::parse::spec_despace(val.skip(sp)),
                    ),
                ),
            ),
            None => None,
        },
        None => None,
    }
}

/// Reads one nutrition fact, as recipe pages state them ("240 kcal",
/// "3 g"): the number before the first space becomes the count and the rest
/// resolves against the unit catalog. The field name becomes the item name.
pub fn nutrient_from_text(field: String, val: String) -> (r: Option<RecipeItem>)
    ensures
        r is Some <==> spec_nutrient(val@) is Some,
        r is Some ==> {
            let (v, m) = spec_nutrient(val@)->0;
            &&& r->0.measure.count == (MixedRational { value: v, num: 0, den: 0 })
            &&& r->0.measure.unit == m
            &&& r->0.measure_b is None
            &&& r->0.name@ == field@
            &&& r->0.note is None
            &&& !r->0.plural
        },
{
    let cs = crate::parse::chars_vec(val.as_str());
    proof {
        assert(cs@.subrange(0, cs@.len() as int) =~= val@);
    }
    match crate::parse::find_char(&cs, 0, cs.len(), ' ') {
        Some(sp) => {
            proof {
                crate::parse::lemma_find_char_abs(cs@, 0, cs@.len() as int, ' ', Some(sp as int));
                assert(val@.take(sp as int) =~= cs@.subrange(0, sp as int));
            }
            match crate::parse::parse_uint(&cs, 0, sp, 2147483647) {
                Some(v) => {
                    let unit_txt = crate::parse::despace(val.as_str(), sp, cs.len());
                    proof {
                        assert(val@.skip(sp as int) =~= val@.subrange(
                            sp as int,
                            val@.len() as int,
                        ));
                    }
                    let m = Measure::new(unit_txt);
                    Some(
                        RecipeItem {
                            measure: MeasureType {
                                count: MixedRational::whole(v as i32),
                                unit: m,
                            },
                            measure_b: None,
                            name: field,
                            note: None,
                            plural: false,
                        },
                    )
                },
                None => None,
            }
        },
        None => {
            proof {
                crate::parse::lemma_find_char_abs(cs@, 0, cs@.len() as int, ' ', None);
            }
            None
        },
    }
}

/// A sum of byte sizes that pins at the top of `usize` instead of wrapping.
pub open spec fn sat_add(a: nat, b: nat) -> nat {
    if a + b > usize::MAX {
        usize::MAX as nat
    } else {
        a + b
    }
}

fn add_size(a: usize, b: usize) -> (n: usize)
    ensures
        n as nat == sat_add(a as nat, b as nat),
{
    if a <= usize::MAX - b {
        a + b
    } else {
        usize::MAX
    }
}

/// Byte size of one ingredient item as stored: its name handle and its
/// measure.
pub open spec fn spec_item_size() -> nat {
    sat_add(size_of::<String>(), spec_measure_type_size())
}

/// Byte size of a stored measure: the three four-byte quantity fields plus
/// the unit descriptor.
pub open spec fn spec_measure_type_size() -> nat {
    sat_add(12, size_of::<Measure>())
}

/// Accumulated byte size of `n` ingredient items.
pub open spec fn spec_items_size(n: nat) -> nat
    decreases n,
{
    if n == 0 {
        0
    } else {
        sat_add(spec_items_size((n - 1) as nat), spec_item_size())
    }
}

fn measure_type_size() -> (n: usize)
    ensures
        n as nat == spec_measure_type_size(),
{
    layout_for_type_is_valid::<Measure>();
    add_size(12, core::mem::size_of::<Measure>())
}

fn item_size() -> (n: usize)
    ensures
        n as nat == spec_item_size(),
{
    layout_for_type_is_valid::<String>();
    add_size(core::mem::size_of::<String>(), measure_type_size())
}

fn items_size(items: &Vec<RecipeItem>) -> (n: usize)
    ensures
        n as nat == spec_items_size(items@.len() as nat),
{
    let mut n: usize = 0;
    let mut i: usize = 0;
    while i < items.len()
        invariant
            0 <= i <= items@.len(),
            n as nat == spec_items_size(i as nat),
        decreases items@.len() - i,
    {
        n = add_size(n, item_size());
        i += 1;
    }
    n
}

impl MeasureType {
    /// Byte size of the measure's stored fields.
    pub fn memory_size(&self) -> (n: usize)
        ensures
            n as nat == spec_measure_type_size(),
    {
        measure_type_size()
    }
}

impl MixedRational {
    /// Byte size of the three stored fields; `i32` and `u32` are four bytes
    /// each by definition.
    pub fn memory_size(&self) -> (n: usize)
        ensures
            n == 12,
    {
        12
    }
}

impl RecipeItem {
    /// Byte size of the item's name handle and measure.
    pub fn memory_size(&self) -> (n: usize)
        ensures
            n as nat == spec_item_size(),
    {
        layout_for_type_is_valid::<String>();
        add_size(core::mem::size_of::<String>(), self.measure.memory_size())
    }
}

/// Byte size of the nutrition block: its items, its serving quantity and
/// its unit text handle.
pub open spec fn spec_nutrition_size(n: NutritionInfo) -> nat {
    sat_add(sat_add(spec_items_size(n.nutrients@.len() as nat), 12), size_of::<String>())
}

impl NutritionInfo {
    /// Byte size of the nutrition block's stored parts.
    pub fn memory_size(&self) -> (n: usize)
        ensures
            n as nat == spec_nutrition_size(*self),
    {
        layout_for_type_is_valid::<String>();
        add_size(
            add_size(items_size(&self.nutrients), 12),
            core::mem::size_of::<String>(),
        )
    }
}

/// Byte size of the recipe body: serving quantity, nutrition block,
/// ingredient items and one section handle per direction section.
pub open spec fn spec_data_size(d: RecipeData) -> nat {
    sat_add(
        sat_add(sat_add(12, spec_nutrition_size(d.nutrition_info)), spec_items_size(d.ingredients@.len() as nat)),
        spec_sections_size(d.directions@.len() as nat),
    )
}

/// Accumulated byte size of `n` direction-section handles.
pub open spec fn spec_sections_size(n: nat) -> nat
    decreases n,
{
    if n == 0 {
        0
    } else {
        sat_add(spec_sections_size((n - 1) as nat), size_of::<DirectionSection>())
    }
}

fn sections_size(v: &Vec<DirectionSection>) -> (n: usize)
    ensures
        n as nat == spec_sections_size(v@.len() as nat),
{
    layout_for_type_is_valid::<DirectionSection>();
    let mut n: usize = 0;
    let mut i: usize = 0;
    while i < v.len()
        invariant
            0 <= i <= v@.len(),
            n as nat == spec_sections_size(i as nat),
        decreases v@.len() - i,
    {
        layout_for_type_is_valid::<DirectionSection>();
        n = add_size(n, core::mem::size_of::<DirectionSection>());
        i += 1;
    }
    n
}

impl RecipeData {
    /// Byte size of the recipe body's stored parts.
    pub fn memory_size(&self) -> (n: usize)
        ensures
            n as nat == spec_data_size(*self),
    {
        add_size(
            add_size(add_size(12, self.nutrition_info.memory_size()), items_size(&self.ingredients)),
            sections_size(&self.directions),
        )
    }
}

/// Byte size of the five text handles around a recipe.
pub open spec fn spec_text_size() -> nat {
    sat_add(
        sat_add(sat_add(sat_add(size_of::<String>(), size_of::<String>()), size_of::<String>()), size_of::<String>()),
        size_of::<String>(),
    )
}

impl RecipeText {
    /// Byte size of the text block's five string handles.
    pub fn memory_size(&self) -> (n: usize)
        ensures
            n as nat == spec_text_size(),
    {
        layout_for_type_is_valid::<String>();
        let s = core::mem::size_of::<String>();
        add_size(add_size(add_size(add_size(s, s), s), s), s)
    }
}

/// Accumulated byte size of `n` keyword handles.
pub open spec fn spec_keywords_size(n: nat) -> nat
    decreases n,
{
    if n == 0 {
        0
    } else {
        sat_add(spec_keywords_size((n - 1) as nat), size_of::<String>())
    }
}

/// Byte size of a parsed recipe: its keyword handles, its body and its
/// text block.
pub open spec fn spec_recipe_size(r: ParsedRecipe) -> nat {
    sat_add(sat_add(spec_keywords_size(r.keywords@.len() as nat), spec_data_size(r.data)), spec_text_size())
}

impl ParsedRecipe {
    /// Byte size of the recipe's stored parts.
    pub fn memory_size(&self) -> (n: usize)
        ensures
            n as nat == spec_recipe_size(*self),
    {
        layout_for_type_is_valid::<String>();
        let mut n: usize = 0;
        let mut i: usize = 0;
        while i < self.keywords.len()
            invariant
                0 <= i <= self.keywords@.len(),
                n as nat == spec_keywords_size(i as nat),
            decreases self.keywords@.len() - i,
        {
            layout_for_type_is_valid::<String>();
            n = add_size(n, core::mem::size_of::<String>());
            i += 1;
        }
        add_size(add_size(n, self.data.memory_size()), self.text.memory_size())
    }
}

} // verus!
