use recipe_book::measure::MeasureType;
use recipe_book::mixed_rational::MixedRational;
use recipe_book::recipe::{
    DirectionSection, NutritionInfo, ParsedRecipe, RecipeData, RecipeItem, RecipeText,
};
use recipe_book::history::{UrlHistory, UrlHistoryItem};
use recipe_book::ingredient::ingredient_from_text;
use recipe_book::units::Unit;

fn q(value: i32, num: i32, den: u32) -> MixedRational {
    MixedRational { value, num, den }
}

fn flour_cups(n: MixedRational) -> RecipeItem {
    RecipeItem {
        measure: MeasureType::new("cup".to_string(), n),
        measure_b: None,
        name: "flour".to_string(),
        note: None,
        plural: false,
    }
}

fn sample_recipe() -> ParsedRecipe {
    let mut r = ParsedRecipe::default();
    r.text.title = "carrot bread".to_string();
    r.data.servings = MixedRational::whole(2);
    r.data.ingredients.push(flour_cups(MixedRational::whole(1)));
    r.data.directions.push(DirectionSection {
        name: "bake".to_string(),
        sections: vec!["mix".to_string(), "bake".to_string()],
    });
    r
}

#[test]
fn scaling_doubles_each_ingredient() {
    let r = sample_recipe();
    let doubled = r.get_recipe_for_servings(MixedRational::whole(4));
    assert_eq!(doubled.data.servings, MixedRational::whole(4));
    assert_eq!(doubled.data.ingredients.len(), 1);
    let item = &doubled.data.ingredients[0];
    assert_eq!(item.name, "flour");
    assert_eq!(item.measure.count, MixedRational::whole(2));
    assert_eq!(item.measure.unit.unit, Unit::Cup);
    // the prose is untouched
    assert_eq!(doubled.text.title, "carrot bread");
    assert_eq!(doubled.data.directions[0].sections, vec!["mix", "bake"]);
}

#[test]
fn scaling_by_a_fraction_halves() {
    let r = sample_recipe();
    let halved = r.data.scale_servings(MixedRational::whole(1));
    assert_eq!(halved.servings, MixedRational::whole(1));
    assert_eq!(halved.ingredients[0].measure.count, q(0, 1, 2));
    assert_eq!(halved.ingredients[0].measure.unit.unit, Unit::Cup);
}

#[test]
fn scaling_rescales_the_upper_bound_too() {
    let mut item = flour_cups(MixedRational::whole(1));
    item.measure_b = Some(MeasureType::new("cup".to_string(), MixedRational::whole(2)));
    let scaled = item.scale(MixedRational::whole(2));
    assert_eq!(scaled.measure.count, MixedRational::whole(2));
    assert_eq!(scaled.measure_b.unwrap().count, MixedRational::whole(4));
}

#[test]
fn memory_sizes_accumulate() {
    let r = sample_recipe();
    let empty = ParsedRecipe::default();
    assert!(r.memory_size() > empty.memory_size());
    assert_eq!(r.data.servings.memory_size(), 12);
    let m = MeasureType::new("cup".to_string(), MixedRational::whole(1));
    assert!(m.memory_size() >= 12);
    let item = flour_cups(MixedRational::whole(1));
    assert!(item.memory_size() > m.memory_size());
    let n = NutritionInfo::default();
    assert!(n.memory_size() >= 12);
    assert!(RecipeText::default().memory_size() > 0);
    assert!(RecipeData::default().memory_size() >= 12);
}

#[test]
fn nutrition_facts_parse_number_and_unit() {
    let item =
        recipe_book::recipe::nutrient_from_text("fatContent".to_string(), "3 g".to_string())
            .unwrap();
    assert_eq!(item.name, "fatContent");
    assert_eq!(item.measure.count, MixedRational::whole(3));
    assert_eq!(item.measure.unit.unit, Unit::Gram);
    // no space, or no number, means no nutrient
    assert!(recipe_book::recipe::nutrient_from_text("calories".to_string(), "240".to_string())
        .is_none());
    assert!(recipe_book::recipe::nutrient_from_text("calories".to_string(), "n a".to_string())
        .is_none());
}

#[test]
fn grabbed_history_lists_urls() {
    let h = UrlHistory {
        grabbed_json_history: vec![
            UrlHistoryItem {
                time: "noon".to_string(),
                url: "https://example.test/a".to_string(),
                name: "a".to_string(),
                processed: true,
            },
            UrlHistoryItem {
                time: "later".to_string(),
                url: "https://example.test/b".to_string(),
                name: "b".to_string(),
                processed: false,
            },
        ],
        skipped: vec![],
    };
    assert_eq!(h.get_grabbed(), vec!["https://example.test/a", "https://example.test/b"]);
}

#[test]
fn ingredient_lines_parse_quantity_unit_and_name() {
    // scraped lines arrive as JSON string text, quotes included
    let item = ingredient_from_text("\"2 1/2 cups flour (sifted)\"".to_string()).unwrap();
    assert_eq!(item.measure.count, q(2, 1, 2));
    assert_eq!(item.measure.unit.unit, Unit::Cup);
    assert_eq!(item.name, "flour ");
    assert_eq!(item.note.as_deref(), Some("sifted"));
    assert!(item.plural);

    let ranged = ingredient_from_text("2-3 oz cream cheese".to_string()).unwrap();
    assert_eq!(ranged.measure.count, q(2, 0, 0));
    assert_eq!(ranged.measure.unit.unit, Unit::Ounce);
    assert_eq!(ranged.measure_b.unwrap().count, q(3, 0, 0));
    assert_eq!(ranged.name, "cream cheese");
    assert!(!ranged.plural);
}

#[test]
fn ingredient_lines_degrade_gracefully() {
    // the JSON null placeholder is no ingredient
    assert!(ingredient_from_text("null".to_string()).is_none());
    // a line of prose keeps its whole text as the name
    let prose = ingredient_from_text("fresh basil leaves".to_string()).unwrap();
    assert_eq!(prose.measure.unit.unit, Unit::Other);
    assert_eq!(prose.measure.count, q(0, 0, 0));
    assert_eq!(prose.name, "fresh basil leaves");
    // an unknown unit word is glued onto the name under the sentinel unit
    let odd = ingredient_from_text("5 mm".to_string()).unwrap();
    assert_eq!(odd.measure.unit.unit, Unit::Other);
    assert_eq!(odd.measure.count, q(5, 0, 0));
    assert_eq!(odd.name, "mm ");
}
