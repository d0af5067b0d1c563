use shuttle_christmas::recipe::{bake_recipe, BakeError, FullRecipe, IngredientTable, Recipe};

fn table(entries: &[(&str, u64)]) -> IngredientTable {
    let mut table = IngredientTable::new();
    for (name, quantity) in entries {
        table.insert(name.to_string(), *quantity);
    }
    table
}

fn listed(table: &IngredientTable) -> Vec<(String, u64)> {
    (0..table.len()).map(|i| (table.entry(i).name.clone(), table.entry(i).quantity)).collect()
}

fn pairs(entries: &[(&str, u64)]) -> Vec<(String, u64)> {
    entries.iter().map(|(n, q)| (n.to_string(), *q)).collect()
}

#[test]
fn yield_is_the_least_ratio() {
    let baked = bake_recipe(&table(&[("flour", 2), ("sugar", 1)]), &table(&[("flour", 5), ("sugar", 2)]))
        .ok()
        .unwrap();
    assert_eq!(baked.cookies, 2);
    assert_eq!(listed(&baked.pantry), pairs(&[("flour", 1), ("sugar", 0)]));
}

#[test]
fn bottleneck_decides() {
    let recipe = table(&[
        ("flour", 95),
        ("sugar", 50),
        ("butter", 30),
        ("baking powder", 10),
        ("chocolate chips", 50),
    ]);
    let pantry = table(&[
        ("flour", 385),
        ("sugar", 507),
        ("butter", 2122),
        ("baking powder", 865),
        ("chocolate chips", 457),
    ]);
    let baked = bake_recipe(&recipe, &pantry).ok().unwrap();
    assert_eq!(baked.cookies, 4);
    assert_eq!(
        listed(&baked.pantry),
        pairs(&[
            ("flour", 5),
            ("sugar", 307),
            ("butter", 2002),
            ("baking powder", 825),
            ("chocolate chips", 257),
        ])
    );
}

#[test]
fn ratios_are_rounded_down() {
    let baked = bake_recipe(&table(&[("flour", 3)]), &table(&[("flour", 8)])).ok().unwrap();
    assert_eq!(baked.cookies, 2);
    assert_eq!(baked.pantry.get(&"flour".to_string()), Some(2));
    let baked = bake_recipe(&table(&[("flour", 9)]), &table(&[("flour", 8)])).ok().unwrap();
    assert_eq!(baked.cookies, 0);
    assert_eq!(baked.pantry.get(&"flour".to_string()), Some(8));
}

#[test]
fn zero_requirement_bounds_nothing() {
    // Nothing is needed of sugar, and none is there.
    let baked = bake_recipe(&table(&[("flour", 2), ("sugar", 0)]), &table(&[("flour", 7), ("sugar", 0)]))
        .ok()
        .unwrap();
    assert_eq!(baked.cookies, 3);
    assert_eq!(listed(&baked.pantry), pairs(&[("flour", 1), ("sugar", 0)]));
    // Nothing is needed of sugar, and plenty is there.
    let baked = bake_recipe(&table(&[("sugar", 0), ("flour", 2)]), &table(&[("flour", 7), ("sugar", 40)]))
        .ok()
        .unwrap();
    assert_eq!(baked.cookies, 3);
    assert_eq!(listed(&baked.pantry), pairs(&[("flour", 1), ("sugar", 40)]));
}

#[test]
fn zero_requirement_may_be_out_of_stock() {
    let baked = bake_recipe(&table(&[("flour", 2), ("sugar", 0)]), &table(&[("flour", 7)])).ok().unwrap();
    assert_eq!(baked.cookies, 3);
    assert_eq!(listed(&baked.pantry), pairs(&[("flour", 1)]));
}

#[test]
fn stock_that_the_recipe_does_not_name_is_kept() {
    let baked = bake_recipe(&table(&[("flour", 2)]), &table(&[("milk", 9), ("flour", 4), ("eggs", 0)]))
        .ok()
        .unwrap();
    assert_eq!(baked.cookies, 2);
    assert_eq!(listed(&baked.pantry), pairs(&[("milk", 9), ("flour", 0), ("eggs", 0)]));
}

#[test]
fn missing_ingredient_is_an_error() {
    let result = bake_recipe(&table(&[("flour", 2), ("sugar", 1)]), &table(&[("flour", 5)]));
    assert_eq!(result.err(), Some(BakeError::MissingIngredient));
    let result = bake_recipe(&table(&[("flour", 2)]), &table(&[]));
    assert_eq!(result.err(), Some(BakeError::MissingIngredient));
    // Names are taken as they are.
    let result = bake_recipe(&table(&[("flour", 2)]), &table(&[("Flour", 5)]));
    assert_eq!(result.err(), Some(BakeError::MissingIngredient));
}

#[test]
fn recipe_that_needs_nothing_is_an_error() {
    let result = bake_recipe(&table(&[]), &table(&[("flour", 5)]));
    assert_eq!(result.err(), Some(BakeError::NothingRequired));
    let result = bake_recipe(&table(&[("flour", 0), ("sugar", 0)]), &table(&[("flour", 5)]));
    assert_eq!(result.err(), Some(BakeError::NothingRequired));
}

#[test]
fn greatest_quantities_do_not_overflow() {
    let baked =
        bake_recipe(&table(&[("flour", 1), ("sugar", u64::MAX)]), &table(&[("flour", u64::MAX), ("sugar", u64::MAX)]))
            .ok()
            .unwrap();
    assert_eq!(baked.cookies, 1);
    assert_eq!(listed(&baked.pantry), pairs(&[("flour", u64::MAX - 1), ("sugar", 0)]));
    let baked = bake_recipe(&table(&[("flour", 1)]), &table(&[("flour", u64::MAX)])).ok().unwrap();
    assert_eq!(baked.cookies, u64::MAX);
    assert_eq!(listed(&baked.pantry), pairs(&[("flour", 0)]));
}

#[test]
fn same_tables_same_scaling() {
    let recipe = table(&[("flour", 2), ("sugar", 1)]);
    let pantry = table(&[("sugar", 9), ("flour", 5)]);
    let first = bake_recipe(&recipe, &pantry).ok().unwrap();
    let second = bake_recipe(&recipe, &pantry).ok().unwrap();
    assert_eq!(first.cookies, second.cookies);
    assert_eq!(listed(&first.pantry), listed(&second.pantry));
}

#[test]
fn table_keeps_one_quantity_for_a_name() {
    let mut t = IngredientTable::new();
    assert_eq!(t.len(), 0);
    assert_eq!(t.get(&"flour".to_string()), None);
    t.insert("flour".to_string(), 1);
    t.insert("sugar".to_string(), 2);
    t.insert("flour".to_string(), 3);
    assert_eq!(t.len(), 2);
    assert_eq!(t.get(&"flour".to_string()), Some(3));
    assert_eq!(t.get(&"sugar".to_string()), Some(2));
    assert_eq!(t.get(&"butter".to_string()), None);
    assert_eq!(listed(&t), pairs(&[("flour", 3), ("sugar", 2)]));
}

#[test]
fn five_ingredients_as_a_table() {
    let recipe = Recipe { flour: 95, sugar: 50, butter: 30, baking_powder: 10, chocolate_chips: 50 };
    assert_eq!(
        listed(&recipe.to_table()),
        pairs(&[
            ("flour", 95),
            ("sugar", 50),
            ("butter", 30),
            ("baking powder", 10),
            ("chocolate chips", 50),
        ])
    );
}

#[test]
fn full_recipe_is_scaled() {
    let full = FullRecipe {
        recipe: Recipe { flour: 95, sugar: 50, butter: 30, baking_powder: 10, chocolate_chips: 50 },
        pantry: Recipe { flour: 385, sugar: 507, butter: 2122, baking_powder: 865, chocolate_chips: 457 },
    };
    let baked = full.bake().ok().unwrap();
    assert_eq!(baked.cookies, 4);
    assert_eq!(baked.pantry.get(&"chocolate chips".to_string()), Some(257));
    let none = FullRecipe {
        recipe: Recipe { flour: 0, sugar: 0, butter: 0, baking_powder: 0, chocolate_chips: 0 },
        pantry: Recipe { flour: 1, sugar: 1, butter: 1, baking_powder: 1, chocolate_chips: 1 },
    };
    assert_eq!(none.bake().err(), Some(BakeError::NothingRequired));
}
