//! The recipe scaler: how many times a recipe can be made from the stock at
//! hand, and what stock is left afterwards.

use vstd::prelude::*;
use vstd::string::StringExecFns;

verus! {

/// A quantity of one ingredient.
pub struct Ingredient {
    pub name: String,
    pub quantity: u64,
}

/// Quantities by ingredient name. No name occurs twice; the entries keep the
/// order in which their names were first inserted.
pub struct IngredientTable {
    entries: Vec<Ingredient>,
}

impl IngredientTable {
    /// The names of the table, in the order of its entries.
    pub closed spec fn names(&self) -> Seq<Seq<char>> {
        self.entries@.map_values(|e: Ingredient| e.name@)
    }

    /// The quantities of the table, in the order of its entries.
    pub closed spec fn quantities(&self) -> Seq<u64> {
        self.entries@.map_values(|e: Ingredient| e.quantity)
    }

    /// No name occurs twice.
    pub open spec fn wf(&self) -> bool {
        self.names().no_duplicates()
    }
}

impl View for IngredientTable {
    type V = Map<Seq<char>, u64>;

    /// The table as a map from its names to their quantities.
    open spec fn view(&self) -> Map<Seq<char>, u64> {
        Map::new(
            |name: Seq<char>| self.names().contains(name),
            |name: Seq<char>| self.quantities()[self.names().index_of(name)],
        )
    }
}

impl IngredientTable {
    /// Every name has a quantity.
    pub proof fn lemma_same_length(&self)
        ensures
            self.names().len() == self.quantities().len(),
    {
    }

    /// The entry at place `i` is in the map, with its quantity.
    pub proof fn lemma_entry_in_view(&self, i: int)
        requires
            self.wf(),
            0 <= i < self.names().len(),
        ensures
            self@.dom().contains(self.names()[i]),
            self@[self.names()[i]] == self.quantities()[i],
    {
        let name = self.names()[i];
        assert(self.names().contains(name));
        let j = self.names().index_of(name);
        assert(self.names()[j] == name);
    }

    /// A table without entries.
    pub fn new() -> (table: Self)
        ensures
            table.wf(),
            table@ == Map::<Seq<char>, u64>::empty(),
            table.names() == Seq::<Seq<char>>::empty(),
    {
        let table = IngredientTable { entries: Vec::new() };
        assert(table.names() =~= Seq::<Seq<char>>::empty());
        assert(table@ =~= Map::<Seq<char>, u64>::empty());
        table
    }

    /// The number of entries.
    pub fn len(&self) -> (n: usize)
        ensures
            n == self.names().len(),
    {
        self.entries.len()
    }

    /// The entry at place `i`.
    pub fn entry(&self, i: usize) -> (e: &Ingredient)
        requires
            self.wf(),
            i < self.names().len(),
        ensures
            e.name@ == self.names()[i as int],
            e.quantity == self.quantities()[i as int],
            self@.dom().contains(e.name@),
            self@[e.name@] == e.quantity,
    {
        proof {
            self.lemma_entry_in_view(i as int);
        }
        &self.entries[i]
    }

    /// The place of `name` among the entries, if it is there.
    fn find(&self, name: &String) -> (place: Option<usize>)
        requires
            self.wf(),
        ensures
            match place {
                Some(i) => i < self.names().len() && self.names()[i as int] == name@,
                None => !self.names().contains(name@),
            },
    {
        let mut i: usize = 0;
        while i < self.entries.len()
            invariant
                i <= self.entries.len(),
                forall|k: int| 0 <= k < i ==> self.names()[k] != name@,
            decreases self.entries.len() - i,
        {
            if self.entries[i].name == *name {
                return Some(i);
            }
            i += 1;
        }
        None
    }

    /// The quantity of `name`, if the table has it.
    pub fn get(&self, name: &String) -> (quantity: Option<u64>)
        requires
            self.wf(),
        ensures
            quantity == if self@.dom().contains(name@) {
                Some(self@[name@])
            } else {
                None
            },
    {
        match self.find(name) {
            Some(i) => {
                proof {
                    self.lemma_entry_in_view(i as int);
                }
                Some(self.entries[i].quantity)
            },
            None => None,
        }
    }

    /// Sets the quantity of `name`. A name that the table did not have gets
    /// a new entry after the others.
    pub fn insert(&mut self, name: String, quantity: u64)
        requires
            old(self).wf(),
        ensures
            final(self).wf(),
            final(self)@ == old(self)@.insert(name@, quantity),
            final(self).names() == if old(self).names().contains(name@) {
                old(self).names()
            } else {
                old(self).names().push(name@)
            },
    {
        let ghost before = *self;
        match self.find(&name) {
            Some(i) => {
                self.entries.set(i, Ingredient { name, quantity });
                proof {
                    assert(self.names() =~= before.names());
                    assert(self.quantities() =~= before.quantities().update(i as int, quantity));
                    assert(self@ =~= before@.insert(name@, quantity)) by {
                        assert forall|n: Seq<char>| self.names().contains(n) implies self@[n]
                            == before@.insert(name@, quantity)[n] by {
                            let j = self.names().index_of(n);
                            assert(self.names()[j] == n);
                        }
                    }
                }
            },
            None => {
                self.entries.push(Ingredient { name, quantity });
                proof {
                    assert(self.names() =~= before.names().push(name@));
                    assert(self.quantities() =~= before.quantities().push(quantity));
                    assert(self@ =~= before@.insert(name@, quantity)) by {
                        assert(self.names()[before.names().len() as int] == name@);
                        assert forall|n: Seq<char>| self.names().contains(n) implies self@[n]
                            == before@.insert(name@, quantity)[n] by {
                            let j = self.names().index_of(n);
                            assert(self.names()[j] == n);
                            if n != name@ {
                                assert(before.names()[j] == n);
                                let k = before.names().index_of(n);
                                assert(before.names()[k] == n);
                                assert(self.names()[k] == n);
                            }
                        }
                        assert forall|n: Seq<char>|
                            before@.insert(name@, quantity).dom().contains(n) implies self.names().contains(n) by {
                            if n != name@ {
                                let k = before.names().index_of(n);
                                assert(before.names()[k] == n);
                                assert(self.names()[k] == n);
                            }
                        }
                    }
                }
            },
        }
    }
}

/// What a recipe yields from a stock: the number of times it can be made,
/// and the stock that is left.
pub struct Baked {
    pub cookies: u64,
    pub pantry: IngredientTable,
}

/// Why a recipe cannot be scaled.
#[derive(Clone, Copy, Debug, PartialEq, Eq, Structural)]
pub enum BakeError {
    /// The stock lacks an ingredient of which the recipe needs some.
    MissingIngredient,
    /// The recipe needs nothing, so nothing bounds the yield.
    NothingRequired,
}

/// The ingredients of which the recipe needs some: those with a requirement
/// above zero.
pub open spec fn required(recipe: Map<Seq<char>, u64>) -> Set<Seq<char>> {
    Set::new(|name: Seq<char>| recipe.dom().contains(name) && recipe[name] > 0)
}

/// What the recipe needs of `name` for one unit: nothing, if it does not
/// name it.
pub open spec fn need(recipe: Map<Seq<char>, u64>, name: Seq<char>) -> nat {
    if recipe.dom().contains(name) {
        recipe[name] as nat
    } else {
        0
    }
}

/// Whether `units` is the yield: the least of the ratios of stock to
/// requirement, each rounded down, over the required ingredients.
pub open spec fn is_yield(stock: Map<Seq<char>, u64>, recipe: Map<Seq<char>, u64>, units: nat) -> bool {
    &&& forall|name: Seq<char>| #[trigger]
        required(recipe).contains(name) ==> units <= stock[name] as nat / recipe[name] as nat
    &&& exists|name: Seq<char>| #[trigger]
        required(recipe).contains(name) && units == stock[name] as nat / recipe[name] as nat
}

/// Whether `left` is what remains of `stock` after the recipe was made
/// `units` times: the same ingredients, each less by its requirement times
/// `units`.
pub open spec fn is_leftover(
    stock: Map<Seq<char>, u64>,
    recipe: Map<Seq<char>, u64>,
    units: nat,
    left: Map<Seq<char>, u64>,
) -> bool {
    &&& left.dom() == stock.dom()
    &&& forall|name: Seq<char>| #[trigger]
        stock.dom().contains(name) ==> left[name] + need(recipe, name) * units == stock[name]
}

/// Whether `result` is what scaling `recipe` to `stock` gives: the yield and
/// the leftover where every required ingredient is in stock and there is
/// one; else the error that says which of the two fails.
pub open spec fn is_scaling(
    stock: Map<Seq<char>, u64>,
    recipe: Map<Seq<char>, u64>,
    result: Result<Baked, BakeError>,
) -> bool {
    match result {
        Ok(baked) => {
            &&& required(recipe).subset_of(stock.dom())
            &&& is_yield(stock, recipe, baked.cookies as nat)
            &&& baked.pantry.wf()
            &&& is_leftover(stock, recipe, baked.cookies as nat, baked.pantry@)
        },
        Err(BakeError::MissingIngredient) => exists|name: Seq<char>| #[trigger]
            required(recipe).contains(name) && !stock.dom().contains(name),
        Err(BakeError::NothingRequired) => forall|name: Seq<char>| !required(recipe).contains(name),
    }
}

/// Scales `recipe` to the stock in `pantry`.
///
/// The yield is the least ratio of stock to requirement over the ingredients
/// of which the recipe needs some; an ingredient with a requirement of zero
/// bounds nothing and keeps its stock. The leftover lists the ingredients in
/// the order of the pantry.
pub fn bake_recipe(recipe: &IngredientTable, pantry: &IngredientTable) -> (result: Result<
    Baked,
    BakeError,
>)
    requires
        recipe.wf(),
        pantry.wf(),
    ensures
        is_scaling(pantry@, recipe@, result),
        result matches Ok(baked) ==> baked.pantry.names() == pantry.names(),
{
    let mut least: Option<u64> = None;
    let mut i: usize = 0;
    while i < recipe.len()
        invariant
            recipe.wf(),
            pantry.wf(),
            i <= recipe.names().len(),
            recipe.names().len() == recipe.quantities().len(),
            forall|k: int|
                0 <= k < i && #[trigger] recipe.quantities()[k] > 0 ==> {
                    &&& pantry@.dom().contains(recipe.names()[k])
                    &&& least matches Some(l) && l <= pantry@[recipe.names()[k]] / recipe.quantities()[k]
                },
            least matches Some(l) ==> exists|k: int|
                0 <= k < i && #[trigger] recipe.quantities()[k] > 0 && l == pantry@[recipe.names()[k]]
                    / recipe.quantities()[k],
            least is None ==> forall|k: int| 0 <= k < i ==> #[trigger] recipe.quantities()[k] == 0,
        decreases recipe.names().len() - i,
    {
        let wanted = recipe.entry(i);
        if wanted.quantity > 0 {
            match pantry.get(&wanted.name) {
                None => {
                    assert(required(recipe@).contains(wanted.name@));
                    return Err(BakeError::MissingIngredient);
                },
                Some(have) => {
                    let ratio: u64 = have / wanted.quantity;
                    match least {
                        Some(l) => {
                            if ratio < l {
                                least = Some(ratio);
                            }
                        },
                        None => {
                            least = Some(ratio);
                        },
                    }
                    assert(recipe.quantities()[i as int] > 0 && least->0 <= ratio);
                },
            }
        }
        i += 1;
    }
    proof {
        recipe.lemma_same_length();
    }
    let units: u64 = match least {
        Some(l) => l,
        None => {
            proof {
                assert forall|name: Seq<char>| !required(recipe@).contains(name) by {
                    if required(recipe@).contains(name) {
                        let k = recipe.names().index_of(name);
                        assert(recipe.names()[k] == name);
                        assert(recipe.quantities()[k] == 0);
                    }
                }
            }
            return Err(BakeError::NothingRequired);
        },
    };
    proof {
        assert forall|name: Seq<char>| #[trigger] required(recipe@).contains(name) implies {
            &&& pantry@.dom().contains(name)
            &&& units as nat <= pantry@[name] as nat / recipe@[name] as nat
        } by {
            let k = recipe.names().index_of(name);
            assert(recipe.names()[k] == name);
            assert(recipe.quantities()[k] > 0);
        }
        let k = choose|k: int|
            0 <= k < recipe.names().len() && #[trigger] recipe.quantities()[k] > 0 && units
                == pantry@[recipe.names()[k]] / recipe.quantities()[k];
        recipe.lemma_entry_in_view(k);
        assert(required(recipe@).contains(recipe.names()[k]));
    }
    let mut left = IngredientTable { entries: Vec::new() };
    let mut j: usize = 0;
    proof {
        pantry.lemma_same_length();
        assert(left.names() =~= pantry.names().take(0));
    }
    while j < pantry.len()
        invariant
            recipe.wf(),
            pantry.wf(),
            j <= pantry.names().len(),
            pantry.names().len() == pantry.quantities().len(),
            left.names() == pantry.names().take(j as int),
            left.quantities().len() == j,
            forall|name: Seq<char>| #[trigger]
                required(recipe@).contains(name) ==> {
                    &&& pantry@.dom().contains(name)
                    &&& units as nat <= pantry@[name] as nat / recipe@[name] as nat
                },
            forall|k: int|
                0 <= k < j ==> #[trigger] left.quantities()[k] + need(recipe@, pantry.names()[k]) * units
                    == pantry.quantities()[k],
        decreases pantry.names().len() - j,
    {
        let have = pantry.entry(j);
        let per_unit: u64 = match recipe.get(&have.name) {
            Some(n) => n,
            None => 0,
        };
        assert(per_unit == need(recipe@, have.name@));
        assert(per_unit * units <= have.quantity) by {
            if per_unit > 0 {
                assert(required(recipe@).contains(have.name@));
                let q = have.quantity as nat;
                let n = per_unit as nat;
                let u = units as nat;
                assert(n * u <= q) by (nonlinear_arith)
                    requires
                        n > 0,
                        u <= q / n,
                ;
            } else {
                assert(per_unit * units == 0) by (nonlinear_arith)
                    requires
                        per_unit == 0,
                ;
            }
        }
        let remaining: u64 = have.quantity - per_unit * units;
        let ghost before = left;
        left.entries.push(Ingredient { name: have.name.clone(), quantity: remaining });
        proof {
            assert(left.names() =~= before.names().push(have.name@));
            assert(left.quantities() =~= before.quantities().push(remaining));
            assert(left.names() =~= pantry.names().take(j + 1));
        }
        j += 1;
    }
    proof {
        assert(left.names() =~= pantry.names());
        assert(left@.dom() =~= pantry@.dom());
        assert forall|name: Seq<char>| #[trigger] pantry@.dom().contains(name) implies left@[name]
            + need(recipe@, name) * units == pantry@[name] by {
            let k = pantry.names().index_of(name);
            assert(pantry.names()[k] == name);
            assert(left.quantities()[k] + need(recipe@, pantry.names()[k]) * units
                == pantry.quantities()[k]);
        }
        assert(required(recipe@).subset_of(pantry@.dom()));
    }
    Ok(Baked { cookies: units, pantry: left })
}

/// A stock and a recipe have at most one yield.
pub proof fn lemma_yield_is_unique(
    stock: Map<Seq<char>, u64>,
    recipe: Map<Seq<char>, u64>,
    units: nat,
    other: nat,
)
    requires
        is_yield(stock, recipe, units),
        is_yield(stock, recipe, other),
    ensures
        units == other,
{
    let a = choose|name: Seq<char>| #[trigger]
        required(recipe).contains(name) && units == stock[name] as nat / recipe[name] as nat;
    let b = choose|name: Seq<char>| #[trigger]
        required(recipe).contains(name) && other == stock[name] as nat / recipe[name] as nat;
    assert(required(recipe).contains(a));
    assert(required(recipe).contains(b));
}

/// A stock, a recipe and a yield have at most one leftover.
pub proof fn lemma_leftover_is_unique(
    stock: Map<Seq<char>, u64>,
    recipe: Map<Seq<char>, u64>,
    units: nat,
    left: Map<Seq<char>, u64>,
    other: Map<Seq<char>, u64>,
)
    requires
        is_leftover(stock, recipe, units, left),
        is_leftover(stock, recipe, units, other),
    ensures
        left == other,
{
    assert forall|name: Seq<char>| left.dom().contains(name) implies left[name] == other[name] by {
        assert(stock.dom().contains(name));
    }
    assert(left =~= other);
}

/// An ingredient with a requirement of zero has no part in the yield,
/// whatever its stock, be it zero too: the yield is the same with any other
/// stock of it, and the same for the recipe without it.
pub proof fn lemma_zero_requirement_bounds_nothing(
    stock: Map<Seq<char>, u64>,
    recipe: Map<Seq<char>, u64>,
    name: Seq<char>,
    any_stock: u64,
    units: nat,
)
    requires
        recipe.dom().contains(name),
        recipe[name] == 0,
    ensures
        !required(recipe).contains(name),
        is_yield(stock, recipe, units) <==> is_yield(stock.insert(name, any_stock), recipe, units),
        is_yield(stock, recipe, units) <==> is_yield(stock, recipe.remove(name), units),
{
    let stock2 = stock.insert(name, any_stock);
    let recipe2 = recipe.remove(name);
    assert(required(recipe2) =~= required(recipe));
    assert forall|n: Seq<char>| #[trigger] required(recipe).contains(n) implies stock2[n] == stock[n]
        && recipe2[n] == recipe[n] by {}
    if is_yield(stock, recipe, units) {
        let w = choose|n: Seq<char>| #[trigger]
            required(recipe).contains(n) && units == stock[n] as nat / recipe[n] as nat;
        assert(required(recipe).contains(w));
        assert(required(recipe2).contains(w) && units == stock[w] as nat / recipe2[w] as nat);
        assert(required(recipe).contains(w) && units == stock2[w] as nat / recipe[w] as nat);
        assert forall|n: Seq<char>| #[trigger] required(recipe2).contains(n) implies units
            <= stock[n] as nat / recipe2[n] as nat by {
            assert(required(recipe).contains(n));
        }
    }
    if is_yield(stock2, recipe, units) {
        let w = choose|n: Seq<char>| #[trigger]
            required(recipe).contains(n) && units == stock2[n] as nat / recipe[n] as nat;
        assert(required(recipe).contains(w) && units == stock[w] as nat / recipe[w] as nat);
    }
    if is_yield(stock, recipe2, units) {
        let w = choose|n: Seq<char>| #[trigger]
            required(recipe2).contains(n) && units == stock[n] as nat / recipe2[n] as nat;
        assert(required(recipe).contains(w) && units == stock[w] as nat / recipe[w] as nat);
        assert forall|n: Seq<char>| #[trigger] required(recipe).contains(n) implies units
            <= stock[n] as nat / recipe[n] as nat by {
            assert(required(recipe2).contains(n));
        }
    }
}

/// An ingredient of which the recipe needs nothing keeps its stock.
pub proof fn lemma_unneeded_stock_is_kept(
    stock: Map<Seq<char>, u64>,
    recipe: Map<Seq<char>, u64>,
    units: nat,
    left: Map<Seq<char>, u64>,
    name: Seq<char>,
)
    requires
        is_leftover(stock, recipe, units, left),
        stock.dom().contains(name),
        need(recipe, name) == 0,
    ensures
        left[name] == stock[name],
{
    assert(left[name] + need(recipe, name) * units == stock[name]);
    assert(need(recipe, name) * units == 0) by (nonlinear_arith)
        requires
            need(recipe, name) == 0,
    ;
}

/// The yield and the leftover are functions of the stock and the recipe:
/// two scalings of the same two, each as `bake_recipe` promises it, agree.
pub proof fn lemma_scaling_is_determined(
    stock: Map<Seq<char>, u64>,
    recipe: Map<Seq<char>, u64>,
    units_a: nat,
    left_a: Map<Seq<char>, u64>,
    units_b: nat,
    left_b: Map<Seq<char>, u64>,
)
    requires
        is_yield(stock, recipe, units_a),
        is_leftover(stock, recipe, units_a, left_a),
        is_yield(stock, recipe, units_b),
        is_leftover(stock, recipe, units_b, left_b),
    ensures
        units_a == units_b,
        left_a == left_b,
{
    lemma_yield_is_unique(stock, recipe, units_a, units_b);
    lemma_leftover_is_unique(stock, recipe, units_a, left_a, left_b);
}

/// Quantities of the five ingredients of a cookie.
#[derive(Clone, Copy, Debug, PartialEq, Eq, Structural)]
pub struct Recipe {
    pub flour: u64,
    pub sugar: u64,
    pub butter: u64,
    pub baking_powder: u64,
    pub chocolate_chips: u64,
}

/// A recipe for one cookie and the stock to bake from.
#[derive(Clone, Copy, Debug, PartialEq, Eq, Structural)]
pub struct FullRecipe {
    pub recipe: Recipe,
    pub pantry: Recipe,
}

impl Recipe {
    /// The quantities by the names of their ingredients.
    pub open spec fn as_map(self) -> Map<Seq<char>, u64> {
        Map::<Seq<char>, u64>::empty().insert("flour"@, self.flour).insert(
            "sugar"@,
            self.sugar,
        ).insert("butter"@, self.butter).insert("baking powder"@, self.baking_powder).insert(
            "chocolate chips"@,
            self.chocolate_chips,
        )
    }

    /// The quantities as a table.
    pub fn to_table(&self) -> (table: IngredientTable)
        ensures
            table.wf(),
            table@ == self.as_map(),
    {
        let mut table = IngredientTable::new();
        table.insert(String::from_str("flour"), self.flour);
        table.insert(String::from_str("sugar"), self.sugar);
        table.insert(String::from_str("butter"), self.butter);
        table.insert(String::from_str("baking powder"), self.baking_powder);
        table.insert(String::from_str("chocolate chips"), self.chocolate_chips);
        table
    }
}

impl FullRecipe {
    /// Scales the recipe to the pantry.
    pub fn bake(&self) -> (result: Result<Baked, BakeError>)
        ensures
            is_scaling(self.pantry.as_map(), self.recipe.as_map(), result),
    {
        let recipe = self.recipe.to_table();
        let pantry = self.pantry.to_table();
        bake_recipe(&recipe, &pantry)
    }
}

} // verus!
