//! The crafting recipe of an item: its ingredients resolved to display names.
use crate::catalog::Item;
use vstd::prelude::*;

verus! {

/// The ingredient list names an item that the catalog does not hold.
#[derive(Clone, Copy, Debug, PartialEq, Eq, Structural)]
pub enum RecipeError {
    IndexOutOfRange(usize),
}

/// A mapping from ingredient display name to the quantity needed.
pub struct Recipe {
    entries: Vec<(String, u16)>,
}

/// The mapping that a list of (name, quantity) entries stands for, later
/// entries overriding earlier ones.
pub open spec fn entries_map(e: Seq<(String, u16)>) -> Map<Seq<char>, u16>
    decreases e.len(),
{
    if e.len() == 0 {
        Map::empty()
    } else {
        entries_map(e.drop_last()).insert(e.last().0@, e.last().1)
    }
}

/// No name stands twice among the entries.
pub open spec fn keys_distinct(e: Seq<(String, u16)>) -> bool {
    forall|i: int, j: int| 0 <= i < e.len() && 0 <= j < e.len() && i != j ==> #[trigger] e[i].0@ != #[trigger] e[j].0@
}

impl View for Recipe {
    type V = Map<Seq<char>, u16>;

    closed spec fn view(&self) -> Map<Seq<char>, u16> {
        entries_map(self.entries@)
    }
}

proof fn lemma_entries_dom(e: Seq<(String, u16)>, k: Seq<char>)
    ensures
        entries_map(e).dom().contains(k) <==> exists|i: int| 0 <= i < e.len() && #[trigger] e[i].0@ == k,
    decreases e.len(),
{
    if e.len() > 0 {
        lemma_entries_dom(e.drop_last(), k);
        if entries_map(e.drop_last()).dom().contains(k) {
            let i = choose|i: int| 0 <= i < e.drop_last().len() && #[trigger] e.drop_last()[i].0@ == k;
            assert(e[i].0@ == k);
        }
        if exists|i: int| 0 <= i < e.len() && #[trigger] e[i].0@ == k {
            let i = choose|i: int| 0 <= i < e.len() && #[trigger] e[i].0@ == k;
            if i < e.len() - 1 {
                assert(e.drop_last()[i].0@ == k);
            }
        }
    }
}

proof fn lemma_entries_value(e: Seq<(String, u16)>, i: int)
    requires
        keys_distinct(e),
        0 <= i < e.len(),
    ensures
        entries_map(e).dom().contains(e[i].0@),
        entries_map(e)[e[i].0@] == e[i].1,
    decreases e.len(),
{
    lemma_entries_dom(e, e[i].0@);
    if i < e.len() - 1 {
        assert(keys_distinct(e.drop_last()));
        lemma_entries_value(e.drop_last(), i);
        assert(e[i].0@ != e[e.len() - 1].0@);
    }
}

impl Recipe {
    /// Well-formed: each ingredient name stands once.
    pub closed spec fn wf(&self) -> bool {
        keys_distinct(self.entries@)
    }

    /// A recipe without ingredients.
    pub fn new() -> (r: Recipe)
        ensures
            r.wf(),
            r@ == Map::<Seq<char>, u16>::empty(),
    {
        Recipe { entries: Vec::new() }
    }

    /// Sets the quantity needed of `name`, replacing any earlier one.
    pub fn set(&mut self, name: String, quantity: u16)
        requires
            old(self).wf(),
        ensures
            final(self).wf(),
            final(self)@ == old(self)@.insert(name@, quantity),
    {
        let mut j: usize = 0;
        while j < self.entries.len()
            invariant
                self.wf(),
                self.entries@ == old(self).entries@,
                j <= self.entries@.len(),
                forall|i: int| 0 <= i < j ==> #[trigger] self.entries@[i].0@ != name@,
            decreases self.entries@.len() - j,
        {
            if self.entries[j].0 == name {
                let ghost before = self.entries@;
                self.entries[j].1 = quantity;
                proof {
                    let after = self.entries@;
                    assert(keys_distinct(after));
                    assert forall|k: Seq<char>| #[trigger] entries_map(after).dom().contains(k)
                        <==> entries_map(before).insert(name@, quantity).dom().contains(k) by {
                        lemma_entries_dom(after, k);
                        lemma_entries_dom(before, k);
                        if exists|i: int| 0 <= i < before.len() && #[trigger] before[i].0@ == k {
                            let i = choose|i: int| 0 <= i < before.len() && #[trigger] before[i].0@ == k;
                            assert(after[i].0@ == k);
                        }
                        if exists|i: int| 0 <= i < after.len() && #[trigger] after[i].0@ == k {
                            let i = choose|i: int| 0 <= i < after.len() && #[trigger] after[i].0@ == k;
                            assert(before[i].0@ == k);
                        }
                    }
                    assert forall|k: Seq<char>| #[trigger] entries_map(after).dom().contains(k)
                        implies entries_map(after)[k] == entries_map(before).insert(name@, quantity)[k] by {
                        lemma_entries_dom(after, k);
                        let i = choose|i: int| 0 <= i < after.len() && #[trigger] after[i].0@ == k;
                        lemma_entries_value(after, i);
                        lemma_entries_value(before, i);
                    }
                    assert(entries_map(after) =~= entries_map(before).insert(name@, quantity));
                }
                return;
            }
            j = j + 1;
        }
        let ghost before = self.entries@;
        self.entries.push((name, quantity));
        proof {
            assert(self.entries@.drop_last() =~= before);
        }
    }

    /// How many distinct ingredients the recipe names.
    pub fn len(&self) -> (r: usize)
        requires
            self.wf(),
        ensures
            r == self@.dom().len(),
    {
        proof {
            lemma_entries_len(self.entries@);
        }
        self.entries.len()
    }

    /// The `k`-th ingredient and its quantity, in the order in which the
    /// names were first set.
    pub fn entry(&self, k: usize) -> (r: (&String, u16))
        requires
            self.wf(),
            k < self@.dom().len(),
        ensures
            self@.dom().contains(r.0@),
            self@[r.0@] == r.1,
    {
        proof {
            lemma_entries_len(self.entries@);
            lemma_entries_value(self.entries@, k as int);
        }
        let e = &self.entries[k];
        (&e.0, e.1)
    }

    /// The quantity needed of the ingredient called `name`, if the recipe
    /// names it.
    pub fn get(&self, name: &str) -> (r: Option<u16>)
        requires
            self.wf(),
        ensures
            r == (if self@.dom().contains(name@) { Some(self@[name@]) } else { None::<u16> }),
    {
        let key = name.to_owned();
        let mut j: usize = 0;
        while j < self.entries.len()
            invariant
                self.wf(),
                key@ == name@,
                j <= self.entries@.len(),
                forall|i: int| 0 <= i < j ==> #[trigger] self.entries@[i].0@ != name@,
            decreases self.entries@.len() - j,
        {
            if self.entries[j].0 == key {
                proof {
                    lemma_entries_value(self.entries@, j as int);
                }
                return Some(self.entries[j].1);
            }
            j = j + 1;
        }
        proof {
            lemma_entries_dom(self.entries@, name@);
        }
        None
    }
}

proof fn lemma_entries_len(e: Seq<(String, u16)>)
    requires
        keys_distinct(e),
    ensures
        entries_map(e).dom().finite(),
        entries_map(e).dom().len() == e.len(),
    decreases e.len(),
{
    if e.len() > 0 {
        let rest = e.drop_last();
        assert(keys_distinct(rest));
        lemma_entries_len(rest);
        lemma_entries_dom(rest, e.last().0@);
        if entries_map(rest).dom().contains(e.last().0@) {
            let i = choose|i: int| 0 <= i < rest.len() && #[trigger] rest[i].0@ == e.last().0@;
            assert(e[i].0@ == e[e.len() - 1].0@);
        }
    }
}

/// The display name of the catalog item that an ingredient pair points at.
pub open spec fn ingredient_name(items: Seq<Item>, pair: [u16; 2]) -> Seq<char> {
    items[pair[0] as int].display_name@
}

/// The recipe that an ingredient list resolves to: each pair maps the display
/// name of the item at its index to its quantity, later pairs overriding
/// earlier ones; the first index outside the catalog is an error.
pub open spec fn resolve_spec(items: Seq<Item>, ingredients: Seq<[u16; 2]>) -> Result<
    Map<Seq<char>, u16>,
    RecipeError,
>
    decreases ingredients.len(),
{
    if ingredients.len() == 0 {
        Ok(Map::empty())
    } else {
        let pair = ingredients.last();
        match resolve_spec(items, ingredients.drop_last()) {
            Err(e) => Err(e),
            Ok(m) => if (pair[0] as int) < items.len() {
                Ok(m.insert(ingredient_name(items, pair), pair[1]))
            } else {
                Err(RecipeError::IndexOutOfRange(pair[0] as usize))
            },
        }
    }
}

proof fn lemma_error_persists(items: Seq<Item>, ingredients: Seq<[u16; 2]>, j: int, n: int)
    requires
        0 <= j <= n <= ingredients.len(),
        resolve_spec(items, ingredients.take(j)) is Err,
    ensures
        resolve_spec(items, ingredients.take(n)) == resolve_spec(items, ingredients.take(j)),
    decreases n - j,
{
    if n > j {
        lemma_error_persists(items, ingredients, j, n - 1);
        assert(ingredients.take(n).drop_last() =~= ingredients.take(n - 1));
    }
}

/// Resolves an ingredient list against the catalog into a recipe.
pub fn get_recipe(all_items: &Vec<Item>, item: &Vec<[u16; 2]>) -> (r: Result<Recipe, RecipeError>)
    ensures
        match r {
            Ok(recipe) => recipe.wf() && resolve_spec(all_items@, item@) == Ok::<
                Map<Seq<char>, u16>,
                RecipeError,
            >(recipe@),
            Err(e) => resolve_spec(all_items@, item@) == Err::<Map<Seq<char>, u16>, RecipeError>(e),
        },
{
    let mut recipe = Recipe::new();
    let mut j: usize = 0;
    while j < item.len()
        invariant
            j <= item@.len(),
            recipe.wf(),
            resolve_spec(all_items@, item@.take(j as int)) == Ok::<
                Map<Seq<char>, u16>,
                RecipeError,
            >(recipe@),
        decreases item@.len() - j,
    {
        let pair = item[j];
        let index = pair[0] as usize;
        let quantity = pair[1];
        assert(item@.take(j + 1).drop_last() =~= item@.take(j as int));
        if index >= all_items.len() {
            proof {
                lemma_error_persists(all_items@, item@, j + 1, item@.len() as int);
                assert(item@.take(item@.len() as int) =~= item@);
            }
            return Err(RecipeError::IndexOutOfRange(index));
        }
        let name = all_items[index].display_name.clone();
        recipe.set(name, quantity);
        j = j + 1;
    }
    assert(item@.take(item@.len() as int) =~= item@);
    Ok(recipe)
}

/// Every index of the list lies inside the catalog.
pub open spec fn indices_in_range(items: Seq<Item>, ingredients: Seq<[u16; 2]>) -> bool {
    forall|j: int| 0 <= j < ingredients.len() ==> (#[trigger] ingredients[j][0] as int) < items.len()
}

/// Resolving fails exactly when some index lies outside the catalog, and it
/// then names the first such index: there is no partial recipe.
pub proof fn lemma_resolve_fails_on_bad_index(items: Seq<Item>, ingredients: Seq<[u16; 2]>)
    ensures
        resolve_spec(items, ingredients) is Ok <==> indices_in_range(items, ingredients),
        resolve_spec(items, ingredients) is Err ==> exists|j: int|
            0 <= j < ingredients.len() && resolve_spec(items, ingredients)
                == Err::<Map<Seq<char>, u16>, RecipeError>(
                RecipeError::IndexOutOfRange(#[trigger] ingredients[j][0] as usize),
            ) && items.len() <= ingredients[j][0] as int && indices_in_range(
                items,
                ingredients.take(j),
            ),
    decreases ingredients.len(),
{
    if ingredients.len() > 0 {
        let rest = ingredients.drop_last();
        let n = ingredients.len() - 1;
        lemma_resolve_fails_on_bad_index(items, rest);
        if resolve_spec(items, rest) is Err {
            let j = choose|j: int|
                0 <= j < rest.len() && resolve_spec(items, rest) == Err::<
                    Map<Seq<char>, u16>,
                    RecipeError,
                >(RecipeError::IndexOutOfRange(#[trigger] rest[j][0] as usize)) && items.len()
                    <= rest[j][0] as int && indices_in_range(items, rest.take(j));
            assert(rest.take(j) =~= ingredients.take(j));
            assert(ingredients[j] == rest[j]);
        } else if (ingredients[n][0] as int) >= items.len() {
            assert(rest =~= ingredients.take(n));
        } else {
            assert forall|j: int| 0 <= j < ingredients.len() implies (#[trigger] ingredients[j][0] as int)
                < items.len() by {
                if j < n {
                    assert(ingredients[j] == rest[j]);
                }
            }
        }
        if indices_in_range(items, ingredients) {
            assert forall|j: int| 0 <= j < rest.len() implies (#[trigger] rest[j][0] as int)
                < items.len() by {
                assert(ingredients[j] == rest[j]);
            }
        }
    }
}

/// With every index inside the catalog, the recipe has exactly one entry for
/// each distinct ingredient name, and a name's quantity is that of its last
/// pair in the list.
pub proof fn lemma_resolve_last_wins(items: Seq<Item>, ingredients: Seq<[u16; 2]>)
    requires
        indices_in_range(items, ingredients),
    ensures
        resolve_spec(items, ingredients) is Ok,
        resolve_spec(items, ingredients)->Ok_0.dom() == Set::new(
            |name: Seq<char>|
                exists|j: int|
                    0 <= j < ingredients.len() && #[trigger] ingredient_name(items, ingredients[j])
                        == name,
        ),
        forall|j: int|
            0 <= j < ingredients.len() && (forall|k: int|
                j < k < ingredients.len() ==> ingredient_name(items, #[trigger] ingredients[k])
                    != ingredient_name(items, ingredients[j])) ==> resolve_spec(
                items,
                ingredients,
            )->Ok_0[#[trigger] ingredient_name(items, ingredients[j])] == ingredients[j][1],
    decreases ingredients.len(),
{
    lemma_resolve_fails_on_bad_index(items, ingredients);
    if ingredients.len() > 0 {
        let rest = ingredients.drop_last();
        let n = ingredients.len() - 1;
        assert forall|j: int| 0 <= j < rest.len() implies (#[trigger] rest[j][0] as int)
            < items.len() by {
            assert(ingredients[j] == rest[j]);
        }
        lemma_resolve_last_wins(items, rest);
        let m = resolve_spec(items, rest)->Ok_0;
        let full = resolve_spec(items, ingredients)->Ok_0;
        assert(full == m.insert(ingredient_name(items, ingredients[n]), ingredients[n][1]));
        assert forall|name: Seq<char>| full.dom().contains(name) <==> exists|j: int|
            0 <= j < ingredients.len() && #[trigger] ingredient_name(items, ingredients[j])
                == name by {
            if exists|j: int|
                0 <= j < rest.len() && #[trigger] ingredient_name(items, rest[j]) == name {
                let j = choose|j: int|
                    0 <= j < rest.len() && #[trigger] ingredient_name(items, rest[j]) == name;
                assert(ingredients[j] == rest[j]);
            }
            if exists|j: int|
                0 <= j < ingredients.len() && #[trigger] ingredient_name(items, ingredients[j])
                    == name {
                let j = choose|j: int|
                    0 <= j < ingredients.len() && #[trigger] ingredient_name(items, ingredients[j])
                        == name;
                if j < n {
                    assert(ingredients[j] == rest[j]);
                    assert(ingredient_name(items, rest[j]) == name);
                }
            }
        }
        assert(full.dom() =~= Set::new(
            |name: Seq<char>|
                exists|j: int|
                    0 <= j < ingredients.len() && #[trigger] ingredient_name(items, ingredients[j])
                        == name,
        ));
        assert forall|j: int|
            0 <= j < ingredients.len() && (forall|k: int|
                j < k < ingredients.len() ==> ingredient_name(items, #[trigger] ingredients[k])
                    != ingredient_name(items, ingredients[j])) implies full[#[trigger] ingredient_name(
            items,
            ingredients[j],
        )] == ingredients[j][1] by {
            if j < n {
                assert(ingredients[j] == rest[j]);
                assert(ingredient_name(items, ingredients[n]) != ingredient_name(items, ingredients[j]));
                assert forall|k: int| j < k < rest.len() implies ingredient_name(items, #[trigger] rest[k])
                    != ingredient_name(items, rest[j]) by {
                    assert(ingredients[k] == rest[k]);
                }
            }
        }
    }
}

} // verus!
