use item_browser::catalog::{contains_folded, search_items, Item};
use item_browser::recipe::{get_recipe, Recipe, RecipeError};
use item_browser::ui::{Display, Flow, Key, Ui, DETAIL_FIELDS, INGREDIENTS_FIELD};
use item_browser::window::format_range;

fn item(display_name: &str, ingredients: Vec<[u16; 2]>) -> Item {
    Item {
        id: 0,
        name: display_name.to_lowercase().replace(' ', "_"),
        display_name: display_name.to_string(),
        station: String::new(),
        ingredients,
        quantity: 1,
        acquisition: String::new(),
        wiki: String::new(),
    }
}

fn planks_and_sticks() -> Vec<Item> {
    vec![item("Wood Plank", vec![]), item("Stick", vec![[0, 2]])]
}

fn type_text(ui: &mut Ui, items: &Vec<Item>, text: &str) {
    for c in text.chars() {
        assert_eq!(ui.handle_key(items, Key::Char(c)), Ok(Flow::Continue));
    }
}

fn press(ui: &mut Ui, items: &Vec<Item>, key: Key, times: usize) {
    for _ in 0..times {
        assert_eq!(ui.handle_key(items, key), Ok(Flow::Continue));
    }
}

#[test]
fn scenario_typing_then_confirm_opens_details() {
    let items = planks_and_sticks();
    let mut ui = Ui::start(&items);
    assert_eq!(ui.results, vec![0, 1]);
    type_text(&mut ui, &items, "stick");
    assert_eq!(ui.search, "stick");
    assert_eq!(ui.results, vec![1]);
    assert_eq!(ui.query_i, 0);
    assert_eq!(ui.handle_key(&items, Key::Enter), Ok(Flow::Continue));
    assert!(matches!(ui.display, Display::ItemDetails(1)));
    assert_eq!(ui.item_i, 0);
}

#[test]
fn scenario_ingredients_field_opens_crafting() {
    let items = planks_and_sticks();
    let mut ui = Ui::start(&items);
    type_text(&mut ui, &items, "stick");
    press(&mut ui, &items, Key::Enter, 1);
    press(&mut ui, &items, Key::Down, 2);
    assert_eq!(ui.item_i, INGREDIENTS_FIELD);
    assert_eq!(ui.handle_key(&items, Key::Enter), Ok(Flow::Continue));
    match &ui.display {
        Display::Crafting(i, recipe) => {
            assert_eq!(*i, 1);
            assert_eq!(recipe.len(), 1);
            assert_eq!(recipe.get("Wood Plank"), Some(2));
        }
        _ => panic!("expected the crafting view"),
    }
    assert_eq!(ui.crafting_i, 0);
}

#[test]
fn scenario_empty_catalog() {
    let items: Vec<Item> = vec![];
    let mut ui = Ui::start(&items);
    assert!(ui.results.is_empty());
    press(&mut ui, &items, Key::Enter, 1);
    assert!(matches!(ui.display, Display::Query));
    press(&mut ui, &items, Key::Down, 1);
    assert_eq!(ui.query_i, 0);
    press(&mut ui, &items, Key::Up, 1);
    assert_eq!(ui.query_i, 0);
    assert!(matches!(ui.display, Display::Query));
    assert_eq!(ui.handle_key(&items, Key::Esc), Ok(Flow::Quit));
}

#[test]
fn scenario_window_near_the_end() {
    assert_eq!(format_range(15, 20, 10), (12..20, 3));
}

#[test]
fn window_whole_list_when_it_fits() {
    assert_eq!(format_range(3, 8, 10), (0..8, 3));
    assert_eq!(format_range(0, 5, 10), (0..5, 0));
    assert_eq!(format_range(4, 5, 10), (0..5, 4));
}

#[test]
fn window_pinned_to_top_near_start() {
    assert_eq!(format_range(3, 20, 10), (0..8, 3));
    assert_eq!(format_range(0, 20, 10), (0..8, 0));
}

#[test]
fn window_centres_in_the_middle() {
    // rows 8, half 4: top = 4 + 4 + 2 = 10, bottom = 2.
    assert_eq!(format_range(4, 20, 10), (2..10, 2));
    // rows 10, half 5: top = 10 + 5 + 2 = 17, bottom = 7.
    assert_eq!(format_range(10, 100, 12), (7..17, 3));
}

#[test]
fn window_empty_list_and_no_rows() {
    assert_eq!(format_range(0, 0, 10), (0..0, 0));
    assert_eq!(format_range(0, 5, 2), (0..0, 0));
    assert_eq!(format_range(0, 5, 0), (0..0, 0));
}

#[test]
fn window_keeps_selection_inside_for_small_screens() {
    // One usable row: the window is the selected row itself.
    assert_eq!(format_range(0, 5, 3), (0..1, 0));
    assert_eq!(format_range(4, 5, 3), (4..5, 0));
    for avail in 3..14usize {
        for len in 0..30usize {
            for index in 0..len {
                let (range, rel) = format_range(index, len, avail);
                assert!(range.end - range.start <= avail - 2);
                assert!(range.end <= len);
                assert!(rel < range.end - range.start);
                assert_eq!(range.start + rel, index);
            }
        }
    }
}

#[test]
fn search_empty_query_finds_all() {
    let items = vec![item("Wood Plank", vec![]), item("Stick", vec![]), item("Torch", vec![])];
    let all = search_items("", &items);
    assert_eq!(all, vec![0, 1, 2]);
    for q in ["o", "wood", "t", "zzz"] {
        for k in search_items(q, &items) {
            assert!(all.contains(&k));
        }
    }
    assert_eq!(search_items("o", &items), vec![0, 2]);
    assert_eq!(search_items("zzz", &items), Vec::<usize>::new());
}

#[test]
fn search_longer_query_finds_fewer() {
    let items = vec![item("Wood Plank", vec![]), item("Wood Sword", vec![]), item("Stone", vec![])];
    assert_eq!(search_items("wo", &items), vec![0, 1]);
    assert_eq!(search_items("wood s", &items), vec![1]);
}

#[test]
fn search_ignores_case() {
    let items = vec![item("ABCdef", vec![]), item("xabcx", vec![]), item("other", vec![])];
    assert_eq!(search_items("ABC", &items), search_items("abc", &items));
    assert_eq!(search_items("ABC", &items), vec![0, 1]);
    assert_eq!(search_items("STICK", &planks_and_sticks()), vec![1]);
}

#[test]
fn contains_folded_finds_runs() {
    assert!(contains_folded("stick", "tic"));
    assert!(contains_folded("stick", ""));
    assert!(contains_folded("", ""));
    assert!(contains_folded("stick", "stick"));
    assert!(!contains_folded("stick", "sticks"));
    assert!(!contains_folded("stick", "sk"));
    assert!(!contains_folded("Stick", "stick"));
}

#[test]
fn recipe_last_pair_wins() {
    let items = vec![item("Wood Plank", vec![]), item("Stick", vec![]), item("Wood Plank", vec![])];
    let recipe = get_recipe(&items, &vec![[0, 1], [1, 3], [0, 5]]).unwrap();
    assert_eq!(recipe.len(), 2);
    assert_eq!(recipe.get("Wood Plank"), Some(5));
    assert_eq!(recipe.get("Stick"), Some(3));
    assert_eq!(recipe.get("Torch"), None);
    // Two indices with the same display name share one entry.
    let recipe = get_recipe(&items, &vec![[2, 4], [1, 1], [0, 6]]).unwrap();
    assert_eq!(recipe.len(), 2);
    assert_eq!(recipe.get("Wood Plank"), Some(6));
}

#[test]
fn recipe_empty_ingredients() {
    let items = planks_and_sticks();
    let recipe = get_recipe(&items, &vec![]).unwrap();
    assert_eq!(recipe.len(), 0);
}

#[test]
fn recipe_index_out_of_range() {
    let items = planks_and_sticks();
    assert_eq!(get_recipe(&items, &vec![[0, 1], [7, 2], [9, 1]]).err(), Some(RecipeError::IndexOutOfRange(7)));
    assert_eq!(get_recipe(&items, &vec![[2, 1]]).err(), Some(RecipeError::IndexOutOfRange(2)));
    assert_eq!(get_recipe(&vec![], &vec![[0, 1]]).err(), Some(RecipeError::IndexOutOfRange(0)));
}

#[test]
fn recipe_set_and_get() {
    let mut recipe = Recipe::new();
    assert_eq!(recipe.len(), 0);
    recipe.set("Gel".to_string(), 3);
    recipe.set("Torch".to_string(), 1);
    recipe.set("Gel".to_string(), 9);
    assert_eq!(recipe.len(), 2);
    assert_eq!(recipe.get("Gel"), Some(9));
    assert_eq!(recipe.get("Torch"), Some(1));
}

#[test]
fn down_once_per_result_wraps_around() {
    let items = vec![item("Wood Plank", vec![]), item("Stick", vec![]), item("Torch", vec![])];
    let mut ui = Ui::start(&items);
    press(&mut ui, &items, Key::Down, 1);
    assert_eq!(ui.query_i, 1);
    press(&mut ui, &items, Key::Down, 3);
    assert_eq!(ui.query_i, 1);
    press(&mut ui, &items, Key::Down, 2);
    assert_eq!(ui.query_i, 0);
}

#[test]
fn up_from_first_goes_to_last() {
    let items = vec![item("Wood Plank", vec![]), item("Stick", vec![]), item("Torch", vec![])];
    let mut ui = Ui::start(&items);
    press(&mut ui, &items, Key::Up, 1);
    assert_eq!(ui.query_i, 2);
    press(&mut ui, &items, Key::Up, 1);
    assert_eq!(ui.query_i, 1);
}

#[test]
fn details_fields_wrap() {
    let items = planks_and_sticks();
    let mut ui = Ui::start(&items);
    press(&mut ui, &items, Key::Enter, 1);
    press(&mut ui, &items, Key::Up, 1);
    assert_eq!(ui.item_i, DETAIL_FIELDS - 1);
    press(&mut ui, &items, Key::Down, 1);
    assert_eq!(ui.item_i, 0);
}

#[test]
fn backspace_edits_search() {
    let items = planks_and_sticks();
    let mut ui = Ui::start(&items);
    press(&mut ui, &items, Key::Backspace, 1);
    assert_eq!(ui.search, "");
    assert_eq!(ui.results, vec![0, 1]);
    type_text(&mut ui, &items, "sz");
    assert!(ui.results.is_empty());
    press(&mut ui, &items, Key::Backspace, 1);
    assert_eq!(ui.search, "s");
    assert_eq!(ui.results, vec![1]);
    assert_eq!(ui.query_i, 0);
}

#[test]
fn typing_resets_selection() {
    let items = vec![item("Wood Plank", vec![]), item("Wood Sword", vec![]), item("Stick", vec![])];
    let mut ui = Ui::start(&items);
    press(&mut ui, &items, Key::Down, 2);
    assert_eq!(ui.query_i, 2);
    type_text(&mut ui, &items, "w");
    assert_eq!(ui.query_i, 0);
    assert_eq!(ui.results, vec![0, 1]);
}

#[test]
fn confirm_opens_selected_result() {
    let items = vec![item("Wood Plank", vec![]), item("Wood Sword", vec![]), item("Stick", vec![])];
    let mut ui = Ui::start(&items);
    type_text(&mut ui, &items, "wood");
    press(&mut ui, &items, Key::Down, 1);
    press(&mut ui, &items, Key::Enter, 1);
    assert!(matches!(ui.display, Display::ItemDetails(1)));
    // Back to the search: text and selection stay.
    press(&mut ui, &items, Key::Esc, 1);
    assert!(matches!(ui.display, Display::Query));
    assert_eq!(ui.search, "wood");
    assert_eq!(ui.query_i, 1);
}

#[test]
fn keys_outside_search_leave_text_alone() {
    let items = planks_and_sticks();
    let mut ui = Ui::start(&items);
    press(&mut ui, &items, Key::Enter, 1);
    press(&mut ui, &items, Key::Char('x'), 1);
    press(&mut ui, &items, Key::Backspace, 1);
    press(&mut ui, &items, Key::Other, 1);
    assert_eq!(ui.search, "");
    assert_eq!(ui.results, vec![0, 1]);
    assert!(matches!(ui.display, Display::ItemDetails(0)));
}

#[test]
fn confirm_on_other_field_does_nothing() {
    let items = planks_and_sticks();
    let mut ui = Ui::start(&items);
    press(&mut ui, &items, Key::Down, 1);
    press(&mut ui, &items, Key::Enter, 1);
    press(&mut ui, &items, Key::Down, 1);
    press(&mut ui, &items, Key::Enter, 1);
    assert!(matches!(ui.display, Display::ItemDetails(1)));
    assert_eq!(ui.item_i, 1);
}

#[test]
fn crafting_view_navigation_and_back() {
    let items = vec![item("Wood Plank", vec![]), item("Gel", vec![]), item("Torch", vec![[0, 1], [1, 1]])];
    let mut ui = Ui::start(&items);
    type_text(&mut ui, &items, "torch");
    press(&mut ui, &items, Key::Enter, 1);
    press(&mut ui, &items, Key::Down, 2);
    press(&mut ui, &items, Key::Enter, 1);
    assert!(matches!(ui.display, Display::Crafting(2, _)));
    press(&mut ui, &items, Key::Down, 1);
    assert_eq!(ui.crafting_i, 1);
    press(&mut ui, &items, Key::Down, 1);
    assert_eq!(ui.crafting_i, 0);
    press(&mut ui, &items, Key::Up, 1);
    assert_eq!(ui.crafting_i, 1);
    // Enter does nothing more here.
    press(&mut ui, &items, Key::Enter, 1);
    assert!(matches!(ui.display, Display::Crafting(2, _)));
    press(&mut ui, &items, Key::Esc, 1);
    assert!(matches!(ui.display, Display::ItemDetails(2)));
    assert_eq!(ui.item_i, INGREDIENTS_FIELD);
    press(&mut ui, &items, Key::Esc, 1);
    assert!(matches!(ui.display, Display::Query));
    assert_eq!(ui.handle_key(&items, Key::Esc), Ok(Flow::Quit));
}

#[test]
fn crafting_with_no_ingredients_ignores_moves() {
    let items = planks_and_sticks();
    let mut ui = Ui::start(&items);
    press(&mut ui, &items, Key::Enter, 1);
    press(&mut ui, &items, Key::Down, 2);
    press(&mut ui, &items, Key::Enter, 1);
    assert!(matches!(ui.display, Display::Crafting(0, _)));
    press(&mut ui, &items, Key::Down, 1);
    press(&mut ui, &items, Key::Up, 1);
    assert_eq!(ui.crafting_i, 0);
}

#[test]
fn crafting_with_bad_index_is_refused() {
    let items = vec![item("Wood Plank", vec![]), item("Broken", vec![[0, 1], [5, 2]])];
    let mut ui = Ui::start(&items);
    press(&mut ui, &items, Key::Down, 1);
    press(&mut ui, &items, Key::Enter, 1);
    press(&mut ui, &items, Key::Down, 2);
    assert_eq!(ui.handle_key(&items, Key::Enter), Err(RecipeError::IndexOutOfRange(5)));
    assert!(matches!(ui.display, Display::ItemDetails(1)));
    assert_eq!(ui.item_i, INGREDIENTS_FIELD);
}

#[test]
fn new_state_is_empty() {
    let ui = Ui::new();
    assert_eq!(ui.search, "");
    assert!(ui.results.is_empty());
    assert!(matches!(ui.display, Display::Query));
    assert_eq!((ui.query_i, ui.item_i, ui.crafting_i), (0, 0, 0));
}

#[test]
fn recipe_entries_in_first_set_order() {
    let mut recipe = Recipe::new();
    recipe.set("Gel".to_string(), 3);
    recipe.set("Torch".to_string(), 1);
    recipe.set("Gel".to_string(), 9);
    let (name, quantity) = recipe.entry(0);
    assert_eq!((name.as_str(), quantity), ("Gel", 9));
    let (name, quantity) = recipe.entry(1);
    assert_eq!((name.as_str(), quantity), ("Torch", 1));
}
