//! The navigation state machine: which view is shown, what is selected in
//! it, and how each key moves between them.
use crate::catalog::{search_items, search_spec, Item};
use crate::recipe::{get_recipe, resolve_spec, Recipe, RecipeError};
use vstd::prelude::*;

verus! {

/// The number of selectable fields in the item details view.
pub const DETAIL_FIELDS: usize = 6;

/// The detail field that opens the crafting view.
pub const INGREDIENTS_FIELD: usize = 2;

/// What is shown: the search list, one item's details (by catalog index), or
/// that item's recipe over its details.
pub enum Display {
    Query,
    ItemDetails(usize),
    Crafting(usize, Recipe),
}

/// A key press, as the state machine reads it.
#[derive(Clone, Copy, Debug, PartialEq, Eq, Structural)]
pub enum Key {
    Char(char),
    Backspace,
    Enter,
    Up,
    Down,
    Esc,
    Other,
}

/// Whether the loop goes on after a key.
#[derive(Clone, Copy, Debug, PartialEq, Eq, Structural)]
pub enum Flow {
    Continue,
    Quit,
}

/// The whole state of the browser.
pub struct Ui {
    pub search: String,
    /// Catalog indices of the items that match `search`, in catalog order.
    pub results: Vec<usize>,
    pub query_i: usize,
    pub display: Display,
    /// The selected detail field.
    pub item_i: usize,
    /// The selected ingredient in the crafting view.
    pub crafting_i: usize,
}

/// The view, with the recipe as a mapping.
pub enum DisplayModel {
    Query,
    ItemDetails(int),
    Crafting(int, Map<Seq<char>, u16>),
}

/// The state of the browser as plain values.
pub struct UiModel {
    pub search: Seq<char>,
    pub results: Seq<usize>,
    pub query_i: int,
    pub display: DisplayModel,
    pub item_i: int,
    pub crafting_i: int,
}

impl View for Display {
    type V = DisplayModel;

    open spec fn view(&self) -> DisplayModel {
        match self {
            Display::Query => DisplayModel::Query,
            Display::ItemDetails(i) => DisplayModel::ItemDetails(*i as int),
            Display::Crafting(i, r) => DisplayModel::Crafting(*i as int, r@),
        }
    }
}

/// The selection after moving down a list of `len` entries: one further,
/// back to the first past the end.
pub open spec fn index_down(i: int, len: int) -> int {
    if len == 0 { i } else if i + 1 >= len { 0 } else { i + 1 }
}

/// The selection after moving up a list of `len` entries: one back, on to the
/// last before the first.
pub open spec fn index_up(i: int, len: int) -> int {
    if len == 0 { i } else if i == 0 { len - 1 } else { i - 1 }
}

/// The length of the list that the current view selects in.
pub open spec fn active_len(m: UiModel, items: Seq<Item>) -> int {
    match m.display {
        DisplayModel::Query => m.results.len() as int,
        DisplayModel::ItemDetails(_) => DETAIL_FIELDS as int,
        DisplayModel::Crafting(i, _) => items[i].ingredients@.len() as int,
    }
}

/// The state after the search text becomes `search`: results recomputed and
/// the first one selected.
pub open spec fn searched(m: UiModel, items: Seq<Item>, search: Seq<char>) -> UiModel {
    UiModel { search: search, results: search_spec(search, items), query_i: 0, ..m }
}

/// The state after the current view's selection moves one entry down or up.
pub open spec fn moved(m: UiModel, items: Seq<Item>, down: bool) -> UiModel {
    let len = active_len(m, items);
    match m.display {
        DisplayModel::Query => UiModel {
            query_i: if down { index_down(m.query_i, len) } else { index_up(m.query_i, len) },
            ..m
        },
        DisplayModel::ItemDetails(_) => UiModel {
            item_i: if down { index_down(m.item_i, len) } else { index_up(m.item_i, len) },
            ..m
        },
        DisplayModel::Crafting(_, _) => UiModel {
            crafting_i: if down { index_down(m.crafting_i, len) } else { index_up(m.crafting_i, len) },
            ..m
        },
    }
}

/// One transition of the state machine: the next state and what the loop
/// does next, or the data error that stopped the transition (the state then
/// stays as it was).
pub open spec fn step(m: UiModel, items: Seq<Item>, key: Key) -> (UiModel, Result<Flow, RecipeError>) {
    match key {
        Key::Char(c) => match m.display {
            DisplayModel::Query => (searched(m, items, m.search.push(c)), Ok(Flow::Continue)),
            _ => (m, Ok(Flow::Continue)),
        },
        Key::Backspace => match m.display {
            DisplayModel::Query => (
                searched(
                    m,
                    items,
                    if m.search.len() == 0 { m.search } else { m.search.drop_last() },
                ),
                Ok(Flow::Continue),
            ),
            _ => (m, Ok(Flow::Continue)),
        },
        Key::Enter => match m.display {
            DisplayModel::Query => if m.results.len() > 0 {
                (
                    UiModel {
                        display: DisplayModel::ItemDetails(m.results[m.query_i] as int),
                        item_i: 0,
                        ..m
                    },
                    Ok(Flow::Continue),
                )
            } else {
                (m, Ok(Flow::Continue))
            },
            DisplayModel::ItemDetails(i) => if m.item_i == INGREDIENTS_FIELD {
                match resolve_spec(items, items[i].ingredients@) {
                    Ok(r) => (
                        UiModel { display: DisplayModel::Crafting(i, r), crafting_i: 0, ..m },
                        Ok(Flow::Continue),
                    ),
                    Err(e) => (m, Err(e)),
                }
            } else {
                (m, Ok(Flow::Continue))
            },
            DisplayModel::Crafting(_, _) => (m, Ok(Flow::Continue)),
        },
        Key::Down => (moved(m, items, true), Ok(Flow::Continue)),
        Key::Up => (moved(m, items, false), Ok(Flow::Continue)),
        Key::Esc => match m.display {
            DisplayModel::Crafting(i, _) => (
                UiModel { display: DisplayModel::ItemDetails(i), ..m },
                Ok(Flow::Continue),
            ),
            DisplayModel::ItemDetails(_) => (
                UiModel { display: DisplayModel::Query, ..m },
                Ok(Flow::Continue),
            ),
            DisplayModel::Query => (m, Ok(Flow::Quit)),
        },
        Key::Other => (m, Ok(Flow::Continue)),
    }
}

/// No search text, no results, the search view, nothing selected.
pub open spec fn empty_model() -> UiModel {
    UiModel {
        search: Seq::empty(),
        results: Seq::empty(),
        query_i: 0,
        display: DisplayModel::Query,
        item_i: 0,
        crafting_i: 0,
    }
}

/// A selection inside a list of `len` entries, or 0 when it is empty.
pub open spec fn selects_in(i: int, len: int) -> bool {
    0 <= i < len || (i == 0 && len == 0)
}

/// The invariant of the model over a catalog.
pub open spec fn model_wf(m: UiModel, items: Seq<Item>) -> bool {
    &&& m.results == search_spec(m.search, items)
    &&& forall|k: int| 0 <= k < m.results.len() ==> (#[trigger] m.results[k] as int) < items.len()
    &&& selects_in(m.query_i, m.results.len() as int)
    &&& 0 <= m.item_i < DETAIL_FIELDS
    &&& match m.display {
        DisplayModel::Query => true,
        DisplayModel::ItemDetails(i) => 0 <= i < items.len(),
        DisplayModel::Crafting(i, r) => {
            &&& 0 <= i < items.len()
            &&& resolve_spec(items, items[i].ingredients@) == Ok::<Map<Seq<char>, u16>, RecipeError>(r)
            &&& selects_in(m.crafting_i, items[i].ingredients@.len() as int)
        },
    }
}

/// The state after `n` presses of the same key, errors aside.
pub open spec fn steps(m: UiModel, items: Seq<Item>, key: Key, n: nat) -> UiModel
    decreases n,
{
    if n == 0 {
        m
    } else {
        step(steps(m, items, key, (n - 1) as nat), items, key).0
    }
}

proof fn lemma_downs_in_query(m: UiModel, items: Seq<Item>, k: nat)
    requires
        m.display is Query,
        0 <= m.query_i < m.results.len(),
        k <= m.results.len(),
    ensures
        steps(m, items, Key::Down, k) == (UiModel {
            query_i: if m.query_i + k < m.results.len() {
                m.query_i + k
            } else {
                m.query_i + k - m.results.len()
            },
            ..m
        }),
    decreases k,
{
    if k > 0 {
        lemma_downs_in_query(m, items, (k - 1) as nat);
    }
}

/// In the search view, moving down once per result brings the selection
/// back to where it started, and leaves the rest of the state as it was.
pub proof fn lemma_down_wraps_around(m: UiModel, items: Seq<Item>)
    requires
        m.display is Query,
        selects_in(m.query_i, m.results.len() as int),
    ensures
        steps(m, items, Key::Down, m.results.len()) == m,
{
    if m.results.len() > 0 {
        lemma_downs_in_query(m, items, m.results.len());
    }
}

impl View for Ui {
    type V = UiModel;

    open spec fn view(&self) -> UiModel {
        UiModel {
            search: self.search@,
            results: self.results@,
            query_i: self.query_i as int,
            display: self.display@,
            item_i: self.item_i as int,
            crafting_i: self.crafting_i as int,
        }
    }
}

/// Relies on `String::push`: appends the character to the end.
#[verifier::external_body]
fn push_char(s: &mut String, c: char)
    ensures
        final(s)@ == old(s)@.push(c),
{
    s.push(c)
}

/// Relies on `String::pop`: removes and returns the last character, or
/// returns `None` on an empty string.
#[verifier::external_body]
fn pop_char(s: &mut String) -> (r: Option<char>)
    ensures
        old(s)@.len() == 0 ==> r is None && final(s)@ == old(s)@,
        old(s)@.len() > 0 ==> r == Some(old(s)@.last()) && final(s)@ == old(s)@.drop_last(),
{
    s.pop()
}

/// The selection after one move in a list of `len` entries.
fn step_index(i: usize, len: usize, down: bool) -> (r: usize)
    requires
        i < len,
    ensures
        r == (if down { index_down(i as int, len as int) } else { index_up(i as int, len as int) }),
        r < len,
{
    if down {
        if i + 1 == len { 0 } else { i + 1 }
    } else {
        if i == 0 { len - 1 } else { i - 1 }
    }
}

impl Ui {
    /// The state invariant over the catalog `items`.
    pub open spec fn wf(&self, items: Seq<Item>) -> bool {
        &&& model_wf(self@, items)
        &&& match &self.display {
            Display::Crafting(_, r) => r.wf(),
            _ => true,
        }
    }

    /// An empty state: no search text, no results, the search view.
    pub fn new() -> (r: Ui)
        ensures
            r@ == empty_model(),
    {
        Ui {
            search: String::new(),
            results: Vec::new(),
            query_i: 0,
            display: Display::Query,
            item_i: 0,
            crafting_i: 0,
        }
    }

    /// The initial state over a catalog: the search view with an empty query
    /// and its results.
    pub fn start(items: &Vec<Item>) -> (r: Ui)
        ensures
            r.wf(items@),
            r@ == searched(empty_model(), items@, Seq::empty()),
    {
        let mut ui = Ui::new();
        ui.refresh(items);
        ui
    }

    /// Recomputes the results for the current search text and selects the
    /// first.
    fn refresh(&mut self, items: &Vec<Item>)
        ensures
            final(self)@ == searched(old(self)@, items@, old(self).search@),
            forall|k: int|
                0 <= k < final(self).results@.len() ==> (#[trigger] final(self).results@[k] as int)
                    < items@.len(),
            final(self).display == old(self).display,
    {
        self.results = search_items(self.search.as_str(), items);
        self.query_i = 0;
    }

    /// Handles one key press: moves between views, edits the search, moves
    /// the selection, or ends the loop.
    pub fn handle_key(&mut self, items: &Vec<Item>, key: Key) -> (r: Result<Flow, RecipeError>)
        requires
            old(self).wf(items@),
        ensures
            final(self).wf(items@),
            (final(self)@, r) == step(old(self)@, items@, key),
    {
        match key {
            Key::Char(c) => {
                if matches!(self.display, Display::Query) {
                    push_char(&mut self.search, c);
                    self.refresh(items);
                }
                Ok(Flow::Continue)
            },
            Key::Backspace => {
                if matches!(self.display, Display::Query) {
                    pop_char(&mut self.search);
                    self.refresh(items);
                }
                Ok(Flow::Continue)
            },
            Key::Enter => self.confirm(items),
            Key::Down => {
                self.move_selection(items, true);
                Ok(Flow::Continue)
            },
            Key::Up => {
                self.move_selection(items, false);
                Ok(Flow::Continue)
            },
            Key::Esc => self.back(items),
            Key::Other => Ok(Flow::Continue),
        }
    }

    fn confirm(&mut self, items: &Vec<Item>) -> (r: Result<Flow, RecipeError>)
        requires
            old(self).wf(items@),
        ensures
            final(self).wf(items@),
            (final(self)@, r) == step(old(self)@, items@, Key::Enter),
    {
        match &self.display {
            Display::Query => {
                if self.results.len() > 0 {
                    let i = self.results[self.query_i];
                    self.display = Display::ItemDetails(i);
                    self.item_i = 0;
                }
                Ok(Flow::Continue)
            },
            Display::ItemDetails(i) => {
                let i = *i;
                if self.item_i == INGREDIENTS_FIELD {
                    match get_recipe(items, &items[i].ingredients) {
                        Ok(recipe) => {
                            self.display = Display::Crafting(i, recipe);
                            self.crafting_i = 0;
                            Ok(Flow::Continue)
                        },
                        Err(e) => Err(e),
                    }
                } else {
                    Ok(Flow::Continue)
                }
            },
            Display::Crafting(_, _) => Ok(Flow::Continue),
        }
    }

    fn move_selection(&mut self, items: &Vec<Item>, down: bool)
        requires
            old(self).wf(items@),
        ensures
            final(self).wf(items@),
            final(self)@ == moved(old(self)@, items@, down),
    {
        let len: usize = match &self.display {
            Display::Query => self.results.len(),
            Display::ItemDetails(_) => DETAIL_FIELDS,
            Display::Crafting(i, _) => items[*i].ingredients.len(),
        };
        if len == 0 {
            return;
        }
        match &self.display {
            Display::Query => {
                self.query_i = step_index(self.query_i, len, down);
            },
            Display::ItemDetails(_) => {
                self.item_i = step_index(self.item_i, len, down);
            },
            Display::Crafting(_, _) => {
                self.crafting_i = step_index(self.crafting_i, len, down);
            },
        }
    }

    fn back(&mut self, items: &Vec<Item>) -> (r: Result<Flow, RecipeError>)
        requires
            old(self).wf(items@),
        ensures
            final(self).wf(items@),
            (final(self)@, r) == step(old(self)@, items@, Key::Esc),
    {
        match &self.display {
            Display::Crafting(i, _) => {
                let i = *i;
                self.display = Display::ItemDetails(i);
                Ok(Flow::Continue)
            },
            Display::ItemDetails(_) => {
                self.display = Display::Query;
                Ok(Flow::Continue)
            },
            Display::Query => Ok(Flow::Quit),
        }
    }
}

} // verus!
