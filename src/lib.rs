//! A terminal browser over a fixed catalog of game items: the search filter,
//! the recipe resolver, the windowing of long lists and the navigation state
//! machine that ties them together.
pub mod catalog;
pub mod recipe;
pub mod ui;
pub mod window;
