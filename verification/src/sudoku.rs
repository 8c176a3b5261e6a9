//! The solver: the grid model, the placement rules, the search and what
//! is proved of it.

pub mod counting;
pub mod grid;
pub mod resolver;
pub mod search;
pub mod solutions;
pub mod validator;
