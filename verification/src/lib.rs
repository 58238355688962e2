//! A small relational engine: logic variables, a persistent binding store,
//! unification, and goal combinators evaluated depth-first and left to right.

pub mod value;
pub mod store;
pub mod state;
pub mod goal;
pub mod lmap;
pub mod query;
pub mod laws;
pub mod search;
