//! Python-like syntax for Rust: list comprehensions, lambdas, lists of
//! shared dynamically typed values and scoped variable declarations, as
//! functions from token trees to token trees.
use vstd::prelude::*;

pub mod error;
pub mod tokens;
pub mod outside;
pub mod step;
pub mod comp;
pub mod func;
pub mod list;
pub mod scope;
pub mod walrus;
pub mod macros;
pub mod laws;
pub mod expansion_laws;

pub use error::MacroError;
pub use macros::{comp, lambda, list, scoped, scoped_exprs, scoped_parts, set_mut, set_py};
pub use tokens::{well_formed, Delimiter, Spacing, TokenTree};

verus! {

} // verus!
