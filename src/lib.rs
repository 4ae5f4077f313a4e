//! Normalizes dictionary records (term to one or many definitions) read from
//! many source documents into one canonical two-column table.
use vstd::prelude::*;

pub mod node;
pub mod text;
pub mod definition;
pub mod term;
pub mod merge;
pub mod laws;

pub use definition::{Definition, Definitions, LoadError};
pub use merge::{flatten, merge, render, sort_by_term};
pub use node::Node;
pub use term::{Dictionary, Entry};

verus! {

} // verus!
