use vstd::prelude::*;

pub mod glob;
pub mod text;
pub mod pattern;
pub mod gitignore;
pub mod order;
pub mod filter;
pub mod walk;
pub mod walker;
pub mod laws;
pub mod language;
pub mod collect;
pub mod cli;

verus! {

} // verus!
