//! Semantic analyzer for a small Hindley-Milner-style functional language.
//!
//! The crate models the abstract syntax of the language, a scoped static
//! environment, a dependency sorter for top-level statements, a declaration
//! analyzer that expands statements into exposed declarations, and an import
//! linker that resolves module imports against previously analyzed modules.
//! Tokenizing, parsing and the Hindley-Milner inference engine itself are
//! external collaborators: the declaration analyzer receives each value
//! definition's inference outcome as an argument.

use vstd::prelude::*;

pub mod ast;
pub mod errors;
pub mod loader;
pub mod name_map;
pub mod static_env;
pub mod dependency_sorter;
pub mod sorting_laws;
pub mod module_analyser;

verus! {

} // verus!
