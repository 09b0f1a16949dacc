//! Cognitive complexity linting, verified.
use vstd::prelude::*;

pub mod text;
pub mod naming;
pub mod finding;
pub mod order;
pub mod syntax;
pub mod spec;
pub mod language;
pub mod compile;
pub mod hooks;
pub mod java;
pub mod walk;
pub mod grammar_types;
pub mod parse;
pub mod suppression;
pub mod collect;
pub mod names;
pub mod go;
pub mod scope;
pub mod typescript;
pub mod php;
pub mod python;
pub mod java_names;
pub mod dialect;
pub mod languages;
pub mod registry;
pub mod grammars;
pub mod source;
pub mod generated;
pub mod vue;
pub mod baseline;
pub mod paths;
pub mod rank;
pub mod scan;
pub mod policy;
pub mod verdict;

verus! {
} // verus!
