//! A static site generator for a course curriculum: the data model, the
//! construction of the lesson tree from manifests, navigation links, the
//! search index and the text helpers, with their contracts.
use vstd::prelude::*;

pub mod generator;
pub mod keyed;
pub mod manifest;
pub mod models;
pub mod parser;
pub mod renderer;
pub mod server;
pub mod text;

verus! {
} // verus!
