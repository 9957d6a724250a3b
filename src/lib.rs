//! Statistics and case-insensitive line search over a text held in memory.
//!
//! `analysis::analyze_text` counts characters, words and lines and finds the first longest
//! word; `search::search_word` lists the numbered lines that hold a query, ignoring case.
use vstd::prelude::*;

pub mod analysis;
pub mod lines;
pub mod search;
pub mod text;
pub mod words;

verus! {

} // verus!
