//! Search for an ordered sequence of reagents whose combined, order-sensitive
//! effects reproduce a target marker sequence.
pub mod reagent;
pub mod combinator;
pub mod solver;
pub mod frontier;
pub mod laws;
pub mod parse;
pub mod app;
