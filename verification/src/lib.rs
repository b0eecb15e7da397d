//! A small line-search library: a configuration resolver and a line filter
//! that returns the lines of a document containing a query string, either
//! case-sensitively or after case folding, together with a few verified
//! standalone exercises (a rectangle type and a sum helper).

pub mod arith;
pub mod config;
pub mod rectangles;
pub mod restaurant;
pub mod search;
pub mod text;
