//! Small programs in the idiom of the analysed language, written as checked
//! Rust: values that are copied or moved, borrows, structs with methods,
//! results, generic functions, and traits.

pub mod errors;
pub mod functions;
pub mod generics;
pub mod keywords;
pub mod lifetimes;
pub mod ownership;
pub mod restaurant;
pub mod structs;
pub mod traits;
