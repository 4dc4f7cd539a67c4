//! Static ownership and borrow verification for a small imperative language.
//!
//! The crate takes an already resolved program model and decides, without
//! running anything, whether every value has one owner at a time, whether
//! every reference stays valid while it is in use, and whether shared and
//! mutable access to one location never overlap.
//!
//! - [`model`]: the program model that a front end fills in.
//! - [`classify`]: which types are copied and which are moved.
//! - [`tracker`]: the life of each binding.
//! - [`borrow`]: the borrows that are alive.
//! - [`values`], [`inhabit`], [`space`], [`exhaustive`]: whether the arms of a
//!   match cover every value.
//! - [`drops`]: what is released at the end of a scope.
//! - [`diagnostics`]: what is reported.
//! - [`semantics`]: what verification does, as definitions.
//! - [`orchestrator`]: the pass that does it.
//! - [`laws`]: what holds of every verification.
//! - [`samples`]: small checked programs in the idiom of the language.

pub mod borrow;
pub mod classify;
pub mod diagnostics;
pub mod drops;
pub mod exhaustive;
pub mod inhabit;
pub mod laws;
pub mod model;
pub mod orchestrator;
pub mod samples;
pub mod semantics;
pub mod space;
pub mod tracker;
pub mod values;
