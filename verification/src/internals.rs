//! Harnesses that exercise the library from the outside.
pub mod fuzz;
