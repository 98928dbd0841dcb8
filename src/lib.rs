//! An in-memory expense tracker: expense records kept in an ordered list,
//! with operations to add, filter, total, count and rank them.
pub mod expense;
pub mod operations;
pub mod theorems;
