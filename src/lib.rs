//! Utilities for task lists in the todo.txt format: parsing and formatting
//! of records, bulk edits, recurring tasks, filtering and sorting.
pub mod date;
pub mod terr;
pub mod text;
pub mod todotxt;
pub mod timer;
pub mod todo;
pub mod tfilter;
pub mod tsort;
pub mod date_expr;
