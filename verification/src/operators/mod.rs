//! The stages of a query, each as a function from a table to a table. The
//! first record of a table is its header.
pub mod behead;
pub mod comparison;
pub mod enumerate;
pub mod lib;
pub mod select;
pub mod sort;
pub mod trim;
