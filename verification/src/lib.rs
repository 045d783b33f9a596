//! Building blocks of a small command-line toolbox: line search in text,
//! made-up tabular data rendered as CSV, and the steps of the commands
//! that use them, chat messages included.
//!
//! The logic is verified against the contracts it states. What the crate
//! takes from elsewhere (made-up values from `fake`, the encoding of CSV
//! records from `csv`, lower-casing from the standard library) stands
//! behind small functions whose contracts are taken on trust; each says so
//! where it is declared. Reading and writing files, fetching and sending
//! are left to the caller: see [`commands::start`] and
//! [`commands::resume`].

pub mod commands;
pub mod export;
pub mod faker;
pub mod number;
pub mod ok_kanye;
pub mod schema;
pub mod table;
pub mod text;

pub use commands::{search, search_case_insensitive, Commands, Config};
