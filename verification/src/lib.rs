//! Line search: which lines of a text contain a query, with or without regard to letter case.
//!
//! [`search`] and [`search_case_insensitive`] pick the matching lines out of a text, and
//! [`Config`] holds what a run was asked to do. The contracts are stated over the model of
//! text in [`text`]; what is taken on trust from the standard library stands in [`text_ops`].

pub mod config;
pub mod engine;
pub mod text;
pub mod text_ops;

pub use config::{Config, ConfigView, MissingArgument, CASE_INSENSITIVE_KEY};
pub use engine::{keep_if_found, search, search_case_insensitive, search_with_mode};
