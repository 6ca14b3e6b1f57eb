//! zc: classify public API and dependency changes of a Rust workspace between two git refs.
//!
//! The library holds the parsing, classification, grouping and rendering logic; running git,
//! cargo and rustdoc, reading files and printing stay with the program around it.

pub mod api;
pub mod cache;
pub mod cargo_meta;
pub mod changelog;
pub mod changelog_out;
pub mod cli;
pub mod deps;
pub mod git;
pub mod github;
pub mod group;
pub mod json;
pub mod json_value;
pub mod lock;
pub mod model;
pub mod order;
pub mod pattern;
pub mod pubdep;
pub mod render;
pub mod run;
pub mod style;
pub mod table;
pub mod text;
pub mod traitmap;
pub mod values;
pub mod version_req;
