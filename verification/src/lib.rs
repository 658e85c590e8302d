//! Organizes tagged items into a hierarchy of bins, driven by regular
//! expressions: filters decide which bin an item lands in, pattern
//! sequences decide the order inside a bin.

pub mod error;
pub mod pattern;
pub mod text;
pub mod number;
pub mod github;
pub mod query;
pub mod render;
pub mod filters;
pub mod sort;
pub mod ranking_laws;
pub mod pattern_list;
pub mod organize;
pub mod laws;
pub mod model;
pub mod cfg_parse;
pub mod config;
pub mod repo;
pub mod wire;
pub mod remodel;
