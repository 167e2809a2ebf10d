//! Recovers an approximate dependency-injection model from annotated source
//! text and projects it onto the statements of a directed graph.

pub mod annotation;
pub mod autowired;
pub mod bean;
pub mod class;
pub mod component_type;
pub mod error;
pub mod feature;
pub mod graph;
pub mod render;
pub mod text;
