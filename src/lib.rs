//! Declaration model, directive handling and marker-region splicing for a
//! generator of JSON (de)serialization code for C++ structs.

pub mod text;
pub mod splice;
pub mod model;
pub mod directives;
pub mod comment;
pub mod entity;
pub mod classify;
pub mod walker;
pub mod includes;
pub mod fragments;
