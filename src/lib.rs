//! Cascade resolution, box-tree construction and block layout for a small
//! document engine.
pub mod text;
pub mod dom;
pub mod css;
pub mod style;
pub mod layout;
pub mod boxmodel;
pub mod parser;
pub mod painting;
