//! Markdown → 1-bit bitmap rendering, lowered onto the typesetter.

pub mod columns;
pub mod contents;
pub mod events;
pub mod tables;
pub mod model;
pub mod pages;
pub mod lower;
pub mod render;
pub mod refs;
pub mod laws;
pub mod lists;
pub mod sources;
