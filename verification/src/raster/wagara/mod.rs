//! Traditional Japanese pattern (和柄, *wagara*) separator bands.
//!
//! Ten centuries-old motifs, drawn procedurally as a full-width decorative
//! band. All are traditional and long out of copyright.

pub mod bands;
pub mod canvas;
pub mod draw;
pub mod figures;
pub mod forms;
pub mod geometry;
pub mod laws;
pub mod options;
pub mod render;
pub mod shapes;
pub mod shares;
pub mod tones;
