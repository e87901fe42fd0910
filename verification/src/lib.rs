//! Rendering and print-job logic for small Bluetooth thermal printers.

pub mod cli;
pub mod config;
pub mod content;
pub mod fixed_point;
pub mod images;
pub mod ipp;
pub mod model;
pub mod protocol;
pub mod protocol_x6;
pub mod raster;
pub mod rounding;
pub mod server;
pub mod service;
pub mod strings;
pub mod transport;
pub mod url;
pub mod web;
