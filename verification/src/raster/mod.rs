//! Raster image handling: 1-bit bitmaps and raster packet chunking.

pub mod barcode;
pub mod binary32;
pub mod bitmap;
pub mod dither;
pub mod faces;
pub mod fitting;
pub mod gray;
pub mod markdown;
pub mod picture;
pub mod preview;
pub mod qr;
pub mod rich;
pub mod sheet;
pub mod stack;
pub mod text;
pub mod tone;
pub mod typeset;
pub mod urf;
pub mod urf_laws;
pub mod wagara;
pub mod wrapping;

pub use barcode::{render_barcode, BarcodeError};
pub use bitmap::Bitmap;
pub use dither::{image_to_bitmap, prepare, Dither};
pub use faces::{Faces, FontStyle};
pub use markdown::refs::markdown_image_refs;
pub use markdown::render::{render_markdown, render_markdown_with};
pub use preview::bitmap_to_png;
pub use qr::{render_qr, QrError};
pub use rich::{RichLine, Span, Style};
pub use text::render_text;
pub use typeset::render_rich;
pub use urf::{decode_urf, pages_to_bitmap, UrfError, UrfPage};
pub use wagara::options::{parse_wagara_options, WagaraError, WagaraOptions};
pub use wagara::render::render_wagara;
