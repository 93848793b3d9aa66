//! Framing and codec pipeline that carries a byte stream as a sequence of QR
//! symbols, one still image per symbol, and brings it back.

pub mod capacity;
pub mod contracts;
pub mod error;
pub mod marker;
pub mod pipeline;
pub mod png_stream;
pub mod qr;
pub mod raster;
pub mod symbol;
pub mod video;
