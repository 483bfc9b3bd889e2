//! Verified core of a PDF editing backend: text encoding for PDF content
//! streams, ToUnicode CMaps, TrueType glyph tables, the wiring of overlay
//! fonts into a page's resources, and the decisions of the file store.

pub mod error;
pub mod order;
pub mod strings;
pub mod text;
pub mod cmap;
pub mod truetype;
pub mod pdf;
pub mod font_info;
pub mod font;
pub mod font_laws;
pub mod renderer;
pub mod storage;
