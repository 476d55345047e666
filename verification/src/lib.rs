//! Bitmap-font text layout in exact integer arithmetic: font metrics parsing,
//! greedy line wrapping, quad mesh generation and a registry of text labels
//! batched by font.

pub mod display;
pub mod namemap;
pub mod render;
pub mod texture;
pub mod timer;
pub mod text;
