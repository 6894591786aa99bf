//! Bakes a font subset into a packed 1-bit glyph atlas, a metrics table and a
//! codepoint range index, emitted as C++ module source.

pub mod bake;
pub mod codepoints;
pub mod emitter;
pub mod font_builder;
pub mod fonts;
pub mod job;
pub mod packer;
pub mod preview;
pub mod ranges;
pub mod resolver;
pub mod text;
