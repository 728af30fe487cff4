//! Character-grid text layout: colored glyph cells, inline color markup,
//! a command-driven text block compositor and its draw batches.

pub mod camera;
pub mod color;
pub mod cp437;
pub mod cursor_range;
pub mod draw_batch;
pub mod geometry;
pub mod glyph;
pub mod layout;
pub mod layout_laws;
pub mod markup;
pub mod render;
pub mod scaling;
pub mod text_builder;
pub mod text_spans;
pub mod textblock;
