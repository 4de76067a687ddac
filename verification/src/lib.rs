pub mod level;
pub mod raycast;
pub mod texture;
pub mod column;
pub mod glyph;
pub mod input;
pub mod minimap;
pub mod overlay;
pub mod font;
