//! Sprite-atlas descriptor pipeline: parse a texture-atlas descriptor
//! document into named sub-rectangles, derive the atlas layout from the
//! companion bitmap's pixel size, and assemble the composite sprite-sheet
//! asset that downstream code addresses by atlas index or by name.

pub mod atlas;
pub mod laws;
pub mod parser;
pub mod sheet;
pub mod text;
pub mod xml;
