//! Text rendering from a glyph atlas.
//!
//! Glyph bitmaps are packed once into a fixed-size atlas by a skyline
//! rectangle packer ([`binpack::BinPack`]); drawing a string is then a matter
//! of copying one atlas rectangle per character. This crate holds the parts
//! that compute: the packer, its mathematical model and the laws proved of
//! it, and the arithmetic of glyph records and pen movement.

pub mod atlas;
pub mod binpack;
pub mod glyph;
pub mod history;
pub mod layout;
pub mod placement;
pub mod skyline;
