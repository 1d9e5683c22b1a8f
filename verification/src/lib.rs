//! Doom WAD decoding, texture bank and integer raster helpers.

pub mod le;
pub mod text;
pub mod wad;
pub mod level;
pub mod texture;
pub mod clip;
pub mod planes;
pub mod scratch;
pub mod raster;
pub mod patch;
pub mod loader;
pub mod defs;
pub mod world;
pub mod sim;
pub mod truecolor;
pub mod chartext;
pub mod infogen;
