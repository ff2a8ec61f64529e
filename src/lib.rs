//! Ground maps: decoding the binary `GRGN` terrain format and planning what is drawn from it.
//!
//! The library reads the header and the texture, lightmap, tile and surface tables, deduplicates
//! texture names, lays out the texture and lightmap atlases, decides which ground and water quads
//! a grid emits, and builds the lightmap atlas, tile color and shadow images. Floating-point work
//! (heights in world units, normals, UV remapping) is left to the caller, which receives every
//! float as its bit pattern.

pub mod error;
pub mod reader;
pub mod atlas;
pub mod textures;
pub mod tables;
pub mod mesh;
pub mod images;
pub mod water;
pub mod normals;
pub mod gnd;
pub mod skills;
