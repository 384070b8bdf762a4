//! Reading of tile containers in the versatiles format, and the transforms
//! that run on the tiles they hold.

pub mod blob;
pub mod block_index;
pub mod bytes;
pub mod cache;
pub mod chunk;
pub mod compression;
pub mod coord;
pub mod csv;
pub mod error;
pub mod geometry;
pub mod header;
pub mod json;
pub mod properties;
pub mod reader;
pub mod server;
pub mod tile_index;
pub mod vpl;
