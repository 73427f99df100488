//! Reader for PMTiles archives: the fixed header, varints, directories with
//! their delta, run-length and offset-continuation encoding, Hilbert-curve tile
//! addressing, and lookup of a tile's bytes.

pub mod error;
pub mod buffer;
pub mod varint;
pub mod header;
pub mod directory;
pub mod tile_id;
pub mod archive;
