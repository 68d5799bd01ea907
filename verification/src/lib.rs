//! A container engine for map-tile pyramids: a block-structured, random-access
//! binary format, a conversion pipeline between tile formats and compressions,
//! and the lookup path that resolves a tile coordinate to its bytes.

pub mod bbox;
pub mod blob;
pub mod block_index;
pub mod byte_range;
pub mod byteops;
pub mod coords;
pub mod compression;
pub mod config;
pub mod convert;
pub mod converter;
pub mod dummy;
pub mod parameters;
pub mod error;
pub mod header;
pub mod image_codec;
pub mod laws;
pub mod pyramid;
pub mod reader;
pub mod tar_archive;
pub mod tar_converter;
pub mod tar_file;
pub mod tile_format;
pub mod tile_index;
pub mod traits;
pub mod writer;
