//! Core of a whole-slide-image reader for tiled, pyramidal TIFF and BigTIFF
//! containers. The crate parses the TIFF structure (header, linked list of
//! image file directories, entry values of every supported data type), views
//! tiled directories as pyramid levels, reconstructs standalone JPEG tile
//! payloads from the shared table stream, and decomposes rectangular read
//! windows into per-tile fetch, crop and paste instructions. All byte-range
//! reads from the underlying source are performed by the caller; the crate
//! only decides which ranges to read and what the bytes mean.

pub mod aperio;
pub mod bytes;
pub mod data;
pub mod eozin;
pub mod error;
pub mod ifd;
pub mod jpeg;
pub mod parser;
pub mod property;
pub mod region;
pub mod tag;
pub mod walker;
