//! Decompressing bzip2 streams of a device's size.
pub mod decoder;
pub mod header;
