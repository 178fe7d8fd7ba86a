//! Archive and compression formats from other tools: detection, safe entry
//! paths, bomb checks and in-memory decoders.
pub mod detect;
pub mod bz2;
pub mod gz;
pub mod lz4;
pub mod path_safety;
pub mod xz;
pub mod zstd_fmt;
pub mod archive;
