//! qsafe: compressed and encrypted files with multiple recipients.

pub mod bytes;
pub mod cli;
pub mod compress;
pub mod disks;
pub mod envelope;
pub mod error;
pub mod format;
pub mod formats;
pub mod identity;
pub mod gui;
pub mod hardware;
pub mod integrity;
pub mod io;
pub mod iso;
pub mod jobs;
pub mod launch;
pub mod listing;
pub mod md5sum;
pub mod pack;
pub mod paper;
pub mod password;
pub mod paths;
pub mod primitives;
pub mod sfx;
pub mod shamir;
pub mod stream;
pub mod text;
