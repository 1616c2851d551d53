//! The rules by which Android TV devices are found, listed, renamed, examined and restored.
//!
//! What talks to a device, the network or the file system lives elsewhere and hands this
//! library plain values. Everything that is decided from them is decided here.

pub mod adb;
pub mod address;
pub mod codecs;
pub mod connect;
pub mod device;
pub mod discovery;
pub mod driver;
pub mod json;
pub mod listing;
pub mod lists;
pub mod media;
pub mod profile;
pub mod rename;
pub mod scan;
pub mod settings;
pub mod shell;
pub mod snapshot;
pub mod snapshot_file;
pub mod text;
pub mod xml;
