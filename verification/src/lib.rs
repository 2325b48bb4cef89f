//! Data layer of a game-instance launcher.
//!
//! An *instance* is a named game profile stored as a directory holding a
//! small text record and a `Mods` folder of zip archives.  This crate holds
//! the verified logic of that layer: the record codec, the relaxed-JSON
//! metadata parser for mod archives, the instance store, and the icon
//! catalog.  All file and directory I/O stays with the caller, which hands
//! the raw file contents in and takes plain values back.

pub mod icons;
pub mod instance;
pub mod mods;
pub mod record;
pub mod relaxed_json;
pub mod text;
