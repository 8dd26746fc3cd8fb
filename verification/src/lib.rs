//! Tools for the game's data files.
//!
//! - `container`: the battle pack container, its section table, a reader
//!   and a writer.
//! - `scanner`: finding a byte signature in a stream, whole or in chunks.
//! - `patcher`: setting flag bits in every record of a fixed-stride array.
//! - `battle_pack`: unpacking, repacking and the flying flag patch.
//! - `treasure`: the treasure tables of zone files and the dump made of them.
//! - `report`, `text`: the text of a treasure dump.
//! - `endian`: little-endian integers.
//! - `error`: what can go wrong.
//!
//! The library works on bytes in memory; reading and writing files is left
//! to its caller.

pub mod battle_pack;
mod bytes;
pub mod container;
pub mod endian;
pub mod error;
pub mod patcher;
pub mod report;
pub mod scanner;
pub mod text;
pub mod treasure;
