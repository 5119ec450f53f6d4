//! Converts a labelled image tree into sharded Arrow IPC files with a manifest.
//!
//! Everything that decides what goes where is here and verified; walking the
//! file system, reading and writing files, and running shard tasks on threads
//! is left to the caller.

mod text;

pub mod naming;
pub mod item;
pub mod partition;
pub mod collect;
pub mod admission;
pub mod shard;
pub mod manifest;
