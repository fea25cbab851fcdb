//! PhantomFS: a persistent, single-volume object-based filesystem stored on a
//! block-addressable backing stream.
//!
//! The volume is a sequence of 1024-byte sectors holding a root descriptor at
//! sector 1, an object table growing downward from `objtab_end`, an allocation
//! table, and per-object named streams whose content is resolved through a
//! multi-level indirection scheme of `VolumeSpan` nodes.

pub mod fs;
pub mod helpers;
pub mod indirection;
pub mod io;
pub mod object;
pub mod uuid;
