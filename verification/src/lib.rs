//! Verified core of a segmented HTTP download manager: range planning,
//! partial-file coverage bookkeeping, strict response metadata parsing,
//! persistent task lifecycle rules, progress estimation and retry policy.
pub mod admission;
pub mod auth;
pub mod checkpoint;
pub mod clock;
pub mod companion;
pub mod events;
pub mod filename;
pub mod integrity;
pub mod lifecycle;
pub mod metadata;
pub mod network;
pub mod persistence;
pub mod progress;
pub mod run;
pub mod scheduler;
pub mod storage;
pub mod task;
pub mod text;
pub mod transfer;

use vstd::prelude::*;

verus! {

/// Wire major of the Native Messaging protocol this engine implements.
pub const PROTOCOL_VERSION: u16 = 2;

/// Engine facade owned by the native host.
#[derive(Debug, Default)]
pub struct Engine;

impl Engine {
    /// Creates an engine facade without starting network or disk work.
    pub fn new() -> (engine: Self) {
        Engine
    }

    /// Reports the wire major this engine was compiled against.
    pub fn protocol_version(&self) -> (version: u16)
        ensures
            version == PROTOCOL_VERSION,
            version == 2,
    {
        PROTOCOL_VERSION
    }
}

} // verus!
