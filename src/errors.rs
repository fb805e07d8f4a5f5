//! Error kinds, one closed enumeration per component boundary.

use vstd::prelude::*;

verus! {

/// Failures of the relational directory store.
#[derive(Debug, Clone, PartialEq, Eq)]
pub enum DbErr {
    /// The store cannot be reached; carries a description of the failure.
    Unreachable(String),
}

/// Failures at the shard-connection boundary.
#[derive(Debug, Clone, PartialEq, Eq)]
pub enum MongoErr {
    /// The shard at this url is degraded; its guard retries in the background.
    Unreachable(String),
    /// The shard at this url has no connection handle: its connection string
    /// could not be used. Only a directory correction helps.
    InvalidUrl(String),
    /// No shard owns this namespace.
    NoShardAvailable(String),
}

/// Domain outcomes of room operations; none of them touches the circuit breaker.
#[derive(Debug, Clone, PartialEq, Eq)]
pub enum MatrixErr {
    RoomAlreadyExists(String),
    IllegalRoomName(String),
    RoomNotFound(String),
    NotInRoom(String),
    /// An internal inconsistency, such as a malformed segment name.
    General(String),
}

} // verus!
