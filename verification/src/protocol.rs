//! The wire vocabulary shared by the service and its workers.
use std::collections::BTreeMap;
use vstd::prelude::*;

verus! {

/// The version of the worker protocol that this service speaks.
pub const PROTOCOL_VERSION: u32 = 1;

/// Every poll and completion names its protocol version; any other version than this
/// service's is refused as unsupported.
pub fn protocol_version_supported(version: u32) -> (supported: bool)
    ensures
        supported == (version == PROTOCOL_VERSION),
{
    version == PROTOCOL_VERSION
}

/// How the bytes of a payload are encoded.
#[derive(Debug, Clone, Copy, PartialEq, Eq, Structural)]
pub enum PayloadEncoding {
    Json,
    Protobuf,
    ArrowIpcStream,
    Raw,
}

/// A payload carried inline (as base64 text) or by reference to a stored object, with
/// free-form metadata and an optional SHA-256 digest of its bytes.
pub struct Payload {
    pub encoding: PayloadEncoding,
    pub metadata: BTreeMap<String, String>,
    pub data_base64: Option<String>,
    pub object_ref: Option<String>,
    pub sha256: Option<String>,
}

} // verus!
