//! SSH session settings and handles.

use vstd::prelude::*;

verus! {

/// Whether a 128-bit UUID value is a random (version 4, RFC 4122 variant)
/// UUID: version bits `0100`, variant bits `10`.
pub open spec fn is_random_uuid(id: u128) -> bool {
    (id >> 76u128) & 0xfu128 == 4u128 && (id >> 62u128) & 0x3u128 == 2u128
}

/// `uuid::Uuid::new_v4`, read as its 128-bit big-endian value
/// (`Uuid::as_u128`). The value is random; the crate sets the version bits
/// to 4 and the variant bits to `10`, which is all that is claimed.
#[verifier::external_body]
pub(crate) fn new_random_uuid() -> (id: u128)
    ensures
        is_random_uuid(id),
{
    uuid::Uuid::new_v4().as_u128()
}

/// Where and as whom an SSH session connects.
#[derive(Debug, Clone)]
pub struct SshSessionConfig {
    pub host: String,
    pub port: u16,
    pub username: String,
    pub password: Option<String>,
}

/// A session, known by its UUID (as a 128-bit value).
#[derive(Debug, Clone)]
pub struct SshSessionHandle {
    pub id: u128,
}

impl SshSessionHandle {
    /// A handle with a fresh random UUID.
    pub fn new() -> (h: Self)
        ensures
            is_random_uuid(h.id),
    {
        SshSessionHandle::from_id(new_random_uuid())
    }

    /// The handle of the session with UUID `id`.
    pub fn from_id(id: u128) -> (h: Self)
        ensures
            h.id == id,
    {
        SshSessionHandle { id }
    }
}

} // verus!
