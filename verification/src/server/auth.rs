//! Client identity: the key fingerprint that the TLS handshake established.

use vstd::prelude::*;

verus! {

/// Resolved client identity after key authentication.
#[derive(Debug, Clone)]
pub struct ClientIdentity {
    /// The client's key fingerprint (`SHA256:...`), for logging and attribution.
    pub subject: String,
}

/// The identity of the client with this key fingerprint.
pub fn from_mtls_fingerprint(fingerprint: &str) -> (res: ClientIdentity)
    ensures
        res.subject@ == fingerprint@,
{
    ClientIdentity { subject: fingerprint.to_owned() }
}

} // verus!
