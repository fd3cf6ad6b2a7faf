//! Pinning of server keys: the client side of `known_hosts`.
//!
//! A server whose key is pinned must present that key. On first contact any key is
//! let through and recorded, for the user to accept or refuse.

use vstd::prelude::*;

use crate::common::trust::{cert_fingerprint, certificate_key, fingerprint};
use crate::text::{copy_of, same_text};

verus! {

/// How a server's key is treated.
#[derive(Clone)]
pub enum PinMode {
    /// First contact: let any key through and record its fingerprint.
    Capture,
    /// Known host: require this fingerprint.
    Enforce(String),
}

/// What came of a server's certificate.
pub enum PinVerdict {
    /// First contact: let through; this is the fingerprint.
    Captured(String),
    /// The pinned key.
    Pinned,
    /// Another key than the pinned one.
    Mismatch { expected: String, got: String },
    /// The certificate could not be read.
    BadCertificate,
}

impl PinVerdict {
    pub open spec fn accepts(self) -> bool {
        self is Captured || self is Pinned
    }

    /// The handshake may go on.
    pub fn is_accepted(&self) -> (res: bool)
        ensures
            res == self.accepts(),
    {
        match self {
            PinVerdict::Captured(_) => true,
            PinVerdict::Pinned => true,
            PinVerdict::Mismatch { expected: _, got: _ } => false,
            PinVerdict::BadCertificate => false,
        }
    }
}

/// Holds a server's certificate against the pin.
#[derive(Clone)]
pub struct PinningServerVerifier {
    pub mode: PinMode,
}

impl PinningServerVerifier {
    pub fn capture() -> (res: Self)
        ensures
            res.mode is Capture,
    {
        PinningServerVerifier { mode: PinMode::Capture }
    }

    pub fn enforce(fingerprint: String) -> (res: Self)
        ensures
            res.mode == PinMode::Enforce(fingerprint),
    {
        PinningServerVerifier { mode: PinMode::Enforce(fingerprint) }
    }

    /// The verdict on a key.
    pub fn judge(&self, fp: String) -> (res: PinVerdict)
        ensures
            match self.mode {
                PinMode::Capture => res == PinVerdict::Captured(fp),
                PinMode::Enforce(expected) => if fp@ == expected@ {
                    res is Pinned
                } else {
                    res matches PinVerdict::Mismatch { expected: e, got: g } && e@ == expected@
                        && g == fp
                },
            },
    {
        match &self.mode {
            PinMode::Capture => PinVerdict::Captured(fp),
            PinMode::Enforce(expected) => if same_text(fp.as_str(), expected.as_str()) {
                PinVerdict::Pinned
            } else {
                PinVerdict::Mismatch { expected: copy_of(expected.as_str()), got: fp }
            },
        }
    }

    /// The verdict on a certificate, by the fingerprint of its key. A known host gets
    /// through with its pinned key and with no other.
    pub fn verify_server_cert(&self, end_entity: &[u8]) -> (res: PinVerdict)
        ensures
            match certificate_key(end_entity@) {
                None => res is BadCertificate,
                Some(spki) => match self.mode {
                    PinMode::Capture => res matches PinVerdict::Captured(fp) && fp@
                        == fingerprint(spki),
                    PinMode::Enforce(expected) => if fingerprint(spki) == expected@ {
                        res is Pinned
                    } else {
                        res matches PinVerdict::Mismatch { expected: e, got: g } && e@
                            == expected@ && g@ == fingerprint(spki)
                    },
                },
            },
            self.mode matches PinMode::Enforce(expected) ==> (res.accepts() <==> certificate_key(
                end_entity@,
            ) is Some && fingerprint(certificate_key(end_entity@)->0) == expected@),
    {
        match cert_fingerprint(end_entity) {
            Ok(fp) => self.judge(fp),
            Err(_) => PinVerdict::BadCertificate,
        }
    }
}

} // verus!
