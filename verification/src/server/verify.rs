//! Which clients are admitted: the server side of `authorized_keys`.
//!
//! If keys are authorized, a client's must be among them. While none is, any key
//! is admitted if that was asked for explicitly, and none otherwise.

use vstd::prelude::*;

use crate::common::textmap::{in_order, map_of};
use crate::common::trust::{
    cert_fingerprint, certificate_key, fingerprint, is_key_pair, keys_survive, keys_text,
    law_saved_keys_read_back, parsed_keys, AuthorizedKeys,
};

verus! {

/// Why a client is admitted or turned away, with its key's fingerprint for the log.
pub enum Admission {
    /// The key is authorized.
    Authorized(String),
    /// No key is authorized and any is accepted.
    AnyAccepted(String),
    /// The key is not authorized.
    Rejected(String),
    /// The certificate could not be read.
    BadCertificate,
}

impl Admission {
    pub open spec fn admits(self) -> bool {
        self is Authorized || self is AnyAccepted
    }

    /// The client may come in.
    pub fn is_admitted(&self) -> (res: bool)
        ensures
            res == self.admits(),
    {
        match self {
            Admission::Authorized(_) => true,
            Admission::AnyAccepted(_) => true,
            Admission::Rejected(_) => false,
            Admission::BadCertificate => false,
        }
    }
}

/// A key is admitted: it is authorized, or none is and any is accepted.
pub open spec fn admitted(
    keys: Map<Seq<char>, Seq<char>>,
    allow_any: bool,
    fp: Seq<char>,
) -> bool {
    keys.contains_key(fp) || (keys == Map::<Seq<char>, Seq<char>>::empty() && allow_any)
}

/// The policy that clients are held to.
pub struct AuthorizedKeysVerifier {
    authorized: AuthorizedKeys,
    allow_any: bool,
}

impl AuthorizedKeysVerifier {
    pub closed spec fn keys(&self) -> Map<Seq<char>, Seq<char>> {
        self.authorized@
    }

    pub closed spec fn any_accepted(&self) -> bool {
        self.allow_any
    }

    pub closed spec fn wf(&self) -> bool {
        self.authorized.wf()
    }

    pub fn new(authorized: AuthorizedKeys, allow_any: bool) -> (res: Self)
        requires
            authorized.wf(),
        ensures
            res.wf(),
            res.keys() == authorized@,
            res.any_accepted() == allow_any,
    {
        AuthorizedKeysVerifier { authorized, allow_any }
    }

    /// Every client key would be accepted.
    pub fn is_open(&self) -> (res: bool)
        requires
            self.wf(),
        ensures
            res == (self.any_accepted() && self.keys() == Map::<Seq<char>, Seq<char>>::empty()),
    {
        self.authorized.is_empty() && self.allow_any
    }

    /// No client key would be accepted.
    pub fn is_closed(&self) -> (res: bool)
        requires
            self.wf(),
        ensures
            res == (!self.any_accepted() && self.keys() == Map::<Seq<char>, Seq<char>>::empty()),
    {
        self.authorized.is_empty() && !self.allow_any
    }

    /// The decision on a key.
    pub fn decide(&self, fp: String) -> (res: Admission)
        requires
            self.wf(),
        ensures
            res.admits() == admitted(self.keys(), self.any_accepted(), fp@),
            match res {
                Admission::Authorized(f) => f == fp && self.keys().contains_key(fp@),
                Admission::AnyAccepted(f) => f == fp && !self.keys().contains_key(fp@),
                Admission::Rejected(f) => f == fp,
                Admission::BadCertificate => false,
            },
    {
        if self.authorized.contains(fp.as_str()) {
            return Admission::Authorized(fp);
        }
        if self.authorized.is_empty() && self.allow_any {
            return Admission::AnyAccepted(fp);
        }
        Admission::Rejected(fp)
    }

    /// The decision on a certificate, by the fingerprint of its key.
    pub fn verify_client_cert(&self, end_entity: &[u8]) -> (res: Admission)
        requires
            self.wf(),
        ensures
            res is BadCertificate <==> certificate_key(end_entity@) is None,
            res.admits() <==> certificate_key(end_entity@) is Some && admitted(
                self.keys(),
                self.any_accepted(),
                fingerprint(certificate_key(end_entity@)->0),
            ),
            match res {
                Admission::Authorized(f) => f@ == fingerprint(certificate_key(end_entity@)->0)
                    && self.keys().contains_key(f@),
                Admission::AnyAccepted(f) => f@ == fingerprint(certificate_key(end_entity@)->0)
                    && !self.keys().contains_key(f@),
                Admission::Rejected(f) => f@ == fingerprint(certificate_key(end_entity@)->0),
                Admission::BadCertificate => true,
            },
    {
        match cert_fingerprint(end_entity) {
            Ok(fp) => self.decide(fp),
            Err(_) => Admission::BadCertificate,
        }
    }
}

/// While keys are authorized, exactly those come in, whatever else is configured.
pub proof fn law_authorized_set_is_enforced(
    keys: Map<Seq<char>, Seq<char>>,
    allow_any: bool,
    fp: Seq<char>,
)
    requires
        keys != Map::<Seq<char>, Seq<char>>::empty(),
    ensures
        admitted(keys, allow_any, fp) <==> keys.contains_key(fp),
{
}

/// A key that was authorized comes in, and so it does after the file was saved and read
/// again.
pub proof fn law_authorized_key_comes_in(
    keys: Map<Seq<char>, Seq<char>>,
    pairs: Seq<(Seq<char>, Seq<char>)>,
    fp: Seq<char>,
    comment: Seq<char>,
    allow_any: bool,
)
    requires
        keys_survive(keys),
        is_key_pair((fp, comment)),
        in_order(pairs),
        map_of(pairs) == keys.insert(fp, comment),
    ensures
        admitted(keys.insert(fp, comment), allow_any, fp),
        admitted(parsed_keys(keys_text(pairs)), allow_any, fp),
{
    law_saved_keys_read_back(keys.insert(fp, comment), pairs);
}

/// While no key is authorized and no opt-in was given, nobody comes in.
pub proof fn law_unconfigured_server_rejects_everyone(fp: Seq<char>)
    ensures
        !admitted(Map::<Seq<char>, Seq<char>>::empty(), false, fp),
{
}

/// The opt-in lets everybody in, exactly as long as no key is authorized.
pub proof fn law_opt_in_ends_with_the_first_key(
    keys: Map<Seq<char>, Seq<char>>,
    fp: Seq<char>,
)
    requires
        !keys.contains_key(fp),
    ensures
        admitted(keys, true, fp) <==> keys == Map::<Seq<char>, Seq<char>>::empty(),
        !admitted(keys, false, fp),
{
}

} // verus!
