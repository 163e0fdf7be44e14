//! The loaded PKCS#12 container and the decryption probe.
//!
//! The container is parsed once from its DER bytes and shared read-only by
//! all workers. Whether a given passphrase opens a given container is a pure
//! function of the container bytes and the passphrase; the uninterpreted
//! spec functions below name those facts, and the probe's contract ties the
//! external decrypt call to them.

use vstd::prelude::*;
use openssl::pkcs12::Pkcs12;
use crate::SetupError;

verus! {

#[verifier::external_type_specification]
#[verifier::external_body]
pub struct ExPkcs12(Pkcs12);

/// Whether `der` is a well-formed DER encoding of a PKCS#12 bundle, as the
/// external parser judges it: a pure function of the bytes.
pub uninterp spec fn parses_as_pkcs12(der: Seq<u8>) -> bool;

/// Whether the passphrase `password` opens the PKCS#12 bundle encoded by
/// `der`: a pure function of the bytes and the passphrase. A candidate that
/// fails to decrypt is an expected outcome, never an error.
pub uninterp spec fn decrypts(der: Seq<u8>, password: Seq<char>) -> bool;

/// A PKCS#12 container, loaded once before the search starts and borrowed
/// read-only by every worker for its duration.
pub struct Container {
    der: Vec<u8>,
    handle: Pkcs12,
}

impl Container {
    /// The DER bytes this container was parsed from.
    pub closed spec fn der_bytes(self) -> Seq<u8> {
        self.der@
    }

    /// Parses a container from its DER bytes, or reports the one fatal
    /// container error of a search: a bundle that cannot be parsed at all.
    ///
    /// Relies on openssl's `Pkcs12::from_der`: whether the parse succeeds is
    /// a pure function of the bytes, and the returned handle stands for
    /// exactly the given bytes.
    #[verifier::external_body]
    pub fn from_der(der: Vec<u8>) -> (r: Result<Container, SetupError>)
        ensures
            r is Ok <==> parses_as_pkcs12(der@),
            r matches Ok(c) ==> c.der_bytes() == der@,
    {
        match Pkcs12::from_der(&der) {
            Ok(handle) => Ok(Container { der, handle }),
            Err(_) => Err(SetupError::MalformedContainer),
        }
    }

    /// Tests one candidate passphrase against the container. A candidate
    /// that fails to decrypt is the expected, overwhelmingly frequent
    /// outcome: it is reported as `false`, never raised as an error, so a
    /// running search can never be aborted by a wrong password.
    ///
    /// Relies on openssl's `Pkcs12::parse2`: its success is a pure function
    /// of the container's DER bytes and the passphrase. `parse2` builds a C
    /// string from the passphrase, so the NUL character must not occur in
    /// it.
    #[verifier::external_body]
    pub fn probe(&self, password: &Vec<char>) -> (r: bool)
        requires
            forall|k: int| 0 <= k < password@.len() ==> password@[k] != '\0',
        ensures
            r == decrypts(self.der_bytes(), password@),
    {
        let pass: String = password.iter().collect();
        self.handle.parse2(&pass).is_ok()
    }
}

} // verus!
