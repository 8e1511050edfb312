//! JOSE (JSON Object Signing and Encryption) primitives: JWS signing and
//! verification in the compact, flattened and general JSON forms, JWE
//! AES key wrap, JWK key material, and the DER codec that normalizes
//! asymmetric keys.
use vstd::prelude::*;

pub mod b64;
pub mod json;
pub mod text;
pub mod header;
pub mod jwk;
pub mod aes;
pub mod der;
pub mod jws_context;
pub mod eddsa;

verus! {

/// Error kinds returned by every fallible operation of this crate.
/// Each variant carries a human-readable message.
#[derive(Debug)]
pub enum JoseError {
    /// Key material failed a structural or length invariant.
    InvalidKeyFormat(String),
    /// A wire envelope is malformed or its header claims are inconsistent.
    InvalidJwtFormat(String),
    /// JWS specific format error.
    InvalidJwsFormat(String),
    /// JWE specific format error.
    InvalidJweFormat(String),
    /// The primitive provider rejected a signature, or signing failed.
    InvalidSignature(String),
    /// An algorithm name outside the registry.
    UnsupportedAlgorithm(String),
}

impl JoseError {
    /// The message carried by the error.
    pub fn message(&self) -> (r: &String)
        ensures
            r == match self {
                JoseError::InvalidKeyFormat(m) => m,
                JoseError::InvalidJwtFormat(m) => m,
                JoseError::InvalidJwsFormat(m) => m,
                JoseError::InvalidJweFormat(m) => m,
                JoseError::InvalidSignature(m) => m,
                JoseError::UnsupportedAlgorithm(m) => m,
            },
    {
        match self {
            JoseError::InvalidKeyFormat(m) => m,
            JoseError::InvalidJwtFormat(m) => m,
            JoseError::InvalidJwsFormat(m) => m,
            JoseError::InvalidJweFormat(m) => m,
            JoseError::InvalidSignature(m) => m,
            JoseError::UnsupportedAlgorithm(m) => m,
        }
    }
}

} // verus!
