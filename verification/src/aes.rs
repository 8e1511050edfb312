//! JWE key management by AES Key Wrap (RFC 3394) with the default initial
//! value: the `A128KW`, `A192KW` and `A256KW` algorithms, their encrypter
//! (draw a fresh content-encryption key and wrap it) and decrypter (unwrap
//! it back).  The AES primitives come from the `openssl` crate behind
//! trusted wrappers.
use vstd::prelude::*;

use crate::JoseError;
use crate::b64::{b64url_decode, b64url_is_valid, spec_b64url_decode};
use crate::header::{JweHeader, spec_set_claim, spec_str_claim, spec_strarr_claim};
use crate::jwk::{Jwk, string_list_contains};
use crate::json::JsonVal;
use crate::text::str_eq;

verus! {

broadcast use vstd::seq::group_seq_axioms, vstd::std_specs::vec::group_vec_axioms;

/// The RFC 3394 wrapping of `data` under `kek` with the default initial
/// value: eight bytes longer than `data`.
pub uninterp spec fn spec_aes_wrap(kek: Seq<u8>, data: Seq<u8>) -> Seq<u8>;

/// The RFC 3394 unwrapping under `kek`: the unwrapped bytes when the
/// integrity check passes, nothing otherwise.
pub uninterp spec fn spec_aes_unwrap(kek: Seq<u8>, data: Seq<u8>) -> Option<Seq<u8>>;

/// Relies on `openssl::aes::AesKey::new_encrypt` and
/// `openssl::aes::wrap_key`: RFC 3394 with the default initial value writes
/// `data.len() + 8` bytes into the front of `out`, and what it writes
/// unwraps back to `data` under the same key.
#[verifier::external_body]
fn aes_wrap_into(kek: &[u8], out: &mut Vec<u8>, data: &[u8]) -> (r: Result<usize, JoseError>)
    requires
        kek@.len() == 16 || kek@.len() == 24 || kek@.len() == 32,
        data@.len() % 8 == 0,
        16 <= data@.len(),
        data@.len() < 0x100000000,
        data@.len() + 8 <= old(out)@.len(),
    ensures
        match r {
            Ok(n) => {
                &&& n == data@.len() + 8
                &&& final(out)@ == spec_aes_wrap(kek@, data@) + old(out)@.skip(n as int)
                &&& spec_aes_wrap(kek@, data@).len() == n
                &&& spec_aes_unwrap(kek@, spec_aes_wrap(kek@, data@)) == Some(data@)
            },
            Err(e) => final(out)@.len() == old(out)@.len() && e is InvalidKeyFormat,
        },
{
    let aes = match openssl::aes::AesKey::new_encrypt(kek) {
        Ok(v) => v,
        Err(_) => {
            return Err(JoseError::InvalidKeyFormat(String::from("the AES key was rejected")));
        },
    };
    match openssl::aes::wrap_key(&aes, None, out.as_mut_slice(), data) {
        Ok(n) => Ok(n),
        Err(_) => Err(JoseError::InvalidKeyFormat(String::from("AES key wrap failed"))),
    }
}

/// Relies on `openssl::aes::AesKey::new_decrypt` and
/// `openssl::aes::unwrap_key`: unwrapping succeeds exactly when the RFC
/// 3394 integrity check passes, writes the `data.len() - 8` unwrapped bytes
/// into the front of `out`, and returns that count.
#[verifier::external_body]
fn aes_unwrap_into(kek: &[u8], out: &mut Vec<u8>, data: &[u8]) -> (r: Result<usize, JoseError>)
    requires
        kek@.len() == 16 || kek@.len() == 24 || kek@.len() == 32,
        data@.len() < 0x100000000,
        data@.len() <= old(out)@.len() + 8,
    ensures
        match r {
            Ok(n) => {
                &&& spec_aes_unwrap(kek@, data@) matches Some(u) && n == u.len() && n + 8
                    == data@.len()
                &&& final(out)@ == spec_aes_unwrap(kek@, data@).unwrap() + old(out)@.skip(n as int)
            },
            Err(e) => final(out)@.len() == old(out)@.len() && spec_aes_unwrap(kek@, data@) is None
                && e is InvalidJweFormat,
        },
{
    let aes = match openssl::aes::AesKey::new_decrypt(kek) {
        Ok(v) => v,
        Err(_) => {
            return Err(JoseError::InvalidJweFormat(String::from("the AES key was rejected")));
        },
    };
    match openssl::aes::unwrap_key(&aes, None, out.as_mut_slice(), data) {
        Ok(n) => Ok(n),
        Err(_) => Err(JoseError::InvalidJweFormat(String::from("AES key unwrap failed"))),
    }
}

/// Relies on `openssl::rand::rand_bytes`: it fills the buffer from the
/// process-wide random source; nothing is promised of the contents.
#[verifier::external_body]
fn fill_random(buf: &mut Vec<u8>) -> (r: Result<(), JoseError>)
    requires
        old(buf)@.len() <= 0x7FFFFFFF,
    ensures
        final(buf)@.len() == old(buf)@.len(),
        r matches Err(e) ==> e is InvalidKeyFormat,
{
    match openssl::rand::rand_bytes(buf.as_mut_slice()) {
        Ok(()) => Ok(()),
        Err(_) => Err(JoseError::InvalidKeyFormat(String::from("the random source failed"))),
    }
}

/// AES Key Wrap with the default initial value.
#[derive(Clone, Copy, PartialEq, Eq, Debug)]
pub enum AesJweAlgorithm {
    /// 128-bit key-encryption key.
    A128Kw,
    /// 192-bit key-encryption key.
    A192Kw,
    /// 256-bit key-encryption key.
    A256Kw,
}

impl AesJweAlgorithm {
    /// The required key-encryption-key length in octets.
    pub open spec fn spec_key_len(&self) -> int {
        match self {
            AesJweAlgorithm::A128Kw => 16,
            AesJweAlgorithm::A192Kw => 24,
            AesJweAlgorithm::A256Kw => 32,
        }
    }

    /// The canonical `alg` name.
    pub open spec fn spec_name(&self) -> Seq<char> {
        match self {
            AesJweAlgorithm::A128Kw => "A128KW"@,
            AesJweAlgorithm::A192Kw => "A192KW"@,
            AesJweAlgorithm::A256Kw => "A256KW"@,
        }
    }

    /// The required symmetric key size in octets.
    pub fn key_len(&self) -> (r: usize)
        ensures
            r == self.spec_key_len(),
    {
        match self {
            AesJweAlgorithm::A128Kw => 16,
            AesJweAlgorithm::A192Kw => 24,
            AesJweAlgorithm::A256Kw => 32,
        }
    }

    /// The canonical `alg` name.
    pub fn name(&self) -> (r: &'static str)
        ensures
            r@ == self.spec_name(),
    {
        match self {
            AesJweAlgorithm::A128Kw => "A128KW",
            AesJweAlgorithm::A192Kw => "A192KW",
            AesJweAlgorithm::A256Kw => "A256KW",
        }
    }

    /// The conditions a JWK must meet for this algorithm in the given role
    /// (the two `key_ops` names differ between encrypting and decrypting).
    pub open spec fn jwk_ok(&self, j: Seq<(Seq<char>, JsonVal)>, op1: Seq<char>, op2: Seq<char>) -> bool {
        &&& spec_str_claim(j, "kty"@) == Some("oct"@)
        &&& (spec_str_claim(j, "use"@) matches Some(u) ==> u == "enc"@)
        &&& (spec_strarr_claim(j, "key_ops"@) matches Some(ops) ==> ops.contains(op1)
            && ops.contains(op2))
        &&& (spec_str_claim(j, "alg"@) matches Some(a) ==> a == self.spec_name())
        &&& spec_str_claim(j, "k"@) matches Some(k) && b64url_is_valid(vstd::utf8::encode_utf8(k))
            && spec_b64url_decode(vstd::utf8::encode_utf8(k)).len() == self.spec_key_len()
    }

    /// Validation shared by the two constructors.
    fn checked_key(&self, jwk: &Jwk, op1: &str, op2: &str) -> (r: Result<
        (Vec<u8>, Option<String>),
        JoseError,
    >)
        requires
            jwk.wf(),
        ensures
            match r {
                Ok((key, kid)) => {
                    &&& self.jwk_ok(jwk.entries(), op1@, op2@)
                    &&& key@ == spec_b64url_decode(
                        vstd::utf8::encode_utf8(
                            spec_str_claim(jwk.entries(), "k"@).unwrap(),
                        ),
                    )
                    &&& key@.len() == self.spec_key_len()
                    &&& (match kid {
                        Some(s) => spec_str_claim(jwk.entries(), "kid"@) == Some(s@),
                        None => spec_str_claim(jwk.entries(), "kid"@) is None,
                    })
                },
                Err(e) => e is InvalidKeyFormat,
            },
            r is Ok <==> self.jwk_ok(jwk.entries(), op1@, op2@),
    {
        let kty = jwk.key_type();
        if !str_eq(kty.as_str(), "oct") {
            return Err(JoseError::InvalidKeyFormat(String::from_str(
                "the kty parameter must be oct",
            )));
        }
        match jwk.key_use() {
            Some(u) => {
                if !str_eq(u.as_str(), "enc") {
                    return Err(JoseError::InvalidKeyFormat(String::from_str(
                        "the use parameter must be enc",
                    )));
                }
            },
            None => {},
        }
        match jwk.key_operations() {
            Some(ops) => {
                if !(string_list_contains(&ops, op1) && string_list_contains(&ops, op2)) {
                    return Err(JoseError::InvalidKeyFormat(String::from_str(
                        "the key_ops parameter must allow this role",
                    )));
                }
            },
            None => {},
        }
        match jwk.algorithm() {
            Some(a) => {
                if !str_eq(a.as_str(), self.name()) {
                    return Err(JoseError::InvalidKeyFormat(String::from_str(
                        "the alg parameter names another algorithm",
                    )));
                }
            },
            None => {},
        }
        let k = match jwk.str_parameter("k") {
            Some(k) => k,
            None => {
                return Err(JoseError::InvalidKeyFormat(String::from_str(
                    "the k parameter is required and must be a string",
                )));
            },
        };
        let key = match b64url_decode(k.as_str().as_bytes()) {
            Some(v) => v,
            None => {
                return Err(JoseError::InvalidKeyFormat(String::from_str(
                    "the k parameter is not base64url",
                )));
            },
        };
        if key.len() != self.key_len() {
            return Err(JoseError::InvalidKeyFormat(String::from_str(
                "the symmetric key size does not fit the algorithm",
            )));
        }
        let kid = match jwk.key_id() {
            Some(s) => Some(s.clone()),
            None => None,
        };
        Ok((key, kid))
    }

    /// Build an encrypter from a symmetric JWK.  Fails with
    /// `InvalidKeyFormat` exactly when a JWK invariant does not hold.
    pub fn encrypter_from_jwk(&self, jwk: &Jwk) -> (r: Result<AesJweEncrypter, JoseError>)
        requires
            jwk.wf(),
        ensures
            match r {
                Ok(enc) => {
                    &&& enc.alg_spec() == *self
                    &&& enc.key() == spec_b64url_decode(
                        vstd::utf8::encode_utf8(
                            spec_str_claim(jwk.entries(), "k"@).unwrap(),
                        ),
                    )
                    &&& enc.wf()
                    &&& (match enc.kid_spec() {
                        Some(s) => spec_str_claim(jwk.entries(), "kid"@) == Some(s),
                        None => spec_str_claim(jwk.entries(), "kid"@) is None,
                    })
                },
                Err(e) => e is InvalidKeyFormat,
            },
            r is Ok <==> self.jwk_ok(jwk.entries(), "encrypt"@, "wrapKey"@),
    {
        match self.checked_key(jwk, "encrypt", "wrapKey") {
            Ok((key, kid)) => Ok(
                AesJweEncrypter { algorithm: *self, private_key: key, key_id: kid },
            ),
            Err(e) => Err(e),
        }
    }

    /// Build a decrypter from a symmetric JWK.  Fails with
    /// `InvalidKeyFormat` exactly when a JWK invariant does not hold.
    pub fn decrypter_from_jwk(&self, jwk: &Jwk) -> (r: Result<AesJweDecrypter, JoseError>)
        requires
            jwk.wf(),
        ensures
            match r {
                Ok(dec) => {
                    &&& dec.alg_spec() == *self
                    &&& dec.key() == spec_b64url_decode(
                        vstd::utf8::encode_utf8(
                            spec_str_claim(jwk.entries(), "k"@).unwrap(),
                        ),
                    )
                    &&& dec.wf()
                    &&& (match dec.kid_spec() {
                        Some(s) => spec_str_claim(jwk.entries(), "kid"@) == Some(s),
                        None => spec_str_claim(jwk.entries(), "kid"@) is None,
                    })
                },
                Err(e) => e is InvalidKeyFormat,
            },
            r is Ok <==> self.jwk_ok(jwk.entries(), "decrypt"@, "unwrapKey"@),
    {
        match self.checked_key(jwk, "decrypt", "unwrapKey") {
            Ok((key, kid)) => Ok(
                AesJweDecrypter { algorithm: *self, private_key: key, key_id: kid },
            ),
            Err(e) => Err(e),
        }
    }
}

/// Wraps a fresh content-encryption key under an AES key-encryption key.
#[derive(Debug)]
pub struct AesJweEncrypter {
    algorithm: AesJweAlgorithm,
    private_key: Vec<u8>,
    key_id: Option<String>,
}

impl AesJweEncrypter {
    /// Validity: the key length fits the algorithm.
    pub closed spec fn wf(&self) -> bool {
        self.private_key@.len() == self.algorithm.spec_key_len()
    }

    /// The algorithm, as a mathematical value.
    pub closed spec fn alg_spec(&self) -> AesJweAlgorithm {
        self.algorithm
    }

    /// The bound key id, as a mathematical value.
    pub closed spec fn kid_spec(&self) -> Option<Seq<char>> {
        match self.key_id {
            Some(s) => Some(s@),
            None => None,
        }
    }

    /// The key-encryption key.
    pub closed spec fn key(&self) -> Seq<u8> {
        self.private_key@
    }

    /// The algorithm this encrypter serves.
    pub fn algorithm(&self) -> (r: &AesJweAlgorithm)
        ensures
            *r == self.alg_spec(),
    {
        &self.algorithm
    }

    /// The bound key id, if any.
    pub fn key_id(&self) -> (r: Option<&String>)
        ensures
            match r {
                Some(s) => self.kid_spec() == Some(s@),
                None => self.kid_spec() is None,
            },
    {
        match &self.key_id {
            Some(s) => Some(s),
            None => None,
        }
    }

    /// Bind a key id.
    pub fn set_key_id(&mut self, key_id: &str)
        ensures
            final(self).kid_spec() == Some(key_id@),
            final(self).alg_spec() == old(self).alg_spec(),
            final(self).key() == old(self).key(),
            final(self).wf() == old(self).wf(),
    {
        self.key_id = Some(key_id.to_owned());
    }

    /// Remove the key id.
    pub fn remove_key_id(&mut self)
        ensures
            final(self).kid_spec() is None,
            final(self).alg_spec() == old(self).alg_spec(),
            final(self).key() == old(self).key(),
            final(self).wf() == old(self).wf(),
    {
        self.key_id = None;
    }

    /// Draw a fresh content-encryption key of `key_len` octets, wrap it,
    /// and record the algorithm in the header.  On success the wrapped
    /// output unwraps back to the returned key.
    pub fn encrypt(&self, header: &mut JweHeader, key_len: usize) -> (r: Result<
        (Vec<u8>, Option<Vec<u8>>),
        JoseError,
    >)
        requires
            self.wf(),
            old(header).wf(),
        ensures
            match r {
                Ok((cek, wrapped)) => {
                    &&& cek@.len() == key_len
                    &&& wrapped matches Some(w) && w@ == spec_aes_wrap(self.key(), cek@)
                        && w@.len() == key_len + 8
                    &&& spec_aes_unwrap(self.key(), spec_aes_wrap(self.key(), cek@)) == Some(cek@)
                    &&& final(header).entries() == spec_set_claim(
                        old(header).entries(),
                        "alg"@,
                        JsonVal::Str(self.alg_spec().spec_name()),
                    )
                    &&& final(header).wf()
                },
                Err(e) => e is InvalidKeyFormat && final(header).entries() == old(
                    header,
                ).entries(),
            },
            (key_len % 8 != 0 || key_len < 16 || key_len > 65536) ==> r is Err,
    {
        if key_len % 8 != 0 || key_len < 16 || key_len > 65536 {
            return Err(JoseError::InvalidKeyFormat(String::from_str(
                "the content-encryption key length does not fit AES key wrap",
            )));
        }
        let mut cek: Vec<u8> = vec![0u8; key_len];
        match fill_random(&mut cek) {
            Ok(()) => {},
            Err(e) => {
                return Err(e);
            },
        }
        let mut wrapped: Vec<u8> = vec![0u8; key_len + 8];
        let n = match aes_wrap_into(self.private_key.as_slice(), &mut wrapped, cek.as_slice()) {
            Ok(n) => n,
            Err(e) => {
                return Err(e);
            },
        };
        proof {
            assert(wrapped@.skip(n as int) =~= Seq::<u8>::empty());
            assert(wrapped@ =~= spec_aes_wrap(self.key(), cek@));
        }
        header.set_algorithm(self.name_of());
        Ok((cek, Some(wrapped)))
    }

    /// The canonical name of the held algorithm.
    fn name_of(&self) -> (r: &'static str)
        ensures
            r@ == self.alg_spec().spec_name(),
    {
        self.algorithm.name()
    }
}

/// Unwraps a received content-encryption key under an AES key-encryption
/// key.
#[derive(Debug)]
pub struct AesJweDecrypter {
    algorithm: AesJweAlgorithm,
    private_key: Vec<u8>,
    key_id: Option<String>,
}

impl AesJweDecrypter {
    /// Validity: the key length fits the algorithm.
    pub closed spec fn wf(&self) -> bool {
        self.private_key@.len() == self.algorithm.spec_key_len()
    }

    /// The algorithm, as a mathematical value.
    pub closed spec fn alg_spec(&self) -> AesJweAlgorithm {
        self.algorithm
    }

    /// The bound key id, as a mathematical value.
    pub closed spec fn kid_spec(&self) -> Option<Seq<char>> {
        match self.key_id {
            Some(s) => Some(s@),
            None => None,
        }
    }

    /// The key-encryption key.
    pub closed spec fn key(&self) -> Seq<u8> {
        self.private_key@
    }

    /// The algorithm this decrypter serves.
    pub fn algorithm(&self) -> (r: &AesJweAlgorithm)
        ensures
            *r == self.alg_spec(),
    {
        &self.algorithm
    }

    /// The bound key id, if any.
    pub fn key_id(&self) -> (r: Option<&String>)
        ensures
            match r {
                Some(s) => self.kid_spec() == Some(s@),
                None => self.kid_spec() is None,
            },
    {
        match &self.key_id {
            Some(s) => Some(s),
            None => None,
        }
    }

    /// Bind a key id.
    pub fn set_key_id(&mut self, key_id: &str)
        ensures
            final(self).kid_spec() == Some(key_id@),
            final(self).alg_spec() == old(self).alg_spec(),
            final(self).key() == old(self).key(),
            final(self).wf() == old(self).wf(),
    {
        self.key_id = Some(key_id.to_owned());
    }

    /// Remove the key id.
    pub fn remove_key_id(&mut self)
        ensures
            final(self).kid_spec() is None,
            final(self).alg_spec() == old(self).alg_spec(),
            final(self).key() == old(self).key(),
            final(self).wf() == old(self).wf(),
    {
        self.key_id = None;
    }

    /// Unwrap a received content-encryption key of `key_len` octets.
    /// Succeeds exactly when a wrapped key of the right size is present
    /// and the RFC 3394 integrity check passes.
    pub fn decrypt(
        &self,
        _header: &JweHeader,
        encrypted_key: Option<&[u8]>,
        key_len: usize,
    ) -> (r: Result<Vec<u8>, JoseError>)
        requires
            self.wf(),
            key_len + 8 <= usize::MAX,
        ensures
            match r {
                Ok(cek) => {
                    &&& encrypted_key matches Some(w) && spec_aes_unwrap(self.key(), w@)
                        == Some(cek@)
                    &&& cek@.len() + 8 == encrypted_key.unwrap()@.len()
                },
                Err(e) => e is InvalidJweFormat,
            },
            r is Ok <==> (encrypted_key matches Some(w) && w@.len() <= key_len + 8 && w@.len()
                < 0x100000000 && spec_aes_unwrap(self.key(), w@) is Some),
    {
        let wrapped = match encrypted_key {
            Some(w) => w,
            None => {
                return Err(JoseError::InvalidJweFormat(String::from_str(
                    "an encrypted key is required",
                )));
            },
        };
        if wrapped.len() > key_len + 8 {
            return Err(JoseError::InvalidJweFormat(String::from_str(
                "the encrypted key is longer than the requested key",
            )));
        }
        if wrapped.len() as u64 >= 0x100000000u64 {
            return Err(JoseError::InvalidJweFormat(String::from_str(
                "the encrypted key is too long for the provider",
            )));
        }
        let mut cek: Vec<u8> = vec![0u8; key_len];
        let n = match aes_unwrap_into(self.private_key.as_slice(), &mut cek, wrapped) {
            Ok(n) => n,
            Err(e) => {
                return Err(e);
            },
        };
        if n < cek.len() {
            cek.truncate(n);
        }
        proof {
            let u = spec_aes_unwrap(self.key(), wrapped@).unwrap();
            assert(cek@ =~= u);
        }
        Ok(cek)
    }
}

/// A content-encryption key wrapped under a key-encryption key unwraps to
/// itself: whatever `encrypt` hands out as the wrapped key, a `decrypt`
/// that succeeds on it under the same key-encryption key returns exactly
/// the content-encryption key that was wrapped.
pub proof fn lemma_key_wrap_round_trip(
    key: Seq<u8>,
    cek: Seq<u8>,
    wrapped: Seq<u8>,
    recovered: Seq<u8>,
)
    requires
        wrapped == spec_aes_wrap(key, cek),
        spec_aes_unwrap(key, spec_aes_wrap(key, cek)) == Some(cek),
        spec_aes_unwrap(key, wrapped) == Some(recovered),
    ensures
        recovered == cek,
{
}

} // verus!
