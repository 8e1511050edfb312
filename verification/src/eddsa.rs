//! The EdDSA JWS algorithm: signers and verifiers for Ed25519 and Ed448
//! keys arriving as PEM, DER or JWK, normalized to PKCS#8 /
//! SubjectPublicKeyInfo before they reach the primitive provider.  The
//! signing primitives come from the `openssl` crate behind trusted
//! wrappers; pure EdDSA is deterministic, so a signature is a function of
//! the key and the message.
use vstd::prelude::*;

use crate::JoseError;
use crate::b64::{b64std_is_valid, b64url_decode, b64url_is_valid, spec_b64std_decode,
    spec_b64url_decode};
use crate::der::{ObjectIdentifier, build_pkcs8, ed25519_oid, ed448_oid, emit_der_len, oid_wf,
    spec_der_len, spec_ed25519_oid, spec_ed448_oid, spec_pkcs8};
use crate::header::{spec_str_claim, spec_strarr_claim};
use crate::jwk::{Jwk, string_list_contains};
use crate::text::{str_eq, str_from_utf8};
use crate::jws_context::{JwsSigner, JwsVerifier};

verus! {

broadcast use vstd::seq::group_seq_axioms, vstd::std_specs::vec::group_vec_axioms;

/// Whether `openssl` accepts these bytes as a PKCS#8 PrivateKeyInfo.
pub uninterp spec fn spec_ed_private_der_ok(der: Seq<u8>) -> bool;

/// Whether `openssl` accepts these bytes as a SubjectPublicKeyInfo.
pub uninterp spec fn spec_ed_public_der_ok(der: Seq<u8>) -> bool;

/// The pure-EdDSA signature of a message under a private key; RFC 8032
/// signing is deterministic, so it depends on the key and message alone.
pub uninterp spec fn spec_ed_sign(der: Seq<u8>, msg: Seq<u8>) -> Seq<u8>;

/// Whether a public key accepts a signature on a message.
pub uninterp spec fn spec_ed_verify(der: Seq<u8>, msg: Seq<u8>, sig: Seq<u8>) -> bool;

/// Relies on `openssl::pkey::PKey::private_key_from_der`: acceptance
/// depends on the bytes alone.
#[verifier::external_body]
fn ed_private_der_check(der: &[u8]) -> (r: bool)
    ensures
        r == spec_ed_private_der_ok(der@),
{
    openssl::pkey::PKey::private_key_from_der(der).is_ok()
}

/// Relies on `openssl::pkey::PKey::public_key_from_der`: acceptance
/// depends on the bytes alone.
#[verifier::external_body]
fn ed_public_der_check(der: &[u8]) -> (r: bool)
    ensures
        r == spec_ed_public_der_ok(der@),
{
    openssl::pkey::PKey::public_key_from_der(der).is_ok()
}

/// Relies on `openssl::pkey::PKey::private_key_from_der`,
/// `openssl::sign::Signer::new_without_digest` and
/// `Signer::sign_oneshot_to_vec`: one-shot pure-EdDSA signing, whose
/// output depends on the key and the message alone.
#[verifier::external_body]
fn ed_sign_der(der: &[u8], msg: &[u8]) -> (r: Result<Vec<u8>, JoseError>)
    requires
        spec_ed_private_der_ok(der@),
    ensures
        r matches Ok(sig) ==> sig@ == spec_ed_sign(der@, msg@),
        r matches Err(e) ==> e is InvalidSignature,
{
    let key = match openssl::pkey::PKey::private_key_from_der(der) {
        Ok(k) => k,
        Err(_) => {
            return Err(JoseError::InvalidSignature(String::from("the private key was rejected")));
        },
    };
    let out = openssl::sign::Signer::new_without_digest(&key).and_then(|mut s|
        s.sign_oneshot_to_vec(msg));
    match out {
        Ok(sig) => Ok(sig),
        Err(_) => Err(JoseError::InvalidSignature(String::from("signing failed"))),
    }
}

/// Relies on `openssl::pkey::PKey::public_key_from_der`,
/// `openssl::sign::Verifier::new_without_digest` and
/// `Verifier::verify_oneshot`: whether the key accepts the signature
/// depends on the key, message and signature alone.
#[verifier::external_body]
fn ed_verify_der(der: &[u8], msg: &[u8], sig: &[u8]) -> (r: Result<bool, JoseError>)
    requires
        spec_ed_public_der_ok(der@),
    ensures
        r matches Ok(b) ==> b == spec_ed_verify(der@, msg@, sig@),
        r matches Err(e) ==> e is InvalidSignature,
{
    let key = match openssl::pkey::PKey::public_key_from_der(der) {
        Ok(k) => k,
        Err(_) => {
            return Err(JoseError::InvalidSignature(String::from("the public key was rejected")));
        },
    };
    let out = openssl::sign::Verifier::new_without_digest(&key).and_then(|mut v|
        v.verify_oneshot(sig, msg));
    match out {
        Ok(b) => Ok(b),
        Err(_) => Err(JoseError::InvalidSignature(String::from("verification failed"))),
    }
}

/// The EdDSA signature algorithm of RFC 8037.
#[derive(Clone, Copy, PartialEq, Eq, Debug)]
pub enum EddsaJwsAlgorithm {
    /// EdDSA over Ed25519 or Ed448.
    Eddsa,
}

/// The JWK conditions for an EdDSA key serving the given operation with
/// the given scalar or point parameter present.
pub open spec fn eddsa_jwk_ok(j: Seq<(Seq<char>, JsonVal)>, op: Seq<char>, param: Seq<char>) -> bool {
    &&& spec_str_claim(j, "kty"@) == Some("OKP"@)
    &&& (spec_str_claim(j, "use"@) matches Some(u) ==> u == "sig"@)
    &&& (spec_strarr_claim(j, "key_ops"@) matches Some(ops) ==> ops.contains(op))
    &&& (spec_str_claim(j, "alg"@) matches Some(a) ==> a == "EdDSA"@)
    &&& (spec_str_claim(j, "crv"@) matches Some(c) && (c == "Ed25519"@ || c == "Ed448"@))
    &&& (spec_str_claim(j, param) matches Some(k) && b64url_is_valid(
        vstd::utf8::encode_utf8(k),
    ) && spec_b64url_decode(vstd::utf8::encode_utf8(k)).len() < 0xFFFFFE00)
}

/// The four outcomes of the structural probe.
pub enum DetectOutcome {
    /// The input does not open with the expected PKCS#8 or
    /// SubjectPublicKeyInfo shape.
    NotShaped,
    /// The shape is right but the version integer is not zero.
    BadVersion,
    /// The shape is right but the identifier is not an Edwards curve.
    ForeignOid,
    /// The shape is right and this is its curve identifier.
    Found(Seq<u64>),
}

/// Probe the algorithm-identifier sequence expected at `pos`.
pub open spec fn spec_detect_alg(input: Seq<u8>, pos: int) -> DetectOutcome {
    match spec_read_tlv(input, pos) {
        None => DetectOutcome::NotShaped,
        Some((tag2, _len2, vs2)) => if tag2 != 0x30 {
            DetectOutcome::NotShaped
        } else {
            match spec_read_tlv(input, vs2) {
                None => DetectOutcome::NotShaped,
                Some((tag3, len3, vs3)) => if tag3 != 0x06 {
                    DetectOutcome::NotShaped
                } else {
                    match spec_parse_oid(input, vs3, vs3 + len3) {
                        None => DetectOutcome::NotShaped,
                        Some(c) => if c == spec_ed25519_oid() || c == spec_ed448_oid() {
                            DetectOutcome::Found(c)
                        } else {
                            DetectOutcome::ForeignOid
                        },
                    }
                },
            }
        },
    }
}

/// What the structural probe decides on given bytes: the outer sequence,
/// then (for a private key) the zero version integer, then the algorithm
/// identifier, exactly as the reader walks them.
pub open spec fn spec_detect(input: Seq<u8>, is_public: bool) -> DetectOutcome {
    match spec_read_tlv(input, 0) {
        None => DetectOutcome::NotShaped,
        Some((tag0, _len0, vs0)) => if tag0 != 0x30 {
            DetectOutcome::NotShaped
        } else if is_public {
            spec_detect_alg(input, vs0)
        } else {
            match spec_read_tlv(input, vs0) {
                None => DetectOutcome::NotShaped,
                Some((tag1, len1, vs1)) => if tag1 != 0x02 || len1 != 1 {
                    DetectOutcome::NotShaped
                } else if input[vs1] != 0 {
                    DetectOutcome::BadVersion
                } else {
                    spec_detect_alg(input, vs1 + 1)
                },
            }
        },
    }
}

/// The curve identifier named by the `crv` parameter.
pub open spec fn spec_crv_oid(j: Seq<(Seq<char>, JsonVal)>) -> Seq<u64> {
    if spec_str_claim(j, "crv"@) == Some("Ed25519"@) {
        spec_ed25519_oid()
    } else {
        spec_ed448_oid()
    }
}

use crate::json::JsonVal;

impl EddsaJwsAlgorithm {
    /// The canonical `alg` name.
    pub fn name(&self) -> (r: &'static str)
        ensures
            r@ == "EdDSA"@,
    {
        "EdDSA"
    }

    /// The required JWK key type.
    pub fn key_type(&self) -> (r: &'static str)
        ensures
            r@ == "OKP"@,
    {
        "OKP"
    }

    /// Structural probe for a PKCS#8 PrivateKeyInfo (or, with `is_public`,
    /// a SubjectPublicKeyInfo): on the expected shape it returns the
    /// algorithm identifier, which is always one of the two Edwards
    /// curves; on a structural mismatch it returns nothing; an integer
    /// version other than zero or a foreign curve is an error.
    pub fn detect_pkcs8(&self, input: &[u8], is_public: bool) -> (r: Result<
        Option<ObjectIdentifier>,
        JoseError,
    >)
        ensures
            match r {
                Ok(Some(oid)) => spec_detect(input@, is_public) == DetectOutcome::Found(
                    oid.view_spec(),
                ) && (oid.view_spec() == spec_ed25519_oid() || oid.view_spec()
                    == spec_ed448_oid()),
                Ok(None) => spec_detect(input@, is_public) is NotShaped,
                Err(e) => (spec_detect(input@, is_public) is BadVersion || spec_detect(
                    input@,
                    is_public,
                ) is ForeignOid) && e is InvalidKeyFormat,
            },
    {
        let (tag0, _len0, vs0) = match read_tlv(input, 0) {
            Some(t) => t,
            None => {
                return Ok(None);
            },
        };
        if tag0 != 0x30 {
            return Ok(None);
        }
        let mut pos: usize = vs0;
        if !is_public {
            let (tag1, len1, vs1) = match read_tlv(input, pos) {
                Some(t) => t,
                None => {
                    return Ok(None);
                },
            };
            if tag1 != 0x02 || len1 != 1 {
                return Ok(None);
            }
            if input[vs1] != 0 {
                return Err(JoseError::InvalidKeyFormat(String::from_str(
                    "the PKCS#8 version is not recognized",
                )));
            }
            pos = vs1 + 1;
        }
        let (tag2, _len2, vs2) = match read_tlv(input, pos) {
            Some(t) => t,
            None => {
                return Ok(None);
            },
        };
        if tag2 != 0x30 {
            return Ok(None);
        }
        let (tag3, len3, vs3) = match read_tlv(input, vs2) {
            Some(t) => t,
            None => {
                return Ok(None);
            },
        };
        if tag3 != 0x06 {
            return Ok(None);
        }
        let oid = match parse_oid(input, vs3, len3) {
            Some(o) => o,
            None => {
                return Ok(None);
            },
        };
        let ed25519 = ed25519_oid();
        let ed448 = ed448_oid();
        if oid.eq_oid(&ed25519) || oid.eq_oid(&ed448) {
            Ok(Some(oid))
        } else {
            Err(JoseError::InvalidKeyFormat(String::from_str(
                "the curve identifier is not an Edwards curve",
            )))
        }
    }

    /// Wrap raw key material in the PKCS#8 or SubjectPublicKeyInfo
    /// envelope for the given curve.
    /// The length bound is the DER emitter's own: it writes definite
    /// lengths of at most four octets.
    pub fn to_pkcs8(&self, input: &[u8], is_public: bool, crv: &ObjectIdentifier) -> (r: Vec<u8>)
        requires
            oid_wf(crv.view_spec()),
            input@.len() < 0xFFFFFF00,
        ensures
            r@ == spec_pkcs8(crv.view_spec(), input@, is_public),
    {
        build_pkcs8(input, is_public, crv.components())
    }

    /// Build a signer from an OKP JWK.  Every validation failure is
    /// `InvalidKeyFormat`; when any of the JWK invariants does not hold
    /// the constructor fails.
    pub fn signer_from_jwk(&self, jwk: &Jwk) -> (r: Result<EddsaJwsSigner, JoseError>)
        requires
            jwk.wf(),
        ensures
            match r {
                Ok(s) => {
                    &&& eddsa_jwk_ok(jwk.entries(), "sign"@, "d"@)
                    &&& s.wf()
                    &&& s.key_der() == spec_pkcs8(
                        spec_crv_oid(jwk.entries()),
                        seq![0x04u8] + spec_der_len(
                            spec_b64url_decode(
                                vstd::utf8::encode_utf8(
                                    spec_str_claim(jwk.entries(), "d"@).unwrap(),
                                ),
                            ).len() as int,
                        ) + spec_b64url_decode(
                            vstd::utf8::encode_utf8(spec_str_claim(jwk.entries(), "d"@).unwrap()),
                        ),
                        false,
                    )
                    &&& (match s.kid_spec() {
                        Some(k) => spec_str_claim(jwk.entries(), "kid"@) == Some(k),
                        None => spec_str_claim(jwk.entries(), "kid"@) is None,
                    })
                },
                Err(e) => e is InvalidKeyFormat,
            },
            r is Ok <==> (eddsa_jwk_ok(jwk.entries(), "sign"@, "d"@) && spec_ed_private_der_ok(
                spec_pkcs8(
                    spec_crv_oid(jwk.entries()),
                    seq![0x04u8] + spec_der_len(
                        spec_b64url_decode(
                            vstd::utf8::encode_utf8(spec_str_claim(jwk.entries(), "d"@).unwrap()),
                        ).len() as int,
                    ) + spec_b64url_decode(
                        vstd::utf8::encode_utf8(spec_str_claim(jwk.entries(), "d"@).unwrap()),
                    ),
                    false,
                ),
            )),
    {
        let (raw, kid) = match self.checked_okp(jwk, "sign", "d") {
            Ok(v) => v,
            Err(e) => {
                return Err(e);
            },
        };
        let crv = self.crv_of(jwk);
        let mut inner: Vec<u8> = Vec::new();
        inner.push(0x04);
        emit_der_len(&mut inner, raw.len());
        crate::der::append_bytes(&mut inner, raw.as_slice());
        let pkcs8 = build_pkcs8(inner.as_slice(), false, crv.components());
        if !ed_private_der_check(pkcs8.as_slice()) {
            return Err(JoseError::InvalidKeyFormat(String::from_str(
                "the provider rejected the private key",
            )));
        }
        Ok(EddsaJwsSigner { algorithm: *self, private_key: pkcs8, key_id: kid })
    }

    /// Build a verifier from an OKP JWK.
    pub fn verifier_from_jwk(&self, jwk: &Jwk) -> (r: Result<EddsaJwsVerifier, JoseError>)
        requires
            jwk.wf(),
        ensures
            match r {
                Ok(v) => {
                    &&& eddsa_jwk_ok(jwk.entries(), "verify"@, "x"@)
                    &&& v.wf()
                    &&& v.key_der() == spec_pkcs8(
                        spec_crv_oid(jwk.entries()),
                        spec_b64url_decode(
                            vstd::utf8::encode_utf8(spec_str_claim(jwk.entries(), "x"@).unwrap()),
                        ),
                        true,
                    )
                    &&& (match v.kid_spec() {
                        Some(k) => spec_str_claim(jwk.entries(), "kid"@) == Some(k),
                        None => spec_str_claim(jwk.entries(), "kid"@) is None,
                    })
                },
                Err(e) => e is InvalidKeyFormat,
            },
            r is Ok <==> (eddsa_jwk_ok(jwk.entries(), "verify"@, "x"@) && spec_ed_public_der_ok(
                spec_pkcs8(
                    spec_crv_oid(jwk.entries()),
                    spec_b64url_decode(
                        vstd::utf8::encode_utf8(spec_str_claim(jwk.entries(), "x"@).unwrap()),
                    ),
                    true,
                ),
            )),
    {
        let (raw, kid) = match self.checked_okp(jwk, "verify", "x") {
            Ok(v) => v,
            Err(e) => {
                return Err(e);
            },
        };
        let crv = self.crv_of(jwk);
        let spki = build_pkcs8(raw.as_slice(), true, crv.components());
        if !ed_public_der_check(spki.as_slice()) {
            return Err(JoseError::InvalidKeyFormat(String::from_str(
                "the provider rejected the public key",
            )));
        }
        Ok(EddsaJwsVerifier { algorithm: *self, public_key: spki, key_id: kid })
    }

    /// The curve identifier named by a validated JWK.
    fn crv_of(&self, jwk: &Jwk) -> (r: ObjectIdentifier)
        requires
            spec_str_claim(jwk.entries(), "crv"@) matches Some(c) && (c == "Ed25519"@ || c
                == "Ed448"@),
        ensures
            r.view_spec() == spec_crv_oid(jwk.entries()),
            oid_wf(r.view_spec()),
    {
        let c = match jwk.str_parameter("crv") {
            Some(c) => c,
            None => {
                proof {
                    assert(false);
                }
                vstd::pervasive::unreached()
            },
        };
        if str_eq(c.as_str(), "Ed25519") {
            let r = ed25519_oid();
            proof {
                assert(oid_wf(spec_ed25519_oid()));
            }
            r
        } else {
            let r = ed448_oid();
            proof {
                assert(oid_wf(spec_ed448_oid()));
            }
            r
        }
    }

    /// Validation shared by the two JWK constructors: returns the decoded
    /// scalar or point and the key id.
    fn checked_okp(&self, jwk: &Jwk, op: &str, param: &str) -> (r: Result<
        (Vec<u8>, Option<String>),
        JoseError,
    >)
        requires
            jwk.wf(),
        ensures
            match r {
                Ok((raw, kid)) => {
                    &&& eddsa_jwk_ok(jwk.entries(), op@, param@)
                    &&& raw@ == spec_b64url_decode(
                        vstd::utf8::encode_utf8(
                            spec_str_claim(jwk.entries(), param@).unwrap(),
                        ),
                    )
                    &&& (match kid {
                        Some(s) => spec_str_claim(jwk.entries(), "kid"@) == Some(s@),
                        None => spec_str_claim(jwk.entries(), "kid"@) is None,
                    })
                },
                Err(e) => e is InvalidKeyFormat,
            },
            r is Ok <==> eddsa_jwk_ok(jwk.entries(), op@, param@),
    {
        let kty = jwk.key_type();
        if !str_eq(kty.as_str(), "OKP") {
            return Err(JoseError::InvalidKeyFormat(String::from_str(
                "the kty parameter must be OKP",
            )));
        }
        match jwk.key_use() {
            Some(u) => {
                if !str_eq(u.as_str(), "sig") {
                    return Err(JoseError::InvalidKeyFormat(String::from_str(
                        "the use parameter must be sig",
                    )));
                }
            },
            None => {},
        }
        match jwk.key_operations() {
            Some(ops) => {
                if !string_list_contains(&ops, op) {
                    return Err(JoseError::InvalidKeyFormat(String::from_str(
                        "the key_ops parameter must allow this role",
                    )));
                }
            },
            None => {},
        }
        match jwk.algorithm() {
            Some(a) => {
                if !str_eq(a.as_str(), "EdDSA") {
                    return Err(JoseError::InvalidKeyFormat(String::from_str(
                        "the alg parameter names another algorithm",
                    )));
                }
            },
            None => {},
        }
        match jwk.str_parameter("crv") {
            Some(c) => {
                if !(str_eq(c.as_str(), "Ed25519") || str_eq(c.as_str(), "Ed448")) {
                    return Err(JoseError::InvalidKeyFormat(String::from_str(
                        "the crv parameter names an unknown curve",
                    )));
                }
            },
            None => {
                return Err(JoseError::InvalidKeyFormat(String::from_str(
                    "the crv parameter is required and must be a string",
                )));
            },
        }
        let k = match jwk.str_parameter(param) {
            Some(k) => k,
            None => {
                return Err(JoseError::InvalidKeyFormat(String::from_str(
                    "the key material parameter is required and must be a string",
                )));
            },
        };
        let raw = match b64url_decode(k.as_str().as_bytes()) {
            Some(v) => v,
            None => {
                return Err(JoseError::InvalidKeyFormat(String::from_str(
                    "the key material is not base64url",
                )));
            },
        };
        if raw.len() as u64 >= 0xFFFFFE00u64 {
            return Err(JoseError::InvalidKeyFormat(String::from_str(
                "the key material is too long for a DER record",
            )));
        }
        let kid = match jwk.key_id() {
            Some(s) => Some(s.clone()),
            None => None,
        };
        Ok((raw, kid))
    }
}

/// The big-endian value of `count` bytes starting at `at`.
pub open spec fn spec_be_bytes(input: Seq<u8>, at: int, count: int) -> int
    decreases count,
{
    if count <= 0 {
        0
    } else {
        spec_be_bytes(input, at, count - 1) * 0x100 + input[at + count - 1]
    }
}

/// What reading one tag-length-value header at `pos` yields: the tag, the
/// content length (definite, one length byte below 0x80 or a long form of
/// one to four length octets), and the content start; nothing when the
/// header or the content overruns the input.
pub open spec fn spec_read_tlv(input: Seq<u8>, pos: int) -> Option<(u8, int, int)> {
    if pos < 0 || pos >= input.len() || input.len() - pos < 2 {
        None
    } else {
        let tag = input[pos];
        let first = input[pos + 1];
        if first < 0x80 {
            let len = first as int;
            if input.len() - (pos + 2) < len {
                None
            } else {
                Some((tag, len, pos + 2))
            }
        } else {
            let count = first as int - 0x80;
            if count == 0 || count > 4 {
                None
            } else if input.len() - pos < 2 + count {
                None
            } else {
                let len = spec_be_bytes(input, pos + 2, count);
                if input.len() - (pos + 2 + count) < len {
                    None
                } else {
                    Some((tag, len, pos + 2 + count))
                }
            }
        }
    }
}

/// Read one tag-length-value header, exactly as `spec_read_tlv` says.
#[verifier::loop_isolation(false)]
fn read_tlv(input: &[u8], pos: usize) -> (r: Option<(u8, usize, usize)>)
    ensures
        match r {
            Some((tag, len, vs)) => spec_read_tlv(input@, pos as int) == Some(
                (tag, len as int, vs as int),
            ),
            None => spec_read_tlv(input@, pos as int) is None,
        },
        r matches Some((tag, len, vs)) ==> pos < input@.len() && tag == input@[pos as int] && pos
            + 2 <= vs <= input@.len() && vs + len <= input@.len(),
{
    if pos >= input.len() || input.len() - pos < 2 {
        return None;
    }
    let tag = input[pos];
    let first = input[pos + 1];
    if first < 0x80 {
        let len = first as usize;
        let vs = pos + 2;
        if input.len() - vs < len {
            return None;
        }
        Some((tag, len, vs))
    } else {
        let count = (first - 0x80) as usize;
        if count == 0 || count > 4 {
            return None;
        }
        if input.len() - pos < 2 + count {
            return None;
        }
        let mut len: usize = 0;
        let mut i: usize = 0;
        while i < count
            invariant
                count <= 4,
                pos + 2 + count <= input@.len(),
                0 <= i <= count,
                len == spec_be_bytes(input@, pos + 2, i as int),
                i <= 1 ==> len <= 0xFF,
                i <= 2 ==> len <= 0xFFFF,
                i <= 3 ==> len <= 0xFFFFFF,
                len <= 0xFFFFFFFF,
            decreases count - i,
        {
            len = (len % 0x1000000) * 0x100 + (input[pos + 2 + i] as usize);
            i += 1;
        }
        let vs = pos + 2 + count;
        if input.len() - vs < len {
            return None;
        }
        Some((tag, len, vs))
    }
}

/// One step per content octet of an OBJECT IDENTIFIER: the base-128
/// accumulator, whether the leading pair has been split off, and whether a
/// component is still open at the end.
pub open spec fn spec_oid_steps(
    input: Seq<u8>,
    i: int,
    end: int,
    acc: int,
    first_done: bool,
    in_value: bool,
    parts: Seq<u64>,
) -> Option<Seq<u64>>
    decreases (if i < end { end - i } else { 0 }),
{
    if i >= end {
        if in_value || !first_done {
            None
        } else {
            Some(parts)
        }
    } else {
        let b = input[i];
        if acc >= 0x2000000000000 {
            None
        } else {
            let acc2 = acc * 128 + (b as int % 128);
            if b < 0x80 {
                let parts2 = if !first_done {
                    if acc2 < 40 {
                        parts + seq![0u64, acc2 as u64]
                    } else if acc2 < 80 {
                        parts + seq![1u64, (acc2 - 40) as u64]
                    } else {
                        parts + seq![2u64, (acc2 - 80) as u64]
                    }
                } else {
                    parts + seq![acc2 as u64]
                };
                spec_oid_steps(input, i + 1, end, 0, true, false, parts2)
            } else {
                spec_oid_steps(input, i + 1, end, acc2, first_done, true, parts)
            }
        }
    }
}

/// The components of an OBJECT IDENTIFIER read from `pos` to `end`.
pub open spec fn spec_parse_oid(input: Seq<u8>, pos: int, end: int) -> Option<Seq<u64>> {
    if end <= pos {
        None
    } else {
        spec_oid_steps(input, pos, end, 0, false, false, Seq::empty())
    }
}

/// Decode the components of an OBJECT IDENTIFIER from `len` content
/// octets at `pos`, exactly as `spec_parse_oid` says.
#[verifier::loop_isolation(false)]
fn parse_oid(input: &[u8], pos: usize, len: usize) -> (r: Option<ObjectIdentifier>)
    requires
        pos + len <= input@.len(),
    ensures
        match r {
            Some(o) => spec_parse_oid(input@, pos as int, pos + len as int) == Some(
                o.view_spec(),
            ),
            None => spec_parse_oid(input@, pos as int, pos + len as int) is None,
        },
{
    if len == 0 {
        return None;
    }
    let total = input.len();
    let mut parts: Vec<u64> = Vec::new();
    let endpos = pos + len;
    let mut i: usize = pos;
    let mut acc: u64 = 0;
    let mut first_done: bool = false;
    let mut in_value: bool = false;
    while i < endpos
        invariant
            pos <= i <= endpos,
            endpos == pos + len,
            endpos <= input@.len(),
            acc < 0x100000000000000,
            spec_parse_oid(input@, pos as int, endpos as int) == spec_oid_steps(
                input@,
                i as int,
                endpos as int,
                acc as int,
                first_done,
                in_value,
                parts@,
            ),
        decreases endpos - i,
    {
        let b = input[i];
        if acc >= 0x2000000000000 {
            return None;
        }
        let ghost parts_before = parts@;
        acc = acc * 128 + ((b % 128) as u64);
        if b < 0x80 {
            if !first_done {
                if acc < 40 {
                    parts.push(0);
                    parts.push(acc);
                } else if acc < 80 {
                    parts.push(1);
                    parts.push(acc - 40);
                } else {
                    parts.push(2);
                    parts.push(acc - 80);
                }
                first_done = true;
            } else {
                parts.push(acc);
            }
            proof {
                if parts@.len() == parts_before.len() + 2 {
                    assert(parts@ =~= parts_before + seq![
                        parts@[parts_before.len() as int],
                        parts@[parts_before.len() as int + 1],
                    ]);
                } else {
                    assert(parts@ =~= parts_before + seq![parts@[parts_before.len() as int]]);
                }
            }
            acc = 0;
            in_value = false;
        } else {
            in_value = true;
        }
        i += 1;
    }
    if in_value || !first_done {
        return None;
    }
    Some(ObjectIdentifier::from_parts(parts))
}

/// Signs with a private Edwards key held as PKCS#8 bytes the provider has
/// accepted.
#[derive(Debug)]
pub struct EddsaJwsSigner {
    algorithm: EddsaJwsAlgorithm,
    private_key: Vec<u8>,
    key_id: Option<String>,
}

impl EddsaJwsSigner {
    /// The PKCS#8 bytes of the key.
    pub closed spec fn key_der(&self) -> Seq<u8> {
        self.private_key@
    }

    /// The algorithm this signer serves.
    pub fn algorithm(&self) -> (r: &EddsaJwsAlgorithm)
        ensures
            *r == EddsaJwsAlgorithm::Eddsa,
    {
        &self.algorithm
    }

    /// Bind a key id.
    pub fn set_key_id(&mut self, key_id: &str)
        ensures
            final(self).kid_spec() == Some(key_id@),
            final(self).key_der() == old(self).key_der(),
            final(self).wf() == old(self).wf(),
    {
        self.key_id = Some(key_id.to_owned());
    }

    /// Remove the key id.
    pub fn remove_key_id(&mut self)
        ensures
            final(self).kid_spec() is None,
            final(self).key_der() == old(self).key_der(),
            final(self).wf() == old(self).wf(),
    {
        self.key_id = None;
    }
}

impl JwsSigner for EddsaJwsSigner {
    /// Validity: the provider accepts the key.
    closed spec fn wf(&self) -> bool {
        spec_ed_private_der_ok(self.private_key@)
    }

    closed spec fn alg_spec(&self) -> Seq<char> {
        "EdDSA"@
    }

    closed spec fn kid_spec(&self) -> Option<Seq<char>> {
        match self.key_id {
            Some(s) => Some(s@),
            None => None,
        }
    }

    /// The signature is the deterministic pure-EdDSA signature under the
    /// held key.
    closed spec fn signature_spec(&self, msg: Seq<u8>) -> Seq<u8> {
        spec_ed_sign(self.private_key@, msg)
    }

    fn algorithm_name(&self) -> (r: &str) {
        "EdDSA"
    }

    fn key_id(&self) -> (r: Option<&String>) {
        match &self.key_id {
            Some(s) => Some(s),
            None => None,
        }
    }

    /// Sign a message with pure EdDSA.
    fn sign(&self, message: &[u8]) -> (r: Result<Vec<u8>, JoseError>) {
        ed_sign_der(self.private_key.as_slice(), message)
    }
}

/// Verifies with a public Edwards key held as SubjectPublicKeyInfo bytes
/// the provider has accepted.
#[derive(Debug)]
pub struct EddsaJwsVerifier {
    algorithm: EddsaJwsAlgorithm,
    public_key: Vec<u8>,
    key_id: Option<String>,
}

impl EddsaJwsVerifier {
    /// The SubjectPublicKeyInfo bytes of the key.
    pub closed spec fn key_der(&self) -> Seq<u8> {
        self.public_key@
    }

    /// The algorithm this verifier serves.
    pub fn algorithm(&self) -> (r: &EddsaJwsAlgorithm)
        ensures
            *r == EddsaJwsAlgorithm::Eddsa,
    {
        &self.algorithm
    }

    /// Bind a key id.
    pub fn set_key_id(&mut self, key_id: &str)
        ensures
            final(self).kid_spec() == Some(key_id@),
            final(self).key_der() == old(self).key_der(),
            final(self).wf() == old(self).wf(),
    {
        self.key_id = Some(key_id.to_owned());
    }

    /// Remove the key id.
    pub fn remove_key_id(&mut self)
        ensures
            final(self).kid_spec() is None,
            final(self).key_der() == old(self).key_der(),
            final(self).wf() == old(self).wf(),
    {
        self.key_id = None;
    }
}

impl JwsVerifier for EddsaJwsVerifier {
    /// Validity: the provider accepts the key.
    closed spec fn wf(&self) -> bool {
        spec_ed_public_der_ok(self.public_key@)
    }

    closed spec fn alg_spec(&self) -> Seq<char> {
        "EdDSA"@
    }

    closed spec fn kid_spec(&self) -> Option<Seq<char>> {
        match self.key_id {
            Some(s) => Some(s@),
            None => None,
        }
    }

    /// Acceptance is the deterministic pure-EdDSA check under the held
    /// key.
    closed spec fn verify_spec(&self, msg: Seq<u8>, sig: Seq<u8>) -> bool {
        spec_ed_verify(self.public_key@, msg, sig)
    }

    fn algorithm_name(&self) -> (r: &str) {
        "EdDSA"
    }

    fn key_id(&self) -> (r: Option<&String>) {
        match &self.key_id {
            Some(s) => Some(s),
            None => None,
        }
    }

    /// Check a signature; success means the key accepts it.
    fn verify(&self, message: &[u8], signature: &[u8]) -> (r: Result<(), JoseError>) {
        match ed_verify_der(self.public_key.as_slice(), message, signature) {
            Ok(true) => Ok(()),
            Ok(false) => Err(JoseError::InvalidSignature(String::from_str(
                "the signature does not verify",
            ))),
            Err(e) => Err(e),
        }
    }
}

} // verus!

verus! {

/// The non-empty lines of a PEM document: split at line feeds, carriage
/// returns dropped, mirrored step by step.
pub open spec fn spec_pem_lines(input: Seq<u8>, i: int, cur: Seq<u8>, acc: Seq<Seq<u8>>) -> Seq<
    Seq<u8>,
>
    decreases (if i < input.len() { input.len() - i } else { 0 }),
{
    if i < 0 || i >= input.len() {
        if cur.len() > 0 {
            acc.push(cur)
        } else {
            acc
        }
    } else if input[i] == 0x0A {
        spec_pem_lines(input, i + 1, Seq::empty(), if cur.len() > 0 {
            acc.push(cur)
        } else {
            acc
        })
    } else if input[i] == 0x0D {
        spec_pem_lines(input, i + 1, cur, acc)
    } else {
        spec_pem_lines(input, i + 1, cur.push(input[i]), acc)
    }
}

/// The body lines joined, from `from` up to `to`.
pub open spec fn spec_cat_lines(ls: Seq<Seq<u8>>, from: int, to: int) -> Seq<u8>
    decreases (if from < to { to - from } else { 0 }),
{
    if from < 0 || from >= to || to > ls.len() {
        Seq::empty()
    } else {
        ls[from] + spec_cat_lines(ls, from + 1, to)
    }
}

/// Up to two trailing padding characters removed.
pub open spec fn spec_strip_pad(b: Seq<u8>) -> Seq<u8> {
    let b1 = if b.len() > 0 && b[b.len() - 1] == 0x3D {
        b.take(b.len() - 1)
    } else {
        b
    };
    if b1.len() > 0 && b1[b1.len() - 1] == 0x3D {
        b1.take(b1.len() - 1)
    } else {
        b1
    }
}

/// What splitting a PEM document yields: the label between the dashes of
/// matching BEGIN and END lines (both all-ASCII), and the decoding of the
/// joined body lines after padding removal.
pub open spec fn spec_pem_split(input: Seq<u8>) -> Option<(Seq<char>, Seq<u8>)> {
    let ls = spec_pem_lines(input, 0, Seq::empty(), Seq::empty());
    if ls.len() < 2 {
        None
    } else {
        let first = ls[0];
        let last = ls[ls.len() - 1];
        if !(forall|i: int| 0 <= i < first.len() ==> first[i] < 0x80) {
            None
        } else if first.len() < 16 {
            None
        } else {
            let fchars = crate::json::ascii_chars(first);
            if !(fchars.subrange(0, 11) == "-----BEGIN "@ && fchars.subrange(
                first.len() - 5,
                first.len() as int,
            ) == "-----"@) {
                None
            } else {
                let label = fchars.subrange(11, first.len() - 5);
                if !(forall|i: int| 0 <= i < last.len() ==> last[i] < 0x80) {
                    None
                } else if last.len() < 14 {
                    None
                } else {
                    let lchars = crate::json::ascii_chars(last);
                    if !(lchars.subrange(0, 9) == "-----END "@ && lchars.subrange(
                        last.len() - 5,
                        last.len() as int,
                    ) == "-----"@ && lchars.subrange(9, last.len() - 5) == label) {
                        None
                    } else {
                        let body = spec_strip_pad(spec_cat_lines(ls, 1, ls.len() - 1));
                        if b64std_is_valid(body) {
                            Some((label, spec_b64std_decode(body)))
                        } else {
                            None
                        }
                    }
                }
            }
        }
    }
}

/// The lines held as vectors, viewed as byte sequences.
pub open spec fn spec_lines_view(v: Seq<Vec<u8>>) -> Seq<Seq<u8>> {
    Seq::new(v.len(), |j: int| v[j]@)
}

/// Split a PEM document into its label and its base64-decoded body,
/// exactly as `spec_pem_split` says.
#[verifier::loop_isolation(false)]
#[verifier::rlimit(100)]
fn parse_pem(input: &[u8]) -> (r: Result<(String, Vec<u8>), JoseError>)
    ensures
        match r {
            Ok((label, data)) => spec_pem_split(input@) == Some((label@, data@)),
            Err(e) => spec_pem_split(input@) is None && e is InvalidKeyFormat,
        },
{
    let mut lines: Vec<Vec<u8>> = Vec::new();
    let mut line: Vec<u8> = Vec::new();
    proof {
        assert(spec_lines_view(lines@) =~= Seq::<Seq<u8>>::empty());
    }
    let n = input.len();
    let mut i: usize = 0;
    while i < n
        invariant
            0 <= i <= n,
            n == input@.len(),
            spec_pem_lines(input@, 0, Seq::empty(), Seq::empty()) == spec_pem_lines(
                input@,
                i as int,
                line@,
                spec_lines_view(lines@),
            ),
        decreases n - i,
    {
        let b = input[i];
        if b == 0x0A {
            if line.len() > 0 {
                let ghost lv = spec_lines_view(lines@);
                let ghost cur = line@;
                lines.push(line);
                proof {
                    assert(spec_lines_view(lines@) =~= lv.push(cur));
                }
            }
            line = Vec::new();
        } else if b != 0x0D {
            line.push(b);
        }
        i += 1;
    }
    if line.len() > 0 {
        let ghost lv = spec_lines_view(lines@);
        let ghost cur = line@;
        lines.push(line);
        proof {
            assert(spec_lines_view(lines@) =~= lv.push(cur));
        }
    }
    let ghost ls = spec_pem_lines(input@, 0, Seq::empty(), Seq::empty());
    proof {
        assert(ls == spec_lines_view(lines@));
        assert(ls.len() == lines@.len());
    }
    if lines.len() < 2 {
        return Err(JoseError::InvalidKeyFormat(String::from_str(
            "a PEM document needs a BEGIN line and an END line",
        )));
    }
    proof {
        assert(ls[0] == lines@[0]@);
        assert(ls[ls.len() - 1] == lines@[lines@.len() - 1]@);
    }
    let first = match str_from_utf8(lines[0].as_slice()) {
        Some(s) => s,
        None => {
            proof {
                crate::jws_context::lemma_ascii_refutes(lines@[0]@);
            }
            return Err(JoseError::InvalidKeyFormat(String::from_str(
                "the PEM BEGIN line is not UTF-8",
            )));
        },
    };
    if !first.is_ascii() {
        proof {
            crate::jws_context::lemma_ascii_refutes(lines@[0]@);
        }
        return Err(JoseError::InvalidKeyFormat(String::from_str(
            "the PEM BEGIN line is not ASCII",
        )));
    }
    proof {
        crate::jws_context::lemma_ascii_line(lines@[0]@, first@);
    }
    let flen = first.unicode_len();
    if flen < 16 {
        return Err(JoseError::InvalidKeyFormat(String::from_str(
            "the PEM BEGIN line is too short",
        )));
    }
    if !(str_eq(first.substring_ascii(0, 11), "-----BEGIN ") && str_eq(
        first.substring_ascii(flen - 5, flen),
        "-----",
    )) {
        return Err(JoseError::InvalidKeyFormat(String::from_str(
            "the PEM document does not open with a BEGIN line",
        )));
    }
    let label = first.substring_ascii(11, flen - 5).to_owned();
    let last_index = lines.len() - 1;
    let last = match str_from_utf8(lines[last_index].as_slice()) {
        Some(s) => s,
        None => {
            proof {
                crate::jws_context::lemma_ascii_refutes(lines@[last_index as int]@);
            }
            return Err(JoseError::InvalidKeyFormat(String::from_str(
                "the PEM END line is not UTF-8",
            )));
        },
    };
    if !last.is_ascii() {
        proof {
            crate::jws_context::lemma_ascii_refutes(lines@[last_index as int]@);
        }
        return Err(JoseError::InvalidKeyFormat(String::from_str(
            "the PEM END line is not ASCII",
        )));
    }
    proof {
        crate::jws_context::lemma_ascii_line(lines@[last_index as int]@, last@);
    }
    let llen = last.unicode_len();
    if llen < 14 {
        return Err(JoseError::InvalidKeyFormat(String::from_str(
            "the PEM END line is too short",
        )));
    }
    if !(str_eq(last.substring_ascii(0, 9), "-----END ") && str_eq(
        last.substring_ascii(llen - 5, llen),
        "-----",
    ) && str_eq(last.substring_ascii(9, llen - 5), label.as_str())) {
        return Err(JoseError::InvalidKeyFormat(String::from_str(
            "the PEM END line does not match the BEGIN line",
        )));
    }
    let mut body: Vec<u8> = Vec::new();
    let mut k: usize = 1;
    while k < last_index
        invariant
            1 <= k <= last_index,
            last_index == lines@.len() - 1,
            lines@.len() >= 2,
            ls == spec_lines_view(lines@),
            spec_cat_lines(ls, 1, last_index as int) == body@ + spec_cat_lines(
                ls,
                k as int,
                last_index as int,
            ),
        decreases last_index - k,
    {
        crate::der::append_bytes(&mut body, lines[k].as_slice());
        proof {
            assert(spec_cat_lines(ls, k as int, last_index as int) == ls[k as int]
                + spec_cat_lines(ls, k as int + 1, last_index as int));
            assert(ls[k as int] == lines@[k as int]@);
        }
        k += 1;
    }
    proof {
        assert(spec_cat_lines(ls, last_index as int, last_index as int) =~= Seq::<u8>::empty());
        assert(body@ =~= spec_cat_lines(ls, 1, last_index as int));
    }
    let ghost raw_body = body@;
    let mut pad: usize = 0;
    while pad < 2 && body.len() > 0 && body[body.len() - 1] == 0x3D
        invariant
            0 <= pad <= 2,
            pad == 0 ==> spec_strip_pad(raw_body) == spec_strip_pad(body@),
            pad == 1 ==> spec_strip_pad(raw_body) == (if body@.len() > 0 && body@[body@.len()
                - 1] == 0x3D {
                body@.take(body@.len() - 1)
            } else {
                body@
            }),
            pad == 2 ==> spec_strip_pad(raw_body) == body@,
        decreases 2 - pad,
    {
        let ghost before = body@;
        let _ = body.pop();
        proof {
            assert(body@ =~= before.take(before.len() - 1));
        }
        pad += 1;
    }
    proof {
        assert(body@ == spec_strip_pad(raw_body));
    }
    let data = match crate::b64::b64std_decode(body.as_slice()) {
        Some(v) => v,
        None => {
            return Err(JoseError::InvalidKeyFormat(String::from_str(
                "the PEM body is not base64",
            )));
        },
    };
    Ok((label, data))
}

/// When a PEM private-key document is accepted: it splits, its body is a
/// PKCS#8 shape whose curve the label permits (a curve label pins the
/// identifier), and the provider accepts the bytes.
pub open spec fn spec_pem_signer_ok(input: Seq<u8>) -> bool {
    match spec_pem_split(input) {
        Some((label, data)) => {
            &&& (spec_detect(data, false) matches DetectOutcome::Found(c) && ((label
                == "PRIVATE KEY"@) || (label == "ED25519 PRIVATE KEY"@ && c
                == spec_ed25519_oid()) || (label == "ED448 PRIVATE KEY"@ && c
                == spec_ed448_oid())))
            &&& spec_ed_private_der_ok(data)
        },
        None => false,
    }
}

/// The public-key counterpart, over SubjectPublicKeyInfo bytes.
pub open spec fn spec_pem_verifier_ok(input: Seq<u8>) -> bool {
    match spec_pem_split(input) {
        Some((label, data)) => {
            &&& (spec_detect(data, true) matches DetectOutcome::Found(c) && ((label
                == "PUBLIC KEY"@) || (label == "ED25519 PUBLIC KEY"@ && c
                == spec_ed25519_oid()) || (label == "ED448 PUBLIC KEY"@ && c
                == spec_ed448_oid())))
            &&& spec_ed_public_der_ok(data)
        },
        None => false,
    }
}

impl EddsaJwsAlgorithm {
    /// Build a signer from a PEM private key.  The label must be
    /// `PRIVATE KEY` or name the curve; a curve label that disagrees
    /// with the inner identifier is rejected.
    pub fn signer_from_pem(&self, input: &[u8]) -> (r: Result<EddsaJwsSigner, JoseError>)
        ensures
            match r {
                Ok(s) => s.wf() && s.kid_spec() is None,
                Err(e) => e is InvalidKeyFormat,
            },
            r is Ok <==> spec_pem_signer_ok(input@),
    {
        proof {
            reveal_strlit("PRIVATE KEY");
            reveal_strlit("ED25519 PRIVATE KEY");
            reveal_strlit("ED448 PRIVATE KEY");
        }
        let (label, data) = match parse_pem(input) {
            Ok(v) => v,
            Err(e) => {
                return Err(e);
            },
        };
        let detected = match self.detect_pkcs8(data.as_slice(), false) {
            Ok(v) => v,
            Err(e) => {
                return Err(e);
            },
        };
        let oid = match detected {
            Some(o) => o,
            None => {
                return Err(JoseError::InvalidKeyFormat(String::from_str(
                    "the private key must be wrapped in PKCS#8",
                )));
            },
        };
        if str_eq(label.as_str(), "PRIVATE KEY") {
        } else if str_eq(label.as_str(), "ED25519 PRIVATE KEY") {
            if !oid.eq_oid(&ed25519_oid()) {
                proof {
                    assert(label@ == "ED25519 PRIVATE KEY"@);
                    assert("ED25519 PRIVATE KEY"@.len() == 19);
                    assert("PRIVATE KEY"@.len() == 11);
                    assert("ED448 PRIVATE KEY"@.len() == 17);
                    assert(label@ != "PRIVATE KEY"@);
                    assert(label@ != "ED448 PRIVATE KEY"@);
                    assert(spec_detect(data@, false) == DetectOutcome::Found(oid.view_spec()));
                    assert(!spec_pem_signer_ok(input@));
                }
                return Err(JoseError::InvalidKeyFormat(String::from_str(
                    "the curve does not match the PEM label",
                )));
            }
        } else if str_eq(label.as_str(), "ED448 PRIVATE KEY") {
            if !oid.eq_oid(&ed448_oid()) {
                proof {
                    assert("ED25519 PRIVATE KEY"@.len() == 19);
                    assert("PRIVATE KEY"@.len() == 11);
                    assert("ED448 PRIVATE KEY"@.len() == 17);
                    assert(label@ != "PRIVATE KEY"@ && label@ != "ED25519 PRIVATE KEY"@);
                    assert(spec_detect(data@, false) == DetectOutcome::Found(oid.view_spec()));
                    assert(!spec_pem_signer_ok(input@));
                }
                return Err(JoseError::InvalidKeyFormat(String::from_str(
                    "the curve does not match the PEM label",
                )));
            }
        } else {
            return Err(JoseError::InvalidKeyFormat(String::from_str(
                "the PEM label does not fit this algorithm",
            )));
        }
        self.signer_from_der(data.as_slice())
    }

    /// Build a signer from a DER PKCS#8 PrivateKeyInfo.
    pub fn signer_from_der(&self, input: &[u8]) -> (r: Result<EddsaJwsSigner, JoseError>)
        ensures
            match r {
                Ok(s) => s.wf() && s.kid_spec() is None && s.key_der() == input@,
                Err(e) => e is InvalidKeyFormat,
            },
            r is Ok <==> (spec_detect(input@, false) is Found && spec_ed_private_der_ok(input@)),
    {
        let detected = match self.detect_pkcs8(input, false) {
            Ok(v) => v,
            Err(e) => {
                return Err(e);
            },
        };
        match detected {
            Some(_) => {},
            None => {
                return Err(JoseError::InvalidKeyFormat(String::from_str(
                    "the private key must be wrapped in PKCS#8",
                )));
            },
        }
        if !ed_private_der_check(input) {
            return Err(JoseError::InvalidKeyFormat(String::from_str(
                "the provider rejected the private key",
            )));
        }
        Ok(
            EddsaJwsSigner {
                algorithm: *self,
                private_key: vstd::slice::slice_to_vec(input),
                key_id: None,
            },
        )
    }

    /// Build a verifier from a PEM public key.
    pub fn verifier_from_pem(&self, input: &[u8]) -> (r: Result<EddsaJwsVerifier, JoseError>)
        ensures
            match r {
                Ok(v) => v.wf() && v.kid_spec() is None,
                Err(e) => e is InvalidKeyFormat,
            },
            r is Ok <==> spec_pem_verifier_ok(input@),
    {
        proof {
            reveal_strlit("PUBLIC KEY");
            reveal_strlit("ED25519 PUBLIC KEY");
            reveal_strlit("ED448 PUBLIC KEY");
        }
        let (label, data) = match parse_pem(input) {
            Ok(v) => v,
            Err(e) => {
                return Err(e);
            },
        };
        let detected = match self.detect_pkcs8(data.as_slice(), true) {
            Ok(v) => v,
            Err(e) => {
                return Err(e);
            },
        };
        let oid = match detected {
            Some(o) => o,
            None => {
                return Err(JoseError::InvalidKeyFormat(String::from_str(
                    "the public key must be a SubjectPublicKeyInfo",
                )));
            },
        };
        if str_eq(label.as_str(), "PUBLIC KEY") {
        } else if str_eq(label.as_str(), "ED25519 PUBLIC KEY") {
            if !oid.eq_oid(&ed25519_oid()) {
                proof {
                    assert("ED25519 PUBLIC KEY"@.len() == 18);
                    assert("PUBLIC KEY"@.len() == 10);
                    assert("ED448 PUBLIC KEY"@.len() == 16);
                    assert(label@ != "PUBLIC KEY"@ && label@ != "ED448 PUBLIC KEY"@);
                    assert(spec_detect(data@, true) == DetectOutcome::Found(oid.view_spec()));
                    assert(!spec_pem_verifier_ok(input@));
                }
                return Err(JoseError::InvalidKeyFormat(String::from_str(
                    "the curve does not match the PEM label",
                )));
            }
        } else if str_eq(label.as_str(), "ED448 PUBLIC KEY") {
            if !oid.eq_oid(&ed448_oid()) {
                proof {
                    assert("ED25519 PUBLIC KEY"@.len() == 18);
                    assert("PUBLIC KEY"@.len() == 10);
                    assert("ED448 PUBLIC KEY"@.len() == 16);
                    assert(label@ != "PUBLIC KEY"@ && label@ != "ED25519 PUBLIC KEY"@);
                    assert(spec_detect(data@, true) == DetectOutcome::Found(oid.view_spec()));
                    assert(!spec_pem_verifier_ok(input@));
                }
                return Err(JoseError::InvalidKeyFormat(String::from_str(
                    "the curve does not match the PEM label",
                )));
            }
        } else {
            return Err(JoseError::InvalidKeyFormat(String::from_str(
                "the PEM label does not fit this algorithm",
            )));
        }
        self.verifier_from_der(data.as_slice())
    }

    /// Build a verifier from a DER SubjectPublicKeyInfo.
    pub fn verifier_from_der(&self, input: &[u8]) -> (r: Result<EddsaJwsVerifier, JoseError>)
        ensures
            match r {
                Ok(v) => v.wf() && v.kid_spec() is None && v.key_der() == input@,
                Err(e) => e is InvalidKeyFormat,
            },
            r is Ok <==> (spec_detect(input@, true) is Found && spec_ed_public_der_ok(input@)),
    {
        let detected = match self.detect_pkcs8(input, true) {
            Ok(v) => v,
            Err(e) => {
                return Err(e);
            },
        };
        match detected {
            Some(_) => {},
            None => {
                return Err(JoseError::InvalidKeyFormat(String::from_str(
                    "the public key must be a SubjectPublicKeyInfo",
                )));
            },
        }
        if !ed_public_der_check(input) {
            return Err(JoseError::InvalidKeyFormat(String::from_str(
                "the provider rejected the public key",
            )));
        }
        Ok(
            EddsaJwsVerifier {
                algorithm: *self,
                public_key: vstd::slice::slice_to_vec(input),
                key_id: None,
            },
        )
    }
}

} // verus!
