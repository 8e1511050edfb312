use josekit::JoseError;
use josekit::aes::AesJweAlgorithm;
use josekit::b64::{b64url_decode, b64url_encode};
use josekit::der::ObjectIdentifier;
use josekit::eddsa::EddsaJwsAlgorithm;
use josekit::header::{JweHeader, JwsHeader};
use josekit::json::{JsonValue, parse_json, to_json_bytes};
use josekit::jwk::Jwk;
use josekit::jws_context::JwsContext;
use josekit::jws_context::JwsSigner as _;
use josekit::jws_context::JwsVerifier as _;

const ED25519_PRIVATE_JWK: &str = "{\"kty\":\"OKP\",\"crv\":\"Ed25519\",\"d\":\"nWGxne_9WmC6hEr0kuwsxERJxWl7MmkZcDusAxyuf2A\",\"x\":\"11qYAYKxCrfVS_7TyWQHOg7hcvPapiMlrwIaaPcHURo\"}";

fn ed25519_jwk() -> Jwk {
    Jwk::from_slice(ED25519_PRIVATE_JWK.as_bytes()).unwrap()
}

#[test]
fn sign_and_verify_eddsa_jwt() {
    let input = b"abcde12345";
    let alg = EddsaJwsAlgorithm::Eddsa;
    let signer = alg.signer_from_jwk(&ed25519_jwk()).unwrap();
    let signature = signer.sign(input).unwrap();
    let verifier = alg.verifier_from_jwk(&ed25519_jwk()).unwrap();
    verifier.verify(input, &signature).unwrap();
    let mut bad = signature.clone();
    bad[0] ^= 1;
    let err = verifier.verify(input, &bad).unwrap_err();
    assert!(matches!(err, JoseError::InvalidSignature(_)));
}

#[test]
fn sign_and_verify_eddsa_pkcs8_der() {
    let input = b"abcde12345";
    let alg = EddsaJwsAlgorithm::Eddsa;
    let d = b64url_decode(b"nWGxne_9WmC6hEr0kuwsxERJxWl7MmkZcDusAxyuf2A").unwrap();
    let x = b64url_decode(b"11qYAYKxCrfVS_7TyWQHOg7hcvPapiMlrwIaaPcHURo").unwrap();
    let mut inner = vec![0x04u8, d.len() as u8];
    inner.extend_from_slice(&d);
    let oid = ObjectIdentifier::from_slice(&[1, 3, 101, 112]);
    let private_der = alg.to_pkcs8(&inner, false, &oid);
    let public_der = alg.to_pkcs8(&x, true, &oid);

    let signer = alg.signer_from_der(&private_der).unwrap();
    let signature = signer.sign(input).unwrap();
    let verifier = alg.verifier_from_der(&public_der).unwrap();
    verifier.verify(input, &signature).unwrap();
}

fn pem_wrap(label: &str, der: &[u8]) -> Vec<u8> {
    let body = base64::encode_config(der, base64::STANDARD);
    let mut out = String::new();
    out.push_str("-----BEGIN ");
    out.push_str(label);
    out.push_str("-----\n");
    out.push_str(&body);
    out.push_str("\n-----END ");
    out.push_str(label);
    out.push_str("-----\n");
    out.into_bytes()
}

#[test]
fn sign_and_verify_eddsa_pkcs8_pem() {
    let input = b"abcde12345";
    let alg = EddsaJwsAlgorithm::Eddsa;
    let d = b64url_decode(b"nWGxne_9WmC6hEr0kuwsxERJxWl7MmkZcDusAxyuf2A").unwrap();
    let x = b64url_decode(b"11qYAYKxCrfVS_7TyWQHOg7hcvPapiMlrwIaaPcHURo").unwrap();
    let mut inner = vec![0x04u8, d.len() as u8];
    inner.extend_from_slice(&d);
    let oid = ObjectIdentifier::from_slice(&[1, 3, 101, 112]);
    let private_der = alg.to_pkcs8(&inner, false, &oid);
    let public_der = alg.to_pkcs8(&x, true, &oid);

    let signer = alg.signer_from_pem(&pem_wrap("PRIVATE KEY", &private_der)).unwrap();
    let signature = signer.sign(input).unwrap();
    let verifier = alg.verifier_from_pem(&pem_wrap("PUBLIC KEY", &public_der)).unwrap();
    verifier.verify(input, &signature).unwrap();

    let signer2 = alg.signer_from_pem(&pem_wrap("ED25519 PRIVATE KEY", &private_der)).unwrap();
    let signature2 = signer2.sign(input).unwrap();
    let verifier2 = alg.verifier_from_pem(&pem_wrap("ED25519 PUBLIC KEY", &public_der)).unwrap();
    verifier2.verify(input, &signature2).unwrap();
}

#[test]
fn pkcs8_label_curve_mismatch_is_rejected() {
    let alg = EddsaJwsAlgorithm::Eddsa;
    let raw = vec![0u8; 57];
    let mut inner = vec![0x04u8, raw.len() as u8];
    inner.extend_from_slice(&raw);
    let oid448 = ObjectIdentifier::from_slice(&[1, 3, 101, 113]);
    let der = alg.to_pkcs8(&inner, false, &oid448);
    let err = alg.signer_from_pem(&pem_wrap("ED25519 PRIVATE KEY", &der)).unwrap_err();
    assert!(matches!(err, JoseError::InvalidKeyFormat(_)));
}

#[test]
fn synthesized_pkcs8_detects_to_its_oid() {
    let alg = EddsaJwsAlgorithm::Eddsa;
    for parts in [[1u64, 3, 101, 112], [1u64, 3, 101, 113]] {
        let oid = ObjectIdentifier::from_slice(&parts);
        let raw = vec![7u8; 32];
        let mut inner = vec![0x04u8, raw.len() as u8];
        inner.extend_from_slice(&raw);
        let private_der = alg.to_pkcs8(&inner, false, &oid);
        let got = alg.detect_pkcs8(&private_der, false).unwrap().unwrap();
        assert_eq!(got.components(), oid.components());
        let public_der = alg.to_pkcs8(&raw, true, &oid);
        let got2 = alg.detect_pkcs8(&public_der, true).unwrap().unwrap();
        assert_eq!(got2.components(), oid.components());
    }
}

#[test]
fn eddsa_compact_round_trip() {
    let payload = b"abcde12345";
    let alg = EddsaJwsAlgorithm::Eddsa;
    let signer = alg.signer_from_jwk(&ed25519_jwk()).unwrap();
    let verifier = alg.verifier_from_jwk(&ed25519_jwk()).unwrap();
    let ctx = JwsContext::new();
    let mut header = JwsHeader::new();
    header.set_claim("typ", JsonValue::String("JWT".to_string()));
    let token = ctx.serialize_compact(payload, &header, &signer).unwrap();
    assert_eq!(token.chars().filter(|c| *c == '.').count(), 2);
    let (got_payload, got_header) = ctx.deserialize_compact(&token, &verifier).unwrap();
    assert_eq!(got_payload, payload.to_vec());
    assert_eq!(got_header.algorithm().unwrap().as_str(), "EdDSA");
}

#[test]
fn compact_b64_false_keeps_payload_verbatim() {
    let alg = EddsaJwsAlgorithm::Eddsa;
    let signer = alg.signer_from_jwk(&ed25519_jwk()).unwrap();
    let verifier = alg.verifier_from_jwk(&ed25519_jwk()).unwrap();
    let mut ctx = JwsContext::new();
    ctx.add_acceptable_critical("b64");
    let mut header = JwsHeader::new();
    header.set_critical(&vec!["b64".to_string()]);
    header.set_base64url_encode_payload(false);
    let token = ctx.serialize_compact(b"hello", &header, &signer).unwrap();
    let middle: Vec<&str> = token.split('.').collect();
    assert_eq!(middle.len(), 3);
    assert_eq!(middle[1], "hello");
    let (got_payload, _) = ctx.deserialize_compact(&token, &verifier).unwrap();
    assert_eq!(got_payload, b"hello".to_vec());

    let err = ctx.serialize_compact(b"he.llo", &header, &signer).unwrap_err();
    assert!(matches!(err, JoseError::InvalidJwtFormat(_)));
}

#[test]
fn compact_wrong_dot_count_is_rejected() {
    let alg = EddsaJwsAlgorithm::Eddsa;
    let verifier = alg.verifier_from_jwk(&ed25519_jwk()).unwrap();
    let ctx = JwsContext::new();
    for input in ["abc", "a.b", "a.b.c.d"] {
        let err = ctx.deserialize_compact(input, &verifier).unwrap_err();
        assert!(matches!(err, JoseError::InvalidJwtFormat(_)));
    }
}

#[test]
fn unacceptable_critical_name_fails_verification() {
    let alg = EddsaJwsAlgorithm::Eddsa;
    let signer = alg.signer_from_jwk(&ed25519_jwk()).unwrap();
    let verifier = alg.verifier_from_jwk(&ed25519_jwk()).unwrap();
    let ctx = JwsContext::new();
    let mut header = JwsHeader::new();
    header.set_critical(&vec!["x-unknown".to_string()]);
    let token = ctx.serialize_compact(b"data", &header, &signer).unwrap();
    let err = ctx.deserialize_compact(&token, &verifier).unwrap_err();
    assert!(matches!(err, JoseError::InvalidJwtFormat(_)));

    let mut accepting = JwsContext::new();
    accepting.add_acceptable_critical("x-unknown");
    assert!(accepting.is_acceptable_critical("x-unknown"));
    accepting.deserialize_compact(&token, &verifier).unwrap();
    accepting.remove_acceptable_critical("x-unknown");
    assert!(!accepting.is_acceptable_critical("x-unknown"));
}

#[test]
fn kid_mismatch_fails_verification() {
    let alg = EddsaJwsAlgorithm::Eddsa;
    let mut signer = alg.signer_from_jwk(&ed25519_jwk()).unwrap();
    signer.set_key_id("key-1");
    let mut verifier = alg.verifier_from_jwk(&ed25519_jwk()).unwrap();
    verifier.set_key_id("key-2");
    let ctx = JwsContext::new();
    let header = JwsHeader::new();
    let token = ctx.serialize_compact(b"data", &header, &signer).unwrap();
    let err = ctx.deserialize_compact(&token, &verifier).unwrap_err();
    assert!(matches!(err, JoseError::InvalidJwtFormat(_)));

    verifier.remove_key_id();
    verifier.set_key_id("key-1");
    ctx.deserialize_compact(&token, &verifier).unwrap();
}

#[test]
fn jwk_alg_mismatch_fails_invalid_key_format() {
    let alg = EddsaJwsAlgorithm::Eddsa;
    let jwk = Jwk::from_slice(
        "{\"kty\":\"OKP\",\"crv\":\"Ed25519\",\"alg\":\"RS256\",\"d\":\"nWGxne_9WmC6hEr0kuwsxERJxWl7MmkZcDusAxyuf2A\"}".as_bytes(),
    )
    .unwrap();
    let err = alg.signer_from_jwk(&jwk).unwrap_err();
    assert!(matches!(err, JoseError::InvalidKeyFormat(_)));
}

#[test]
fn jwk_missing_material_fails_invalid_key_format() {
    let alg = EddsaJwsAlgorithm::Eddsa;
    let no_d = Jwk::from_slice(
        "{\"kty\":\"OKP\",\"crv\":\"Ed25519\",\"x\":\"11qYAYKxCrfVS_7TyWQHOg7hcvPapiMlrwIaaPcHURo\"}".as_bytes(),
    )
    .unwrap();
    let err = alg.signer_from_jwk(&no_d).unwrap_err();
    assert!(matches!(err, JoseError::InvalidKeyFormat(_)));
    let no_x = Jwk::from_slice("{\"kty\":\"OKP\",\"crv\":\"Ed25519\",\"d\":\"nWGxne_9WmC6hEr0kuwsxERJxWl7MmkZcDusAxyuf2A\"}".as_bytes()).unwrap();
    let err2 = alg.verifier_from_jwk(&no_x).unwrap_err();
    assert!(matches!(err2, JoseError::InvalidKeyFormat(_)));
}

#[test]
fn duplicate_header_claim_fails() {
    let mut protected = JwsHeader::new();
    protected.set_claim("foo", JsonValue::String("a".to_string()));
    let mut unprotected = JwsHeader::new();
    unprotected.set_claim("foo", JsonValue::String("b".to_string()));
    let err = protected.merge(&unprotected).unwrap_err();
    assert!(matches!(err, JoseError::InvalidJwtFormat(_)));

    let alg = EddsaJwsAlgorithm::Eddsa;
    let signer = alg.signer_from_jwk(&ed25519_jwk()).unwrap();
    let ctx = JwsContext::new();
    let err2 = ctx
        .serialize_flattened_json(b"data", Some(&protected), Some(&unprotected), &signer)
        .unwrap_err();
    assert!(matches!(err2, JoseError::InvalidJwtFormat(_)));
}

#[test]
fn flattened_json_round_trip() {
    let alg = EddsaJwsAlgorithm::Eddsa;
    let signer = alg.signer_from_jwk(&ed25519_jwk()).unwrap();
    let verifier = alg.verifier_from_jwk(&ed25519_jwk()).unwrap();
    let ctx = JwsContext::new();
    let mut protected = JwsHeader::new();
    protected.set_claim("typ", JsonValue::String("JWT".to_string()));
    let mut unprotected = JwsHeader::new();
    unprotected.set_claim("note", JsonValue::String("extra".to_string()));
    let doc = ctx
        .serialize_flattened_json(b"data", Some(&protected), Some(&unprotected), &signer)
        .unwrap();
    let (payload, header) = ctx.deserialize_json(&doc, &verifier).unwrap();
    assert_eq!(payload, b"data".to_vec());
    assert_eq!(header.algorithm().unwrap().as_str(), "EdDSA");
}

#[test]
fn general_json_multi_signature() {
    let alg = EddsaJwsAlgorithm::Eddsa;
    let signer1 = alg.signer_from_jwk(&ed25519_jwk()).unwrap();
    let signer2 = alg.signer_from_jwk(&ed25519_jwk()).unwrap();
    let mut protected1 = JwsHeader::new();
    protected1.set_key_id("key-1");
    let mut protected2 = JwsHeader::new();
    protected2.set_key_id("key-2");
    let ctx = JwsContext::new();
    let signers = vec![
        (Some(protected1), None, signer1),
        (Some(protected2), None, signer2),
    ];
    let doc = ctx.serialize_general_json(b"shared", &signers).unwrap();
    let parsed: serde_json::Value = serde_json::from_str(&doc).unwrap();
    assert_eq!(parsed["signatures"].as_array().unwrap().len(), 2);
    assert!(parsed["payload"].is_string());

    let mut verifier2 = alg.verifier_from_jwk(&ed25519_jwk()).unwrap();
    verifier2.set_key_id("key-2");
    let (payload, header) = ctx.deserialize_json(&doc, &verifier2).unwrap();
    assert_eq!(payload, b"shared".to_vec());
    assert_eq!(header.key_id().unwrap().as_str(), "key-2");

    let mut verifier3 = alg.verifier_from_jwk(&ed25519_jwk()).unwrap();
    verifier3.set_key_id("key-3");
    let err = ctx.deserialize_json(&doc, &verifier3).unwrap_err();
    assert!(matches!(err, JoseError::InvalidJwtFormat(_)));
}

#[test]
fn general_json_empty_signatures_is_terminal() {
    let alg = EddsaJwsAlgorithm::Eddsa;
    let verifier = alg.verifier_from_jwk(&ed25519_jwk()).unwrap();
    let ctx = JwsContext::new();
    let err = ctx
        .deserialize_json("{\"payload\":\"AAAA\",\"signatures\":[]}", &verifier)
        .unwrap_err();
    assert!(matches!(err, JoseError::InvalidJwtFormat(_)));
}

#[test]
fn aes_key_wrap_round_trip() {
    let alg = AesJweAlgorithm::A128Kw;
    assert_eq!(alg.key_len(), 16);
    assert_eq!(alg.name(), "A128KW");
    let k = b64url_encode(&[9u8; 16]);
    let jwk_text = format!(
        "{{\"kty\":\"oct\",\"k\":\"{}\"}}",
        String::from_utf8(k).unwrap()
    );
    let jwk = Jwk::from_slice(jwk_text.as_bytes()).unwrap();
    let encrypter = alg.encrypter_from_jwk(&jwk).unwrap();
    let decrypter = alg.decrypter_from_jwk(&jwk).unwrap();
    let mut header = JweHeader::new();
    let (cek, wrapped) = encrypter.encrypt(&mut header, 16).unwrap();
    let wrapped = wrapped.unwrap();
    assert_eq!(cek.len(), 16);
    assert_eq!(wrapped.len(), 24);
    assert_eq!(header.algorithm().unwrap().as_str(), "A128KW");
    let got = decrypter.decrypt(&header, Some(&wrapped), 16).unwrap();
    assert_eq!(got, cek);

    let mut tampered = wrapped.clone();
    tampered[3] ^= 0x40;
    let err = decrypter.decrypt(&header, Some(&tampered), 16).unwrap_err();
    assert!(matches!(err, JoseError::InvalidJweFormat(_)));
    let err2 = decrypter.decrypt(&header, None, 16).unwrap_err();
    assert!(matches!(err2, JoseError::InvalidJweFormat(_)));
}

#[test]
fn aes_wrong_key_length_fails_invalid_key_format() {
    let alg = AesJweAlgorithm::A192Kw;
    let k = b64url_encode(&[9u8; 16]);
    let jwk_text = format!(
        "{{\"kty\":\"oct\",\"k\":\"{}\"}}",
        String::from_utf8(k).unwrap()
    );
    let jwk = Jwk::from_slice(jwk_text.as_bytes()).unwrap();
    let err = alg.encrypter_from_jwk(&jwk).unwrap_err();
    assert!(matches!(err, JoseError::InvalidKeyFormat(_)));
    let err2 = alg.decrypter_from_jwk(&jwk).unwrap_err();
    assert!(matches!(err2, JoseError::InvalidKeyFormat(_)));
}

#[test]
fn base64url_codec_vectors() {
    assert_eq!(b64url_encode(b""), b"".to_vec());
    assert_eq!(b64url_encode(b"f"), b"Zg".to_vec());
    assert_eq!(b64url_encode(b"fo"), b"Zm8".to_vec());
    assert_eq!(b64url_encode(b"foo"), b"Zm9v".to_vec());
    assert_eq!(b64url_decode(b"Zm9v").unwrap(), b"foo".to_vec());
    assert_eq!(b64url_decode(b"Zg").unwrap(), b"f".to_vec());
    assert!(b64url_decode(b"Z").is_none());
    assert!(b64url_decode(b"Zg==").is_none());
    assert!(b64url_decode(b"Zh").is_none());
    assert!(b64url_decode(b"Zm9v!").is_none());
}

#[test]
fn json_emitter_escapes_and_parses_back() {
    let value = JsonValue::Object(vec![
        ("text".to_string(), JsonValue::String("a\"b\\c\u{1}d\u{20AC}".to_string())),
        ("flag".to_string(), JsonValue::Bool(true)),
        ("nothing".to_string(), JsonValue::Null),
        (
            "items".to_string(),
            JsonValue::Array(vec![JsonValue::String("x".to_string())]),
        ),
    ]);
    let text = to_json_bytes(&value);
    let reparsed: serde_json::Value = serde_json::from_slice(&text).unwrap();
    assert_eq!(reparsed["text"].as_str().unwrap(), "a\"b\\c\u{1}d\u{20AC}");
    assert_eq!(reparsed["flag"].as_bool().unwrap(), true);
    assert!(reparsed["nothing"].is_null());
    assert_eq!(reparsed["items"][0].as_str().unwrap(), "x");

    let round = parse_json(&text).unwrap();
    let text2 = to_json_bytes(&round);
    let reparsed2: serde_json::Value = serde_json::from_slice(&text2).unwrap();
    assert_eq!(reparsed, reparsed2);
}

#[test]
fn jwk_accessor_views() {
    let jwk = Jwk::from_slice(
        "{\"kty\":\"oct\",\"use\":\"enc\",\"kid\":\"k0\",\"key_ops\":[\"encrypt\",\"wrapKey\"],\"k\":\"AAAAAAAAAAAAAAAAAAAAAA\"}".as_bytes(),
    )
    .unwrap();
    assert_eq!(jwk.key_type().as_str(), "oct");
    assert_eq!(jwk.key_use().unwrap().as_str(), "enc");
    assert_eq!(jwk.key_id().unwrap().as_str(), "k0");
    let ops = jwk.key_operations().unwrap();
    assert_eq!(ops.len(), 2);
    assert_eq!(ops[0].as_str(), "encrypt");
}

#[test]
fn sign_and_verify_ed448_der() {
    let input = b"abcde12345";
    let alg = EddsaJwsAlgorithm::Eddsa;
    let raw = [0x5Au8; 57];
    let mut inner = vec![0x04u8, raw.len() as u8];
    inner.extend_from_slice(&raw);
    let oid = ObjectIdentifier::from_slice(&[1, 3, 101, 113]);
    let private_der = alg.to_pkcs8(&inner, false, &oid);
    let signer = alg.signer_from_der(&private_der).unwrap();
    let signature = signer.sign(input).unwrap();

    let pkey = openssl::pkey::PKey::private_key_from_der(&private_der).unwrap();
    let public_der = pkey.public_key_to_der().unwrap();
    let verifier = alg.verifier_from_der(&public_der).unwrap();
    verifier.verify(input, &signature).unwrap();

    let signer2 = alg.signer_from_pem(&pem_wrap("ED448 PRIVATE KEY", &private_der)).unwrap();
    let signature2 = signer2.sign(input).unwrap();
    let verifier2 = alg.verifier_from_pem(&pem_wrap("ED448 PUBLIC KEY", &public_der)).unwrap();
    verifier2.verify(input, &signature2).unwrap();
}
