//! The JWS serialization engine: compact, flattened JSON and general JSON
//! forms, signing and verification pipelines with the `b64` extension, and
//! the acceptable-critical-claims set.
use vstd::prelude::*;

use crate::JoseError;
use crate::header::JwsHeader;

verus! {

broadcast use vstd::seq::group_seq_axioms, vstd::std_specs::vec::group_vec_axioms;

/// A signing algorithm bound to a validated key.  The signature of a
/// message is a mathematical function of the signer (EdDSA signing is
/// deterministic).
pub trait JwsSigner: Sized {
    /// Validity of the held key.
    spec fn wf(&self) -> bool;

    /// The canonical `alg` name.
    spec fn alg_spec(&self) -> Seq<char>;

    /// The bound key id, if any.
    spec fn kid_spec(&self) -> Option<Seq<char>>;

    /// The signature this signer produces on a message.
    spec fn signature_spec(&self, msg: Seq<u8>) -> Seq<u8>;

    /// The canonical `alg` name.
    fn algorithm_name(&self) -> (r: &str)
        ensures
            r@ == self.alg_spec(),
    ;

    /// The bound key id, if any.
    fn key_id(&self) -> (r: Option<&String>)
        ensures
            match r {
                Some(s) => self.kid_spec() == Some(s@),
                None => self.kid_spec() is None,
            },
    ;

    /// Sign a message.
    fn sign(&self, message: &[u8]) -> (r: Result<Vec<u8>, JoseError>)
        requires
            self.wf(),
        ensures
            r matches Ok(sig) ==> sig@ == self.signature_spec(message@),
            r matches Err(e) ==> e is InvalidSignature,
    ;
}

/// A verifying algorithm bound to a validated key.
pub trait JwsVerifier: Sized {
    /// Validity of the held key.
    spec fn wf(&self) -> bool;

    /// The canonical `alg` name.
    spec fn alg_spec(&self) -> Seq<char>;

    /// The bound key id, if any.
    spec fn kid_spec(&self) -> Option<Seq<char>>;

    /// Whether the key accepts this signature on this message.
    spec fn verify_spec(&self, msg: Seq<u8>, sig: Seq<u8>) -> bool;

    /// The canonical `alg` name.
    fn algorithm_name(&self) -> (r: &str)
        ensures
            r@ == self.alg_spec(),
    ;

    /// The bound key id, if any.
    fn key_id(&self) -> (r: Option<&String>)
        ensures
            match r {
                Some(s) => self.kid_spec() == Some(s@),
                None => self.kid_spec() is None,
            },
    ;

    /// Check a signature; success means the key accepts it.
    fn verify(&self, message: &[u8], signature: &[u8]) -> (r: Result<(), JoseError>)
        requires
            self.wf(),
        ensures
            r is Ok ==> self.verify_spec(message@, signature@),
            r matches Err(e) ==> e is InvalidSignature,
    ;
}

/// Whether some string in the list reads as `k`.
pub open spec fn names_contain(v: Seq<String>, k: Seq<char>) -> bool {
    exists|i: int| 0 <= i < v.len() && (#[trigger] v[i])@ == k
}

/// Executable membership test for a list of names.
fn contains_name(v: &Vec<String>, name: &str) -> (r: bool)
    ensures
        r == names_contain(v@, name@),
{
    let n = v.len();
    let mut i: usize = 0;
    while i < n
        invariant
            n == v@.len(),
            0 <= i <= n,
            forall|j: int| 0 <= j < i ==> (#[trigger] v@[j])@ != name@,
        decreases n - i,
    {
        if crate::text::str_eq(v[i].as_str(), name) {
            return true;
        }
        i += 1;
    }
    false
}

/// The JWS engine.  Its only state is the set of critical claim names the
/// consumer has declared acceptable.
#[derive(Debug)]
pub struct JwsContext {
    acceptable_criticals: Vec<String>,
}

impl JwsContext {
    /// The acceptance set.
    pub closed spec fn spec_acceptable(&self, name: Seq<char>) -> bool {
        names_contain(self.acceptable_criticals@, name)
    }

    /// A context that accepts no extension claims.
    pub fn new() -> (r: Self)
        ensures
            forall|k: Seq<char>| !r.spec_acceptable(k),
    {
        JwsContext { acceptable_criticals: Vec::new() }
    }

    /// Whether a critical claim name is acceptable.
    pub fn is_acceptable_critical(&self, name: &str) -> (r: bool)
        ensures
            r == self.spec_acceptable(name@),
    {
        contains_name(&self.acceptable_criticals, name)
    }

    /// Declare a critical claim name acceptable.
    pub fn add_acceptable_critical(&mut self, name: &str)
        ensures
            forall|k: Seq<char>|
                final(self).spec_acceptable(k) == (old(self).spec_acceptable(k) || k == name@),
    {
        if !contains_name(&self.acceptable_criticals, name) {
            let ghost before = self.acceptable_criticals@;
            self.acceptable_criticals.push(name.to_owned());
            proof {
                let now = self.acceptable_criticals@;
                assert forall|k: Seq<char>|
                    names_contain(now, k) == (names_contain(before, k) || k == name@) by {
                    if names_contain(before, k) {
                        let j = choose|j: int| 0 <= j < before.len() && (#[trigger] before[j])@
                            == k;
                        assert(now[j]@ == k);
                    }
                    if k == name@ {
                        assert(now[now.len() - 1]@ == k);
                    }
                    if names_contain(now, k) {
                        let j = choose|j: int| 0 <= j < now.len() && (#[trigger] now[j])@ == k;
                        if j < before.len() {
                            assert(before[j]@ == k);
                        }
                    }
                }
            }
        } else {
            proof {
                assert(names_contain(self.acceptable_criticals@, name@));
            }
        }
    }

    /// Withdraw a critical claim name.
    #[verifier::loop_isolation(false)]
    pub fn remove_acceptable_critical(&mut self, name: &str)
        ensures
            forall|k: Seq<char>|
                final(self).spec_acceptable(k) == (old(self).spec_acceptable(k) && k != name@),
    {
        let mut kept: Vec<String> = Vec::new();
        let n = self.acceptable_criticals.len();
        let mut i: usize = 0;
        while i < n
            invariant
                n == old(self).acceptable_criticals@.len(),
                self.acceptable_criticals@ == old(self).acceptable_criticals@,
                0 <= i <= n,
                forall|k: Seq<char>|
                    names_contain(kept@, k) == (names_contain(
                        old(self).acceptable_criticals@.take(i as int),
                        k,
                    ) && k != name@),
            decreases n - i,
        {
            let ghost old_taken = old(self).acceptable_criticals@.take(i as int);
            let ghost new_taken = old(self).acceptable_criticals@.take(i as int + 1);
            let ghost kept_before = kept@;
            let entry_matches = crate::text::str_eq(
                self.acceptable_criticals[i].as_str(),
                name,
            );
            if !entry_matches {
                kept.push(self.acceptable_criticals[i].clone());
            }
            proof {
                let cur = old(self).acceptable_criticals@[i as int];
                assert(new_taken =~= old_taken.push(cur));
                let kept_now = kept@;
                assert forall|k: Seq<char>|
                    names_contain(kept_now, k) == (names_contain(new_taken, k) && k != name@) by {
                    if names_contain(new_taken, k) {
                        let j = choose|j: int|
                            0 <= j < new_taken.len() && (#[trigger] new_taken[j])@ == k;
                        if j < old_taken.len() {
                            assert(old_taken[j]@ == k);
                        } else {
                            assert(cur@ == k);
                        }
                    }
                    if names_contain(kept_now, k) {
                        let j = choose|j: int|
                            0 <= j < kept_now.len() && (#[trigger] kept_now[j])@ == k;
                        if j < kept_before.len() {
                            assert(kept_before[j]@ == k);
                            assert(names_contain(kept_before, k));
                            assert(names_contain(old_taken, k) && k != name@);
                            let j2 = choose|j2: int|
                                0 <= j2 < old_taken.len() && (#[trigger] old_taken[j2])@ == k;
                            assert(new_taken[j2]@ == k);
                        } else {
                            assert(k == cur@ && !entry_matches);
                            assert(new_taken[new_taken.len() - 1]@ == k);
                        }
                    }
                    if names_contain(old_taken, k) && k != name@ {
                        let j = choose|j: int|
                            0 <= j < old_taken.len() && (#[trigger] old_taken[j])@ == k;
                        assert(names_contain(kept_before, k));
                        let j2 = choose|j2: int|
                            0 <= j2 < kept_before.len() && (#[trigger] kept_before[j2])@ == k;
                        assert(kept_now[j2]@ == k);
                    }
                    if k == cur@ && !entry_matches {
                        assert(kept_now[kept_now.len() - 1]@ == cur@);
                    }
                }
            }
            i += 1;
        }
        proof {
            assert(old(self).acceptable_criticals@.take(n as int) =~= old(
                self,
            ).acceptable_criticals@);
        }
        self.acceptable_criticals = kept;
    }
}

} // verus!

verus! {

use crate::b64::{b64url_decode, b64url_encode, b64url_is_valid, lemma_b64url_encode_alphabet,
    spec_b64url_decode, spec_b64url_encode};
use crate::header::{entries_wf, keys_unique, spec_b64_flag, spec_bool_claim, spec_set_claim,
    spec_str_claim, spec_strarr_claim};
use crate::json::{JsonVal, JsonValue, json_emit, jview, parse_json, spec_json_parse,
    spec_object_get, spec_object_has};
use crate::text::{str_eq, str_from_utf8, string_from_utf8};
use vstd::string::StringSliceAdditionalSpecFns;

/// How many times a byte occurs.
pub open spec fn spec_count_byte(b: Seq<u8>, x: u8) -> int
    decreases b.len(),
{
    if b.len() == 0 {
        0
    } else {
        (if b[0] == x {
            1int
        } else {
            0int
        }) + spec_count_byte(b.drop_first(), x)
    }
}

/// Counting distributes over concatenation.
pub proof fn lemma_count_concat(a: Seq<u8>, b: Seq<u8>, x: u8)
    ensures
        spec_count_byte(a + b, x) == spec_count_byte(a, x) + spec_count_byte(b, x),
    decreases a.len(),
{
    if a.len() == 0 {
        assert(a + b =~= b);
    } else {
        lemma_count_concat(a.drop_first(), b, x);
        assert((a + b).drop_first() =~= a.drop_first() + b);
        assert((a + b)[0] == a[0]);
    }
}

/// A byte absent everywhere occurs zero times.
pub proof fn lemma_count_zero(b: Seq<u8>, x: u8)
    requires
        forall|i: int| 0 <= i < b.len() ==> b[i] != x,
    ensures
        spec_count_byte(b, x) == 0,
    decreases b.len(),
{
    if b.len() > 0 {
        assert forall|i: int| 0 <= i < b.drop_first().len() implies b.drop_first()[i] != x by {
            assert(b.drop_first()[i] == b[i + 1]);
        }
        lemma_count_zero(b.drop_first(), x);
    }
}

/// An all-ASCII byte sequence is valid UTF-8 and decodes bytewise.
pub proof fn lemma_ascii_valid_utf8(b: Seq<u8>)
    requires
        forall|i: int| 0 <= i < b.len() ==> b[i] < 0x80,
    ensures
        vstd::utf8::valid_utf8(b),
        vstd::utf8::decode_utf8(b) == Seq::new(b.len(), |i: int| b[i] as char),
    decreases b.len(),
{
    if b.len() == 0 {
        assert(vstd::utf8::decode_utf8(b) =~= Seq::new(b.len(), |i: int| b[i] as char));
    } else {
        assert(vstd::utf8::is_leading_byte_width_1(b[0]));
        assert(vstd::utf8::length_of_first_scalar(b) == 1);
        assert(vstd::utf8::valid_first_scalar(b));
        assert(vstd::utf8::pop_first_scalar(b) =~= b.drop_first());
        assert forall|i: int| 0 <= i < b.drop_first().len() implies b.drop_first()[i] < 0x80 by {
            assert(b.drop_first()[i] == b[i + 1]);
        }
        lemma_ascii_valid_utf8(b.drop_first());
        let b0 = b[0];
        assert(b0 & 0x7F == b0) by (bit_vector)
            requires
                b0 < 0x80,
        ;
        assert(vstd::utf8::decode_first_scalar(b) == b[0] as u32);
        assert(vstd::utf8::decode_utf8(b) =~= Seq::new(b.len(), |i: int| b[i] as char));
    }
}

/// The first occurrence of a byte at or after `from`; the length when
/// there is none.
pub open spec fn spec_find_byte(b: Seq<u8>, from: int, x: u8) -> int
    decreases (if from < b.len() { b.len() - from } else { 0 }),
{
    if from < 0 || from >= b.len() {
        b.len() as int
    } else if b[from] == x {
        from
    } else {
        spec_find_byte(b, from + 1, x)
    }
}

/// What the finder returns: a position carrying the byte, with none
/// before it.
pub proof fn lemma_find_byte(b: Seq<u8>, from: int, x: u8)
    requires
        0 <= from <= b.len(),
    ensures
        from <= spec_find_byte(b, from, x) <= b.len(),
        spec_find_byte(b, from, x) < b.len() ==> b[spec_find_byte(b, from, x)] == x,
        forall|i: int| from <= i < spec_find_byte(b, from, x) ==> b[i] != x,
    decreases b.len() - from,
{
    if from < b.len() && b[from] != x {
        lemma_find_byte(b, from + 1, x);
    }
}

/// Executable search for a byte.
#[verifier::loop_isolation(false)]
pub fn find_byte(input: &[u8], from: usize, x: u8) -> (r: usize)
    requires
        from <= input@.len(),
    ensures
        r == spec_find_byte(input@, from as int, x),
{
    let n = input.len();
    let mut i: usize = from;
    while i < n
        invariant
            from <= i <= n,
            spec_find_byte(input@, from as int, x) == spec_find_byte(input@, i as int, x),
        decreases n - i,
    {
        if input[i] == x {
            return i;
        }
        i += 1;
    }
    n
}

/// Copy a byte range.
#[verifier::loop_isolation(false)]
pub fn copy_range(input: &[u8], a: usize, b: usize) -> (r: Vec<u8>)
    requires
        a <= b <= input@.len(),
    ensures
        r@ == input@.subrange(a as int, b as int),
{
    let mut out: Vec<u8> = Vec::new();
    let mut i: usize = a;
    while i < b
        invariant
            a <= i <= b,
            out@ =~= input@.subrange(a as int, i as int),
        decreases b - i,
    {
        out.push(input[i]);
        proof {
            assert(input@.subrange(a as int, i + 1 as int) =~= input@.subrange(a as int, i as int)
                + seq![input@[i as int]]);
        }
        i += 1;
    }
    out
}

/// The `b64` toggle a header selects.
fn b64_flag_of(header: &JwsHeader) -> (r: bool)
    ensures
        r == spec_b64_flag(header.entries()),
{
    match header.critical() {
        Some(names) => {
            if crate::jwk::string_list_contains(&names, "b64") {
                match header.base64url_encode_payload() {
                    Some(v) => v,
                    None => true,
                }
            } else {
                true
            }
        },
        None => true,
    }
}

/// The protected header as it goes to the wire: `alg` set from the
/// signer, then `kid` when the signer is bound to one.
pub open spec fn spec_wire_header<S: JwsSigner>(
    h: Seq<(Seq<char>, JsonVal)>,
    signer: S,
) -> Seq<(Seq<char>, JsonVal)> {
    let h1 = spec_set_claim(h, "alg"@, JsonVal::Str(signer.alg_spec()));
    match signer.kid_spec() {
        Some(k) => spec_set_claim(h1, "kid"@, JsonVal::Str(k)),
        None => h1,
    }
}

/// The signing input of the compact and flattened forms.
pub open spec fn spec_signing_input(
    wire_header: Seq<(Seq<char>, JsonVal)>,
    payload: Seq<u8>,
    b64: bool,
) -> Seq<u8> {
    spec_b64url_encode(json_emit(JsonVal::Obj(wire_header))) + seq![0x2Eu8] + (if b64 {
        spec_b64url_encode(payload)
    } else {
        payload
    })
}

impl JwsContext {
    /// Produce the compact serialization: the base64url protected header,
    /// the payload (base64url unless the header opts out through the
    /// `b64` extension), and the signature, joined by dots.  The output
    /// carries exactly two dots.
    #[verifier::loop_isolation(false)]
    #[verifier::rlimit(100)]
    pub fn serialize_compact<S: JwsSigner>(
        &self,
        payload: &[u8],
        header: &JwsHeader,
        signer: &S,
    ) -> (r: Result<String, JoseError>)
        requires
            header.wf(),
            signer.wf(),
        ensures
            ({
                let b64 = spec_b64_flag(header.entries());
                let wh = spec_wire_header(header.entries(), *signer);
                let msg = spec_signing_input(wh, payload@, b64);
                match r {
                    Ok(s) => {
                        &&& vstd::utf8::encode_utf8(s@) == msg + seq![0x2Eu8]
                            + spec_b64url_encode(signer.signature_spec(msg))
                        &&& spec_count_byte(vstd::utf8::encode_utf8(s@), 0x2E) == 2
                        &&& (!b64 ==> vstd::utf8::valid_utf8(payload@) && (forall|i: int|
                            0 <= i < payload@.len() ==> payload@[i] != 0x2E))
                    },
                    Err(e) => {
                        if !b64 && (!vstd::utf8::valid_utf8(payload@) || (exists|i: int|
                            0 <= i < payload@.len() && payload@[i] == 0x2E)) {
                            e is InvalidJwtFormat
                        } else {
                            e is InvalidSignature
                        }
                    },
                }
            }),
            (!spec_b64_flag(header.entries()) && (!vstd::utf8::valid_utf8(payload@) || (exists|
                i: int,
            | 0 <= i < payload@.len() && payload@[i] == 0x2E))) ==> r is Err,
    {
        let ghost b64g = spec_b64_flag(header.entries());
        let ghost wh = spec_wire_header(header.entries(), *signer);
        let b64 = b64_flag_of(header);
        let mut h = header.clone_header();
        h.set_algorithm(signer.algorithm_name());
        match signer.key_id() {
            Some(kid) => {
                let kid_owned = kid.clone();
                h.set_key_id(kid_owned.as_str());
            },
            None => {},
        }
        proof {
            assert(h.entries() == wh);
            crate::header::lemma_set_claim(header.entries(), "alg"@, JsonVal::Str(
                signer.alg_spec(),
            ));
        }
        let hb = h.to_json();
        let mut message = b64url_encode(hb.as_slice());
        let ghost hseg = message@;
        proof {
            lemma_b64url_encode_alphabet(hb@);
        }
        message.push(0x2E);
        if b64 {
            let pseg = b64url_encode(payload);
            proof {
                lemma_b64url_encode_alphabet(payload@);
            }
            crate::der::append_bytes(&mut message, pseg.as_slice());
        } else {
            let dot = find_byte(payload, 0, 0x2E);
            proof {
                lemma_find_byte(payload@, 0, 0x2E);
            }
            if dot != payload.len() {
                return Err(JoseError::InvalidJwtFormat(String::from_str(
                    "a payload carried verbatim cannot contain a dot",
                )));
            }
            match str_from_utf8(payload) {
                Some(_) => {},
                None => {
                    return Err(JoseError::InvalidJwtFormat(String::from_str(
                        "a payload carried verbatim must be UTF-8 text",
                    )));
                },
            }
            crate::der::append_bytes(&mut message, payload);
        }
        proof {
            assert(message@ =~= spec_signing_input(wh, payload@, b64g));
        }
        let sig = match signer.sign(message.as_slice()) {
            Ok(s) => s,
            Err(e) => {
                return Err(e);
            },
        };
        let mut out = message;
        out.push(0x2E);
        let sseg = b64url_encode(sig.as_slice());
        proof {
            lemma_b64url_encode_alphabet(sig@);
        }
        crate::der::append_bytes(&mut out, sseg.as_slice());
        proof {
            let msg = spec_signing_input(wh, payload@, b64g);
            assert(out@ =~= msg + seq![0x2Eu8] + spec_b64url_encode(
                signer.signature_spec(msg),
            ));
            assert forall|i: int| 0 <= i < out@.len() implies out@[i] < 0x80 || (!b64g
                && vstd::utf8::valid_utf8(payload@)) by {}
            if b64g {
                assert forall|i: int| 0 <= i < out@.len() implies out@[i] < 0x80 by {}
                lemma_ascii_valid_utf8(out@);
            } else {
                lemma_ascii_valid_utf8(hseg + seq![0x2Eu8]);
                vstd::utf8::valid_utf8_concat(hseg + seq![0x2Eu8], payload@);
                assert((hseg + seq![0x2Eu8]) + payload@ =~= msg);
                lemma_ascii_valid_utf8(seq![0x2Eu8] + spec_b64url_encode(
                    signer.signature_spec(msg),
                ));
                vstd::utf8::valid_utf8_concat(msg, seq![0x2Eu8] + spec_b64url_encode(
                    signer.signature_spec(msg),
                ));
                assert(msg + (seq![0x2Eu8] + spec_b64url_encode(signer.signature_spec(msg)))
                    =~= out@);
            }
            // exactly two dots
            let sigseg = spec_b64url_encode(signer.signature_spec(msg));
            let pseg: Seq<u8> = if b64g {
                spec_b64url_encode(payload@)
            } else {
                payload@
            };
            lemma_count_zero(hseg, 0x2E);
            if !b64g {
                lemma_find_byte(payload@, 0, 0x2E);
            }
            lemma_count_zero(pseg, 0x2E);
            lemma_count_zero(sigseg, 0x2E);
            lemma_count_concat(hseg, seq![0x2Eu8], 0x2E);
            lemma_count_concat(hseg + seq![0x2Eu8], pseg, 0x2E);
            lemma_count_concat(msg, seq![0x2Eu8], 0x2E);
            lemma_count_concat(msg + seq![0x2Eu8], sigseg, 0x2E);
            assert(seq![0x2Eu8].drop_first() =~= Seq::<u8>::empty());
            assert(spec_count_byte(Seq::<u8>::empty(), 0x2E) == 0);
            assert(spec_count_byte(seq![0x2Eu8], 0x2E) == 1);
            assert(hseg + seq![0x2Eu8] + pseg =~= msg);
            assert(msg + seq![0x2Eu8] + sigseg =~= out@);
            assert(spec_count_byte(out@, 0x2E) == 2);
        }
        let ghost outg = out@;
        match string_from_utf8(out) {
            Some(s) => {
                proof {
                    broadcast use vstd::utf8::decode_utf8_encode_utf8;

                    assert(vstd::utf8::encode_utf8(s@) == outg);
                }
                Ok(s)
            },
            None => {
                proof {
                    assert(false);
                }
                vstd::pervasive::unreached()
            },
        }
    }
}

} // verus!

verus! {

/// Whether the array holds the given name as a string element.
pub open spec fn spec_arr_has_str(a: Seq<JsonVal>, name: Seq<char>) -> bool {
    exists|i: int| 0 <= i < a.len() && #[trigger] a[i] == JsonVal::Str(name)
}

/// The `b64` toggle as consumption reads it: the string elements of a
/// `crit` array select it, the `b64` claim gives its value.  This differs
/// from `spec_b64_flag` (the production side) only in how a `crit` array
/// with non-string elements is read: production demands an array of
/// strings before honoring the toggle, consumption looks for a string
/// `b64` element among whatever is there; on headers whose `crit` is
/// absent or all strings the two agree.
pub open spec fn spec_compact_b64(m: Seq<(Seq<char>, JsonVal)>) -> bool {
    match spec_object_get(m, "crit"@) {
        Some(JsonVal::Arr(a)) => if spec_arr_has_str(a, "b64"@) {
            match spec_bool_claim(m, "b64"@) {
                Some(b) => b,
                None => true,
            }
        } else {
            true
        },
        _ => true,
    }
}

impl JwsContext {
    /// Every string element of the header's `crit` array is in this
    /// context's acceptance set.
    pub open spec fn spec_crit_ok(&self, m: Seq<(Seq<char>, JsonVal)>) -> bool {
        match spec_object_get(m, "crit"@) {
            Some(JsonVal::Arr(a)) => forall|i: int|
                0 <= i < a.len() ==> ((#[trigger] a[i]) is Str ==> self.spec_acceptable(
                    a[i]->Str_0,
                )),
            _ => true,
        }
    }

    /// Consume the compact serialization: split on exactly two dots,
    /// decode and validate the protected header, cross-check `alg` and
    /// `kid` against the verifier, walk `crit` against the acceptance
    /// set, check the signature over the first two segments, and decode
    /// the payload as `b64` directs.
    #[verifier::loop_isolation(false)]
    #[verifier::rlimit(100)]
    pub fn deserialize_compact<V: JwsVerifier>(&self, input: &str, verifier: &V) -> (r: Result<
        (Vec<u8>, JwsHeader),
        JoseError,
    >)
        requires
            verifier.wf(),
        ensures
            ({
                let bs = input.spec_bytes();
                let ln = bs.len() as int;
                let d1 = spec_find_byte(bs, 0, 0x2E);
                let d2 = spec_find_byte(bs, d1 + 1, 0x2E);
                &&& ((d1 == ln || d2 == ln || spec_find_byte(bs, d2 + 1, 0x2E) != ln) ==> (
                r matches Err(e) && e is InvalidJwtFormat))
                &&& (match r {
                    Ok((payload, header)) => {
                        let hseg = bs.subrange(0, d1);
                        let pseg = bs.subrange(d1 + 1, d2);
                        let sseg = bs.subrange(d2 + 1, ln);
                        &&& d1 < ln && d2 < ln && spec_find_byte(bs, d2 + 1, 0x2E) == ln
                        &&& b64url_is_valid(hseg)
                        &&& spec_json_parse(spec_b64url_decode(hseg)) == Some(
                            JsonVal::Obj(header.entries()),
                        )
                        &&& header.wf()
                        &&& spec_str_claim(header.entries(), "alg"@) == Some(verifier.alg_spec())
                        &&& (verifier.kid_spec() matches Some(k) ==> spec_str_claim(
                            header.entries(),
                            "kid"@,
                        ) == Some(k))
                        &&& self.spec_crit_ok(header.entries())
                        &&& b64url_is_valid(sseg)
                        &&& verifier.verify_spec(bs.take(d2), spec_b64url_decode(sseg))
                        &&& (if spec_compact_b64(header.entries()) {
                            b64url_is_valid(pseg) && payload@ == spec_b64url_decode(pseg)
                        } else {
                            payload@ == pseg
                        })
                    },
                    Err(e) => e is InvalidJwtFormat || e is InvalidSignature,
                })
                &&& (forall|m: Seq<(Seq<char>, JsonVal)>|
                    (d1 < ln && d2 < ln && spec_find_byte(bs, d2 + 1, 0x2E) == ln
                        && b64url_is_valid(bs.subrange(0, d1)) && #[trigger] spec_json_parse(
                        spec_b64url_decode(bs.subrange(0, d1)),
                    ) == Some(JsonVal::Obj(m)) && keys_unique(m) && entries_wf(m)
                        && spec_str_claim(m, "alg"@) == Some(verifier.alg_spec()) && (
                    verifier.kid_spec() matches Some(k) ==> spec_str_claim(m, "kid"@) == Some(k))
                        && !self.spec_crit_ok(m)) ==> (r matches Err(e) && e is InvalidJwtFormat))
                &&& (forall|m: Seq<(Seq<char>, JsonVal)>|
                    (d1 < ln && d2 < ln && spec_find_byte(bs, d2 + 1, 0x2E) == ln
                        && b64url_is_valid(bs.subrange(0, d1)) && #[trigger] spec_json_parse(
                        spec_b64url_decode(bs.subrange(0, d1)),
                    ) == Some(JsonVal::Obj(m)) && keys_unique(m) && entries_wf(m)
                        && spec_str_claim(m, "alg"@) == Some(verifier.alg_spec()) && (
                    verifier.kid_spec() matches Some(k) && spec_str_claim(m, "kid"@) != Some(k)))
                        ==> (r matches Err(e) && e is InvalidJwtFormat))
                &&& (forall|m: Seq<(Seq<char>, JsonVal)>|
                    (d1 < ln && d2 < ln && spec_find_byte(bs, d2 + 1, 0x2E) == ln
                        && b64url_is_valid(bs.subrange(0, d1)) && #[trigger] spec_json_parse(
                        spec_b64url_decode(bs.subrange(0, d1)),
                    ) == Some(JsonVal::Obj(m)) && keys_unique(m) && entries_wf(m)
                        && spec_str_claim(m, "alg"@) != Some(verifier.alg_spec())) ==> (
                    r matches Err(e) && e is InvalidJwtFormat))
            }),
    {
        let bytes = input.as_bytes();
        let ghost bs = input.spec_bytes();
        let ln = bytes.len();
        let d1 = find_byte(bytes, 0, 0x2E);
        proof {
            lemma_find_byte(bs, 0, 0x2E);
        }
        if d1 == ln {
            return Err(JoseError::InvalidJwtFormat(String::from_str(
                "the compact form must be three dot-separated segments",
            )));
        }
        let d2 = find_byte(bytes, d1 + 1, 0x2E);
        proof {
            lemma_find_byte(bs, d1 + 1, 0x2E);
        }
        if d2 == ln {
            return Err(JoseError::InvalidJwtFormat(String::from_str(
                "the compact form must be three dot-separated segments",
            )));
        }
        let d3 = find_byte(bytes, d2 + 1, 0x2E);
        if d3 != ln {
            return Err(JoseError::InvalidJwtFormat(String::from_str(
                "the compact form must be three dot-separated segments",
            )));
        }
        let hseg = copy_range(bytes, 0, d1);
        let hb = match b64url_decode(hseg.as_slice()) {
            Some(v) => v,
            None => {
                return Err(JoseError::InvalidJwtFormat(String::from_str(
                    "the protected header is not base64url",
                )));
            },
        };
        let parsed = match parse_json(hb.as_slice()) {
            Some(v) => v,
            None => {
                return Err(JoseError::InvalidJwtFormat(String::from_str(
                    "the protected header is not JSON",
                )));
            },
        };
        let map = match parsed {
            JsonValue::Object(m) => m,
            _ => {
                return Err(JoseError::InvalidJwtFormat(String::from_str(
                    "the protected header must be a JSON object",
                )));
            },
        };
        proof {
            assert(jview(parsed) == JsonVal::Obj(crate::json::jview_obj(map@)));
        }
        let header = match JwsHeader::from_map(map) {
            Ok(h) => h,
            Err(e) => {
                return Err(e);
            },
        };
        let alg_ok = match header.algorithm() {
            Some(a) => str_eq(a.as_str(), verifier.algorithm_name()),
            None => false,
        };
        if !alg_ok {
            return Err(JoseError::InvalidJwtFormat(String::from_str(
                "the alg claim does not name the verifier's algorithm",
            )));
        }
        match verifier.key_id() {
            Some(expected) => {
                let kid_ok = match header.key_id() {
                    Some(actual) => str_eq(actual.as_str(), expected.as_str()),
                    None => false,
                };
                if !kid_ok {
                    return Err(JoseError::InvalidJwtFormat(String::from_str(
                        "the kid claim does not match the verifier's key id",
                    )));
                }
            },
            None => {},
        }
        let mut b64: bool = true;
        match header.claim("crit") {
            Some(v) => {
                match v {
                    JsonValue::Array(arr) => {
                        proof {
                            crate::json::lemma_jview_seq(arr@);
                            assert(jview(*v) == JsonVal::Arr(crate::json::jview_seq(arr@)));
                        }
                        let ghost items = crate::json::jview_seq(arr@);
                        let n = arr.len();
                        let mut i: usize = 0;
                        let mut saw_b64: bool = false;
                        while i < n
                            invariant
                                n == arr@.len(),
                                0 <= i <= n,
                                forall|j: int|
                                    0 <= j < i ==> ((#[trigger] items[j]) is Str
                                        ==> self.spec_acceptable(items[j]->Str_0)),
                                saw_b64 == exists|j: int|
                                    0 <= j < i && #[trigger] items[j] == JsonVal::Str("b64"@),
                            decreases n - i,
                        {
                            match &arr[i] {
                                JsonValue::String(name) => {
                                    if !self.is_acceptable_critical(name.as_str()) {
                                        return Err(JoseError::InvalidJwtFormat(String::from_str(
                                            "a critical claim name is not acceptable here",
                                        )));
                                    }
                                    if str_eq(name.as_str(), "b64") {
                                        saw_b64 = true;
                                        proof {
                                            assert(items[i as int] == JsonVal::Str("b64"@));
                                        }
                                    }
                                },
                                _ => {},
                            }
                            proof {
                                if saw_b64 && !(exists|j: int|
                                    0 <= j < i && #[trigger] items[j] == JsonVal::Str("b64"@)) {
                                    assert(items[i as int] == JsonVal::Str("b64"@));
                                }
                            }
                            i += 1;
                        }
                        if saw_b64 {
                            match header.base64url_encode_payload() {
                                Some(vv) => {
                                    b64 = vv;
                                },
                                None => {},
                            }
                        }
                        proof {
                            assert(b64 == spec_compact_b64(header.entries()));
                            assert(self.spec_crit_ok(header.entries()));
                        }
                    },
                    _ => {},
                }
            },
            None => {},
        }
        let message = copy_range(bytes, 0, d2);
        let sseg = copy_range(bytes, d2 + 1, ln);
        let sig = match b64url_decode(sseg.as_slice()) {
            Some(v) => v,
            None => {
                return Err(JoseError::InvalidJwtFormat(String::from_str(
                    "the signature segment is not base64url",
                )));
            },
        };
        match verifier.verify(message.as_slice(), sig.as_slice()) {
            Ok(()) => {},
            Err(e) => {
                return Err(e);
            },
        }
        let pseg = copy_range(bytes, d1 + 1, d2);
        let payload: Vec<u8> = if b64 {
            match b64url_decode(pseg.as_slice()) {
                Some(v) => v,
                None => {
                    return Err(JoseError::InvalidJwtFormat(String::from_str(
                        "the payload segment is not base64url",
                    )));
                },
            }
        } else {
            pseg
        };
        Ok((payload, header))
    }
}

} // verus!

verus! {

use crate::json::{ascii_chars, json_wf, lemma_json_emit_ascii, to_json_bytes};
use vstd::assert_by_contradiction;

/// An all-ASCII byte vector as a string.
fn ascii_string(v: Vec<u8>) -> (r: String)
    requires
        forall|i: int| 0 <= i < v@.len() ==> v@[i] < 0x80,
    ensures
        r@ == ascii_chars(v@),
{
    let ghost vg = v@;
    proof {
        lemma_ascii_valid_utf8(vg);
    }
    match string_from_utf8(v) {
        Some(s) => {
            proof {
                assert(s@ =~= ascii_chars(vg));
            }
            s
        },
        None => {
            proof {
                assert(false);
            }
            vstd::pervasive::unreached()
        },
    }
}

/// The flattened-JSON object produced for a signature: `protected`, the
/// unprotected `header` when present, `payload`, and `signature`, in that
/// order.
pub open spec fn spec_flattened_value<S: JwsSigner>(
    protected: Seq<(Seq<char>, JsonVal)>,
    unprotected: Option<Seq<(Seq<char>, JsonVal)>>,
    payload: Seq<u8>,
    signer: S,
) -> JsonVal {
    let b64 = spec_b64_flag(protected);
    let wh = spec_wire_header(protected, signer);
    let msg = spec_signing_input(wh, payload, b64);
    let head = seq![
        ("protected"@, JsonVal::Str(ascii_chars(spec_b64url_encode(json_emit(JsonVal::Obj(wh)))))),
    ];
    let mid = match unprotected {
        Some(u) => head + seq![("header"@, JsonVal::Obj(u))],
        None => head,
    };
    JsonVal::Obj(
        mid + seq![
            (
                "payload"@,
                JsonVal::Str(
                    if b64 {
                        ascii_chars(spec_b64url_encode(payload))
                    } else {
                        vstd::utf8::decode_utf8(payload)
                    },
                ),
            ),
            ("signature"@, JsonVal::Str(ascii_chars(spec_b64url_encode(signer.signature_spec(msg))))),
        ],
    )
}

impl JwsContext {
    /// Produce the flattened JSON serialization.  The protected and
    /// unprotected headers must not share a claim name; the signature is
    /// computed over the same input as the compact form.
    #[verifier::loop_isolation(false)]
    #[verifier::rlimit(100)]
    pub fn serialize_flattened_json<S: JwsSigner>(
        &self,
        payload: &[u8],
        protected: Option<&JwsHeader>,
        header: Option<&JwsHeader>,
        signer: &S,
    ) -> (r: Result<String, JoseError>)
        requires
            signer.wf(),
            protected matches Some(p) ==> p.wf(),
            header matches Some(h) ==> h.wf(),
        ensures
            ({
                let pe = match protected {
                    Some(p) => p.entries(),
                    None => Seq::empty(),
                };
                let ue = match header {
                    Some(h) => Some(h.entries()),
                    None => None,
                };
                let b64 = spec_b64_flag(pe);
                match r {
                    Ok(s) => {
                        &&& vstd::utf8::encode_utf8(s@) == json_emit(
                            spec_flattened_value(pe, ue, payload@, *signer),
                        )
                        &&& (!b64 ==> vstd::utf8::valid_utf8(payload@))
                        &&& (header matches Some(h) ==> forall|i: int|
                            0 <= i < h.entries().len() ==> !crate::json::spec_object_has(
                                pe,
                                (#[trigger] h.entries()[i]).0,
                            ))
                    },
                    Err(e) => e is InvalidJwtFormat || e is InvalidSignature,
                }
            }),
            (header matches Some(h) && protected matches Some(p) && (exists|i: int|
                0 <= i < h.entries().len() && crate::json::spec_object_has(
                    p.entries(),
                    (#[trigger] h.entries()[i]).0,
                ))) ==> (r matches Err(e) && e is InvalidJwtFormat),
    {
        let base = match protected {
            Some(p) => p.clone_header(),
            None => JwsHeader::new(),
        };
        let ghost pe = base.entries();
        match header {
            Some(h) => {
                match base.merge(h) {
                    Ok(_) => {},
                    Err(e) => {
                        return Err(e);
                    },
                }
            },
            None => {},
        }
        let b64 = b64_flag_of(&base);
        let mut wire = base;
        wire.set_algorithm(signer.algorithm_name());
        match signer.key_id() {
            Some(kid) => {
                let kid_owned = kid.clone();
                wire.set_key_id(kid_owned.as_str());
            },
            None => {},
        }
        proof {
            assert(wire.entries() == spec_wire_header(pe, *signer));
            crate::header::lemma_set_claim(pe, "alg"@, JsonVal::Str(signer.alg_spec()));
        }
        let hb = wire.to_json();
        let protected_b64 = b64url_encode(hb.as_slice());
        proof {
            lemma_b64url_encode_alphabet(hb@);
        }
        let payload_string: String = if b64 {
            let pb = b64url_encode(payload);
            proof {
                lemma_b64url_encode_alphabet(payload@);
            }
            ascii_string(pb)
        } else {
            match str_from_utf8(payload) {
                Some(sp) => sp.to_owned(),
                None => {
                    return Err(JoseError::InvalidJwtFormat(String::from_str(
                        "a payload carried verbatim must be UTF-8 text",
                    )));
                },
            }
        };
        let mut message: Vec<u8> = Vec::new();
        crate::der::append_bytes(&mut message, protected_b64.as_slice());
        message.push(0x2E);
        if b64 {
            let pb2 = b64url_encode(payload);
            crate::der::append_bytes(&mut message, pb2.as_slice());
        } else {
            crate::der::append_bytes(&mut message, payload);
        }
        proof {
            assert(message@ =~= spec_signing_input(
                spec_wire_header(pe, *signer),
                payload@,
                spec_b64_flag(pe),
            ));
        }
        let sig = match signer.sign(message.as_slice()) {
            Ok(s) => s,
            Err(e) => {
                return Err(e);
            },
        };
        let sb = b64url_encode(sig.as_slice());
        proof {
            lemma_b64url_encode_alphabet(sig@);
        }
        let signature_string = ascii_string(sb);
        let protected_string = ascii_string(protected_b64);
        flattened_output(protected_string, header, payload_string, signature_string)
    }
}

/// Assemble and emit the flattened JSON envelope.
#[verifier::rlimit(100)]
fn flattened_output(
    protected_string: String,
    header: Option<&JwsHeader>,
    payload_string: String,
    signature_string: String,
) -> (r: Result<String, JoseError>)
    requires
        header matches Some(h) ==> h.wf(),
    ensures
        r matches Ok(s) ==> vstd::utf8::encode_utf8(s@) == json_emit(
            JsonVal::Obj(
                (seq![("protected"@, JsonVal::Str(protected_string@))] + (match header {
                    Some(h) => seq![("header"@, JsonVal::Obj(h.entries()))],
                    None => Seq::empty(),
                })) + seq![
                    ("payload"@, JsonVal::Str(payload_string@)),
                    ("signature"@, JsonVal::Str(signature_string@)),
                ],
            ),
        ),
        r is Ok,
{
    let ghost target: Seq<(Seq<char>, JsonVal)> = match header {
        Some(h) => seq![
            ("protected"@, JsonVal::Str(protected_string@)),
            ("header"@, JsonVal::Obj(h.entries())),
            ("payload"@, JsonVal::Str(payload_string@)),
            ("signature"@, JsonVal::Str(signature_string@)),
        ],
        None => seq![
            ("protected"@, JsonVal::Str(protected_string@)),
            ("payload"@, JsonVal::Str(payload_string@)),
            ("signature"@, JsonVal::Str(signature_string@)),
        ],
    };
    proof {
        assert(target =~= (seq![("protected"@, JsonVal::Str(protected_string@))] + (match header {
            Some(h) => seq![("header"@, JsonVal::Obj(h.entries()))],
            None => Seq::empty(),
        })) + seq![
            ("payload"@, JsonVal::Str(payload_string@)),
            ("signature"@, JsonVal::Str(signature_string@)),
        ]);
    }
    let mut entries: Vec<(String, JsonValue)> = Vec::new();
    entries.push((String::from_str("protected"), JsonValue::String(protected_string)));
    match header {
        Some(h) => {
            entries.push((String::from_str("header"), h.to_value()));
        },
        None => {},
    }
    entries.push((String::from_str("payload"), JsonValue::String(payload_string)));
    entries.push((String::from_str("signature"), JsonValue::String(signature_string)));
    let obj = JsonValue::Object(entries);
    proof {
        crate::json::lemma_jview_obj(obj->Object_0@);
        let got = crate::json::jview_obj(obj->Object_0@);
        assert forall|i: int| 0 <= i < got.len() implies got[i] == target[i] by {
            assert(got[i] == ((obj->Object_0@)[i].0@, jview((obj->Object_0@)[i].1)));
        }
        assert(got =~= target);
        assert(jview(obj) == JsonVal::Obj(target));
        assert forall|i: int| 0 <= i < target.len() implies json_wf((#[trigger] target[i]).1) by {
            match header {
                Some(h) => {
                    assert(entries_wf(h.entries()));
                },
                None => {},
            }
        }
        assert(json_wf(jview(obj)));
    }
    let out = to_json_bytes(&obj);
    let ghost outg = out@;
    proof {
        lemma_json_emit_ascii(JsonVal::Obj(target));
        lemma_ascii_valid_utf8(outg);
    }
    match string_from_utf8(out) {
        Some(s) => {
            proof {
                broadcast use vstd::utf8::decode_utf8_encode_utf8;

                assert(vstd::utf8::encode_utf8(s@) == outg);
            }
            Ok(s)
        },
        None => {
            proof {
                assert(false);
            }
            vstd::pervasive::unreached()
        },
    }
}

} // verus!

verus! {

/// The signature entries of a parsed envelope: the `signatures` array
/// when the field holds one, or the envelope object itself in the
/// flattened form.
pub open spec fn spec_sig_entries(top: Seq<(Seq<char>, JsonVal)>) -> Option<Seq<JsonVal>> {
    match spec_object_get(top, "signatures"@) {
        Some(v) => match v {
            JsonVal::Arr(a) => Some(a),
            _ => None,
        },
        None => Some(seq![JsonVal::Obj(top)]),
    }
}

/// The protected header of an entry: its `protected` string field,
/// base64url-decoded and parsed to an object.
pub open spec fn spec_entry_protected(e: JsonVal) -> Option<Seq<(Seq<char>, JsonVal)>> {
    match e {
        JsonVal::Obj(sig_obj) => match spec_str_claim(sig_obj, "protected"@) {
            Some(pb) => if b64url_is_valid(vstd::utf8::encode_utf8(pb)) {
                match spec_json_parse(spec_b64url_decode(vstd::utf8::encode_utf8(pb))) {
                    Some(JsonVal::Obj(prot)) => Some(prot),
                    _ => None,
                }
            } else {
                None
            },
            None => None,
        },
        _ => None,
    }
}

/// The unprotected header object of an entry; empty when the field is
/// absent.
pub open spec fn spec_entry_unprotected(e: JsonVal) -> Seq<(Seq<char>, JsonVal)> {
    match e {
        JsonVal::Obj(sig_obj) => match spec_object_get(sig_obj, "header"@) {
            Some(v) => match v {
                JsonVal::Obj(u) => u,
                _ => Seq::empty(),
            },
            None => Seq::empty(),
        },
        _ => Seq::empty(),
    }
}

/// An entry that parses cleanly through header merging: a protected
/// string decoding to a valid header that carries `alg`, an unprotected
/// object (or none) that is itself valid, and no claim name shared
/// between the two.
pub open spec fn spec_entry_parsed(e: JsonVal) -> bool {
    &&& e matches JsonVal::Obj(..)
    &&& spec_entry_protected(e) matches Some(prot) && keys_unique(prot) && entries_wf(prot)
        && spec_object_has(prot, "alg"@)
    &&& (spec_object_get(e->Obj_0, "header"@) matches Some(h) ==> h matches JsonVal::Obj(u)
        && keys_unique(u) && entries_wf(u))
    &&& (forall|i: int|
        0 <= i < spec_entry_protected(e).unwrap().len() ==> !spec_object_has(
            spec_entry_unprotected(e),
            (#[trigger] spec_entry_protected(e).unwrap()[i]).0,
        ))
}

/// An entry consumption walks past: it parses cleanly but its merged
/// header does not name the verifier's algorithm and key id.
pub open spec fn spec_entry_skipped<V: JwsVerifier>(e: JsonVal, verifier: V) -> bool {
    &&& spec_entry_parsed(e)
    &&& ({
        let merged = spec_entry_unprotected(e) + spec_entry_protected(e).unwrap();
        !(spec_str_claim(merged, "alg"@) == Some(verifier.alg_spec()) && (
        verifier.kid_spec() matches Some(k) ==> spec_str_claim(merged, "kid"@) == Some(k)))
    })
}

/// An entry whose two headers share a claim name, though both parse.
pub open spec fn spec_entry_duplicate(e: JsonVal) -> bool {
    &&& e matches JsonVal::Obj(..)
    &&& spec_entry_protected(e) matches Some(prot) && keys_unique(prot) && entries_wf(prot)
        && spec_object_has(prot, "alg"@)
    &&& (spec_object_get(e->Obj_0, "header"@) matches Some(h) ==> h matches JsonVal::Obj(u)
        && keys_unique(u) && entries_wf(u))
    &&& (exists|i: int|
        0 <= i < spec_entry_protected(e).unwrap().len() && spec_object_has(
            spec_entry_unprotected(e),
            (#[trigger] spec_entry_protected(e).unwrap()[i]).0,
        ))
}

impl JwsContext {
    /// The `crit` discipline of the JSON form: when the protected header
    /// carries a `crit` array, every element must be an acceptable string,
    /// and a listed `b64` claim must be boolean.  (The compact form,
    /// reflected by `spec_compact_b64` and `spec_crit_ok`, ignores
    /// non-string elements instead, as its consumer does.)
    pub open spec fn spec_json_crit_ok(&self, prot: Seq<(Seq<char>, JsonVal)>) -> bool {
        match spec_object_get(prot, "crit"@) {
            Some(v) => match v {
                JsonVal::Arr(a) => (forall|i: int|
                    0 <= i < a.len() ==> (#[trigger] a[i]) is Str && self.spec_acceptable(
                        a[i]->Str_0,
                    )) && (spec_arr_has_str(a, "b64"@) ==> (spec_object_get(prot, "b64"@)
                    matches Some(bv) ==> bv is Bool)),
                _ => true,
            },
            None => true,
        }
    }

    /// A fully accepted entry: what success returns.  The merged header is
    /// unprotected then protected entries; the signature verified over the
    /// protected field text, a dot, and the payload field text; the
    /// payload decodes as the protected header's `b64` toggle directs.
    pub open spec fn spec_entry_verified<V: JwsVerifier>(
        &self,
        e: JsonVal,
        pf: Seq<char>,
        verifier: V,
        payload: Seq<u8>,
        merged: Seq<(Seq<char>, JsonVal)>,
    ) -> bool {
        &&& spec_entry_parsed(e)
        &&& merged == spec_entry_unprotected(e) + spec_entry_protected(e).unwrap()
        &&& spec_str_claim(merged, "alg"@) == Some(verifier.alg_spec())
        &&& (verifier.kid_spec() matches Some(k) ==> spec_str_claim(merged, "kid"@) == Some(k))
        &&& self.spec_json_crit_ok(spec_entry_protected(e).unwrap())
        &&& spec_str_claim(e->Obj_0, "signature"@) matches Some(sc) && b64url_is_valid(
            vstd::utf8::encode_utf8(sc),
        ) && verifier.verify_spec(
            vstd::utf8::encode_utf8(spec_str_claim(e->Obj_0, "protected"@).unwrap()) + seq![
                0x2Eu8,
            ] + vstd::utf8::encode_utf8(pf),
            spec_b64url_decode(vstd::utf8::encode_utf8(sc)),
        )
        &&& (if spec_compact_b64(spec_entry_protected(e).unwrap()) {
            b64url_is_valid(vstd::utf8::encode_utf8(pf)) && payload == spec_b64url_decode(
                vstd::utf8::encode_utf8(pf),
            )
        } else {
            payload == vstd::utf8::encode_utf8(pf)
        })
    }


    /// Every signature entry of a well-shaped envelope is one the walk
    /// skips.
    pub open spec fn spec_all_entries_skipped<V: JwsVerifier>(
        input_bytes: Seq<u8>,
        verifier: V,
    ) -> bool {
        match spec_json_parse(input_bytes) {
            Some(v) => match v {
                JsonVal::Obj(top) => match spec_sig_entries(top) {
                    Some(entries) => spec_str_claim(top, "payload"@) is Some && (forall|i: int|
                        0 <= i < entries.len() ==> spec_entry_skipped(
                            #[trigger] entries[i],
                            verifier,
                        )),
                    None => false,
                },
                _ => false,
            },
            None => false,
        }
    }

    /// Some signature entry of a well-shaped envelope is reached (all
    /// before it are skipped) and breaks the duplicate-claim rule.
    pub open spec fn spec_duplicate_reached<V: JwsVerifier>(
        input_bytes: Seq<u8>,
        verifier: V,
    ) -> bool {
        match spec_json_parse(input_bytes) {
            Some(v) => match v {
                JsonVal::Obj(top) => match spec_sig_entries(top) {
                    Some(entries) => spec_str_claim(top, "payload"@) is Some && (exists|i: int|
                        0 <= i < entries.len() && (forall|j: int|
                            0 <= j < i ==> spec_entry_skipped(#[trigger] entries[j], verifier))
                            && spec_entry_duplicate(#[trigger] entries[i])),
                    None => false,
                },
                _ => false,
            },
            None => false,
        }
    }

    /// A parsed entry never breaks the duplicate rule: being parsed
    /// includes the disjointness of its two headers.
    proof fn lemma_parsed_not_duplicate(e: JsonVal)
        requires
            spec_entry_parsed(e),
        ensures
            !spec_entry_duplicate(e),
    {
        if spec_entry_duplicate(e) {
            let prot = spec_entry_protected(e).unwrap();
            let i = choose|i: int|
                0 <= i < prot.len() && spec_object_has(
                    spec_entry_unprotected(e),
                    (#[trigger] prot[i]).0,
                );
            assert(!spec_object_has(spec_entry_unprotected(e), prot[i].0));
        }
    }

    /// The entry at `idx` — reached, not skipped, not duplicate —
    /// refutes both failure predicates.
    proof fn lemma_entry_reached<V: JwsVerifier>(
        input_bytes: Seq<u8>,
        topv: Seq<(Seq<char>, JsonVal)>,
        sentries: Seq<JsonVal>,
        idx: int,
        verifier: V,
    )
        requires
            spec_json_parse(input_bytes) == Some(JsonVal::Obj(topv)),
            spec_sig_entries(topv) == Some(sentries),
            0 <= idx < sentries.len(),
            forall|j: int| 0 <= j < idx ==> spec_entry_skipped(#[trigger] sentries[j], verifier),
            !spec_entry_skipped(sentries[idx], verifier),
            !spec_entry_duplicate(sentries[idx]),
        ensures
            !Self::spec_all_entries_skipped(input_bytes, verifier),
            !Self::spec_duplicate_reached(input_bytes, verifier),
    {
        if Self::spec_all_entries_skipped(input_bytes, verifier) {
            assert(spec_entry_skipped(sentries[idx], verifier));
        }
        if Self::spec_duplicate_reached(input_bytes, verifier) {
            let i = choose|i: int|
                0 <= i < sentries.len() && (forall|j: int|
                    0 <= j < i ==> spec_entry_skipped(#[trigger] sentries[j], verifier))
                    && spec_entry_duplicate(#[trigger] sentries[i]);
            if i < idx {
                assert(spec_entry_skipped(sentries[i], verifier));
                Self::lemma_parsed_not_duplicate(sentries[i]);
            } else if i == idx {
            } else {
                assert(spec_entry_skipped(sentries[idx], verifier));
            }
        }
    }

    /// Consume the JSON serialization, general or flattened.  The
    /// `signatures` entries are walked in order; an entry is skipped when
    /// its merged header does not name the verifier's algorithm and key
    /// id; the first matching entry is verified and returned; exhausting
    /// the array, an empty array included, is a terminal error.
    #[verifier::loop_isolation(false)]
    #[verifier::rlimit(100)]
    pub fn deserialize_json<V: JwsVerifier>(&self, input: &str, verifier: &V) -> (r: Result<
        (Vec<u8>, JwsHeader),
        JoseError,
    >)
        requires
            verifier.wf(),
        ensures
            match r {
                Ok((payload, header)) => {
                    &&& header.wf()
                    &&& spec_json_parse(input.spec_bytes()) matches Some(JsonVal::Obj(top))
                        && spec_str_claim(top, "payload"@) matches Some(pf) && spec_sig_entries(
                        top,
                    ) matches Some(entries) && (exists|i: int|
                        0 <= i < entries.len() && (forall|j: int|
                            0 <= j < i ==> spec_entry_skipped(#[trigger] entries[j], *verifier))
                            && self.spec_entry_verified(
                            #[trigger] entries[i],
                            pf,
                            *verifier,
                            payload@,
                            header.entries(),
                        ))
                },
                Err(e) => e is InvalidJwtFormat || e is InvalidSignature,
            },
            !(spec_json_parse(input.spec_bytes()) matches Some(JsonVal::Obj(..))) ==> (
            r matches Err(e) && e is InvalidJwtFormat),
            (spec_json_parse(input.spec_bytes()) matches Some(JsonVal::Obj(top)) && !(
            spec_object_get(top, "payload"@) matches Some(JsonVal::Str(..)))) ==> (
            r matches Err(e) && e is InvalidJwtFormat),
            (spec_json_parse(input.spec_bytes()) matches Some(JsonVal::Obj(top))
                && spec_object_get(top, "signatures"@) matches Some(v) && !(v is Arr)) ==> (
            r matches Err(e) && e is InvalidJwtFormat),
            Self::spec_all_entries_skipped(input.spec_bytes(), *verifier) ==> (r matches Err(e)
                && e is InvalidJwtFormat),
            Self::spec_duplicate_reached(input.spec_bytes(), *verifier) ==> (r matches Err(e)
                && e is InvalidJwtFormat),
    {
        let bytes = input.as_bytes();
        let parsed = match parse_json(bytes) {
            Some(v) => v,
            None => {
                return Err(JoseError::InvalidJwtFormat(String::from_str(
                    "the envelope is not JSON",
                )));
            },
        };
        let top = match &parsed {
            JsonValue::Object(m) => m,
            _ => {
                return Err(JoseError::InvalidJwtFormat(String::from_str(
                    "the envelope must be a JSON object",
                )));
            },
        };
        proof {
            assert(jview(parsed) == JsonVal::Obj(crate::json::jview_obj(top@)));
        }
        let ghost topv = crate::json::jview_obj(top@);
        let payload_field: String = match crate::json::object_get(top, "payload") {
            Some(v) => match v {
                JsonValue::String(sv) => sv.clone(),
                _ => {
                    return Err(JoseError::InvalidJwtFormat(String::from_str(
                        "the payload field must be a string",
                    )));
                },
            },
            None => {
                return Err(JoseError::InvalidJwtFormat(String::from_str(
                    "the payload field is required",
                )));
            },
        };
        let ghost pf = payload_field@;
        let mut entries: Vec<&Vec<(String, JsonValue)>> = Vec::new();
        let ghost mut sentries: Seq<JsonVal> = Seq::empty();
        match crate::json::object_get(top, "signatures") {
            Some(v) => match v {
                JsonValue::Array(arr) => {
                    proof {
                        crate::json::lemma_jview_seq(arr@);
                        assert(jview(*v) == JsonVal::Arr(crate::json::jview_seq(arr@)));
                        sentries = crate::json::jview_seq(arr@);
                    }
                    let n = arr.len();
                    let mut i: usize = 0;
                    while i < n
                        invariant
                            n == arr@.len(),
                            0 <= i <= n,
                            entries@.len() == i,
                            forall|j: int|
                                0 <= j < i ==> sentries[j] == JsonVal::Obj(
                                    crate::json::jview_obj((#[trigger] entries@[j])@),
                                ),
                        decreases n - i,
                    {
                        match &arr[i] {
                            JsonValue::Object(m) => {
                                proof {
                                    assert(sentries[i as int] == jview(arr@[i as int]));
                                }
                                entries.push(m);
                            },
                            _ => {
                                proof {
                                    assert(sentries[i as int] == jview(arr@[i as int]));
                                    assert(!(sentries[i as int] is Obj));
                                    assert(!spec_entry_skipped(sentries[i as int], *verifier));
                                }
                                return Err(JoseError::InvalidJwtFormat(String::from_str(
                                    "the signatures field must be an array of objects",
                                )));
                            },
                        }
                        i += 1;
                    }
                },
                _ => {
                    return Err(JoseError::InvalidJwtFormat(String::from_str(
                        "the signatures field must be an array",
                    )));
                },
            },
            None => {
                entries.push(top);
                proof {
                    sentries = seq![JsonVal::Obj(topv)];
                }
            },
        }
        let count = entries.len();
        proof {
            assert(spec_sig_entries(topv) == Some(sentries));
            assert(sentries.len() == count);
        }
        let mut idx: usize = 0;
        while idx < count
            invariant
                count == entries@.len(),
                0 <= idx <= count,
                sentries.len() == count,
                spec_sig_entries(topv) == Some(sentries),
                forall|j: int|
                    0 <= j < count ==> sentries[j] == JsonVal::Obj(
                        crate::json::jview_obj((#[trigger] entries@[j])@),
                    ),
                forall|j: int|
                    0 <= j < idx ==> spec_entry_skipped(#[trigger] sentries[j], *verifier),
            decreases count - idx,
        {
            let sig_obj: &Vec<(String, JsonValue)> = entries[idx];
            let ghost sentry = sentries[idx as int];
            let ghost ev = crate::json::jview_obj(sig_obj@);
            proof {
                assert(sentry == JsonVal::Obj(ev));
            }
            let protected_b64: String = match crate::json::object_get(sig_obj, "protected") {
                Some(v) => match v {
                    JsonValue::String(sv) => sv.clone(),
                    _ => {
                        return Err(JoseError::InvalidJwtFormat(String::from_str(
                            "the protected field must be a string",
                        )));
                    },
                },
                None => {
                    return Err(JoseError::InvalidJwtFormat(String::from_str(
                        "the alg claim must sit in a protected header",
                    )));
                },
            };
            let prot_bytes = match b64url_decode(protected_b64.as_str().as_bytes()) {
                Some(v) => v,
                None => {
                    return Err(JoseError::InvalidJwtFormat(String::from_str(
                        "the protected header is not base64url",
                    )));
                },
            };
            let prot_parsed = match parse_json(prot_bytes.as_slice()) {
                Some(v) => v,
                None => {
                    return Err(JoseError::InvalidJwtFormat(String::from_str(
                        "the protected header is not JSON",
                    )));
                },
            };
            let prot_map = match prot_parsed {
                JsonValue::Object(m) => m,
                _ => {
                    return Err(JoseError::InvalidJwtFormat(String::from_str(
                        "the protected header must be a JSON object",
                    )));
                },
            };
            let prot_header = match JwsHeader::from_map(prot_map) {
                Ok(h) => h,
                Err(e2) => {
                    return Err(e2);
                },
            };
            proof {
                assert(spec_entry_protected(sentry) == Some(prot_header.entries()));
            }
            match prot_header.claim("alg") {
                Some(_) => {},
                None => {
                    return Err(JoseError::InvalidJwtFormat(String::from_str(
                        "the alg claim must sit in a protected header",
                    )));
                },
            }
            proof {
                crate::json::lemma_object_get_has(prot_header.entries(), "alg"@);
            }
            let unprot_header: JwsHeader = match crate::json::object_get(sig_obj, "header") {
                Some(v) => match v {
                    JsonValue::Object(hm) => {
                        match JwsHeader::from_map(crate::header::clone_claim_map(hm)) {
                            Ok(h) => h,
                            Err(e2) => {
                                return Err(e2);
                            },
                        }
                    },
                    _ => {
                        return Err(JoseError::InvalidJwtFormat(String::from_str(
                            "the header field must be an object",
                        )));
                    },
                },
                None => JwsHeader::new(),
            };
            proof {
                assert(spec_entry_unprotected(sentry) =~= unprot_header.entries());
            }
            let merged = match unprot_header.merge(&prot_header) {
                Ok(h) => h,
                Err(e2) => {
                    proof {
                        assert(spec_entry_duplicate(sentry));
                    }
                    return Err(e2);
                },
            };
            proof {
                assert(spec_entry_parsed(sentry));
                assert(merged.entries() == spec_entry_unprotected(sentry) + spec_entry_protected(
                    sentry,
                ).unwrap());
            }
            let alg_match = match merged.algorithm() {
                Some(a) => str_eq(a.as_str(), verifier.algorithm_name()),
                None => false,
            };
            let kid_match = match verifier.key_id() {
                Some(expected) => match merged.key_id() {
                    Some(actual) => str_eq(actual.as_str(), expected.as_str()),
                    None => false,
                },
                None => true,
            };
            if alg_match && kid_match {
                let mut b64: bool = true;
                let ghost prot = prot_header.entries();
                match prot_header.claim("crit") {
                    Some(v) => {
                        match v {
                            JsonValue::Array(arr) => {
                                proof {
                                    crate::json::lemma_jview_seq(arr@);
                                    assert(jview(*v) == JsonVal::Arr(
                                        crate::json::jview_seq(arr@),
                                    ));
                                }
                                let ghost items = crate::json::jview_seq(arr@);
                                let n = arr.len();
                                let mut i: usize = 0;
                                let mut saw_b64: bool = false;
                                while i < n
                                    invariant
                                        n == arr@.len(),
                                        0 <= i <= n,
                                        forall|j: int|
                                            0 <= j < i ==> (#[trigger] items[j]) is Str
                                                && self.spec_acceptable(items[j]->Str_0),
                                        saw_b64 == exists|j: int|
                                            0 <= j < i && #[trigger] items[j] == JsonVal::Str(
                                                "b64"@,
                                            ),
                                        saw_b64 ==> (spec_object_get(prot, "b64"@) matches Some(
                                            bv,
                                        ) ==> bv is Bool),
                                        b64 == (if saw_b64 {
                                            match spec_bool_claim(prot, "b64"@) {
                                                Some(bb) => bb,
                                                None => true,
                                            }
                                        } else {
                                            true
                                        }),
                                    decreases n - i,
                                {
                                    match &arr[i] {
                                        JsonValue::String(name) => {
                                            proof {
                                                assert(items[i as int] == jview(arr@[i as int]));
                                            }
                                            if !self.is_acceptable_critical(name.as_str()) {
                                                return Err(JoseError::InvalidJwtFormat(
                                                    String::from_str(
                                                        "a critical claim name is not acceptable here",
                                                    ),
                                                ));
                                            }
                                            if str_eq(name.as_str(), "b64") {
                                                proof {
                                                    assert(items[i as int] == JsonVal::Str(
                                                        "b64"@,
                                                    ));
                                                }
                                                match prot_header.claim("b64") {
                                                    Some(bv) => match bv {
                                                        JsonValue::Bool(b) => {
                                                            b64 = *b;
                                                        },
                                                        _ => {
                                                            return Err(
                                                                JoseError::InvalidJwtFormat(
                                                                    String::from_str(
                                                                        "the b64 claim must be a boolean",
                                                                    ),
                                                                ),
                                                            );
                                                        },
                                                    },
                                                    None => {},
                                                }
                                                saw_b64 = true;
                                            }
                                        },
                                        _ => {
                                            proof {
                                                assert(items[i as int] == jview(arr@[i as int]));
                                            }
                                            return Err(JoseError::InvalidJwtFormat(
                                                String::from_str(
                                                    "the crit claim must be an array of strings",
                                                ),
                                            ));
                                        },
                                    }
                                    proof {
                                        if saw_b64 && !(exists|j: int|
                                            0 <= j < i && #[trigger] items[j] == JsonVal::Str(
                                                "b64"@,
                                            )) {
                                            assert(items[i as int] == JsonVal::Str("b64"@));
                                        }
                                    }
                                    i += 1;
                                }
                                proof {
                                    assert(b64 == spec_compact_b64(prot));
                                    assert(self.spec_json_crit_ok(prot));
                                }
                            },
                            _ => {},
                        }
                    },
                    None => {},
                }
                proof {
                    assert(b64 == spec_compact_b64(prot));
                    assert(self.spec_json_crit_ok(prot));
                }
                let mut msg: Vec<u8> = Vec::new();
                crate::der::append_bytes(&mut msg, protected_b64.as_str().as_bytes());
                msg.push(0x2E);
                crate::der::append_bytes(&mut msg, payload_field.as_str().as_bytes());
                proof {
                    assert(msg@ =~= vstd::utf8::encode_utf8(protected_b64@) + seq![0x2Eu8]
                        + vstd::utf8::encode_utf8(pf));
                }
                let sig = match crate::json::object_get(sig_obj, "signature") {
                    Some(v) => match v {
                        JsonValue::String(sv) => match b64url_decode(sv.as_str().as_bytes()) {
                            Some(b) => b,
                            None => {
                                return Err(JoseError::InvalidJwtFormat(String::from_str(
                                    "the signature field is not base64url",
                                )));
                            },
                        },
                        _ => {
                            return Err(JoseError::InvalidJwtFormat(String::from_str(
                                "the signature field must be a string",
                            )));
                        },
                    },
                    None => {
                        return Err(JoseError::InvalidJwtFormat(String::from_str(
                            "the signature field is required",
                        )));
                    },
                };
                match verifier.verify(msg.as_slice(), sig.as_slice()) {
                    Ok(()) => {},
                    Err(e2) => {
                        proof {
                            assert(!spec_entry_skipped(sentry, *verifier));
                            Self::lemma_parsed_not_duplicate(sentry);
                            Self::lemma_entry_reached(
                                input.spec_bytes(),
                                topv,
                                sentries,
                                idx as int,
                                *verifier,
                            );
                        }
                        return Err(e2);
                    },
                }
                let payload: Vec<u8> = if b64 {
                    match b64url_decode(payload_field.as_str().as_bytes()) {
                        Some(v) => v,
                        None => {
                            return Err(JoseError::InvalidJwtFormat(String::from_str(
                                "the payload field is not base64url",
                            )));
                        },
                    }
                } else {
                    payload_field.as_str().as_bytes_vec()
                };
                proof {
                    assert(self.spec_entry_verified(sentry, pf, *verifier, payload@,
                        merged.entries()));
                    assert(!spec_entry_skipped(sentry, *verifier));
                    Self::lemma_parsed_not_duplicate(sentry);
                    Self::lemma_entry_reached(
                        input.spec_bytes(),
                        topv,
                        sentries,
                        idx as int,
                        *verifier,
                    );
                }
                return Ok((payload, merged));
            }
            proof {
                assert(spec_entry_skipped(sentry, *verifier));
            }
            idx += 1;
        }
        Err(JoseError::InvalidJwtFormat(String::from_str(
            "no signature entry matched the header claims",
        )))
    }
}

} // verus!

verus! {

/// The `b64` toggle of one general-JSON entry: read from its protected
/// header, true when there is none.
pub open spec fn spec_general_b64<S: JwsSigner>(
    entry: (Option<JwsHeader>, Option<JwsHeader>, S),
) -> bool {
    match entry.0 {
        Some(p) => spec_b64_flag(p.entries()),
        None => true,
    }
}

/// One general-JSON signature entry as produced for one signer: its
/// protected header with `alg` set, the optional unprotected header, and
/// a signature over the entry's protected text, a dot, and the shared
/// payload part.
pub open spec fn spec_general_entry<S: JwsSigner>(
    entry: (Option<JwsHeader>, Option<JwsHeader>, S),
    payload_part: Seq<u8>,
) -> JsonVal {
    let pe = match entry.0 {
        Some(p) => p.entries(),
        None => Seq::empty(),
    };
    let wh = spec_set_claim(pe, "alg"@, JsonVal::Str(entry.2.alg_spec()));
    let pb = spec_b64url_encode(json_emit(JsonVal::Obj(wh)));
    let msg = pb + seq![0x2Eu8] + payload_part;
    let head = seq![("protected"@, JsonVal::Str(ascii_chars(pb)))];
    let mid = match entry.1 {
        Some(h) => head + seq![("header"@, JsonVal::Obj(h.entries()))],
        None => head,
    };
    JsonVal::Obj(
        mid + seq![
            (
                "signature"@,
                JsonVal::Str(ascii_chars(spec_b64url_encode(entry.2.signature_spec(msg)))),
            ),
        ],
    )
}

/// All the entries, in signer order.
pub open spec fn spec_general_entries<S: JwsSigner>(
    signers: Seq<(Option<JwsHeader>, Option<JwsHeader>, S)>,
    payload_part: Seq<u8>,
) -> Seq<JsonVal> {
    Seq::new(signers.len(), |i: int| spec_general_entry(signers[i], payload_part))
}

impl JwsContext {
    /// Produce the general JSON serialization: one `signatures` entry per
    /// signer, each signed over its own protected header (augmented with
    /// that signer's `alg`) and the shared payload part.  The `b64`
    /// extension applies to every entry's signing input and to the shared
    /// payload field, so the entries' protected headers must agree on it.
    /// All signers share one Rust type here; the slice's one JWS
    /// algorithm makes a mixed envelope inexpressible.
    #[verifier::loop_isolation(false)]
    #[verifier::rlimit(100)]
    pub fn serialize_general_json<S: JwsSigner>(
        &self,
        payload: &[u8],
        signers: &Vec<(Option<JwsHeader>, Option<JwsHeader>, S)>,
    ) -> (r: Result<String, JoseError>)
        requires
            forall|i: int|
                0 <= i < signers@.len() ==> (#[trigger] signers@[i]).2.wf() && (
                signers@[i].0 matches Some(p) ==> p.wf()) && (signers@[i].1 matches Some(h)
                    ==> h.wf()),
        ensures
            ({
                let b64 = if signers@.len() > 0 {
                    spec_general_b64(signers@[0])
                } else {
                    true
                };
                let payload_part: Seq<u8> = if b64 {
                    spec_b64url_encode(payload@)
                } else {
                    payload@
                };
                match r {
                    Ok(s) => {
                        &&& (forall|i: int|
                            0 <= i < signers@.len() ==> spec_general_b64(#[trigger] signers@[i])
                                == b64)
                        &&& (!b64 ==> vstd::utf8::valid_utf8(payload@))
                        &&& vstd::utf8::encode_utf8(s@) == json_emit(
                            JsonVal::Obj(
                                seq![
                                    (
                                        "signatures"@,
                                        JsonVal::Arr(spec_general_entries(signers@, payload_part)),
                                    ),
                                    (
                                        "payload"@,
                                        JsonVal::Str(
                                            if b64 {
                                                ascii_chars(spec_b64url_encode(payload@))
                                            } else {
                                                vstd::utf8::decode_utf8(payload@)
                                            },
                                        ),
                                    ),
                                ],
                            ),
                        )
                    },
                    Err(e) => e is InvalidJwtFormat || e is InvalidSignature,
                }
            }),
            (exists|i: int|
                0 <= i < signers@.len() && spec_general_b64(#[trigger] signers@[i])
                    != spec_general_b64(signers@[0])) ==> (r matches Err(e)
                && e is InvalidJwtFormat),
    {
        let b64: bool = if signers.len() > 0 {
            match &signers[0].0 {
                Some(p) => b64_flag_of(p),
                None => true,
            }
        } else {
            true
        };
        let mut pre: usize = 0;
        while pre < signers.len()
            invariant
                0 <= pre <= signers@.len(),
                forall|j: int|
                    0 <= j < pre ==> spec_general_b64(#[trigger] signers@[j]) == b64,
                signers@.len() > 0 ==> b64 == spec_general_b64(signers@[0]),
                signers@.len() == 0 ==> b64,
            decreases signers@.len() - pre,
        {
            let entry_b64: bool = match &signers[pre].0 {
                Some(p) => b64_flag_of(p),
                None => true,
            };
            if entry_b64 != b64 {
                proof {
                    assert(spec_general_b64(signers@[pre as int]) != spec_general_b64(
                        signers@[0],
                    ));
                }
                return Err(JoseError::InvalidJwtFormat(String::from_str(
                    "the b64 extension must agree across all signatures",
                )));
            }
            pre += 1;
        }
        let payload_part: Vec<u8> = if b64 {
            b64url_encode(payload)
        } else {
            match str_from_utf8(payload) {
                Some(_) => {},
                None => {
                    return Err(JoseError::InvalidJwtFormat(String::from_str(
                        "a payload carried verbatim must be UTF-8 text",
                    )));
                },
            }
            copy_range(payload, 0, payload.len())
        };
        proof {
            if b64 {
                lemma_b64url_encode_alphabet(payload@);
            }
            assert(payload_part@ == (if b64 {
                spec_b64url_encode(payload@)
            } else {
                payload@
            }));
        }
        let mut sig_objs: Vec<JsonValue> = Vec::new();
        let count = signers.len();
        let mut i: usize = 0;
        while i < count
            invariant
                count == signers@.len(),
                0 <= i <= count,
                sig_objs@.len() == i,
                forall|j: int|
                    0 <= j < i ==> jview(#[trigger] sig_objs@[j]) == spec_general_entry(
                        signers@[j],
                        payload_part@,
                    ) && json_wf(jview(sig_objs@[j])),
                forall|j: int|
                    0 <= j < count ==> spec_general_b64(#[trigger] signers@[j]) == b64,
            decreases count - i,
        {
            let entry = &signers[i];
            let base = match &entry.0 {
                Some(p) => p.clone_header(),
                None => JwsHeader::new(),
            };
            let ghost pe = base.entries();
            let mut wire = base;
            wire.set_algorithm(entry.2.algorithm_name());
            proof {
                crate::header::lemma_set_claim(pe, "alg"@, JsonVal::Str(
                    signers@[i as int].2.alg_spec(),
                ));
            }
            let hb = wire.to_json();
            let protected_b64 = b64url_encode(hb.as_slice());
            proof {
                lemma_b64url_encode_alphabet(hb@);
            }
            let mut msg: Vec<u8> = Vec::new();
            crate::der::append_bytes(&mut msg, protected_b64.as_slice());
            msg.push(0x2E);
            crate::der::append_bytes(&mut msg, payload_part.as_slice());
            proof {
                assert(msg@ =~= protected_b64@ + seq![0x2Eu8] + payload_part@);
            }
            let sig = match entry.2.sign(msg.as_slice()) {
                Ok(s) => s,
                Err(e) => {
                    return Err(e);
                },
            };
            let sb = b64url_encode(sig.as_slice());
            proof {
                lemma_b64url_encode_alphabet(sig@);
            }
            let obj = general_entry_object(
                ascii_string(protected_b64),
                match &entry.1 {
                    Some(h) => Some(h),
                    None => None,
                },
                ascii_string(sb),
            );
            let ghost target_val = spec_general_entry(signers@[i as int], payload_part@);
            proof {
                assert(jview(obj)->Obj_0 =~= target_val->Obj_0);
                assert(jview(obj) == target_val);
            }
            sig_objs.push(obj);
            i += 1;
        }
        let payload_string: String = if b64 {
            let pb2 = b64url_encode(payload);
            ascii_string(pb2)
        } else {
            match str_from_utf8(payload) {
                Some(sp) => sp.to_owned(),
                None => {
                    proof {
                        assert(false);
                    }
                    vstd::pervasive::unreached()
                },
            }
        };
        let ghost entries_v = spec_general_entries(signers@, payload_part@);
        proof {
            crate::json::lemma_jview_seq(sig_objs@);
            assert forall|j: int| 0 <= j < entries_v.len() implies crate::json::jview_seq(
                sig_objs@,
            )[j] == entries_v[j] by {
                assert(crate::json::jview_seq(sig_objs@)[j] == jview(sig_objs@[j]));
            }
            assert(crate::json::jview_seq(sig_objs@) =~= entries_v);
            assert(payload_string@ == (if b64 {
                ascii_chars(spec_b64url_encode(payload@))
            } else {
                vstd::utf8::decode_utf8(payload@)
            }));
        }
        general_output(sig_objs, payload_string)
    }
}

/// Assemble one general-JSON signature entry object.
#[verifier::rlimit(100)]
fn general_entry_object(
    protected_string: String,
    header: Option<&JwsHeader>,
    signature_string: String,
) -> (r: JsonValue)
    requires
        header matches Some(h) ==> h.wf(),
    ensures
        jview(r) == JsonVal::Obj(
            (seq![("protected"@, JsonVal::Str(protected_string@))] + (match header {
                Some(h) => seq![("header"@, JsonVal::Obj(h.entries()))],
                None => Seq::empty(),
            })) + seq![("signature"@, JsonVal::Str(signature_string@))],
        ),
        json_wf(jview(r)),
{
    let ghost target: Seq<(Seq<char>, JsonVal)> = match header {
        Some(h) => seq![
            ("protected"@, JsonVal::Str(protected_string@)),
            ("header"@, JsonVal::Obj(h.entries())),
            ("signature"@, JsonVal::Str(signature_string@)),
        ],
        None => seq![
            ("protected"@, JsonVal::Str(protected_string@)),
            ("signature"@, JsonVal::Str(signature_string@)),
        ],
    };
    proof {
        assert(target =~= (seq![("protected"@, JsonVal::Str(protected_string@))] + (match header {
            Some(h) => seq![("header"@, JsonVal::Obj(h.entries()))],
            None => Seq::empty(),
        })) + seq![("signature"@, JsonVal::Str(signature_string@))]);
    }
    let mut obj_entries: Vec<(String, JsonValue)> = Vec::new();
    obj_entries.push((String::from_str("protected"), JsonValue::String(protected_string)));
    match header {
        Some(h) => {
            obj_entries.push((String::from_str("header"), h.to_value()));
        },
        None => {},
    }
    obj_entries.push((String::from_str("signature"), JsonValue::String(signature_string)));
    let obj = JsonValue::Object(obj_entries);
    proof {
        crate::json::lemma_jview_obj(obj->Object_0@);
        let got = crate::json::jview_obj(obj->Object_0@);
        assert forall|k: int| 0 <= k < got.len() implies got[k] == target[k] by {
            assert(got[k] == ((obj->Object_0@)[k].0@, jview((obj->Object_0@)[k].1)));
        }
        assert(got =~= target);
        assert(jview(obj) == JsonVal::Obj(target));
        assert forall|k: int| 0 <= k < target.len() implies json_wf((#[trigger] target[k]).1) by {
            match header {
                Some(h) => {
                    assert(entries_wf(h.entries()));
                },
                None => {},
            }
        }
        assert(json_wf(jview(obj)));
    }
    obj
}

/// Assemble and emit the general JSON envelope.
#[verifier::rlimit(100)]
fn general_output(sig_objs: Vec<JsonValue>, payload_string: String) -> (r: Result<
    String,
    JoseError,
>)
    requires
        forall|j: int| 0 <= j < sig_objs@.len() ==> json_wf(jview(#[trigger] sig_objs@[j])),
    ensures
        r matches Ok(s) ==> vstd::utf8::encode_utf8(s@) == json_emit(
            JsonVal::Obj(
                seq![
                    ("signatures"@, JsonVal::Arr(crate::json::jview_seq(sig_objs@))),
                    ("payload"@, JsonVal::Str(payload_string@)),
                ],
            ),
        ),
        r is Ok,
{
    let ghost entries_v = crate::json::jview_seq(sig_objs@);
    let ghost pfv = payload_string@;
    let mut top: Vec<(String, JsonValue)> = Vec::new();
    top.push((String::from_str("signatures"), JsonValue::Array(sig_objs)));
    top.push((String::from_str("payload"), JsonValue::String(payload_string)));
    let obj = JsonValue::Object(top);
    proof {
        crate::json::lemma_jview_obj(obj->Object_0@);
        let got = crate::json::jview_obj(obj->Object_0@);
        let target = seq![
            ("signatures"@, JsonVal::Arr(entries_v)),
            ("payload"@, JsonVal::Str(pfv)),
        ];
        assert(got[0] == (obj->Object_0@[0].0@, jview(obj->Object_0@[0].1)));
        assert(got[1] == (obj->Object_0@[1].0@, jview(obj->Object_0@[1].1)));
        assert(jview(obj->Object_0@[0].1) == JsonVal::Arr(entries_v));
        assert(got =~= target);
        assert(jview(obj) == JsonVal::Obj(target));
        crate::json::lemma_jview_seq(obj->Object_0@[0].1->Array_0@);
        assert forall|k: int| 0 <= k < target.len() implies json_wf(
            (#[trigger] target[k]).1,
        ) by {
            assert forall|j: int| 0 <= j < entries_v.len() implies json_wf(
                #[trigger] entries_v[j],
            ) by {
                assert(entries_v[j] == jview(obj->Object_0@[0].1->Array_0@[j]));
            }
        }
        assert(json_wf(jview(obj)));
    }
    let out = to_json_bytes(&obj);
    let ghost outg = out@;
    proof {
        lemma_json_emit_ascii(jview(obj));
        lemma_ascii_valid_utf8(outg);
    }
    match string_from_utf8(out) {
        Some(s) => {
            proof {
                broadcast use vstd::utf8::decode_utf8_encode_utf8;

                assert(vstd::utf8::encode_utf8(s@) == outg);
            }
            Ok(s)
        },
        None => {
            proof {
                assert(false);
            }
            vstd::pervasive::unreached()
        },
    }
}

} // verus!

verus! {

/// Searching a concatenation whose left part lacks the byte finds the
/// separator between the parts.
proof fn lemma_find_byte_concat(a: Seq<u8>, b: Seq<u8>, x: u8, from: int)
    requires
        0 <= from <= a.len(),
        forall|i: int| from <= i < a.len() ==> a[i] != x,
    ensures
        spec_find_byte(a + seq![x] + b, from, x) == a.len(),
    decreases a.len() - from,
{
    let w = a + seq![x] + b;
    assert(w[a.len() as int] == x);
    if from < a.len() {
        assert(w[from] == a[from]);
        lemma_find_byte_concat(a, b, x, from + 1);
    }
}

/// The compact serialization splits back into the three segments it was
/// built from: the dots found by consumption are the dots production
/// wrote, so the protected header, payload and signature segments are
/// recovered exactly.
pub proof fn lemma_compact_shape(hseg: Seq<u8>, pseg: Seq<u8>, sseg: Seq<u8>)
    requires
        forall|i: int| 0 <= i < hseg.len() ==> hseg[i] != 0x2E,
        forall|i: int| 0 <= i < pseg.len() ==> pseg[i] != 0x2E,
        forall|i: int| 0 <= i < sseg.len() ==> sseg[i] != 0x2E,
    ensures
        ({
            let w = hseg + seq![0x2Eu8] + pseg + seq![0x2Eu8] + sseg;
            let d1 = spec_find_byte(w, 0, 0x2E);
            let d2 = spec_find_byte(w, d1 + 1, 0x2E);
            &&& d1 == hseg.len()
            &&& d2 == hseg.len() + 1 + pseg.len()
            &&& spec_find_byte(w, d2 + 1, 0x2E) == w.len()
            &&& w.subrange(0, d1) == hseg
            &&& w.subrange(d1 + 1, d2) == pseg
            &&& w.subrange(d2 + 1, w.len() as int) == sseg
        }),
{
    let w = hseg + seq![0x2Eu8] + pseg + seq![0x2Eu8] + sseg;
    let tail = pseg + seq![0x2Eu8] + sseg;
    assert(w =~= hseg + seq![0x2Eu8] + tail);
    lemma_find_byte_concat(hseg, tail, 0x2E, 0);
    let d1 = spec_find_byte(w, 0, 0x2E);
    assert(d1 == hseg.len());
    let left = hseg + seq![0x2Eu8] + pseg;
    assert(w =~= left + seq![0x2Eu8] + sseg);
    assert forall|i: int| d1 + 1 <= i < left.len() implies left[i] != 0x2E by {
        assert(left[i] == pseg[i - d1 - 1]);
    }
    lemma_find_byte_concat(left, sseg, 0x2E, d1 + 1);
    let d2 = spec_find_byte(w, d1 + 1, 0x2E);
    assert(d2 == hseg.len() + 1 + pseg.len());
    lemma_find_byte(w, d2 + 1, 0x2E);
    assert forall|i: int| d2 + 1 <= i < w.len() implies w[i] != 0x2E by {
        assert(w[i] == sseg[i - d2 - 1]);
    }
    if spec_find_byte(w, d2 + 1, 0x2E) < w.len() {
        assert(w[spec_find_byte(w, d2 + 1, 0x2E)] == 0x2E);
    }
    assert(w.subrange(0, d1) =~= hseg);
    assert(w.subrange(d1 + 1, d2) =~= pseg);
    assert(w.subrange(d2 + 1, w.len() as int) =~= sseg);
}

} // verus!

verus! {

/// A byte line is representable as an ASCII string exactly when each of
/// its bytes is below 0x80: used both ways by the PEM splitter.
pub proof fn lemma_ascii_refutes(b: Seq<u8>)
    requires
        !vstd::utf8::valid_utf8(b) || !vstd::utf8::is_ascii_chars(vstd::utf8::decode_utf8(b)),
    ensures
        !(forall|i: int| 0 <= i < b.len() ==> b[i] < 0x80),
{
    if forall|i: int| 0 <= i < b.len() ==> b[i] < 0x80 {
        lemma_ascii_valid_utf8(b);
        assert forall|i: int|
            0 <= i < vstd::utf8::decode_utf8(b).len() implies '\0'
            <= #[trigger] vstd::utf8::decode_utf8(b)[i] <= '\u{7f}' by {
            assert(vstd::utf8::decode_utf8(b)[i] == b[i] as char);
        }
    }
}

/// An ASCII-decoded line's characters are its bytes.
pub proof fn lemma_ascii_line(b: Seq<u8>, chars: Seq<char>)
    requires
        vstd::utf8::valid_utf8(b),
        chars == vstd::utf8::decode_utf8(b),
        vstd::utf8::is_ascii_chars(chars),
    ensures
        forall|i: int| 0 <= i < b.len() ==> b[i] < 0x80,
        chars == ascii_chars(b),
{
    broadcast use vstd::utf8::decode_utf8_encode_utf8;

    vstd::utf8::is_ascii_chars_encode_utf8(chars);
    assert(vstd::utf8::encode_utf8(chars) == b);
    assert forall|i: int| 0 <= i < b.len() implies b[i] < 0x80 by {
        assert(b[i] == chars[i] as u8);
    }
    assert(chars =~= ascii_chars(b));
}

} // verus!
