//! The DER subset used to normalize asymmetric keys: definite-length
//! tag-length-value records, object identifiers, and the PKCS#8 /
//! SubjectPublicKeyInfo envelopes for octet key pairs.  Both directions are
//! specified byte-exactly and implemented here.
use vstd::prelude::*;

verus! {

broadcast use vstd::seq::group_seq_axioms, vstd::std_specs::vec::group_vec_axioms;

/// An ASN.1 object identifier, as its numeric components.
#[derive(Debug)]
pub struct ObjectIdentifier {
    components: Vec<u64>,
}

impl ObjectIdentifier {
    /// The components.
    pub closed spec fn view_spec(&self) -> Seq<u64> {
        self.components@
    }

    /// Build an identifier from its components.
    pub fn from_slice(parts: &[u64]) -> (r: Self)
        ensures
            r.view_spec() == parts@,
    {
        ObjectIdentifier { components: vstd::slice::slice_to_vec(parts) }
    }

    /// Build an identifier from an owned component vector.
    pub(crate) fn from_parts(parts: Vec<u64>) -> (r: Self)
        ensures
            r.view_spec() == parts@,
    {
        ObjectIdentifier { components: parts }
    }

    /// The components, for callers.
    pub fn components(&self) -> (r: &Vec<u64>)
        ensures
            r@ == self.view_spec(),
    {
        &self.components
    }

    /// Componentwise equality.
    pub fn eq_oid(&self, other: &ObjectIdentifier) -> (r: bool)
        ensures
            r == (self.view_spec() == other.view_spec()),
    {
        if self.components.len() != other.components.len() {
            proof {
                assert(self.view_spec() != other.view_spec());
            }
            return false;
        }
        let n = self.components.len();
        let mut i: usize = 0;
        while i < n
            invariant
                n == self.components@.len() && n == other.components@.len(),
                0 <= i <= n,
                forall|j: int| 0 <= j < i ==> self.components@[j] == other.components@[j],
            decreases n - i,
        {
            if self.components[i] != other.components[i] {
                proof {
                    assert(self.view_spec()[i as int] != other.view_spec()[i as int]);
                }
                return false;
            }
            i += 1;
        }
        proof {
            assert(self.view_spec() =~= other.view_spec());
        }
        true
    }
}

/// The Ed25519 curve identifier, 1.3.101.112.
pub open spec fn spec_ed25519_oid() -> Seq<u64> {
    seq![1u64, 3u64, 101u64, 112u64]
}

/// The Ed448 curve identifier, 1.3.101.113.
pub open spec fn spec_ed448_oid() -> Seq<u64> {
    seq![1u64, 3u64, 101u64, 113u64]
}

/// The Ed25519 curve identifier as a value.
pub fn ed25519_oid() -> (r: ObjectIdentifier)
    ensures
        r.view_spec() == spec_ed25519_oid(),
{
    let parts: Vec<u64> = vec![1u64, 3u64, 101u64, 112u64];
    proof {
        assert(parts@ =~= spec_ed25519_oid());
    }
    ObjectIdentifier { components: parts }
}

/// The Ed448 curve identifier as a value.
pub fn ed448_oid() -> (r: ObjectIdentifier)
    ensures
        r.view_spec() == spec_ed448_oid(),
{
    let parts: Vec<u64> = vec![1u64, 3u64, 101u64, 113u64];
    proof {
        assert(parts@ =~= spec_ed448_oid());
    }
    ObjectIdentifier { components: parts }
}

/// A usable identifier: at least two components in the DER ranges, each
/// component small enough for a four-byte base-128 encoding, and not too
/// many of them.
pub open spec fn oid_wf(c: Seq<u64>) -> bool {
    &&& 2 <= c.len() <= 16
    &&& c[0] <= 2
    &&& c[1] <= 39
    &&& forall|i: int| 0 <= i < c.len() ==> (#[trigger] c[i]) < 0x10000000
}

/// The definite-length encoding of a length below 2^32.
pub open spec fn spec_der_len(n: int) -> Seq<u8> {
    if n < 0x80 {
        seq![n as u8]
    } else if n < 0x100 {
        seq![0x81, n as u8]
    } else if n < 0x10000 {
        seq![0x82, (n / 0x100) as u8, (n % 0x100) as u8]
    } else if n < 0x1000000 {
        seq![0x83, (n / 0x10000) as u8, ((n / 0x100) % 0x100) as u8, (n % 0x100) as u8]
    } else {
        seq![
            0x84,
            (n / 0x1000000) as u8,
            ((n / 0x10000) % 0x100) as u8,
            ((n / 0x100) % 0x100) as u8,
            (n % 0x100) as u8,
        ]
    }
}

/// The continuation bytes of a base-128 encoding.
pub open spec fn spec_b128_pre(v: int) -> Seq<u8>
    decreases v,
{
    if v <= 0 {
        Seq::empty()
    } else {
        spec_b128_pre(v / 128) + seq![(v % 128 + 128) as u8]
    }
}

/// The base-128, high-bit-continued encoding of one component.
pub open spec fn spec_base128(v: int) -> Seq<u8> {
    spec_b128_pre(v / 128) + seq![(v % 128) as u8]
}

/// The encodings of the components from index `i` on.
pub open spec fn spec_oid_tail(c: Seq<u64>, i: int) -> Seq<u8>
    decreases (if i < c.len() { c.len() - i } else { 0 }),
{
    if i < 0 || i >= c.len() {
        Seq::empty()
    } else {
        spec_base128(c[i] as int) + spec_oid_tail(c, i + 1)
    }
}

/// The content octets of an OBJECT IDENTIFIER record.
pub open spec fn spec_oid_content(c: Seq<u64>) -> Seq<u8> {
    spec_base128(40 * (c[0] as int) + (c[1] as int)) + spec_oid_tail(c, 2)
}

/// A whole OBJECT IDENTIFIER record.
pub open spec fn spec_oid_tlv(c: Seq<u64>) -> Seq<u8> {
    seq![0x06] + spec_der_len(spec_oid_content(c).len() as int) + spec_oid_content(c)
}

/// The AlgorithmIdentifier sequence holding just the curve identifier.
pub open spec fn spec_alg_seq(c: Seq<u64>) -> Seq<u8> {
    seq![0x30] + spec_der_len(spec_oid_tlv(c).len() as int) + spec_oid_tlv(c)
}

/// A PKCS#8 PrivateKeyInfo: version 0, the algorithm, and the private key
/// octets.
pub open spec fn spec_pkcs8_private(c: Seq<u64>, inner: Seq<u8>) -> Seq<u8> {
    let content = seq![0x02u8, 0x01u8, 0x00u8] + spec_alg_seq(c) + seq![0x04u8] + spec_der_len(
        inner.len() as int,
    ) + inner;
    seq![0x30u8] + spec_der_len(content.len() as int) + content
}

/// A SubjectPublicKeyInfo: the algorithm and the public key bits with no
/// unused bits.
pub open spec fn spec_spki(c: Seq<u64>, point: Seq<u8>) -> Seq<u8> {
    let content = spec_alg_seq(c) + seq![0x03u8] + spec_der_len(point.len() as int + 1) + seq![
        0x00u8,
    ] + point;
    seq![0x30u8] + spec_der_len(content.len() as int) + content
}

/// The key envelope for either role.
pub open spec fn spec_pkcs8(c: Seq<u64>, inner: Seq<u8>, is_public: bool) -> Seq<u8> {
    if is_public {
        spec_spki(c, inner)
    } else {
        spec_pkcs8_private(c, inner)
    }
}

/// Append a definite length.
pub fn emit_der_len(out: &mut Vec<u8>, n: usize)
    requires
        n < 0x100000000,
    ensures
        final(out)@ == old(out)@ + spec_der_len(n as int),
{
    if n < 0x80 {
        out.push(n as u8);
    } else if n < 0x100 {
        out.push(0x81);
        out.push(n as u8);
    } else if n < 0x10000 {
        out.push(0x82);
        out.push((n / 0x100) as u8);
        out.push((n % 0x100) as u8);
    } else if n < 0x1000000 {
        out.push(0x83);
        out.push((n / 0x10000) as u8);
        out.push(((n / 0x100) % 0x100) as u8);
        out.push((n % 0x100) as u8);
    } else {
        out.push(0x84);
        out.push((n / 0x1000000) as u8);
        out.push(((n / 0x10000) % 0x100) as u8);
        out.push(((n / 0x100) % 0x100) as u8);
        out.push((n % 0x100) as u8);
    }
    assert(out@ =~= old(out)@ + spec_der_len(n as int));
}

/// Append the continuation bytes of a base-128 encoding.
fn emit_b128_pre(out: &mut Vec<u8>, v: u64)
    ensures
        final(out)@ == old(out)@ + spec_b128_pre(v as int),
    decreases v,
{
    if v == 0 {
        assert(out@ =~= old(out)@ + spec_b128_pre(0));
    } else {
        emit_b128_pre(out, v / 128);
        out.push((v % 128 + 128) as u8);
        assert(out@ =~= old(out)@ + spec_b128_pre(v as int));
    }
}

/// Append one base-128 encoded component.
pub fn emit_base128(out: &mut Vec<u8>, v: u64)
    ensures
        final(out)@ == old(out)@ + spec_base128(v as int),
{
    emit_b128_pre(out, v / 128);
    out.push((v % 128) as u8);
    assert(out@ =~= old(out)@ + spec_base128(v as int));
}

/// A small component encodes in at most four bytes.
pub proof fn lemma_base128_small(v: int)
    requires
        0 <= v < 0x10000000,
    ensures
        spec_base128(v).len() <= 4,
{
    let a1 = v / 128;
    let a2 = a1 / 128;
    let a3 = a2 / 128;
    assert(a3 < 128);
    assert(a3 / 128 == 0);
    assert(spec_b128_pre(0).len() == 0);
    assert(spec_b128_pre(a3).len() <= 1);
    assert(spec_b128_pre(a2).len() <= 2);
    assert(spec_b128_pre(a1).len() <= 3);
}

/// Append a byte slice.
pub fn append_bytes(out: &mut Vec<u8>, s: &[u8])
    ensures
        final(out)@ == old(out)@ + s@,
{
    let n = s.len();
    let mut i: usize = 0;
    while i < n
        invariant
            n == s@.len(),
            0 <= i <= n,
            out@ == old(out)@ + s@.take(i as int),
        decreases n - i,
    {
        out.push(s[i]);
        proof {
            assert(s@.take(i + 1 as int) =~= s@.take(i as int) + seq![s@[i as int]]);
        }
        i += 1;
    }
    proof {
        assert(s@.take(n as int) =~= s@);
    }
}

/// The content octets of an identifier record, as a vector.
#[verifier::loop_isolation(false)]
pub fn build_oid_content(c: &Vec<u64>) -> (r: Vec<u8>)
    requires
        oid_wf(c@),
    ensures
        r@ == spec_oid_content(c@),
        r@.len() <= 64,
{
    let mut out: Vec<u8> = Vec::new();
    let first: u64 = 40 * c[0] + c[1];
    emit_base128(&mut out, first);
    proof {
        lemma_base128_small(first as int);
    }
    let n = c.len();
    let mut i: usize = 2;
    while i < n
        invariant
            2 <= i <= n,
            spec_oid_content(c@) == out@ + spec_oid_tail(c@, i as int),
            out@.len() <= 4 * (i as int - 1),
        decreases n - i,
    {
        emit_base128(&mut out, c[i]);
        proof {
            lemma_base128_small(c@[i as int] as int);
            assert(spec_oid_tail(c@, i as int) == spec_base128(c@[i as int] as int)
                + spec_oid_tail(c@, i as int + 1));
        }
        i += 1;
    }
    proof {
        assert(spec_oid_tail(c@, n as int) =~= Seq::<u8>::empty());
        assert(out@ =~= spec_oid_content(c@));
    }
    out
}

/// The PKCS#8 or SubjectPublicKeyInfo envelope around raw key material.
#[verifier::loop_isolation(false)]
pub fn build_pkcs8(input: &[u8], is_public: bool, c: &Vec<u64>) -> (r: Vec<u8>)
    requires
        oid_wf(c@),
        input@.len() < 0xFFFFFF00,
    ensures
        r@ == spec_pkcs8(c@, input@, is_public),
{
    let oid_content = build_oid_content(c);
    let mut oid_tlv: Vec<u8> = Vec::new();
    oid_tlv.push(0x06);
    emit_der_len(&mut oid_tlv, oid_content.len());
    append_bytes(&mut oid_tlv, oid_content.as_slice());
    proof {
        assert(oid_tlv@ =~= spec_oid_tlv(c@));
    }
    let mut alg_seq: Vec<u8> = Vec::new();
    alg_seq.push(0x30);
    emit_der_len(&mut alg_seq, oid_tlv.len());
    append_bytes(&mut alg_seq, oid_tlv.as_slice());
    proof {
        assert(alg_seq@ =~= spec_alg_seq(c@));
    }
    let mut content: Vec<u8> = Vec::new();
    if is_public {
        append_bytes(&mut content, alg_seq.as_slice());
        content.push(0x03);
        emit_der_len(&mut content, input.len() + 1);
        content.push(0x00);
        append_bytes(&mut content, input);
    } else {
        content.push(0x02);
        content.push(0x01);
        content.push(0x00);
        append_bytes(&mut content, alg_seq.as_slice());
        content.push(0x04);
        emit_der_len(&mut content, input.len());
        append_bytes(&mut content, input);
    }
    let mut out: Vec<u8> = Vec::new();
    out.push(0x30);
    emit_der_len(&mut out, content.len());
    append_bytes(&mut out, content.as_slice());
    proof {
        if is_public {
            assert(content@ =~= spec_alg_seq(c@) + seq![0x03u8] + spec_der_len(
                input@.len() as int + 1,
            ) + seq![0x00u8] + input@);
            assert(out@ =~= spec_spki(c@, input@));
        } else {
            assert(content@ =~= seq![0x02u8, 0x01u8, 0x00u8] + spec_alg_seq(c@) + seq![0x04u8]
                + spec_der_len(input@.len() as int) + input@);
            assert(out@ =~= spec_pkcs8_private(c@, input@));
        }
    }
    out
}

} // verus!
