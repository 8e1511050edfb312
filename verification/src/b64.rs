//! Base64 codec used by the JOSE wire forms: the URL-safe alphabet without
//! padding (RFC 4648 section 5) for every segment of a JWS, and the standard
//! alphabet for PEM bodies.  The byte-level meaning of both alphabets is
//! written out as spec functions; the actual translation is delegated to the
//! `base64` crate behind trusted wrappers whose contracts restate exactly
//! what that crate's decoder accepts and returns.
use vstd::prelude::*;

verus! {

/// The URL-safe alphabet: index 0..64 to its character, as a byte.
pub open spec fn b64url_char_of(i: int) -> u8 {
    if 0 <= i < 26 {
        (0x41 + i) as u8  // 'A'..'Z'
    } else if 26 <= i < 52 {
        (0x61 + (i - 26)) as u8  // 'a'..'z'
    } else if 52 <= i < 62 {
        (0x30 + (i - 52)) as u8  // '0'..'9'
    } else if i == 62 {
        0x2D  // '-'
    } else {
        0x5F  // '_'
    }
}

/// Index of a byte in the URL-safe alphabet, or -1 when it is not in it.
pub open spec fn b64url_index_of(c: u8) -> int {
    if 0x41 <= c <= 0x5A {
        c - 0x41
    } else if 0x61 <= c <= 0x7A {
        c - 0x61 + 26
    } else if 0x30 <= c <= 0x39 {
        c - 0x30 + 52
    } else if c == 0x2D {
        62
    } else if c == 0x5F {
        63
    } else {
        -1
    }
}

/// Index of a byte in the standard alphabet, or -1 when it is not in it.
pub open spec fn b64std_index_of(c: u8) -> int {
    if c == 0x2B {
        62
    } else if c == 0x2F {
        63
    } else if c == 0x2D || c == 0x5F {
        -1
    } else {
        b64url_index_of(c)
    }
}

/// Encoding of one group of at most three bytes into two to four characters.
pub open spec fn b64url_encode_group(s: Seq<u8>) -> Seq<u8> {
    if s.len() == 1 {
        seq![
            b64url_char_of(s[0] as int / 4),
            b64url_char_of((s[0] as int % 4) * 16),
        ]
    } else if s.len() == 2 {
        seq![
            b64url_char_of(s[0] as int / 4),
            b64url_char_of((s[0] as int % 4) * 16 + s[1] as int / 16),
            b64url_char_of((s[1] as int % 16) * 4),
        ]
    } else if s.len() == 3 {
        seq![
            b64url_char_of(s[0] as int / 4),
            b64url_char_of((s[0] as int % 4) * 16 + s[1] as int / 16),
            b64url_char_of((s[1] as int % 16) * 4 + s[2] as int / 64),
            b64url_char_of(s[2] as int % 64),
        ]
    } else {
        Seq::empty()
    }
}

/// URL-safe, unpadded encoding of a whole byte sequence.
pub open spec fn spec_b64url_encode(s: Seq<u8>) -> Seq<u8>
    decreases s.len(),
{
    if s.len() <= 3 {
        b64url_encode_group(s)
    } else {
        b64url_encode_group(s.take(3)) + spec_b64url_encode(s.skip(3))
    }
}

/// What the strict unpadded decoder accepts: alphabet characters only, a
/// length that is not 1 modulo 4, and no set bits beyond the encoded bytes.
pub open spec fn b64url_is_valid(s: Seq<u8>) -> bool {
    &&& forall|i: int| 0 <= i < s.len() ==> b64url_index_of(#[trigger] s[i]) >= 0
    &&& s.len() % 4 != 1
    &&& (s.len() % 4 == 2 ==> b64url_index_of(s[s.len() - 1]) % 16 == 0)
    &&& (s.len() % 4 == 3 ==> b64url_index_of(s[s.len() - 1]) % 4 == 0)
}

/// Decoding of one group of two to four characters into one to three bytes.
pub open spec fn b64url_decode_group(s: Seq<u8>) -> Seq<u8> {
    if s.len() == 2 {
        seq![
            (b64url_index_of(s[0]) * 4 + b64url_index_of(s[1]) / 16) as u8,
        ]
    } else if s.len() == 3 {
        seq![
            (b64url_index_of(s[0]) * 4 + b64url_index_of(s[1]) / 16) as u8,
            ((b64url_index_of(s[1]) % 16) * 16 + b64url_index_of(s[2]) / 4) as u8,
        ]
    } else if s.len() == 4 {
        seq![
            (b64url_index_of(s[0]) * 4 + b64url_index_of(s[1]) / 16) as u8,
            ((b64url_index_of(s[1]) % 16) * 16 + b64url_index_of(s[2]) / 4) as u8,
            ((b64url_index_of(s[2]) % 4) * 64 + b64url_index_of(s[3])) as u8,
        ]
    } else {
        Seq::empty()
    }
}

/// Unpadded decoding of a whole character sequence; meaningful when
/// `b64url_is_valid` holds of it.
pub open spec fn spec_b64url_decode(s: Seq<u8>) -> Seq<u8>
    decreases s.len(),
{
    if s.len() <= 4 {
        b64url_decode_group(s)
    } else {
        b64url_decode_group(s.take(4)) + spec_b64url_decode(s.skip(4))
    }
}

/// Same validity notion for the standard alphabet, after padding removal.
pub open spec fn b64std_is_valid(s: Seq<u8>) -> bool {
    &&& forall|i: int| 0 <= i < s.len() ==> b64std_index_of(#[trigger] s[i]) >= 0
    &&& s.len() % 4 != 1
    &&& (s.len() % 4 == 2 ==> b64std_index_of(s[s.len() - 1]) % 16 == 0)
    &&& (s.len() % 4 == 3 ==> b64std_index_of(s[s.len() - 1]) % 4 == 0)
}

/// Decoding of one standard-alphabet group.
pub open spec fn b64std_decode_group(s: Seq<u8>) -> Seq<u8> {
    if s.len() == 2 {
        seq![
            (b64std_index_of(s[0]) * 4 + b64std_index_of(s[1]) / 16) as u8,
        ]
    } else if s.len() == 3 {
        seq![
            (b64std_index_of(s[0]) * 4 + b64std_index_of(s[1]) / 16) as u8,
            ((b64std_index_of(s[1]) % 16) * 16 + b64std_index_of(s[2]) / 4) as u8,
        ]
    } else if s.len() == 4 {
        seq![
            (b64std_index_of(s[0]) * 4 + b64std_index_of(s[1]) / 16) as u8,
            ((b64std_index_of(s[1]) % 16) * 16 + b64std_index_of(s[2]) / 4) as u8,
            ((b64std_index_of(s[2]) % 4) * 64 + b64std_index_of(s[3])) as u8,
        ]
    } else {
        Seq::empty()
    }
}

/// Unpadded decoding under the standard alphabet.
pub open spec fn spec_b64std_decode(s: Seq<u8>) -> Seq<u8>
    decreases s.len(),
{
    if s.len() <= 4 {
        b64std_decode_group(s)
    } else {
        b64std_decode_group(s.take(4)) + spec_b64std_decode(s.skip(4))
    }
}

/// Relies on `base64::encode_config` with `URL_SAFE_NO_PAD`: RFC 4648
/// URL-safe encoding without padding, big-endian six-bit groups.
#[verifier::external_body]
pub fn b64url_encode(input: &[u8]) -> (r: Vec<u8>)
    ensures
        r@ == spec_b64url_encode(input@),
{
    base64::encode_config(input, base64::URL_SAFE_NO_PAD).into_bytes()
}

/// Relies on `base64::decode_config` with `URL_SAFE_NO_PAD`: on input free of
/// `=` it succeeds exactly when the length is not 1 mod 4 and the final
/// character carries no extra bits, and then returns the decoded bytes.
#[verifier::external_body]
fn b64url_decode_inner(input: &[u8]) -> (r: Option<Vec<u8>>)
    requires
        forall|i: int| 0 <= i < input@.len() ==> b64url_index_of(#[trigger] input@[i]) >= 0,
    ensures
        match r {
            Some(v) => b64url_is_valid(input@) && v@ == spec_b64url_decode(input@),
            None => !b64url_is_valid(input@),
        },
{
    base64::decode_config(input, base64::URL_SAFE_NO_PAD).ok()
}

/// Relies on `base64::decode_config` with `STANDARD`: on input free of `=`
/// it succeeds exactly when the length is not 1 mod 4 and the final
/// character carries no extra bits, and then returns the decoded bytes.
#[verifier::external_body]
fn b64std_decode_inner(input: &[u8]) -> (r: Option<Vec<u8>>)
    requires
        forall|i: int| 0 <= i < input@.len() ==> b64std_index_of(#[trigger] input@[i]) >= 0,
    ensures
        match r {
            Some(v) => b64std_is_valid(input@) && v@ == spec_b64std_decode(input@),
            None => !b64std_is_valid(input@),
        },
{
    base64::decode_config(input, base64::STANDARD).ok()
}

/// Executable membership test for the URL-safe alphabet.
pub fn b64url_is_alphabet_byte(c: u8) -> (r: bool)
    ensures
        r == (b64url_index_of(c) >= 0),
{
    (0x41 <= c && c <= 0x5A) || (0x61 <= c && c <= 0x7A) || (0x30 <= c && c <= 0x39) || c == 0x2D
        || c == 0x5F
}

/// Executable membership test for the standard alphabet.
pub fn b64std_is_alphabet_byte(c: u8) -> (r: bool)
    ensures
        r == (b64std_index_of(c) >= 0),
{
    (0x41 <= c && c <= 0x5A) || (0x61 <= c && c <= 0x7A) || (0x30 <= c && c <= 0x39) || c == 0x2B
        || c == 0x2F
}

/// Strict URL-safe decode: rejects every byte outside the alphabet
/// (`=` included) and any length or trailing-bit violation.
pub fn b64url_decode(input: &[u8]) -> (r: Option<Vec<u8>>)
    ensures
        match r {
            Some(v) => b64url_is_valid(input@) && v@ == spec_b64url_decode(input@),
            None => !b64url_is_valid(input@),
        },
{
    let n = input.len();
    let mut i: usize = 0;
    while i < n
        invariant
            n == input@.len(),
            0 <= i <= n,
            forall|j: int| 0 <= j < i ==> b64url_index_of(#[trigger] input@[j]) >= 0,
        decreases n - i,
    {
        if !b64url_is_alphabet_byte(input[i]) {
            return None;
        }
        i += 1;
    }
    b64url_decode_inner(input)
}

/// Strict standard-alphabet decode of an unpadded body.
pub fn b64std_decode(input: &[u8]) -> (r: Option<Vec<u8>>)
    ensures
        match r {
            Some(v) => b64std_is_valid(input@) && v@ == spec_b64std_decode(input@),
            None => !b64std_is_valid(input@),
        },
{
    let n = input.len();
    let mut i: usize = 0;
    while i < n
        invariant
            n == input@.len(),
            0 <= i <= n,
            forall|j: int| 0 <= j < i ==> b64std_index_of(#[trigger] input@[j]) >= 0,
        decreases n - i,
    {
        if !b64std_is_alphabet_byte(input[i]) {
            return None;
        }
        i += 1;
    }
    b64std_decode_inner(input)
}

/// A byte drawn from the alphabet table is ASCII, is never a dot, and maps
/// back to its own index.
pub proof fn lemma_b64url_char_of_props(i: int)
    requires
        0 <= i < 64,
    ensures
        b64url_index_of(b64url_char_of(i)) == i,
        b64url_char_of(i) < 0x80,
        b64url_char_of(i) != 0x2E,
{
}

/// Every character of one encoded group is in the alphabet.
proof fn lemma_b64url_encode_group_alphabet(s: Seq<u8>)
    requires
        s.len() <= 3,
    ensures
        forall|i: int|
            0 <= i < b64url_encode_group(s).len() ==> b64url_index_of(
                #[trigger] b64url_encode_group(s)[i],
            ) >= 0 && b64url_encode_group(s)[i] < 0x80 && b64url_encode_group(s)[i] != 0x2E,
{
    let e = b64url_encode_group(s);
    assert forall|i: int| 0 <= i < e.len() implies b64url_index_of(#[trigger] e[i]) >= 0 && e[i]
        < 0x80 && e[i] != 0x2E by {
        if s.len() == 1 {
            lemma_b64url_char_of_props(s[0] as int / 4);
            lemma_b64url_char_of_props((s[0] as int % 4) * 16);
        } else if s.len() == 2 {
            lemma_b64url_char_of_props(s[0] as int / 4);
            lemma_b64url_char_of_props((s[0] as int % 4) * 16 + s[1] as int / 16);
            lemma_b64url_char_of_props((s[1] as int % 16) * 4);
        } else if s.len() == 3 {
            lemma_b64url_char_of_props(s[0] as int / 4);
            lemma_b64url_char_of_props((s[0] as int % 4) * 16 + s[1] as int / 16);
            lemma_b64url_char_of_props((s[1] as int % 16) * 4 + s[2] as int / 64);
            lemma_b64url_char_of_props(s[2] as int % 64);
        }
    }
}

/// Every character the URL-safe encoder emits is in its alphabet; in
/// particular it is ASCII and is never a dot.
pub proof fn lemma_b64url_encode_alphabet(s: Seq<u8>)
    ensures
        forall|i: int|
            0 <= i < spec_b64url_encode(s).len() ==> b64url_index_of(
                #[trigger] spec_b64url_encode(s)[i],
            ) >= 0 && spec_b64url_encode(s)[i] < 0x80 && spec_b64url_encode(s)[i] != 0x2E,
    decreases s.len(),
{
    let e = spec_b64url_encode(s);
    if s.len() <= 3 {
        lemma_b64url_encode_group_alphabet(s);
    } else {
        lemma_b64url_encode_group_alphabet(s.take(3));
        lemma_b64url_encode_alphabet(s.skip(3));
        let g = b64url_encode_group(s.take(3));
        let rest = spec_b64url_encode(s.skip(3));
        assert forall|i: int| 0 <= i < e.len() implies b64url_index_of(#[trigger] e[i]) >= 0 && e[i]
            < 0x80 && e[i] != 0x2E by {
            if i < g.len() {
                assert(e[i] == g[i]);
            } else {
                assert(e[i] == rest[i - g.len()]);
            }
        }
    }
}

} // verus!

verus! {

/// Encoding any byte sequence yields a valid encoding that decodes back
/// to it.
pub proof fn lemma_b64url_round_trip(s: Seq<u8>)
    ensures
        b64url_is_valid(spec_b64url_encode(s)),
        spec_b64url_decode(spec_b64url_encode(s)) == s,
    decreases s.len(),
{
    lemma_b64url_encode_alphabet(s);
    let e = spec_b64url_encode(s);
    if s.len() == 0 {
        assert(e =~= Seq::<u8>::empty());
        assert(spec_b64url_decode(e) =~= s);
    } else if s.len() <= 3 {
        lemma_b64url_group_round_trip(s);
    } else {
        lemma_b64url_round_trip(s.skip(3));
        lemma_b64url_group_round_trip(s.take(3));
        let g = b64url_encode_group(s.take(3));
        let rest = spec_b64url_encode(s.skip(3));
        assert(e == g + rest);
        assert(g.len() == 4);
        assert(e.len() == 4 + rest.len());
        assert(e.skip(4) =~= rest);
        assert(e.take(4) =~= g);
        assert(e.len() % 4 == rest.len() % 4) by (nonlinear_arith)
            requires
                e.len() == rest.len() + 4,
        ;
        if e.len() % 4 != 0 {
            assert(e[e.len() - 1] == rest[rest.len() - 1]);
        }
        assert(b64url_is_valid(e));
        assert(spec_b64url_decode(e) == b64url_decode_group(e.take(4)) + spec_b64url_decode(
            e.skip(4),
        ));
        assert(b64url_decode_group(g) =~= s.take(3));
        assert(spec_b64url_decode(e) =~= s.take(3) + s.skip(3));
        assert(s.take(3) + s.skip(3) =~= s);
    }
}

/// One group of at most three bytes round-trips.
proof fn lemma_b64url_group_round_trip(s: Seq<u8>)
    requires
        1 <= s.len() <= 3,
    ensures
        b64url_is_valid(b64url_encode_group(s)),
        b64url_decode_group(b64url_encode_group(s)) == s,
{
    lemma_b64url_encode_alphabet(s);
    let e = b64url_encode_group(s);
    assert(spec_b64url_encode(s) == e);
    assert forall|i: int| 0 <= i < 64 implies b64url_index_of(#[trigger] b64url_char_of(i))
        == i by {}
    if s.len() == 1 {
        let b0 = s[0] as int;
        assert(b64url_index_of(e[0]) == b0 / 4);
        assert(b64url_index_of(e[1]) == (b0 % 4) * 16);
        assert(((b0 % 4) * 16) % 16 == 0 && (b0 / 4) * 4 + ((b0 % 4) * 16) / 16 == b0) by (nonlinear_arith)
            requires
                0 <= b0 < 256,
        ;
        assert(b64url_decode_group(e) =~= s);
    } else if s.len() == 2 {
        let b0 = s[0] as int;
        let b1 = s[1] as int;
        let i0 = b0 / 4;
        let i1 = (b0 % 4) * 16 + b1 / 16;
        let i2 = (b1 % 16) * 4;
        assert(b64url_index_of(e[0]) == i0);
        assert(b64url_index_of(e[1]) == i1);
        assert(b64url_index_of(e[2]) == i2);
        assert(i2 % 4 == 0 && i0 * 4 + i1 / 16 == b0 && (i1 % 16) * 16 + i2 / 4 == b1) by (nonlinear_arith)
            requires
                i0 == b0 / 4,
                i1 == (b0 % 4) * 16 + b1 / 16,
                i2 == (b1 % 16) * 4,
                0 <= b0 < 256,
                0 <= b1 < 256,
        ;
        assert(b64url_decode_group(e) =~= s);
    } else {
        let b0 = s[0] as int;
        let b1 = s[1] as int;
        let b2 = s[2] as int;
        let i0 = b0 / 4;
        let i1 = (b0 % 4) * 16 + b1 / 16;
        let i2 = (b1 % 16) * 4 + b2 / 64;
        let i3 = b2 % 64;
        assert(b64url_index_of(e[0]) == i0);
        assert(b64url_index_of(e[1]) == i1);
        assert(b64url_index_of(e[2]) == i2);
        assert(b64url_index_of(e[3]) == i3);
        assert(i0 * 4 + i1 / 16 == b0 && (i1 % 16) * 16 + i2 / 4 == b1 && (i2 % 4) * 64 + i3
            == b2) by (nonlinear_arith)
            requires
                i0 == b0 / 4,
                i1 == (b0 % 4) * 16 + b1 / 16,
                i2 == (b1 % 16) * 4 + b2 / 64,
                i3 == b2 % 64,
                0 <= b0 < 256,
                0 <= b1 < 256,
                0 <= b2 < 256,
        ;
        assert(b64url_decode_group(e) =~= s);
    }
}

} // verus!
