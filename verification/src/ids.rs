//! Identifiers and their canonical text.
//!
//! Every identity in the library (a dossier, an event, a dissent, risk, question or condition)
//! is a 128-bit UUID held as its plain `u128` value. Minting and text rendering go through
//! the `uuid` crate; the lowercase-hex rendering of bytes used by digests is the library's own.

use vstd::prelude::*;

verus! {

/// The lowercase hexadecimal digit for a nibble `d` (`0 <= d < 16`).
pub open spec fn hex_digit(d: int) -> char {
    if d < 10 {
        (48 + d) as char
    } else {
        (87 + d) as char
    }
}

/// The `k`-th hexadecimal digit (most significant first, `0 <= k < 32`) of a 128-bit value.
pub open spec fn nibble_of(v: u128, k: int) -> int {
    (v as int / vstd::arithmetic::power::pow(16, (31 - k) as nat)) % 16
}

/// How many hyphens precede text position `i` of a hyphenated UUID.
pub open spec fn hyphens_before(i: int) -> int {
    if i < 8 {
        0
    } else if i < 13 {
        1
    } else if i < 18 {
        2
    } else if i < 23 {
        3
    } else {
        4
    }
}

/// The canonical hyphenated lowercase text of a UUID: its 32 hex digits, most significant
/// first, grouped 8-4-4-4-12 by hyphens (as in `67e55044-10b1-426f-9247-bb680e5fe0c8`).
pub open spec fn uuid_text(v: u128) -> Seq<char> {
    Seq::new(
        36,
        |i: int|
            if i == 8 || i == 13 || i == 18 || i == 23 {
                '-'
            } else {
                hex_digit(nibble_of(v, i - hyphens_before(i)))
            },
    )
}

/// The version-5 UUID that the `uuid` crate derives from the OID namespace and `name`
/// (a SHA-1 construction).
pub uninterp spec fn uuid_v5_oid(name: Seq<u8>) -> u128;

/// A random (version 4) UUID as RFC 9562 lays it out: the version nibble (bits 79 to 76 of the
/// big-endian value) is 4 and the two variant bits (63 and 62) are `10`.
#[verifier::opaque]
pub open spec fn is_random_uuid(v: u128) -> bool {
    &&& (v >> 76u128) & 0xfu128 == 4u128
    &&& (v >> 62u128) & 0x3u128 == 2u128
}

/// Mints a fresh random identifier through `uuid::Uuid::new_v4`. As its source shows, the
/// random bits are masked to the version-4 and RFC 4122 variant bits; the other 122 bits come
/// from a random source, and nothing more is stated of them.
#[verifier::external_body]
pub(crate) fn fresh_id() -> (id: u128)
    ensures
        is_random_uuid(id),
{
    uuid::Uuid::new_v4().as_u128()
}

/// Renders an identifier through `uuid`'s `Display` (the hyphenated lowercase form). The
/// contract states that form as the crate documents it: 36 characters, the 32 hex digits of
/// the big-endian value with hyphens after the 8th, 12th, 16th and 20th digit.
#[verifier::external_body]
pub(crate) fn id_text(id: u128) -> (s: String)
    ensures
        s@ == uuid_text(id),
{
    uuid::Uuid::from_u128(id).to_string()
}

/// `uuid::Uuid::new_v5` over the OID namespace: a deterministic identifier for `name`, named
/// by [`uuid_v5_oid`] (the SHA-1 construction is not restated).
#[verifier::external_body]
pub(crate) fn id_v5_oid(name: &[u8]) -> (id: u128)
    ensures
        id == uuid_v5_oid(name@),
{
    uuid::Uuid::new_v5(&uuid::Uuid::NAMESPACE_OID, name).as_u128()
}

/// The identifier `uuid::Uuid::parse_str` reads from `text`, if it reads one (it accepts the
/// simple, hyphenated, braced and URN forms).
pub uninterp spec fn uuid_parsed(text: Seq<char>) -> Option<u128>;

/// `uuid::Uuid::parse_str`, named by [`uuid_parsed`].
#[verifier::external_body]
pub(crate) fn parse_id(text: &str) -> (id: Option<u128>)
    ensures
        id == uuid_parsed(text@),
{
    uuid::Uuid::parse_str(text).ok().map(|u| u.as_u128())
}

/// The two lowercase hex digits of one byte, high nibble first.
pub open spec fn byte_hex(b: u8) -> Seq<char> {
    seq![hex_digit(b as int / 16), hex_digit(b as int % 16)]
}

/// The lowercase hex rendering of a byte string: two digits per byte, in order.
pub open spec fn bytes_hex(bytes: Seq<u8>) -> Seq<char>
    decreases bytes.len(),
{
    if bytes.len() == 0 {
        Seq::empty()
    } else {
        bytes_hex(bytes.drop_last()) + byte_hex(bytes.last())
    }
}

/// A lowercase hexadecimal digit.
pub open spec fn is_lower_hex_char(c: char) -> bool {
    ('0' <= c && c <= '9') || ('a' <= c && c <= 'f')
}

/// The hex rendering of `bytes` has two lowercase hex digits per byte.
pub proof fn lemma_bytes_hex_form(bytes: Seq<u8>)
    ensures
        bytes_hex(bytes).len() == 2 * bytes.len(),
        forall|i: int| 0 <= i < bytes_hex(bytes).len() ==> is_lower_hex_char(#[trigger] bytes_hex(bytes)[i]),
    decreases bytes.len(),
{
    if bytes.len() > 0 {
        let rest = bytes.drop_last();
        lemma_bytes_hex_form(rest);
        let b = bytes.last();
        let pair = byte_hex(b);
        assert(is_lower_hex_char(pair[0]) && is_lower_hex_char(pair[1]));
        let h = bytes_hex(bytes);
        assert(h == bytes_hex(rest) + pair);
        assert forall|i: int| 0 <= i < h.len() implies is_lower_hex_char(#[trigger] h[i]) by {
            if i < bytes_hex(rest).len() {
                assert(h[i] == bytes_hex(rest)[i]);
            } else {
                assert(h[i] == pair[i - bytes_hex(rest).len()]);
            }
        }
    }
}

fn hex_char(d: u8) -> (c: char)
    requires
        d < 16,
    ensures
        c == hex_digit(d as int),
{
    if d < 10 {
        (48 + d) as char
    } else {
        (87 + d) as char
    }
}

/// Renders `bytes` as lowercase hex, two digits per byte (`{:02x}` per byte).
pub(crate) fn to_hex(bytes: &[u8]) -> (s: String)
    ensures
        s@ == bytes_hex(bytes@),
{
    let mut out = String::new();
    let mut i: usize = 0;
    while i < bytes.len()
        invariant
            i <= bytes@.len(),
            out@ == bytes_hex(bytes@.subrange(0, i as int)),
        decreases bytes@.len() - i,
    {
        let b = bytes[i];
        let hi = hex_char(b / 16);
        let lo = hex_char(b % 16);
        let mut pair = String::new();
        push_char(&mut pair, hi);
        push_char(&mut pair, lo);
        out.append(pair.as_str());
        proof {
            let next = bytes@.subrange(0, i + 1);
            assert(next.drop_last() =~= bytes@.subrange(0, i as int));
            assert(next.last() == b);
        }
        i = i + 1;
    }
    proof {
        assert(bytes@.subrange(0, bytes@.len() as int) =~= bytes@);
    }
    out
}

/// Appends one character through `String::push`.
#[verifier::external_body]
pub(crate) fn push_char(s: &mut String, c: char)
    ensures
        final(s)@ == old(s)@.push(c),
{
    s.push(c)
}

} // verus!
