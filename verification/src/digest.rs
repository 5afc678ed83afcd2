use sha2::Digest;
use vstd::prelude::*;

verus! {

/// The SHA-256 digest, 32 bytes, of a byte sequence.
pub uninterp spec fn sha256_of(bytes: Seq<u8>) -> Seq<u8>;

/// The character for one hex nibble, lower case.
pub open spec fn hex_digit_char(d: int) -> char {
    if d == 0 {
        '0'
    } else if d == 1 {
        '1'
    } else if d == 2 {
        '2'
    } else if d == 3 {
        '3'
    } else if d == 4 {
        '4'
    } else if d == 5 {
        '5'
    } else if d == 6 {
        '6'
    } else if d == 7 {
        '7'
    } else if d == 8 {
        '8'
    } else if d == 9 {
        '9'
    } else if d == 10 {
        'a'
    } else if d == 11 {
        'b'
    } else if d == 12 {
        'c'
    } else if d == 13 {
        'd'
    } else if d == 14 {
        'e'
    } else {
        'f'
    }
}

/// The lower-case hexadecimal rendering of a byte sequence: two digits per
/// byte, high nibble first.
pub open spec fn hex_of(bytes: Seq<u8>) -> Seq<char>
    decreases bytes.len(),
{
    if bytes.len() == 0 {
        Seq::empty()
    } else {
        hex_of(bytes.drop_last()) + seq![
            hex_digit_char(bytes.last() as int / 16),
            hex_digit_char(bytes.last() as int % 16),
        ]
    }
}

pub proof fn lemma_hex_of_len(bytes: Seq<u8>)
    ensures
        hex_of(bytes).len() == 2 * bytes.len(),
    decreases bytes.len(),
{
    if bytes.len() > 0 {
        lemma_hex_of_len(bytes.drop_last());
    }
}

/// The content-addressed identity of a capture: the lower-case hex form of
/// the SHA-256 digest of its raw bytes. Stable for identical bytes; treated
/// as collision-free at this application's scale.
pub open spec fn digest_hex_of(bytes: Seq<u8>) -> Seq<char> {
    hex_of(sha256_of(bytes))
}

/// The digest identity of a text, computed over its UTF-8 bytes.
pub open spec fn digest_hex_of_text(s: Seq<char>) -> Seq<char> {
    digest_hex_of(vstd::utf8::encode_utf8(s))
}

/// The digest is a function of the bytes alone: hashing the same byte
/// sequence twice yields the same digest. That a differing byte yields a
/// different digest is a property of the hash itself, exercised by tests;
/// it is not provable from this model and is not assumed anywhere.
pub proof fn lemma_digest_deterministic(a: Seq<u8>, b: Seq<u8>)
    requires
        a == b,
    ensures
        digest_hex_of(a) == digest_hex_of(b),
{
}

/// Relies on sha2's `Sha256`: a 32-byte digest that is a function of the
/// input bytes alone.
#[verifier::external_body]
fn sha256_bytes(bytes: &[u8]) -> (r: Vec<u8>)
    ensures
        r@ == sha256_of(bytes@),
        r@.len() == 32,
{
    sha2::Sha256::digest(bytes).to_vec()
}

/// Relies on `hex::encode`: two lower-case hex digits for each input byte,
/// high nibble first — exactly the `hex_of` rendering.
#[verifier::external_body]
fn hex_string(bytes: &[u8]) -> (r: String)
    ensures
        r@ == hex_of(bytes@),
{
    hex::encode(bytes)
}

/// The digest identity of a raw byte buffer, as a 64-character hex string.
pub fn digest_of_bytes(bytes: &[u8]) -> (r: String)
    ensures
        r@ == digest_hex_of(bytes@),
        r@.len() == 64,
{
    let d = sha256_bytes(bytes);
    proof {
        lemma_hex_of_len(d@);
    }
    hex_string(d.as_slice())
}

/// The digest identity of a text, as a 64-character hex string.
pub fn digest_of_text(s: &str) -> (r: String)
    ensures
        r@ == digest_hex_of_text(s@),
        r@.len() == 64,
{
    digest_of_bytes(s.as_bytes())
}

} // verus!
