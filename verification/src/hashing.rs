//! Content hashing and hex digests for the content-addressed store.

use vstd::prelude::*;

use sha2::Digest;

verus! {

/// The SHA-256 digest of a byte sequence, as the outside hasher computes it.
pub uninterp spec fn sha256_of(data: Seq<u8>) -> Seq<u8>;

/// Relies on sha2::Sha256 through the Digest trait: the digest is 32 bytes
/// long and a function of the input bytes alone.
#[verifier::external_body]
pub(crate) fn sha256(data: &[u8]) -> (r: Vec<u8>)
    ensures
        r@ == sha256_of(data@),
        r@.len() == 32,
{
    sha2::Sha256::digest(data).to_vec()
}

/// The ASCII byte of a hex digit, lower case.
pub open spec fn hex_digit_byte(n: u8) -> u8 {
    if n < 10 {
        (48 + n) as u8
    } else {
        (87 + n) as u8
    }
}

/// Two lower-case hex digit bytes for every input byte, in order.
pub open spec fn hex_bytes_of(bytes: Seq<u8>) -> Seq<u8>
    decreases bytes.len(),
{
    if bytes.len() == 0 {
        Seq::empty()
    } else {
        hex_bytes_of(bytes.drop_last()) + seq![
            hex_digit_byte(bytes.last() / 16),
            hex_digit_byte(bytes.last() % 16),
        ]
    }
}

/// The lower-case hex text of a byte sequence.
pub open spec fn hex_of(bytes: Seq<u8>) -> Seq<char> {
    hex_bytes_of(bytes).map_values(|b: u8| b as char)
}

/// Every byte of a hex digest is printable ASCII.
pub proof fn lemma_hex_bytes_ascii(bytes: Seq<u8>)
    ensures
        forall|i: int| 0 <= i < hex_bytes_of(bytes).len() ==> hex_bytes_of(bytes)[i] < 128,
        hex_bytes_of(bytes).len() == 2 * bytes.len(),
    decreases bytes.len(),
{
    if bytes.len() > 0 {
        lemma_hex_bytes_ascii(bytes.drop_last());
    }
}

/// Relies on String::from_utf8: bytes below 128 are valid UTF-8 and decode
/// to the characters with the same code points.
#[verifier::external_body]
pub(crate) fn ascii_to_string(bytes: Vec<u8>) -> (r: String)
    requires
        forall|i: int| 0 <= i < bytes@.len() ==> bytes@[i] < 128,
    ensures
        r@ == bytes@.map_values(|b: u8| b as char),
{
    String::from_utf8(bytes).unwrap_or_default()
}

/// Encode bytes as lower-case hex text, two digits per byte.
pub fn hex_encode(bytes: &[u8]) -> (r: String)
    ensures
        r@ == hex_of(bytes@),
{
    let n = bytes.len();
    let mut out: Vec<u8> = Vec::new();
    let mut i: usize = 0;
    while i < n
        invariant
            i <= n,
            n == bytes@.len(),
            out@ == hex_bytes_of(bytes@.take(i as int)),
        decreases n - i,
    {
        let b = bytes[i];
        out.push(hex_digit_byte_exec(b / 16));
        out.push(hex_digit_byte_exec(b % 16));
        proof {
            let pre = bytes@.take(i as int);
            let cur = bytes@.take(i + 1 as int);
            assert(cur.drop_last() =~= pre);
            assert(cur.last() == bytes@[i as int]);
            assert(out@ =~= hex_bytes_of(cur));
        }
        i = i + 1;
    }
    proof {
        assert(bytes@.take(n as int) =~= bytes@);
        lemma_hex_bytes_ascii(bytes@);
    }
    ascii_to_string(out)
}

/// The executable hex digit of a nibble.
fn hex_digit_byte_exec(n: u8) -> (r: u8)
    requires
        n < 16,
    ensures
        r == hex_digit_byte(n),
{
    if n < 10 {
        48 + n
    } else {
        87 + n
    }
}

/// The hex digest of the SHA-256 hash of the given bytes.
pub fn sha256_hex(data: &[u8]) -> (r: String)
    ensures
        r@ == hex_of(sha256_of(data@)),
{
    let digest = sha256(data);
    hex_encode(digest.as_slice())
}

} // verus!
