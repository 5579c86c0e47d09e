use vstd::prelude::*;

verus! {

/// The lowercase hexadecimal digit for one value below sixteen.
pub open spec fn hex_digit(d: int) -> char {
    if d == 0 {
        '0'
    } else if d == 1 {
        '1'
    } else if d == 2 {
        '2'
    } else if d == 3 {
        '3'
    } else if d == 4 {
        '4'
    } else if d == 5 {
        '5'
    } else if d == 6 {
        '6'
    } else if d == 7 {
        '7'
    } else if d == 8 {
        '8'
    } else if d == 9 {
        '9'
    } else if d == 10 {
        'a'
    } else if d == 11 {
        'b'
    } else if d == 12 {
        'c'
    } else if d == 13 {
        'd'
    } else if d == 14 {
        'e'
    } else {
        'f'
    }
}

pub open spec fn is_hex_digit(c: char) -> bool {
    crate::numbers::is_digit(c) || c == 'a' || c == 'b' || c == 'c' || c == 'd' || c == 'e'
        || c == 'f'
}

/// Lowercase hexadecimal of a byte string: two digits per byte, high nibble
/// first.
pub open spec fn hex_of(bytes: Seq<u8>) -> Seq<char> {
    Seq::new(
        bytes.len() * 2,
        |i: int|
            if i % 2 == 0 {
                hex_digit(bytes[i / 2] as int / 16)
            } else {
                hex_digit(bytes[i / 2] as int % 16)
            },
    )
}

/// Every character a hex rendering produces is one of the sixteen lowercase
/// digits.
pub proof fn lemma_hex_of_digits(bytes: Seq<u8>)
    ensures
        forall|i: int| 0 <= i < hex_of(bytes).len() ==> is_hex_digit(#[trigger] hex_of(bytes)[i]),
{
    assert forall|i: int| 0 <= i < hex_of(bytes).len() implies is_hex_digit(
        #[trigger] hex_of(bytes)[i],
    ) by {
        if i % 2 == 0 {
            assert(0 <= bytes[i / 2] as int / 16 < 16);
        } else {
            assert(0 <= bytes[i / 2] as int % 16 < 16);
        }
    }
}

/// Relies on `hex::encode`: lowercase hexadecimal, two digits per byte, high
/// nibble first.
#[verifier::external_body]
pub(crate) fn hex_encode(data: &Vec<u8>) -> (r: String)
    ensures
        r@ == hex_of(data@),
{
    hex::encode(data)
}

/// What keccak-256 digests the input to: a function of the bytes alone.
pub uninterp spec fn keccak256_of(data: Seq<u8>) -> Seq<u8>;

/// Relies on tiny_keccak's `Keccak::v256` hasher: the 32-byte keccak-256
/// digest of the input, determined by the input bytes alone.
#[verifier::external_body]
pub(crate) fn keccak256(data: &Vec<u8>) -> (r: Vec<u8>)
    ensures
        r@ == keccak256_of(data@),
        r@.len() == 32,
{
    let mut hasher = tiny_keccak::Keccak::v256();
    tiny_keccak::Hasher::update(&mut hasher, data.as_slice());
    let mut out = [0u8; 32];
    tiny_keccak::Hasher::finalize(hasher, &mut out);
    out.to_vec()
}

/// Whether secp256k1 accepts the bytes as a secret key (32 bytes, not zero,
/// below the curve order): a function of the key bytes alone, the one
/// condition on which every signing-path operation succeeds or fails.
pub uninterp spec fn secp_key_ok(key: Seq<u8>) -> bool;

/// What signing a 32-byte digest with a raw secp256k1 secret key yields: the
/// 65 bytes r, s and recovery id, in that order; deterministic in key and
/// digest (RFC 6979 nonces).
pub uninterp spec fn secp_sign_of(key: Seq<u8>, digest: Seq<u8>) -> Seq<u8>;

/// Relies on ethsign's `SecretKey::from_raw` and `SecretKey::sign`: signs the
/// digest with the raw key. Key parsing fails exactly when secp256k1 rejects
/// the key bytes, message parsing exactly when the digest is not 32 bytes,
/// and recoverable signing itself never fails; so `Some` comes if and only
/// if the key is accepted and the digest has 32 bytes.
#[verifier::external_body]
pub(crate) fn sign_digest(key: &Vec<u8>, digest: &Vec<u8>) -> (r: Option<Vec<u8>>)
    ensures
        (r is Some) == (secp_key_ok(key@) && digest@.len() == 32),
        r matches Some(sig) ==> sig@ == secp_sign_of(key@, digest@) && sig@.len() == 65,
{
    let secret = match ethsign::SecretKey::from_raw(key.as_slice()) {
        Ok(s) => s,
        Err(_) => return None,
    };
    let sig = match secret.sign(digest.as_slice()) {
        Ok(s) => s,
        Err(_) => return None,
    };
    let mut out: Vec<u8> = Vec::with_capacity(65);
    out.extend_from_slice(&sig.r);
    out.extend_from_slice(&sig.s);
    out.push(sig.v);
    Some(out)
}

/// What the ethereum address of a raw secp256k1 secret key is: 20 bytes
/// determined by the key alone.
pub uninterp spec fn address_of(key: Seq<u8>) -> Seq<u8>;

/// Relies on ethsign's `SecretKey::from_raw`, `public` and `address`: the
/// 20-byte address derived from the raw key. `from_raw` fails exactly when
/// secp256k1 rejects the key bytes; on an accepted key the public key and
/// address derivations never fail; so `Some` comes if and only if the key is
/// accepted.
#[verifier::external_body]
pub(crate) fn key_address(key: &Vec<u8>) -> (r: Option<Vec<u8>>)
    ensures
        (r is Some) == secp_key_ok(key@),
        r matches Some(addr) ==> addr@ == address_of(key@) && addr@.len() == 20,
{
    match ethsign::SecretKey::from_raw(key.as_slice()) {
        Ok(secret) => Some(secret.public().address().to_vec()),
        Err(_) => None,
    }
}

/// Relies on rand's `fill` over the thread-local generator: 32 random bytes;
/// nothing is promised of the values.
#[verifier::external_body]
pub(crate) fn random_bytes() -> (r: Vec<u8>)
    ensures
        r@.len() == 32,
{
    let mut secret = [0u8; 32];
    rand::fill(&mut secret[..]);
    secret.to_vec()
}

} // verus!
