use vstd::prelude::*;

verus! {

use crate::crypto::{address_of, hex_encode, hex_of, keccak256, keccak256_of, secp_key_ok,
    secp_sign_of, sign_digest, key_address};
use crate::numbers::{dec_of, u64_to_dec};
use vstd::utf8::encode_utf8;

/// Why a credential could not be produced: the operator key is unusable or
/// the signing primitive rejected the material. An internal fault; it is
/// never retried and never shown to the caller in detail.
#[derive(Clone, Copy, PartialEq, Eq, Structural, Debug)]
pub enum SigningError {
    InvalidKey,
    SignatureFailed,
}

/// The message a node is asked to verify: a fixed purpose string binding the
/// target domain and the moment of signing, against replay across nodes or
/// across time.
pub open spec fn login_message_of(domain: Seq<char>, timestamp: u64) -> Seq<char> {
    "Xnode Auth authenticate "@ + domain + " at "@ + dec_of(timestamp as nat)
}

pub fn login_message(domain: &String, timestamp: u64) -> (r: String)
    ensures
        r@ == login_message_of(domain@, timestamp),
{
    let mut out = String::new();
    out.append("Xnode Auth authenticate ");
    out.append(domain.as_str());
    out.append(" at ");
    let ts = u64_to_dec(timestamp);
    out.append(ts.as_str());
    proof {
        assert(out@ =~= login_message_of(domain@, timestamp));
    }
    out
}

/// The bytes that are actually digested for a signed personal message: the
/// standard prefix, the byte length of the message in decimal, then the
/// message itself, all UTF-8.
pub open spec fn signed_payload_of(msg: Seq<char>) -> Seq<u8> {
    encode_utf8(
        "\x19Ethereum Signed Message:\n"@ + dec_of(encode_utf8(msg).len()) + msg,
    )
}

/// Digests a message the way the remote verifier expects: prefixed, length
/// bound, keccak-256 hashed — never signed raw.
pub fn hash_message(message: &String) -> (r: Vec<u8>)
    ensures
        r@ == keccak256_of(signed_payload_of(message@)),
        r@.len() == 32,
{
    let msg_bytes = message.as_str().as_bytes_vec();
    let byte_len = msg_bytes.len();
    let mut payload = String::new();
    payload.append("\x19Ethereum Signed Message:\n");
    let len_dec = u64_to_dec(byte_len as u64);
    payload.append(len_dec.as_str());
    payload.append(message.as_str());
    proof {
        assert(payload@ =~= "\x19Ethereum Signed Message:\n"@ + dec_of(
            encode_utf8(message@).len(),
        ) + message@);
    }
    let bytes = payload.as_str().as_bytes_vec();
    keccak256(&bytes)
}

/// A signed, ephemeral credential, consumed once to open a session with one
/// node: who claims to call, the signature over the login message, and the
/// timestamp the message was bound to.
#[derive(Debug)]
pub struct Credential {
    pub user: String,
    pub signature: String,
    pub timestamp: u64,
}

/// The signature bytes the credential carries for `domain` at `timestamp`
/// under the raw operator key.
pub open spec fn credential_sig_of(key: Seq<u8>, domain: Seq<char>, timestamp: u64) -> Seq<u8> {
    secp_sign_of(key, keccak256_of(signed_payload_of(login_message_of(domain, timestamp))))
}

/// The operator's identity string: their ethereum address in lowercase hex.
pub open spec fn user_id_of(key: Seq<u8>) -> Seq<char> {
    "eth:"@ + hex_of(address_of(key))
}

/// The operator's public identity, shown by the front end and sent at login.
/// Succeeds exactly on a key the signing primitive accepts; on any other key
/// it reports the fault and does nothing else.
pub fn user_id(key: &Vec<u8>) -> (r: Result<String, SigningError>)
    ensures
        (r is Ok) == secp_key_ok(key@),
        r matches Ok(u) ==> u@ == user_id_of(key@),
        !secp_key_ok(key@) ==> r == Err::<String, SigningError>(SigningError::InvalidKey),
{
    let addr = match key_address(key) {
        Some(a) => a,
        None => {
            return Err(SigningError::InvalidKey);
        },
    };
    let mut user = String::new();
    user.append("eth:");
    let addr_hex = hex_encode(&addr);
    user.append(addr_hex.as_str());
    proof {
        assert(user@ =~= user_id_of(key@));
    }
    Ok(user)
}

/// Composes the login credential for `domain` at `timestamp`: the operator's
/// identity derived from the raw key, and the 0x-prefixed hex signature over
/// the domain- and time-bound login message. Succeeds exactly on a key the
/// signing primitive accepts; on any other key it reports the fault and does
/// nothing else.
pub fn build_credential(key: &Vec<u8>, domain: &String, timestamp: u64) -> (r: Result<
    Credential,
    SigningError,
>)
    ensures
        (r is Ok) == secp_key_ok(key@),
        r matches Ok(c) ==> ({
            &&& c.user@ == user_id_of(key@)
            &&& c.signature@ == "0x"@ + hex_of(credential_sig_of(key@, domain@, timestamp))
            &&& c.timestamp == timestamp
        }),
        !secp_key_ok(key@) ==> r == Err::<Credential, SigningError>(SigningError::InvalidKey),
{
    let addr = match key_address(key) {
        Some(a) => a,
        None => {
            return Err(SigningError::InvalidKey);
        },
    };
    let mut user = String::new();
    user.append("eth:");
    let addr_hex = hex_encode(&addr);
    user.append(addr_hex.as_str());

    let message = login_message(domain, timestamp);
    let digest = hash_message(&message);
    let sig = match sign_digest(key, &digest) {
        Some(s) => s,
        None => {
            return Err(SigningError::SignatureFailed);
        },
    };
    let mut signature = String::new();
    signature.append("0x");
    let sig_hex = hex_encode(&sig);
    signature.append(sig_hex.as_str());
    proof {
        assert(user@ =~= user_id_of(key@));
        assert(signature@ =~= "0x"@ + hex_of(credential_sig_of(key@, domain@, timestamp)));
    }
    Ok(Credential { user, signature, timestamp })
}

} // verus!
