use vstd::prelude::*;

verus! {

use crate::crypto::random_bytes;

/// Decides the operator's long-lived key from whatever was loaded from disk:
/// 32 loaded bytes are the identity and are kept as they are; anything else
/// (no file, wrong length) is replaced by fresh random bytes, and the flag
/// tells the caller to persist them — losing the key file loses the identity,
/// not the process.
pub fn load_or_generate_key(loaded: Option<Vec<u8>>) -> (r: (Vec<u8>, bool))
    ensures
        r.0@.len() == 32,
        match loaded {
            Some(k) => if k@.len() == 32 {
                r.0@ == k@ && !r.1
            } else {
                r.1
            },
            None => r.1,
        },
{
    match loaded {
        Some(k) => {
            if k.len() == 32 {
                (k, false)
            } else {
                (random_bytes(), true)
            }
        },
        None => (random_bytes(), true),
    }
}

} // verus!
