use vstd::prelude::*;

pub mod auth;
pub mod broker;
pub mod config;
pub mod crypto;
pub mod env;
pub mod gateway;
pub mod ledger;
pub mod numbers;
pub mod record;
pub mod text;
pub mod wallet;

verus! {

use crate::text::push_char;

/// Strips path separators from a node identifier so that it is safe to use
/// as a single filesystem path component.
pub fn path_safe_id(xnode_id: &str) -> (r: String)
    ensures
        r@ == xnode_id@.filter(|c: char| c != '/'),
{
    let len = xnode_id.unicode_len();
    let mut out = String::new();
    let mut i: usize = 0;
    while i < len
        invariant
            len == xnode_id@.len(),
            i <= len,
            out@ == xnode_id@.take(i as int).filter(|c: char| c != '/'),
        decreases len - i,
    {
        let c = xnode_id.get_char(i);
        proof {
            reveal(Seq::filter);
            assert(xnode_id@.take(i + 1).drop_last() =~= xnode_id@.take(i as int));
            assert(xnode_id@.take(i + 1) =~= xnode_id@.take(i as int).push(c));
        }
        if c != '/' {
            push_char(&mut out, c);
        }
        i = i + 1;
    }
    proof {
        assert(xnode_id@.take(len as int) =~= xnode_id@);
    }
    out
}

} // verus!
