//! Request-path formatting for the adjacent policy wire surface.
//!
//! The policy store itself is an external collaborator; only the path under
//! which a resource/action pair is addressed is computed here.
use vstd::prelude::*;

verus! {

/// Relies on String::push_str: appends the slice's characters to the string.
pub assume_specification[ String::push_str ](s: &mut String, piece: &str)
    ensures
        final(s)@ == old(s)@ + piece@,
;

/// The request path for the policy of one resource/action pair.
pub fn policy_path(r: &str, a: &str) -> (s: String)
    ensures
        s@ == "/policy/"@ + r@ + "/"@ + a@,
{
    let mut s = String::new();
    s.push_str("/policy/");
    s.push_str(r);
    s.push_str("/");
    s.push_str(a);
    proof {
        assert(s@ =~= "/policy/"@ + r@ + "/"@ + a@);
    }
    s
}

} // verus!
