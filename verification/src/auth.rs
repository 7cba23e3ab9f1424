//! Access to the API: with a configured token, requests must carry
//! `Authorization: Bearer <token>`.
use vstd::prelude::*;

use crate::text::{concat3, same_text};

verus! {

broadcast use vstd::string::group_string_axioms;

/// Whether a request with this `Authorization` header value may use the
/// API: always when no token is configured, otherwise only when the header
/// is `Bearer ` followed by the token.
pub fn bearer_authorized(token: Option<&str>, authorization: Option<&str>) -> (b: bool)
    ensures
        b == match token {
            None => true,
            Some(t) => match authorization {
                Some(h) => h@ == "Bearer "@ + t@,
                None => false,
            },
        },
{
    match token {
        None => true,
        Some(t) => match authorization {
            Some(h) => {
                let expected = concat3("Bearer ", t, "");
                proof {
                    reveal_strlit("");
                    assert(expected@ =~= "Bearer "@ + t@);
                }
                same_text(h, expected.as_str())
            },
            None => false,
        },
    }
}

} // verus!
