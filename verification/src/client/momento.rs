//! Momento: which endpoint a client talks to.

use vstd::prelude::*;
use vstd::string::*;

verus! {

/// The endpoint: the configured one, or else the one that the credential names.
pub fn momento_endpoint(configured: Option<&str>, of_credential: &str) -> (r: String)
    ensures
        r@ == match configured {
            Some(e) => e@,
            None => of_credential@,
        },
{
    match configured {
        Some(e) => String::from_str(e),
        None => String::from_str(of_credential),
    }
}

} // verus!
