//! What the command line asks of the library.

use vstd::prelude::*;

verus! {

/// The verdict on a socket address given as an argument, from whether the
/// address resolved: an argument that did is accepted, one that did not is
/// turned down with the message for the user.
pub fn validate_sockaddr(resolved: bool) -> (verdict: Result<(), String>)
    ensures
        verdict is Ok <==> resolved,
        verdict matches Err(message) ==> message@ == "invalid socket address"@,
{
    if resolved {
        Ok(())
    } else {
        Err("invalid socket address".to_owned())
    }
}

} // verus!
