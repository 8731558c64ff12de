//! The authentication accept rule. Checking a concrete credential — parsing
//! an authorization header, computing an HMAC over the body — happens
//! outside the library; this module fixes what the outcome of those checks
//! must mean, and compares secret strings without short-circuiting.

use vstd::prelude::*;

use crate::settings::Settings;

verus! {

/// Whether a request is accepted, given the configuration and the outcome
/// of the two credential checks: with nothing configured everything is
/// accepted; with `basic_auth_and_secret` both checks must pass; otherwise
/// one configured and passed check is enough.
pub open spec fn accepts(
    secret_configured: bool,
    basic_auth_configured: bool,
    both_required: bool,
    basic_auth_ok: bool,
    signature_ok: bool,
) -> bool {
    if !secret_configured && !basic_auth_configured {
        true
    } else if both_required {
        basic_auth_ok && signature_ok
    } else {
        (basic_auth_configured && basic_auth_ok) || (secret_configured && signature_ok)
    }
}

/// Decide whether a request is let through. `basic_auth_ok` and
/// `signature_ok` report whether the request carried a valid basic-auth
/// header and a valid signature header; each matters only where the
/// matching option is configured.
pub fn verify_authentication(
    settings: &Settings,
    basic_auth_ok: bool,
    signature_ok: bool,
) -> (accepted: bool)
    ensures
        accepted == accepts(
            settings.secret is Some,
            settings.basic_auth_user is Some,
            settings.basic_auth_and_secret,
            basic_auth_ok,
            signature_ok,
        ),
{
    let secret_configured = settings.secret.is_some();
    let basic_auth_configured = settings.basic_auth_user.is_some();
    if !secret_configured && !basic_auth_configured {
        true
    } else if settings.basic_auth_and_secret {
        basic_auth_ok && signature_ok
    } else {
        (basic_auth_configured && basic_auth_ok) || (secret_configured && signature_ok)
    }
}

/// Compare two byte strings for equality without stopping at the first
/// difference, so that the time taken does not reveal how long a matching
/// prefix an attacker has found.
pub fn constant_time_eq(a: &Vec<u8>, b: &Vec<u8>) -> (equal: bool)
    ensures
        equal == (a@ == b@),
{
    if a.len() != b.len() {
        return false;
    }
    let n = a.len();
    let mut diff: u8 = 0;
    let mut i: usize = 0;
    while i < n
        invariant
            0 <= i <= n,
            n == a@.len() == b@.len(),
            diff == 0 <==> forall|k: int| 0 <= k < i ==> a@[k] == b@[k],
        decreases n - i,
    {
        let x = a[i];
        let y = b[i];
        let ghost d0 = diff;
        diff = diff | (x ^ y);
        proof {
            assert(((d0 | (x ^ y)) == 0) == (d0 == 0 && x == y)) by (bit_vector);
        }
        i += 1;
    }
    proof {
        if diff == 0 {
            assert(a@ =~= b@);
        }
    }
    diff == 0
}

} // verus!
