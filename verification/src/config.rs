//! Settings shared with the surrounding daemon shell.

use vstd::prelude::*;
use vstd::string::StringSliceAdditionalSpecFns;

verus! {

/// Which side of the handshake this process plays.
#[derive(Debug, Clone, Copy)]
pub enum Role {
    Initiator,
    Responder,
}

/// Where the daemon reads its payload data from.
#[derive(Debug, Clone, Copy)]
pub enum Input {
    Stdin,
}

/// Checks a peer's static public key against the one configured: accepts
/// exactly when the configured rendering's bytes equal the received bytes.
pub fn validate_public_key(known: &str, remote: Vec<u8>) -> (r: Result<(), String>)
    ensures
        r is Ok <==> known.spec_bytes() == remote@,
        r matches Err(e) ==> e@ == "remote public key mismatch"@,
{
    let kb = known.as_bytes();
    if kb.len() != remote.len() {
        proof {
            assert(known.spec_bytes().len() != remote@.len());
        }
        return Err("remote public key mismatch".to_owned());
    }
    let mut i: usize = 0;
    while i < remote.len()
        invariant
            0 <= i <= remote@.len(),
            kb@ == known.spec_bytes(),
            kb@.len() == remote@.len(),
            forall|j: int| 0 <= j < i ==> kb@[j] == remote@[j],
        decreases remote@.len() - i,
    {
        if kb[i] != remote[i] {
            return Err("remote public key mismatch".to_owned());
        }
        i += 1;
    }
    proof {
        assert(known.spec_bytes() =~= remote@);
    }
    Ok(())
}

} // verus!
