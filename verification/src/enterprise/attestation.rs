//! Release attestation: how the output of a signing or verifying tool run
//! becomes the command's result (running the tool is the caller's).

use crate::text::{concat3, trim, trimmed};
use vstd::prelude::*;

verus! {

/// The result of an attestation tool run: its trimmed output on success,
/// otherwise `<label> failed: <stderr>`.
pub fn attestation_outcome(label: &str, success: bool, stdout: &str, stderr: &str) -> (r: Result<String, String>)
    ensures
        success ==> (r matches Ok(out) && out@ == trim(stdout@)),
        !success ==> (r matches Err(e) && e@ == label@ + " failed: "@ + stderr@),
{
    if !success {
        return Err(concat3(label, " failed: ", stderr));
    }
    Ok(trimmed(stdout))
}

} // verus!
