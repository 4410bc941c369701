//! The text protocol with the execution kernel: the request bodies sent to it,
//! how its replies are read, which library file it is loaded from, and the
//! guard's drift report.

use crate::json::{cmd_request_text, command_request_text, json_string, json_string_array};
use crate::text::{dec_text, owned, push_str, push_u128, str_eq, views};
use vstd::prelude::*;

verus! {

/// Where the guard keeps its baseline unless told otherwise.
pub const DEFAULT_BASELINE: &'static str = ".aion/baseline.json";

/// The message shown when the kernel library or one of its symbols is missing.
pub const KERNEL_NOT_FOUND: &'static str = "AION Kernel not found. Install aion-kernel or set AION_KERNEL_PATH.";

/// A kernel reply: an `error:` reply is a failure carrying that text; any other
/// reply is the result.
pub fn kernel_response(text: &str) -> (r: Result<String, String>)
    ensures
        "error:"@.is_prefix_of(text@) ==> (r matches Err(e) && e@ == text@),
        !"error:"@.is_prefix_of(text@) ==> (r matches Ok(t) && t@ == text@),
{
    let v = crate::text::chars_of(text);
    proof {
        reveal_strlit("error:");
    }
    if crate::text::has_prefix_at(&v, 0, "error:") {
        assert(v@.skip(0) == v@);
        Err(owned(text))
    } else {
        assert(v@.skip(0) == v@);
        Ok(owned(text))
    }
}

/// The kernel library file: `AION_KERNEL_PATH` when set, else the platform's
/// library name (`os` as `std::env::consts::OS` names it).
pub fn kernel_library_path(override_path: Option<&str>, os: &str) -> (r: String)
    ensures
        r@ == match override_path {
            Some(p) => p@,
            None => if os@ == "windows"@ {
                "aion-kernel.dll"@
            } else if os@ == "macos"@ {
                "libaion-kernel.dylib"@
            } else {
                "libaion-kernel.so"@
            },
        },
{
    match override_path {
        Some(p) => owned(p),
        None => {
            if str_eq(os, "windows") {
                owned("aion-kernel.dll")
            } else if str_eq(os, "macos") {
                owned("libaion-kernel.dylib")
            } else {
                owned("libaion-kernel.so")
            }
        },
    }
}

/// The execute request for a command given as arguments: `{"command":[...]}`.
pub fn command_spec_json(command: &Vec<String>) -> (r: String)
    ensures
        r@ == "{\"command\":"@ + json_string_array(views(command@)) + "}"@,
{
    command_request_text(command)
}

/// The execute request for a command line: `{"cmd":"..."}`.
pub fn cmd_spec_json(cmd: &str) -> (r: String)
    ensures
        r@ == "{\"cmd\":"@ + json_string(cmd@) + "}"@,
{
    cmd_request_text(cmd)
}

/// The guard's report of a duration that drifted beyond tolerance.
pub open spec fn drift_report(baseline_ms: nat, actual_ms: nat) -> Seq<char> {
    "{\"changed\":true,\"fields\":[{\"field\":\"duration_ms\",\"baseline\":"@ + dec_text(baseline_ms)
        + ",\"actual\":"@ + dec_text(actual_ms) + "}]}"@
}

/// The guard's report of a duration that drifted beyond tolerance.
pub fn duration_drift_json(baseline_ms: u64, actual_ms: u64) -> (r: String)
    ensures
        r@ == drift_report(baseline_ms as nat, actual_ms as nat),
{
    let mut s = owned("{\"changed\":true,\"fields\":[{\"field\":\"duration_ms\",\"baseline\":");
    push_u128(&mut s, baseline_ms as u128);
    push_str(&mut s, ",\"actual\":");
    push_u128(&mut s, actual_ms as u128);
    push_str(&mut s, "}]}");
    s
}

/// `|a - b|`.
pub fn abs_diff(a: u64, b: u64) -> (r: u64)
    ensures
        r == if a >= b { a - b } else { b - a },
{
    if a >= b {
        a - b
    } else {
        b - a
    }
}

} // verus!
