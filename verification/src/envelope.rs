//! Execution envelope pieces: the machine fingerprint and the frozen clock value.

use crate::digest::{sha256_hex, sha256_hex_of_text};
use crate::text::{
    char_vecs, chars_of, concat3, lines_of, owned, push_char, split_lines, string_of, trim, trimmed,
};
use vstd::prelude::*;

verus! {

/// Non-reversible digests of host identity fields.
#[derive(Debug)]
pub struct MachineFingerprint {
    pub cpu_features: String,
    pub os_version: String,
    pub kernel_version: String,
    pub hostname_hash: String,
    pub binary_hash: String,
}

/// The first 32 hex digits of the SHA-256 of a text.
pub open spec fn short_digest(t: Seq<char>) -> Seq<char> {
    sha256_hex_of_text(t).take(32)
}

/// The first 32 lowercase hex digits of the SHA-256 of `s`.
pub fn sha256_short(s: &str) -> (r: String)
    ensures
        r@ == short_digest(s@),
{
    let h = sha256_hex(s);
    let cs = chars_of(h.as_str());
    let mut r = String::new();
    for i in 0..32
        invariant
            cs@ == sha256_hex_of_text(s@),
            cs@.len() == 64,
            r@ == cs@.take(i as int),
    {
        push_char(&mut r, cs[i]);
        assert(cs@.take(i + 1) == cs@.take(i as int).push(cs@[i as int]));
    }
    r
}

/// The host name: `COMPUTERNAME`, else `HOSTNAME`, else `HOST`, else empty.
pub fn hostname_from(computername: Option<&str>, hostname: Option<&str>, host: Option<&str>) -> (r: String)
    ensures
        r@ == match (computername, hostname, host) {
            (Some(c), _, _) => c@,
            (None, Some(h), _) => h@,
            (None, None, Some(h)) => h@,
            (None, None, None) => Seq::<char>::empty(),
        },
{
    match (computername, hostname, host) {
        (Some(c), _, _) => owned(c),
        (None, Some(h), _) => owned(h),
        (None, None, Some(h)) => owned(h),
        (None, None, None) => String::new(),
    }
}

/// The fingerprint of a host: `"<arch> <family>"`, the OS and kernel version as
/// given, and short digests of the host name and of the executable's path.
pub fn fingerprint_from_parts(
    arch: &str,
    family: &str,
    os: &str,
    kernel_version: &str,
    hostname: &str,
    exe_path: &str,
) -> (f: MachineFingerprint)
    ensures
        f.cpu_features@ == arch@ + " "@ + family@,
        f.os_version@ == os@,
        f.kernel_version@ == kernel_version@,
        f.hostname_hash@ == short_digest(hostname@),
        f.binary_hash@ == short_digest(exe_path@),
{
    MachineFingerprint {
        cpu_features: concat3(arch, " ", family),
        os_version: owned(os),
        kernel_version: owned(kernel_version),
        hostname_hash: sha256_short(hostname),
        binary_hash: sha256_short(exe_path),
    }
}

/// `x` reduced to 64 bits.
pub open spec fn low64(x: u128) -> int {
    (x % 0x1_0000_0000_0000_0000) as int
}

/// The frozen clock value: wall-clock milliseconds since the epoch plus the
/// monotonic milliseconds since the process anchor, each cut to 64 bits, added
/// with wrap-around.
pub fn freeze_time_ms(wall_ms: u128, mono_ms: u128) -> (r: u64)
    ensures
        r == (low64(wall_ms) + low64(mono_ms)) % 0x1_0000_0000_0000_0000,
{
    let w = wall_ms as u64;
    let m = mono_ms as u64;
    assert(w == wall_ms % 0x1_0000_0000_0000_0000) by (bit_vector)
        requires
            w == wall_ms as u64,
    ;
    assert(m == mono_ms % 0x1_0000_0000_0000_0000) by (bit_vector)
        requires
            m == mono_ms as u64,
    ;
    w.wrapping_add(m)
}

/// The kernel version line: the first line of the kernel's version text, trimmed.
pub fn kernel_version_from(version_text: &str) -> (r: String)
    ensures
        r@ == (if lines_of(version_text@).len() == 0 {
            Seq::<char>::empty()
        } else {
            trim(lines_of(version_text@)[0])
        }),
{
    let v = chars_of(version_text);
    let ls = split_lines(&v);
    if ls.len() == 0 {
        return String::new();
    }
    let first = string_of(&ls[0]);
    assert(first@ == lines_of(version_text@)[0]) by {
        assert(char_vecs(ls@)[0] == ls@[0]@);
    }
    trimmed(first.as_str())
}

} // verus!
