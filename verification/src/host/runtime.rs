use vstd::prelude::*;
use crate::host::manifest::{copy_strings, PluginManifest};
use crate::text::{concat, decimal, decimal_string};

verus! {

/// The decimal text of a signed number.
pub open spec fn signed_decimal(n: i32) -> Seq<char> {
    if n < 0 {
        seq!['-'] + decimal((0 - n) as nat)
    } else {
        decimal(n as nat)
    }
}

fn signed_decimal_string(n: i32) -> (s: String)
    ensures
        s@ == signed_decimal(n),
{
    if n < 0 {
        let m: u64 = (0i64 - (n as i64)) as u64;
        let d = decimal_string(m);
        let s = concat("-", d.as_str());
        proof {
            reveal_strlit("-");
        }
        s
    } else {
        decimal_string(n as u64)
    }
}

/// What a plugin's `handle_event` status code means: `0` is success, any
/// other code an error `"<prefix> <code>"` (the wasmi runtime's prefix is
/// `wasmi plugin error`).
pub fn handle_result(prefix: &str, code: i32) -> (r: Result<(), String>)
    ensures
        code == 0 <==> r is Ok,
        r matches Err(e) ==> e@ == prefix@ + seq![' '] + signed_decimal(code),
{
    if code == 0 {
        Ok(())
    } else {
        let a = concat(prefix, " ");
        let d = signed_decimal_string(code);
        proof {
            reveal_strlit(" ");
        }
        Err(concat(a.as_str(), d.as_str()))
    }
}

/// The part `[start, end)` of guest memory of `mem_len` bytes that a host
/// call names by a pointer and a length: `None` unless both are
/// non-negative and the part lies inside the memory.
pub fn guest_range(ptr: i32, len: i32, mem_len: usize) -> (r: Option<(usize, usize)>)
    ensures
        r is Some <==> 0 <= ptr && 0 <= len && ptr + len <= mem_len,
        r matches Some((s, e)) ==> s == ptr && e == ptr + len,
{
    if ptr < 0 || len < 0 {
        return None;
    }
    let s: u64 = ptr as u64;
    let n: u64 = len as u64;
    if s + n > mem_len as u64 {
        return None;
    }
    Some((ptr as usize, (s + n) as usize))
}

/// The size a buffer for `len` bytes is allocated with in the guest: at
/// least one byte.
pub fn alloc_size(len: usize) -> (n: usize)
    ensures
        n == if len == 0 { 1 } else { len },
{
    if len == 0 { 1 } else { len }
}

/// What a plugin instance may touch.
pub struct Permissions {
    pub network: bool,
    pub filesystem: bool,
    pub allowed_dirs: Vec<String>,
}

/// The permissions an instance gets from its manifest.
pub fn build_permissions(m: &PluginManifest) -> (p: Permissions)
    ensures
        p.network == m.permissions.network,
        p.filesystem == m.permissions.filesystem,
        p.allowed_dirs@ == m.permissions.allowed_dirs@,
{
    Permissions {
        network: m.permissions.network,
        filesystem: m.permissions.filesystem,
        allowed_dirs: copy_strings(&m.permissions.allowed_dirs),
    }
}

/// The fuel an instance has burnt: what it started with less what is left
/// (zero when more is left).
pub fn fuel_used(initial: u64, remaining: u64) -> (n: u64)
    ensures
        n == if remaining <= initial { initial - remaining } else { 0 },
{
    initial.saturating_sub(remaining)
}

} // verus!
