//! Decisions behind the mobile platform services; the application queries
//! the platforms and hands the answers in.
use vstd::prelude::*;

use crate::text::{chars_of, string_from_chars, string_push_str};

verus! {

/// Authorization status under which the motion sensors may be read.
pub const MOTION_AUTHORIZED: isize = 3;

/// Whether runtime permission `permission` is granted, given the motion
/// authorization status that the platform reports. Only the motion
/// permission is known; any other is an error that names it.
pub fn has_runtime_permission(permission: &str, motion_status: isize) -> (r: Result<bool, String>)
    ensures
        permission@ == "motion"@ ==> r == Ok::<bool, String>(motion_status == MOTION_AUTHORIZED),
        permission@ != "motion"@ ==> (r matches Err(msg) && msg@ == "unsupported iOS permission: "@
            + permission@),
{
    let asked = permission.to_owned();
    let motion = "motion".to_owned();
    if asked == motion {
        Ok(motion_status == MOTION_AUTHORIZED)
    } else {
        let mut msg = "unsupported iOS permission: ".to_owned();
        string_push_str(&mut msg, permission);
        Err(msg)
    }
}

/// Today's local epoch day, from the day number the platform reports (if it
/// reported one); days before the epoch count as day 0.
pub fn current_local_epoch_day(reported: Option<i64>) -> (r: Option<u64>)
    ensures
        r == match reported {
            Some(d) => Some(if d < 0 {
                0u64
            } else {
                d as u64
            }),
            None => None::<u64>,
        },
{
    match reported {
        Some(d) => Some(if d < 0 {
            0u64
        } else {
            d as u64
        }),
        None => None,
    }
}

/// Enables or disables the floating window; the engine loop decides by
/// itself whether the floating window service is set up, so this does
/// nothing.
pub fn set_floating_window_enabled(_enabled: bool) {
}

/// `s` without the prefix `prefix`, if it starts with it.
pub open spec fn strip_prefix(s: Seq<char>, prefix: Seq<char>) -> Seq<char> {
    if prefix.len() <= s.len() && s.subrange(0, prefix.len() as int) == prefix {
        s.subrange(prefix.len() as int, s.len() as int)
    } else {
        s
    }
}

fn strip_prefix_chars(s: Vec<char>, prefix: &str) -> (r: Vec<char>)
    ensures
        r@ == strip_prefix(s@, prefix@),
{
    let p = chars_of(prefix);
    if p.len() > s.len() {
        return s;
    }
    let mut i: usize = 0;
    while i < p.len()
        invariant
            0 <= i <= p@.len() <= s@.len(),
            p@ == prefix@,
            forall|j: int| 0 <= j < i ==> s@[j] == p@[j],
        decreases p@.len() - i,
    {
        if s[i] != p[i] {
            assert(s@.subrange(0, p@.len() as int)[i as int] != p@[i as int]);
            return s;
        }
        i = i + 1;
    }
    assert(s@.subrange(0, p@.len() as int) =~= p@);
    let mut out: Vec<char> = Vec::new();
    let mut k: usize = p.len();
    while k < s.len()
        invariant
            p@.len() <= k <= s@.len(),
            out@ == s@.subrange(p@.len() as int, k as int),
        decreases s@.len() - k,
    {
        out.push(s[k]);
        assert(out@ =~= s@.subrange(p@.len() as int, k + 1));
        k = k + 1;
    }
    out
}

/// Path of an asset inside the application bundle of the platforms that
/// ship assets packed: a leading `./` and then a leading `assets/` are
/// dropped.
pub fn normalize_asset_path(path: &str) -> (r: String)
    ensures
        r@ == strip_prefix(strip_prefix(path@, "./"@), "assets/"@),
{
    let chars = chars_of(path);
    let without_dot = strip_prefix_chars(chars, "./");
    let without_assets = strip_prefix_chars(without_dot, "assets/");
    string_from_chars(&without_assets)
}

} // verus!
