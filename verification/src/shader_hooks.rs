//! Building an image shader from the base template and the user's hook
//! functions: the body of `fn user_vs_hook` goes after the template's
//! `// USER_VS_HOOK` marker, the body of `fn user_fs_hook` after its
//! `// USER_FS_HOOK` marker.
use vstd::prelude::*;
use vstd::slice::slice_subrange;

use crate::surface::trimmed;
use crate::text::{char_is_whitespace, chars_of, is_whitespace, string_from_chars};

verus! {

/// `pat` occurs in `s` at index `i`.
pub open spec fn matches_at(s: Seq<char>, i: int, pat: Seq<char>) -> bool {
    0 <= i && i + pat.len() <= s.len() && s.subrange(i, i + pat.len()) == pat
}

/// The index of the first occurrence of `pat` in `s`, if any.
#[verifier::opaque]
pub open spec fn first_match(s: Seq<char>, pat: Seq<char>) -> Option<int> {
    if exists|i: int| matches_at(s, i, pat) {
        Some(choose|i: int| matches_at(s, i, pat) && forall|j: int| 0 <= j < i ==> !matches_at(s, j, pat))
    } else {
        None
    }
}

/// The index of the last occurrence of `pat` in `s`, if any.
#[verifier::opaque]
pub open spec fn last_match(s: Seq<char>, pat: Seq<char>) -> Option<int> {
    if exists|i: int| matches_at(s, i, pat) {
        Some(choose|i: int| matches_at(s, i, pat) && forall|j: int| i < j ==> !matches_at(s, j, pat))
    } else {
        None
    }
}

/// Where the body of the hook function that `hook` introduces lies in the
/// user's source `u`: from just after the first `{` that follows `hook` (or
/// from `hook` itself when none does) to the last `}` before the first `stop`
/// after that point (or before the end, without `stop` or without such a
/// `stop`; to that end itself when there is no `}`).
pub open spec fn hook_span(u: Seq<char>, hook: Seq<char>, stop: Option<Seq<char>>) -> Option<(int, int)> {
    match first_match(u, hook) {
        None => None,
        Some(start) => {
            let body_start = match first_match(u.skip(start), seq!['{']) {
                Some(i) => start + i + 1,
                None => start,
            };
            let end = match stop {
                Some(p) => match first_match(u.skip(body_start), p) {
                    Some(r) => body_start + r,
                    None => u.len() as int,
                },
                None => u.len() as int,
            };
            let body_end = match last_match(u.take(end), seq!['}']) {
                Some(j) => j,
                None => end,
            };
            Some((body_start, body_end))
        },
    }
}

proof fn lemma_min_match(s: Seq<char>, pat: Seq<char>, w: int)
    requires
        matches_at(s, w, pat),
    ensures
        exists|i: int| matches_at(s, i, pat) && forall|j: int| 0 <= j < i ==> !matches_at(s, j, pat),
    decreases w,
{
    if exists|j: int| 0 <= j < w && matches_at(s, j, pat) {
        let j = choose|j: int| 0 <= j < w && matches_at(s, j, pat);
        lemma_min_match(s, pat, j);
    } else {
        assert(matches_at(s, w, pat) && forall|j: int| 0 <= j < w ==> !matches_at(s, j, pat));
    }
}

proof fn lemma_max_match(s: Seq<char>, pat: Seq<char>, w: int)
    requires
        matches_at(s, w, pat),
    ensures
        exists|i: int| matches_at(s, i, pat) && forall|j: int| i < j ==> !matches_at(s, j, pat),
    decreases s.len() - w,
{
    if exists|j: int| w < j && matches_at(s, j, pat) {
        let j = choose|j: int| w < j && matches_at(s, j, pat);
        lemma_max_match(s, pat, j);
    } else {
        assert(matches_at(s, w, pat) && forall|j: int| w < j ==> !matches_at(s, j, pat));
    }
}

/// `first_match` is the first occurrence, or `None` when there is none.
pub proof fn lemma_first_match(s: Seq<char>, pat: Seq<char>)
    ensures
        match first_match(s, pat) {
            Some(i) => matches_at(s, i, pat) && forall|j: int| 0 <= j < i ==> !matches_at(s, j, pat),
            None => forall|j: int| !matches_at(s, j, pat),
        },
{
    reveal(first_match);
    if exists|i: int| matches_at(s, i, pat) {
        let w = choose|i: int| matches_at(s, i, pat);
        lemma_min_match(s, pat, w);
    }
}

/// `last_match` is the last occurrence, or `None` when there is none.
pub proof fn lemma_last_match(s: Seq<char>, pat: Seq<char>)
    ensures
        match last_match(s, pat) {
            Some(i) => matches_at(s, i, pat) && forall|j: int| i < j ==> !matches_at(s, j, pat),
            None => forall|j: int| !matches_at(s, j, pat),
        },
{
    reveal(last_match);
    if exists|i: int| matches_at(s, i, pat) {
        let w = choose|i: int| matches_at(s, i, pat);
        lemma_max_match(s, pat, w);
    }
}

proof fn lemma_char_match(s: Seq<char>, i: int, c: char)
    ensures
        matches_at(s, i, seq![c]) <==> (0 <= i < s.len() && s[i] == c),
{
    if 0 <= i < s.len() {
        if s[i] == c {
            assert(s.subrange(i, i + 1) =~= seq![c]);
        } else {
            assert(s.subrange(i, i + 1)[0] != seq![c][0]);
        }
    }
}

proof fn lemma_skip_match(u: Seq<char>, d: int, i: int, p: Seq<char>)
    requires
        0 <= d <= u.len(),
    ensures
        matches_at(u.skip(d), i, p) <==> (0 <= i && matches_at(u, d + i, p)),
{
    if 0 <= i && i + p.len() <= u.len() - d {
        assert(u.skip(d).subrange(i, i + p.len()) =~= u.subrange(d + i, d + i + p.len()));
    }
}

proof fn lemma_take_match(u: Seq<char>, e: int, i: int, p: Seq<char>)
    requires
        0 <= e <= u.len(),
    ensures
        matches_at(u.take(e), i, p) <==> (matches_at(u, i, p) && i + p.len() <= e),
{
    if 0 <= i && i + p.len() <= e {
        assert(u.take(e).subrange(i, i + p.len()) =~= u.subrange(i, i + p.len()));
    }
}

/// Where a hook's body lies: the hook is the first occurrence of `hook`; the
/// body starts just after the first `{` that follows it (at the hook itself
/// when none does); it ends at the last `}` before the first `stop` after
/// the body's start, or before the end of the source without one, so that
/// every `}` of a body with balanced braces is inside it, and no `stop`
/// lies inside it. Without any `}` before that point, the body runs up to
/// the point itself.
pub proof fn lemma_hook_span_meaning(u: Seq<char>, hook: Seq<char>, stop: Option<Seq<char>>)
    requires
        hook.len() > 0,
        stop matches Some(p) ==> p.len() > 0,
    ensures
        match hook_span(u, hook, stop) {
            None => forall|i: int| !matches_at(u, i, hook),
            Some((a, b)) => {
                &&& exists|h: int|
                    {
                        &&& #[trigger] matches_at(u, h, hook)
                        &&& forall|j: int| 0 <= j < h ==> !matches_at(u, j, hook)
                        &&& (h < a && u[a - 1] == '{' && forall|k: int| h <= k < a - 1 ==> u[k] != '{')
                            || (a == h && forall|k: int| h <= k < u.len() ==> u[k] != '{')
                    }
                &&& 0 <= a <= u.len()
                &&& 0 <= b <= u.len()
                &&& (b < u.len() && u[b] == '}') || (forall|k: int| 0 <= k < b ==> u[k] != '}')
                &&& forall|k: int|
                    b < k < u.len() && u[k] == '}' ==> (stop matches Some(p) && exists|m: int|
                        a <= m <= k && #[trigger] matches_at(u, m, p))
                &&& stop matches Some(p) ==> forall|m: int| a <= m < b ==> !#[trigger] matches_at(u, m, p)
            },
        },
{
    lemma_first_match(u, hook);
    match first_match(u, hook) {
        None => {},
        Some(h) => {
            let us = u.skip(h);
            lemma_first_match(us, seq!['{']);
            let a = match first_match(us, seq!['{']) {
                Some(i) => h + i + 1,
                None => h,
            };
            match first_match(us, seq!['{']) {
                Some(i) => {
                    lemma_char_match(us, i, '{');
                    assert(u[a - 1] == us[i]);
                    assert forall|k: int| h <= k < a - 1 implies u[k] != '{' by {
                        lemma_char_match(us, k - h, '{');
                        assert(us[k - h] == u[k]);
                    }
                },
                None => {
                    assert forall|k: int| h <= k < u.len() implies u[k] != '{' by {
                        lemma_char_match(us, k - h, '{');
                        assert(us[k - h] == u[k]);
                    }
                },
            }
            let ua = u.skip(a);
            let e = match stop {
                Some(p) => match first_match(ua, p) {
                    Some(r) => a + r,
                    None => u.len() as int,
                },
                None => u.len() as int,
            };
            match stop {
                Some(p) => {
                    lemma_first_match(ua, p);
                    match first_match(ua, p) {
                        Some(r) => {
                            lemma_skip_match(u, a, r, p);
                            assert forall|m: int| a <= m < e implies !matches_at(u, m, p) by {
                                lemma_skip_match(u, a, m - a, p);
                            }
                        },
                        None => {
                            assert forall|m: int| a <= m implies !matches_at(u, m, p) by {
                                lemma_skip_match(u, a, m - a, p);
                            }
                        },
                    }
                },
                None => {},
            }
            let ut = u.take(e);
            lemma_last_match(ut, seq!['}']);
            let b = match last_match(ut, seq!['}']) {
                Some(j) => j,
                None => e,
            };
            assert(hook_span(u, hook, stop) == Some((a, b)));
            match last_match(ut, seq!['}']) {
                Some(j) => {
                    lemma_char_match(ut, j, '}');
                    assert(u[j] == ut[j]);
                    assert forall|k: int| j < k < e implies u[k] != '}' by {
                        lemma_char_match(ut, k, '}');
                        assert(ut[k] == u[k]);
                    }
                },
                None => {
                    assert forall|k: int| 0 <= k < e implies u[k] != '}' by {
                        lemma_char_match(ut, k, '}');
                        assert(ut[k] == u[k]);
                    }
                },
            }
            assert(matches_at(u, h, hook));
        },
    }
}

/// Where a hook goes: after the last occurrence of the marker, on a line of
/// its own; a missing or empty hook, or a shader without the marker, leaves
/// the shader as it is.
pub proof fn lemma_with_hook_meaning(shader: Seq<char>, marker: Seq<char>, src: Option<Seq<char>>)
    requires
        marker.len() > 0,
    ensures
        (src is None || src->0.len() == 0 || forall|j: int| !matches_at(shader, j, marker)) ==> with_hook(
            shader,
            marker,
            src,
        ) == shader,
        (src matches Some(code) && code.len() > 0) ==> forall|pos: int|
            matches_at(shader, pos, marker) && (forall|j: int| pos < j ==> !matches_at(shader, j, marker))
                ==> with_hook(shader, marker, src) == shader.take(pos + marker.len()) + seq!['\n']
                + src->0 + shader.skip(pos + marker.len()),
{
    lemma_last_match(shader, marker);
    if let Some(code) = src {
        if code.len() > 0 {
            assert forall|pos: int|
                matches_at(shader, pos, marker) && (forall|j: int| pos < j ==> !matches_at(shader, j, marker))
                    implies with_hook(shader, marker, src) == shader.take(pos + marker.len()) + seq!['\n']
                    + code + shader.skip(pos + marker.len()) by {
                match last_match(shader, marker) {
                    Some(q) => {
                        if q < pos {
                            assert(!matches_at(shader, pos, marker));
                        } else if q > pos {
                            assert(!matches_at(shader, q, marker));
                        }
                    },
                    None => {
                        assert(!matches_at(shader, pos, marker));
                    },
                }
            }
        }
    }
}

/// The vertex hook's span in `u`.
pub open spec fn vs_hook_span(u: Seq<char>) -> Option<(int, int)> {
    hook_span(u, "fn user_vs_hook"@, Some("fn user_fs_hook"@))
}

/// The fragment hook's span in `u`.
pub open spec fn fs_hook_span(u: Seq<char>) -> Option<(int, int)> {
    hook_span(u, "fn user_fs_hook"@, None)
}

/// The hooks of `u` can be cut out: no hook's body ends before it starts.
pub open spec fn hooks_well_formed(u: Seq<char>) -> bool {
    &&& vs_hook_span(u) matches Some((a, b)) ==> a <= b
    &&& fs_hook_span(u) matches Some((a, b)) ==> a <= b
}

/// The trimmed source of the hook at `span` in `u`.
pub open spec fn hook_source(u: Seq<char>, span: Option<(int, int)>) -> Option<Seq<char>> {
    match span {
        Some((a, b)) => Some(trimmed(u.subrange(a, b))),
        None => None,
    }
}

/// `shader` with a line break and `src` inserted right after the last
/// `marker` in it; unchanged when `src` is empty or `marker` is absent.
pub open spec fn with_hook(shader: Seq<char>, marker: Seq<char>, src: Option<Seq<char>>) -> Seq<char> {
    match src {
        Some(code) => if code.len() == 0 {
            shader
        } else {
            match last_match(shader, marker) {
                Some(pos) => shader.take(pos + marker.len()) + seq!['\n'] + code + shader.skip(
                    pos + marker.len(),
                ),
                None => shader,
            }
        },
        None => shader,
    }
}

/// The shader built from `template` and the user's hook functions `u`.
pub open spec fn injected_shader(template: Seq<char>, u: Seq<char>) -> Seq<char> {
    let after_vs = with_hook(template, "// USER_VS_HOOK"@, hook_source(u, vs_hook_span(u)));
    with_hook(after_vs, "// USER_FS_HOOK"@, hook_source(u, fs_hook_span(u)))
}

fn matches_at_exec(s: &[char], i: usize, pat: &[char]) -> (b: bool)
    requires
        i + pat@.len() <= s@.len(),
    ensures
        b == matches_at(s@, i as int, pat@),
{
    let mut k: usize = 0;
    while k < pat.len()
        invariant
            k <= pat@.len(),
            i + pat@.len() <= s@.len(),
            s@.len() == s.len(),
            pat@.len() == pat.len(),
            forall|m: int| 0 <= m < k ==> s@[i + m] == pat@[m],
        decreases pat@.len() - k,
    {
        if s[i + k] != pat[k] {
            assert(s@.subrange(i as int, i + pat@.len())[k as int] != pat@[k as int]);
            return false;
        }
        k = k + 1;
    }
    assert(s@.subrange(i as int, i + pat@.len()) =~= pat@);
    true
}

/// The first occurrence of a non-empty `pat` in `s`.
fn first_index_of(s: &[char], pat: &[char]) -> (r: Option<usize>)
    requires
        pat@.len() > 0,
    ensures
        match r {
            Some(i) => first_match(s@, pat@) == Some(i as int) && matches_at(s@, i as int, pat@),
            None => first_match(s@, pat@) is None,
        },
{
    reveal(first_match);
    if pat.len() > s.len() {
        assert(!exists|i: int| matches_at(s@, i, pat@));
        return None;
    }
    let last = s.len() - pat.len();
    let mut i: usize = 0;
    while i <= last
        invariant
            last == s@.len() - pat@.len(),
            s@.len() == s.len(),
            pat@.len() == pat.len(),
            pat@.len() > 0,
            i <= last + 1,
            forall|j: int| 0 <= j < i ==> !#[trigger] matches_at(s@, j, pat@),
        decreases last + 1 - i,
    {
        if matches_at_exec(s, i, pat) {
            proof {
                reveal(first_match);
                assert(matches_at(s@, i as int, pat@) && forall|j: int| 0 <= j < i ==> !matches_at(s@, j, pat@));
                let c = choose|k: int| matches_at(s@, k, pat@) && forall|j: int| 0 <= j < k ==> !matches_at(s@, j, pat@);
                assert(matches_at(s@, c, pat@) && forall|j: int| 0 <= j < c ==> !matches_at(s@, j, pat@));
                if c < i {
                    assert(!matches_at(s@, c, pat@));
                } else if c > i {
                    assert(!matches_at(s@, i as int, pat@));
                }
            }
            return Some(i);
        }
        i = i + 1;
    }
    assert(!exists|j: int| matches_at(s@, j, pat@)) by {
        assert forall|j: int| !matches_at(s@, j, pat@) by {
            if 0 <= j < i {
            }
        }
    }
    None
}

/// The last occurrence of a non-empty `pat` in `s`.
fn last_index_of(s: &[char], pat: &[char]) -> (r: Option<usize>)
    requires
        pat@.len() > 0,
    ensures
        match r {
            Some(i) => last_match(s@, pat@) == Some(i as int) && matches_at(s@, i as int, pat@),
            None => last_match(s@, pat@) is None,
        },
{
    reveal(last_match);
    if pat.len() > s.len() {
        assert(!exists|i: int| matches_at(s@, i, pat@));
        return None;
    }
    let mut n: usize = s.len() - pat.len() + 1;
    while n > 0
        invariant
            n <= s@.len() - pat@.len() + 1,
            s@.len() == s.len(),
            pat@.len() == pat.len(),
            forall|j: int| n <= j ==> !#[trigger] matches_at(s@, j, pat@),
        decreases n,
    {
        let i = n - 1;
        if matches_at_exec(s, i, pat) {
            proof {
                reveal(last_match);
                assert(matches_at(s@, i as int, pat@) && forall|j: int| i < j ==> !matches_at(s@, j, pat@));
                let c = choose|k: int| matches_at(s@, k, pat@) && forall|j: int| k < j ==> !matches_at(s@, j, pat@);
                assert(matches_at(s@, c, pat@) && forall|j: int| c < j ==> !matches_at(s@, j, pat@));
                if c < i {
                    assert(!matches_at(s@, i as int, pat@));
                } else if c > i {
                    assert(!matches_at(s@, c, pat@));
                }
            }
            return Some(i);
        }
        n = i;
    }
    assert(!exists|j: int| matches_at(s@, j, pat@)) by {
        assert forall|j: int| !matches_at(s@, j, pat@) by {
            if 0 <= j {
                assert(n <= j);
            }
        }
    }
    None
}

/// Appends `s[a..b]` to `out`.
fn push_range(out: &mut Vec<char>, s: &[char], a: usize, b: usize)
    requires
        a <= b <= s@.len(),
    ensures
        final(out)@ == old(out)@ + s@.subrange(a as int, b as int),
{
    let mut i: usize = a;
    while i < b
        invariant
            a <= i <= b <= s@.len(),
            out@ == old(out)@ + s@.subrange(a as int, i as int),
        decreases b - i,
    {
        out.push(s[i]);
        assert(out@ =~= old(out)@ + s@.subrange(a as int, i + 1));
        i = i + 1;
    }
}

/// `s` without white space at either end.
fn trimmed_chars(s: &[char]) -> (v: Vec<char>)
    ensures
        v@ == trimmed(s@),
{
    let mut start: usize = 0;
    let mut end: usize = s.len();
    assert(s@.subrange(0, s@.len() as int) =~= s@);
    while start < end && is_whitespace(s[start])
        invariant
            0 <= start <= end <= s@.len(),
            end == s@.len(),
            trimmed(s@.subrange(start as int, end as int)) == trimmed(s@),
        decreases end - start,
    {
        let ghost sub = s@.subrange(start as int, end as int);
        assert(sub.drop_first() =~= s@.subrange(start + 1, end as int));
        start = start + 1;
    }
    while start < end && is_whitespace(s[end - 1])
        invariant
            0 <= start <= end <= s@.len(),
            trimmed(s@.subrange(start as int, end as int)) == trimmed(s@),
            start < end ==> !char_is_whitespace(s@[start as int]),
        decreases end - start,
    {
        let ghost sub = s@.subrange(start as int, end as int);
        assert(sub.drop_last() =~= s@.subrange(start as int, end - 1));
        assert(sub[0] == s@[start as int]);
        end = end - 1;
    }
    proof {
        let sub = s@.subrange(start as int, end as int);
        if start < end {
            assert(sub[0] == s@[start as int]);
            assert(sub.last() == s@[end - 1]);
        }
        assert(trimmed(sub) == sub);
    }
    let mut out: Vec<char> = Vec::new();
    push_range(&mut out, s, start, end);
    assert(out@ =~= s@.subrange(start as int, end as int));
    out
}

spec fn stop_view(stop: Option<&[char]>) -> Option<Seq<char>> {
    match stop {
        Some(p) => Some(p@),
        None => None,
    }
}

/// The span of the hook that `hook` introduces, as `hook_span` says.
fn find_hook_span(u: &[char], hook: &[char], stop: Option<&[char]>) -> (r: Option<(usize, usize)>)
    requires
        hook@.len() > 0,
        stop matches Some(p) ==> p@.len() > 0,
    ensures
        match r {
            Some((a, b)) => hook_span(u@, hook@, stop_view(stop)) == Some((a as int, b as int))
                && a <= u@.len() && b <= u@.len(),
            None => hook_span(u@, hook@, stop_view(stop)) is None,
        },
{
    let open_brace: Vec<char> = vec!['{'];
    let close_brace: Vec<char> = vec!['}'];
    assert(open_brace@ =~= seq!['{']);
    assert(close_brace@ =~= seq!['}']);
    let start = match first_index_of(u, hook) {
        None => {
            return None;
        },
        Some(s) => s,
    };
    proof {
        assert(matches_at(u@, start as int, hook@));
    }
    let after_start = slice_subrange(u, start, u.len());
    assert(after_start@ =~= u@.skip(start as int));
    let body_start = match first_index_of(after_start, open_brace.as_slice()) {
        Some(i) => {
            proof {
                assert(matches_at(after_start@, i as int, open_brace@));
            }
            start + i + 1
        },
        None => start,
    };
    let after_body = slice_subrange(u, body_start, u.len());
    assert(after_body@ =~= u@.skip(body_start as int));
    let end = match stop {
        Some(p) => match first_index_of(after_body, p) {
            Some(r) => {
                proof {
                    assert(matches_at(after_body@, r as int, p@));
                }
                body_start + r
            },
            None => u.len(),
        },
        None => u.len(),
    };
    let before_end = slice_subrange(u, 0, end);
    assert(before_end@ =~= u@.take(end as int));
    let body_end = match last_index_of(before_end, close_brace.as_slice()) {
        Some(j) => {
            proof {
                assert(matches_at(before_end@, j as int, close_brace@));
            }
            j
        },
        None => end,
    };
    Some((body_start, body_end))
}

/// The trimmed source of a hook, as `hook_source` says.
fn hook_code(u: &[char], span: Option<(usize, usize)>) -> (r: Option<Vec<char>>)
    requires
        span matches Some((a, b)) ==> a <= b <= u@.len(),
    ensures
        match span {
            Some((a, b)) => r matches Some(v) && hook_source(u@, Some((a as int, b as int))) == Some(v@),
            None => r is None,
        },
{
    match span {
        Some((a, b)) => {
            let body = slice_subrange(u, a, b);
            Some(trimmed_chars(body))
        },
        None => None,
    }
}

/// `shader` with the hook inserted after its last `marker`, as `with_hook`
/// says.
fn insert_hook(shader: &Vec<char>, marker: &[char], src: &Option<Vec<char>>) -> (out: Vec<char>)
    requires
        marker@.len() > 0,
    ensures
        out@ == with_hook(shader@, marker@, match src {
            Some(v) => Some(v@),
            None => None,
        }),
{
    let mut out: Vec<char> = Vec::new();
    let s = shader.as_slice();
    match src {
        Some(code) => {
            if code.len() == 0 {
                push_range(&mut out, s, 0, s.len());
                assert(out@ =~= shader@);
                return out;
            }
            match last_index_of(s, marker) {
                Some(pos) => {
                    proof {
                        assert(matches_at(s@, pos as int, marker@));
                    }
                    assert(pos + marker@.len() <= shader@.len());
                    assert(marker.len() == marker@.len());
                    assert(shader@.len() == shader.len());
                    let cut = pos + marker.len();
                    push_range(&mut out, s, 0, cut);
                    out.push('\n');
                    push_range(&mut out, code.as_slice(), 0, code.len());
                    push_range(&mut out, s, cut, s.len());
                    assert(code@.subrange(0, code@.len() as int) =~= code@);
                    assert(out@ =~= shader@.take(cut as int) + seq!['\n'] + code@ + shader@.skip(cut as int));
                    out
                },
                None => {
                    push_range(&mut out, s, 0, s.len());
                    assert(out@ =~= shader@);
                    out
                },
            }
        },
        None => {
            push_range(&mut out, s, 0, s.len());
            assert(out@ =~= shader@);
            out
        },
    }
}

/// Whether the hooks of `user_functions` can be cut out (see
/// `hooks_well_formed`); `inject_shader_hooks` needs it.
pub fn shader_hooks_valid(user_functions: &str) -> (b: bool)
    ensures
        b == hooks_well_formed(user_functions@),
{
    let u = chars_of(user_functions);
    let vs_hook = chars_of("fn user_vs_hook");
    let fs_hook = chars_of("fn user_fs_hook");
    proof {
        reveal_strlit("fn user_vs_hook");
        reveal_strlit("fn user_fs_hook");
    }
    let vs = find_hook_span(u.as_slice(), vs_hook.as_slice(), Some(fs_hook.as_slice()));
    let fs = find_hook_span(u.as_slice(), fs_hook.as_slice(), None);
    let vs_ok = match vs {
        Some((a, b)) => a <= b,
        None => true,
    };
    let fs_ok = match fs {
        Some((a, b)) => a <= b,
        None => true,
    };
    vs_ok && fs_ok
}

/// Builds the image shader from `template` and the user's hook functions:
/// the trimmed body of `fn user_vs_hook` (up to the last `}` before any
/// `fn user_fs_hook`) goes on a new line after the last `// USER_VS_HOOK`,
/// then the trimmed body of `fn user_fs_hook` after the last
/// `// USER_FS_HOOK`. A missing hook, an empty body or a missing marker
/// leaves the shader as it is.
pub fn inject_shader_hooks(template: &str, user_functions: &str) -> (out: String)
    requires
        hooks_well_formed(user_functions@),
    ensures
        out@ == injected_shader(template@, user_functions@),
{
    let u = chars_of(user_functions);
    let vs_hook = chars_of("fn user_vs_hook");
    let fs_hook = chars_of("fn user_fs_hook");
    let vs_marker = chars_of("// USER_VS_HOOK");
    let fs_marker = chars_of("// USER_FS_HOOK");
    proof {
        reveal_strlit("fn user_vs_hook");
        reveal_strlit("fn user_fs_hook");
        reveal_strlit("// USER_VS_HOOK");
        reveal_strlit("// USER_FS_HOOK");
    }
    let vs_span = find_hook_span(u.as_slice(), vs_hook.as_slice(), Some(fs_hook.as_slice()));
    let fs_span = find_hook_span(u.as_slice(), fs_hook.as_slice(), None);
    let vs_src = hook_code(u.as_slice(), vs_span);
    let fs_src = hook_code(u.as_slice(), fs_span);
    let t = chars_of(template);
    let after_vs = insert_hook(&t, vs_marker.as_slice(), &vs_src);
    let done = insert_hook(&after_vs, fs_marker.as_slice(), &fs_src);
    string_from_chars(&done)
}

} // verus!
