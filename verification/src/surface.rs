//! Choices of how the window surface presents frames: present mode, alpha
//! compositing mode and pixel format, among what the surface supports.
use vstd::prelude::*;

use crate::text::{char_is_whitespace, chars_of, is_whitespace};

verus! {

/// How finished frames reach the display.
#[derive(Debug, Clone, Copy, PartialEq, Eq, Structural)]
pub enum PresentMode {
    AutoVsync,
    AutoNoVsync,
    Fifo,
    FifoRelaxed,
    Immediate,
    Mailbox,
}

/// How the window is composited with what lies behind it.
#[derive(Debug, Clone, Copy, PartialEq, Eq, Structural)]
pub enum AlphaMode {
    Auto,
    Opaque,
    PreMultiplied,
    PostMultiplied,
    Inherit,
}

/// Surface pixel formats, as far as the choice tells them apart.
#[derive(Debug, Clone, Copy, PartialEq, Eq, Structural)]
pub enum SurfaceFormatKind {
    Rgba8UnormSrgb,
    Bgra8UnormSrgb,
    Rgba8Unorm,
    Bgra8Unorm,
    Other,
}

/// `s` without its leading and trailing white space.
pub open spec fn trimmed(s: Seq<char>) -> Seq<char>
    decreases s.len(),
{
    if s.len() == 0 {
        s
    } else if char_is_whitespace(s[0]) {
        trimmed(s.drop_first())
    } else if char_is_whitespace(s.last()) {
        trimmed(s.drop_last())
    } else {
        s
    }
}

/// `t` is `s[i..j]`, with only white space before and after it in `s`,
/// and, unless empty, it neither starts nor ends with white space.
pub open spec fn trims_to(s: Seq<char>, t: Seq<char>, i: int, j: int) -> bool {
    &&& 0 <= i <= j <= s.len()
    &&& t == s.subrange(i, j)
    &&& forall|k: int| 0 <= k < i ==> char_is_whitespace(#[trigger] s[k])
    &&& forall|k: int| j <= k < s.len() ==> char_is_whitespace(#[trigger] s[k])
    &&& i < j ==> !char_is_whitespace(s[i]) && !char_is_whitespace(s[j - 1])
}

proof fn lemma_trims_front(s: Seq<char>, t: Seq<char>, i: int, j: int)
    requires
        s.len() > 0,
        char_is_whitespace(s[0]),
        trims_to(s.drop_first(), t, i, j),
    ensures
        trims_to(s, t, i + 1, j + 1),
{
    let d = s.drop_first();
    assert(d.subrange(i, j) =~= s.subrange(i + 1, j + 1));
    assert forall|k: int| 0 <= k < i + 1 implies char_is_whitespace(#[trigger] s[k]) by {
        if k > 0 {
            assert(s[k] == d[k - 1]);
        }
    }
    assert forall|k: int| j + 1 <= k < s.len() implies char_is_whitespace(#[trigger] s[k]) by {
        assert(s[k] == d[k - 1]);
    }
    if i < j {
        assert(s[i + 1] == d[i]);
        assert(s[j] == d[j - 1]);
    }
}

proof fn lemma_trims_back(s: Seq<char>, t: Seq<char>, i: int, j: int)
    requires
        s.len() > 0,
        char_is_whitespace(s.last()),
        trims_to(s.drop_last(), t, i, j),
    ensures
        trims_to(s, t, i, j),
{
    let d = s.drop_last();
    assert(d.subrange(i, j) =~= s.subrange(i, j));
    assert forall|k: int| 0 <= k < i implies char_is_whitespace(#[trigger] s[k]) by {
        assert(s[k] == d[k]);
    }
    assert forall|k: int| j <= k < s.len() implies char_is_whitespace(#[trigger] s[k]) by {
        if k < d.len() {
            assert(s[k] == d[k]);
        }
    }
    if i < j {
        assert(s[i] == d[i]);
        assert(s[j - 1] == d[j - 1]);
    }
}

/// Trimming removes white space from both ends and nothing else: the result
/// is a stretch `s[i..j]` of `s` with only white space before and after it,
/// and, unless empty, it neither starts nor ends with white space.
pub proof fn lemma_trimmed_meaning(s: Seq<char>)
    ensures
        exists|i: int, j: int| trims_to(s, trimmed(s), i, j),
    decreases s.len(),
{
    if s.len() == 0 {
        assert(s.subrange(0, 0) =~= s);
        assert(trims_to(s, trimmed(s), 0, 0));
    } else if char_is_whitespace(s[0]) {
        lemma_trimmed_meaning(s.drop_first());
        let (i, j) = choose|i: int, j: int| trims_to(s.drop_first(), trimmed(s.drop_first()), i, j);
        lemma_trims_front(s, trimmed(s), i, j);
    } else if char_is_whitespace(s.last()) {
        lemma_trimmed_meaning(s.drop_last());
        let (i, j) = choose|i: int, j: int| trims_to(s.drop_last(), trimmed(s.drop_last()), i, j);
        lemma_trims_back(s, trimmed(s), i, j);
    } else {
        assert(s.subrange(0, s.len() as int) =~= s);
        assert(trims_to(s, trimmed(s), 0, s.len() as int));
    }
}

/// ASCII lowercase of one character.
pub open spec fn ascii_lower(c: char) -> char {
    if 'A' <= c <= 'Z' {
        ((c as u32) + 32) as char
    } else {
        c
    }
}

/// `s` with its ASCII capitals lowercased.
pub open spec fn ascii_lowercase(s: Seq<char>) -> Seq<char> {
    s.map_values(|c: char| ascii_lower(c))
}

/// The present mode a setting names once trimmed and lowercased.
pub open spec fn present_mode_named(name: Seq<char>) -> Option<PresentMode> {
    if name == "immediate"@ {
        Some(PresentMode::Immediate)
    } else if name == "mailbox"@ {
        Some(PresentMode::Mailbox)
    } else if name == "fifo"@ {
        Some(PresentMode::Fifo)
    } else if name == "auto"@ || name == "auto_vsync"@ {
        Some(PresentMode::AutoVsync)
    } else if name == "auto_no_vsync"@ {
        Some(PresentMode::AutoNoVsync)
    } else {
        None
    }
}

/// Each documented setting names its own present mode, and no other text
/// names one: `immediate`, `mailbox`, `fifo`, `auto` or `auto_vsync`, and
/// `auto_no_vsync`.
pub proof fn lemma_present_mode_settings()
    ensures
        present_mode_named("immediate"@) == Some(PresentMode::Immediate),
        present_mode_named("mailbox"@) == Some(PresentMode::Mailbox),
        present_mode_named("fifo"@) == Some(PresentMode::Fifo),
        present_mode_named("auto"@) == Some(PresentMode::AutoVsync),
        present_mode_named("auto_vsync"@) == Some(PresentMode::AutoVsync),
        present_mode_named("auto_no_vsync"@) == Some(PresentMode::AutoNoVsync),
        forall|n: Seq<char>|
            #[trigger] present_mode_named(n) is Some ==> n == "immediate"@ || n == "mailbox"@ || n == "fifo"@
                || n == "auto"@ || n == "auto_vsync"@ || n == "auto_no_vsync"@,
{
    reveal_strlit("immediate");
    reveal_strlit("mailbox");
    reveal_strlit("fifo");
    reveal_strlit("auto");
    reveal_strlit("auto_vsync");
    reveal_strlit("auto_no_vsync");
    assert("immediate"@ != "mailbox"@ && "immediate"@ != "fifo"@ && "immediate"@ != "auto"@
        && "immediate"@ != "auto_vsync"@ && "immediate"@ != "auto_no_vsync"@) by {
        assert("immediate"@[0] != "mailbox"@[0]);
        assert("immediate"@[0] != "fifo"@[0]);
        assert("immediate"@[0] != "auto"@[0]);
        assert("immediate"@[0] != "auto_vsync"@[0]);
        assert("immediate"@[0] != "auto_no_vsync"@[0]);
    }
    assert("mailbox"@ != "fifo"@ && "mailbox"@ != "auto"@ && "mailbox"@ != "auto_vsync"@
        && "mailbox"@ != "auto_no_vsync"@) by {
        assert("mailbox"@[0] != "fifo"@[0]);
        assert("mailbox"@[0] != "auto"@[0]);
        assert("mailbox"@[0] != "auto_vsync"@[0]);
        assert("mailbox"@[0] != "auto_no_vsync"@[0]);
    }
    assert("fifo"@ != "auto"@ && "fifo"@ != "auto_vsync"@ && "fifo"@ != "auto_no_vsync"@) by {
        assert("fifo"@[0] != "auto"@[0]);
        assert("fifo"@[0] != "auto_vsync"@[0]);
        assert("fifo"@[0] != "auto_no_vsync"@[0]);
    }
    assert("auto"@ != "auto_no_vsync"@ && "auto_vsync"@ != "auto_no_vsync"@) by {
        assert("auto"@.len() != "auto_no_vsync"@.len());
        assert("auto_vsync"@[5] != "auto_no_vsync"@[5]);
    }
}

fn lower_char(c: char) -> (r: char)
    ensures
        r == ascii_lower(c),
{
    if 'A' <= c && c <= 'Z' {
        let code = (c as u32) + 32;
        assert(code <= 0x5a + 32);
        proof {
            assert(0x61 <= code <= 0x7a);
        }
        char_from_ascii(code)
    } else {
        c
    }
}

/// The character with ASCII code `code`.
fn char_from_ascii(code: u32) -> (c: char)
    requires
        code < 128,
    ensures
        c == code as char,
{
    let b = code as u8;
    b as char
}

/// The trimmed, ASCII-lowercased characters of `s`.
pub(crate) fn normalized(s: &str) -> (v: Vec<char>)
    ensures
        v@ == ascii_lowercase(trimmed(s@)),
{
    let chars = chars_of(s);
    let mut start: usize = 0;
    let mut end: usize = chars.len();
    proof {
        assert(chars@.subrange(0, chars@.len() as int) =~= chars@);
    }
    while start < end && is_whitespace(chars[start])
        invariant
            0 <= start <= end <= chars@.len(),
            trimmed(chars@.subrange(start as int, end as int)) == trimmed(s@),
            chars@ == s@,
            end == chars@.len(),
        decreases end - start,
    {
        let ghost sub = chars@.subrange(start as int, end as int);
        assert(sub.drop_first() =~= chars@.subrange(start + 1, end as int));
        start = start + 1;
    }
    while start < end && is_whitespace(chars[end - 1])
        invariant
            0 <= start <= end <= chars@.len(),
            trimmed(chars@.subrange(start as int, end as int)) == trimmed(s@),
            start < end ==> !char_is_whitespace(chars@[start as int]),
        decreases end - start,
    {
        let ghost sub = chars@.subrange(start as int, end as int);
        assert(sub.drop_last() =~= chars@.subrange(start as int, end - 1));
        assert(sub[0] == chars@[start as int]);
        end = end - 1;
    }
    proof {
        let sub = chars@.subrange(start as int, end as int);
        if start < end {
            assert(sub[0] == chars@[start as int]);
            assert(sub.last() == chars@[end - 1]);
        }
        assert(trimmed(sub) == sub);
    }
    let mut out: Vec<char> = Vec::new();
    let mut i: usize = start;
    while i < end
        invariant
            start <= i <= end <= chars@.len(),
            out@ == ascii_lowercase(chars@.subrange(start as int, i as int)),
        decreases end - i,
    {
        out.push(lower_char(chars[i]));
        assert(out@ =~= ascii_lowercase(chars@.subrange(start as int, i + 1)));
        i = i + 1;
    }
    out
}

/// Whether `v` holds exactly the characters of `lit`.
pub(crate) fn chars_are(v: &Vec<char>, lit: &str) -> (r: bool)
    ensures
        r == (v@ == lit@),
{
    let w = chars_of(lit);
    if v.len() != w.len() {
        return false;
    }
    let mut i: usize = 0;
    while i < v.len()
        invariant
            0 <= i <= v@.len(),
            v@.len() == w@.len(),
            w@ == lit@,
            forall|j: int| 0 <= j < i ==> v@[j] == w@[j],
        decreases v@.len() - i,
    {
        if v[i] != w[i] {
            return false;
        }
        i = i + 1;
    }
    assert(v@ =~= w@);
    true
}

/// The present mode that a `SPOT_PRESENT_MODE` setting asks for:
/// `immediate`, `mailbox`, `fifo`, `auto` or `auto_vsync`, or
/// `auto_no_vsync`, ignoring surrounding white space and ASCII case.
pub fn parse_present_mode(value: &str) -> (m: Option<PresentMode>)
    ensures
        m == present_mode_named(ascii_lowercase(trimmed(value@))),
{
    let name = normalized(value);
    if chars_are(&name, "immediate") {
        Some(PresentMode::Immediate)
    } else if chars_are(&name, "mailbox") {
        Some(PresentMode::Mailbox)
    } else if chars_are(&name, "fifo") {
        Some(PresentMode::Fifo)
    } else if chars_are(&name, "auto") || chars_are(&name, "auto_vsync") {
        Some(PresentMode::AutoVsync)
    } else if chars_are(&name, "auto_no_vsync") {
        Some(PresentMode::AutoNoVsync)
    } else {
        None
    }
}

fn has_present_mode(modes: &[PresentMode], m: PresentMode) -> (b: bool)
    ensures
        b == modes@.contains(m),
{
    let mut i: usize = 0;
    while i < modes.len()
        invariant
            0 <= i <= modes@.len(),
            forall|j: int| 0 <= j < i ==> modes@[j] != m,
        decreases modes@.len() - i,
    {
        if modes[i] == m {
            return true;
        }
        i = i + 1;
    }
    false
}

/// Present modes in the order they are preferred when no supported one is
/// asked for.
pub open spec fn present_preference() -> Seq<PresentMode> {
    seq![
        PresentMode::AutoVsync,
        PresentMode::Fifo,
        PresentMode::Mailbox,
        PresentMode::AutoNoVsync,
        PresentMode::Immediate,
    ]
}

/// The first of `prefs` that `supported` holds, else the first supported
/// mode.
pub open spec fn first_supported<T>(prefs: Seq<T>, supported: Seq<T>) -> T
    decreases prefs.len(),
{
    if prefs.len() == 0 {
        supported[0]
    } else if supported.contains(prefs[0]) {
        prefs[0]
    } else {
        first_supported(prefs.drop_first(), supported)
    }
}

/// The present mode for a surface that supports `supported`: the requested
/// one if it is supported, else the first supported of AutoVsync, Fifo,
/// Mailbox, AutoNoVsync and Immediate, else the first supported mode.
pub fn pick_present_mode(requested: Option<PresentMode>, supported: &[PresentMode]) -> (m: PresentMode)
    requires
        supported@.len() > 0,
    ensures
        m == match requested {
            Some(r) if supported@.contains(r) => r,
            _ => first_supported(present_preference(), supported@),
        },
{
    if let Some(r) = requested {
        if has_present_mode(supported, r) {
            return r;
        }
    }
    let prefs = [
        PresentMode::AutoVsync,
        PresentMode::Fifo,
        PresentMode::Mailbox,
        PresentMode::AutoNoVsync,
        PresentMode::Immediate,
    ];
    assert(present_preference().skip(0) =~= present_preference());
    let mut i: usize = 0;
    while i < 5
        invariant
            0 <= i <= 5,
            prefs@ == present_preference(),
            supported@.len() > 0,
            requested matches Some(r) ==> !supported@.contains(r),
            first_supported(present_preference(), supported@) == first_supported(present_preference().skip(i as int), supported@),
        decreases 5 - i,
    {
        assert(present_preference().skip(i as int).drop_first() =~= present_preference().skip(i + 1));
        assert(present_preference().skip(i as int)[0] == prefs@[i as int]);
        if has_present_mode(supported, prefs[i]) {
            return prefs[i];
        }
        i = i + 1;
    }
    supported[0]
}

fn has_alpha_mode(modes: &[AlphaMode], m: AlphaMode) -> (b: bool)
    ensures
        b == modes@.contains(m),
{
    let mut i: usize = 0;
    while i < modes.len()
        invariant
            0 <= i <= modes@.len(),
            forall|j: int| 0 <= j < i ==> modes@[j] != m,
        decreases modes@.len() - i,
    {
        if modes[i] == m {
            return true;
        }
        i = i + 1;
    }
    false
}

/// Alpha modes that can show what lies behind the window, in the order they
/// are tried; `inherit_first` puts `Inherit` first (the platforms whose GL
/// surfaces need it for transparency), else last.
pub open spec fn transparent_preference(inherit_first: bool) -> Seq<AlphaMode> {
    if inherit_first {
        seq![AlphaMode::Inherit, AlphaMode::PostMultiplied, AlphaMode::PreMultiplied]
    } else {
        seq![AlphaMode::PostMultiplied, AlphaMode::PreMultiplied, AlphaMode::Inherit]
    }
}

/// The alpha mode for a surface that supports `supported`: opaque when no
/// transparency is asked for and the surface can do it, else the first
/// supported transparent-capable mode, else the first supported mode.
pub fn pick_alpha_mode(supported: &[AlphaMode], requested_transparent: bool, inherit_first: bool) -> (m: AlphaMode)
    requires
        supported@.len() > 0,
    ensures
        m == if !requested_transparent && supported@.contains(AlphaMode::Opaque) {
            AlphaMode::Opaque
        } else {
            first_supported(transparent_preference(inherit_first), supported@)
        },
{
    if !requested_transparent && has_alpha_mode(supported, AlphaMode::Opaque) {
        return AlphaMode::Opaque;
    }
    let prefs = if inherit_first {
        [AlphaMode::Inherit, AlphaMode::PostMultiplied, AlphaMode::PreMultiplied]
    } else {
        [AlphaMode::PostMultiplied, AlphaMode::PreMultiplied, AlphaMode::Inherit]
    };
    assert(prefs@ == transparent_preference(inherit_first));
    assert(transparent_preference(inherit_first).skip(0) =~= transparent_preference(inherit_first));
    let mut i: usize = 0;
    while i < 3
        invariant
            0 <= i <= 3,
            prefs@ == transparent_preference(inherit_first),
            supported@.len() > 0,
            !(!requested_transparent && supported@.contains(AlphaMode::Opaque)),
            first_supported(transparent_preference(inherit_first), supported@) == first_supported(
                transparent_preference(inherit_first).skip(i as int),
                supported@,
            ),
        decreases 3 - i,
    {
        assert(transparent_preference(inherit_first).skip(i as int).drop_first() =~= transparent_preference(
            inherit_first,
        ).skip(i + 1));
        assert(transparent_preference(inherit_first).skip(i as int)[0] == prefs@[i as int]);
        if has_alpha_mode(supported, prefs[i]) {
            return prefs[i];
        }
        i = i + 1;
    }
    supported[0]
}

/// Formats in the order they are preferred: sRGB before linear, RGBA before
/// BGRA.
pub open spec fn format_preference() -> Seq<SurfaceFormatKind> {
    seq![
        SurfaceFormatKind::Rgba8UnormSrgb,
        SurfaceFormatKind::Bgra8UnormSrgb,
        SurfaceFormatKind::Rgba8Unorm,
        SurfaceFormatKind::Bgra8Unorm,
    ]
}

fn position_of_format(formats: &[SurfaceFormatKind], f: SurfaceFormatKind) -> (r: Option<usize>)
    ensures
        match r {
            Some(i) => i < formats@.len() && formats@[i as int] == f && forall|j: int| 0 <= j < i ==> formats@[j] != f,
            None => !formats@.contains(f),
        },
{
    let mut i: usize = 0;
    while i < formats.len()
        invariant
            0 <= i <= formats@.len(),
            forall|j: int| 0 <= j < i ==> formats@[j] != f,
        decreases formats@.len() - i,
    {
        if formats[i] == f {
            return Some(i);
        }
        i = i + 1;
    }
    None
}

/// Position in `formats` of the surface format to use: the first occurrence
/// of the most preferred format it holds, else 0.
pub fn pick_surface_format(formats: &[SurfaceFormatKind]) -> (i: usize)
    requires
        formats@.len() > 0,
    ensures
        i < formats@.len(),
        formats@[i as int] == first_supported(format_preference(), formats@),
        forall|j: int| 0 <= j < i ==> formats@[j] != formats@[i as int],
{
    let prefs = [
        SurfaceFormatKind::Rgba8UnormSrgb,
        SurfaceFormatKind::Bgra8UnormSrgb,
        SurfaceFormatKind::Rgba8Unorm,
        SurfaceFormatKind::Bgra8Unorm,
    ];
    assert(format_preference().skip(0) =~= format_preference());
    let mut k: usize = 0;
    while k < 4
        invariant
            0 <= k <= 4,
            prefs@ == format_preference(),
            formats@.len() > 0,
            first_supported(format_preference(), formats@) == first_supported(format_preference().skip(k as int), formats@),
        decreases 4 - k,
    {
        assert(format_preference().skip(k as int).drop_first() =~= format_preference().skip(k + 1));
        assert(format_preference().skip(k as int)[0] == prefs@[k as int]);
        match position_of_format(formats, prefs[k]) {
            Some(i) => {
                return i;
            },
            None => {},
        }
        k = k + 1;
    }
    0
}

} // verus!
