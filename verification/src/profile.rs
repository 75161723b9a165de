//! The frame profiler's own logic: its switches, when a frame is sampled,
//! reported or ends the run, GPU timestamp readback decoding and CSV quoting
//! of summary fields.
use vstd::bytes::{spec_u64_from_le_bytes, u64_from_le_bytes};
use vstd::prelude::*;
use vstd::slice::slice_subrange;

use crate::surface::{ascii_lowercase, chars_are, normalized, trimmed};
use crate::text::{chars_of, string_from_chars};

verus! {

/// The little-endian `u64` stored at byte offset `off`.
pub open spec fn stamp_at(bytes: Seq<u8>, off: int) -> u64 {
    spec_u64_from_le_bytes(bytes.subrange(off, off + 8))
}

/// Number of complete (begin, end) timestamp pairs in a readback buffer.
pub open spec fn pass_count(bytes: Seq<u8>) -> int {
    bytes.len() as int / 16
}

/// Begin timestamp of pass `i`.
pub open spec fn pass_start(bytes: Seq<u8>, i: int) -> u64 {
    stamp_at(bytes, 16 * i)
}

/// End timestamp of pass `i`.
pub open spec fn pass_end(bytes: Seq<u8>, i: int) -> u64 {
    stamp_at(bytes, 16 * i + 8)
}

/// Pass `i` was written: its begin stamp is set and its end is not before its begin.
pub open spec fn valid_pass(bytes: Seq<u8>, i: int) -> bool {
    0 <= i < pass_count(bytes) && pass_start(bytes, i) > 0 && pass_end(bytes, i) >= pass_start(
        bytes,
        i,
    )
}

/// Decodes a timestamp-query readback buffer of (begin, end) pairs and returns
/// the GPU time spanned by all valid passes: the latest end minus the earliest
/// begin, so overlapping passes are not counted twice. Returns `None` when no
/// pass is valid. Trailing bytes that do not make a whole pair are ignored.
pub fn gpu_timestamp_span_ticks(bytes: &[u8]) -> (res: Option<u64>)
    ensures
        res is Some <==> exists|i: int| valid_pass(bytes@, i),
        res matches Some(d) ==> exists|a: int, b: int|
            #![trigger pass_start(bytes@, a), pass_end(bytes@, b)]
            valid_pass(bytes@, a) && valid_pass(bytes@, b) && d == pass_end(bytes@, b) - pass_start(
                bytes@,
                a,
            ) && forall|k: int|
                valid_pass(bytes@, k) ==> pass_start(bytes@, a) <= #[trigger] pass_start(bytes@, k)
                    && pass_end(bytes@, k) <= pass_end(bytes@, b),
{
    let len = bytes.len();
    let n = len / 16;
    let mut first_start: u64 = u64::MAX;
    let mut last_end: u64 = 0;
    let mut valid_passes: usize = 0;
    let ghost mut a: int = 0;
    let ghost mut b: int = 0;
    let mut i: usize = 0;
    assert(16 * n <= len);
    while i < n
        invariant
            n == pass_count(bytes@),
            16 * n <= len,
            len == bytes@.len(),
            0 <= i <= n,
            valid_passes <= i,
            valid_passes == 0 ==> first_start == u64::MAX && last_end == 0,
            valid_passes > 0 <==> exists|k: int| 0 <= k < i && valid_pass(bytes@, k),
            valid_passes > 0 ==> 0 <= a < i && valid_pass(bytes@, a) && first_start == pass_start(
                bytes@,
                a,
            ),
            valid_passes > 0 ==> 0 <= b < i && valid_pass(bytes@, b) && last_end == pass_end(
                bytes@,
                b,
            ),
            forall|k: int|
                0 <= k < i && valid_pass(bytes@, k) ==> first_start <= #[trigger] pass_start(
                    bytes@,
                    k,
                ) && pass_end(bytes@, k) <= last_end,
        decreases n - i,
    {
        let off = 16 * i;
        let start = u64_from_le_bytes(slice_subrange(bytes, off, off + 8));
        let end = u64_from_le_bytes(slice_subrange(bytes, off + 8, off + 16));
        assert(start == pass_start(bytes@, i as int));
        assert(end == pass_end(bytes@, i as int));
        if start > 0 && end >= start {
            if start < first_start {
                first_start = start;
                proof {
                    a = i as int;
                }
            }
            if end > last_end {
                last_end = end;
                proof {
                    b = i as int;
                }
            }
            if valid_passes == 0 {
                proof {
                    a = i as int;
                    b = i as int;
                }
            }
            valid_passes += 1;
            assert(valid_pass(bytes@, i as int));
        } else {
            assert(!valid_pass(bytes@, i as int));
            assert(forall|k: int| 0 <= k < i + 1 && valid_pass(bytes@, k) ==> 0 <= k < i);
        }
        i += 1;
    }
    proof {
        if valid_passes > 0 {
            assert(pass_end(bytes@, a) >= pass_start(bytes@, a));
        } else {
            assert forall|k: int| !valid_pass(bytes@, k) by {
                if valid_pass(bytes@, k) {
                    assert(0 <= k < i);
                }
            }
        }
    }
    if valid_passes > 0 && last_end >= first_start {
        Some(last_end - first_start)
    } else {
        None
    }
}

/// `s` with every double quote doubled.
pub open spec fn escape_quotes(s: Seq<char>) -> Seq<char>
    decreases s.len(),
{
    if s.len() == 0 {
        Seq::empty()
    } else {
        escape_quotes(s.drop_last()) + if s.last() == '"' {
            seq!['"', '"']
        } else {
            seq![s.last()]
        }
    }
}

/// Quotes a value for a CSV field: surrounds it with double quotes and
/// doubles every double quote inside it.
pub fn csv_field(value: &str) -> (out: String)
    ensures
        out@ == seq!['"'] + escape_quotes(value@) + seq!['"'],
{
    let chars = chars_of(value);
    let mut res: Vec<char> = Vec::new();
    res.push('"');
    let mut i: usize = 0;
    while i < chars.len()
        invariant
            chars@ == value@,
            0 <= i <= chars.len(),
            res@ == seq!['"'] + escape_quotes(chars@.take(i as int)),
        decreases chars.len() - i,
    {
        assert(chars@.take(i + 1).drop_last() =~= chars@.take(i as int));
        if chars[i] == '"' {
            res.push('"');
            res.push('"');
        } else {
            res.push(chars[i]);
        }
        assert(res@ =~= seq!['"'] + escape_quotes(chars@.take(i + 1)));
        i += 1;
    }
    assert(chars@.take(i as int) =~= chars@);
    res.push('"');
    string_from_chars(&res)
}


/// Whether a switch set to `name` (already trimmed and lowercased) is on:
/// everything but an empty value, `0`, `false`, `off` and `no` turns it on.
pub open spec fn switch_on(name: Seq<char>) -> bool {
    !(name == ""@ || name == "0"@ || name == "false"@ || name == "off"@ || name == "no"@)
}

/// The state of a profiling switch: `setting` is its value where one is
/// set, read without surrounding white space and ASCII case; `default`
/// where none is.
pub fn switch_enabled(setting: Option<&str>, default: bool) -> (b: bool)
    ensures
        b == match setting {
            Some(v) => switch_on(ascii_lowercase(trimmed(v@))),
            None => default,
        },
{
    match setting {
        Some(v) => {
            let name = normalized(v);
            !(chars_are(&name, "") || chars_are(&name, "0") || chars_are(&name, "false") || chars_are(
                &name,
                "off",
            ) || chars_are(&name, "no"))
        },
        None => default,
    }
}

/// When frames are profiled: the frames skipped first, the frames sampled
/// after them (0: no limit), how often a report is printed (every that many
/// samples; 0: never), how many samples are kept, and whether the run ends
/// once sampling is done.
#[derive(Debug, Clone, Copy, PartialEq, Eq, Structural)]
pub struct ProfileSchedule {
    pub warmup_frames: u64,
    pub sample_frames: u64,
    pub report_every: u64,
    pub max_samples: u64,
    pub exit_after_sample: bool,
}

impl ProfileSchedule {
    /// A schedule; at least one sample is kept.
    pub fn new(
        warmup_frames: u64,
        sample_frames: u64,
        report_every: u64,
        max_samples: u64,
        exit_after_sample: bool,
    ) -> (s: Self)
        ensures
            s == (ProfileSchedule {
                warmup_frames,
                sample_frames,
                report_every,
                max_samples: if max_samples == 0 { 1 } else { max_samples },
                exit_after_sample,
            }),
    {
        ProfileSchedule {
            warmup_frames,
            sample_frames,
            report_every,
            max_samples: if max_samples == 0 { 1 } else { max_samples },
            exit_after_sample,
        }
    }
}

/// How far profiling has come: frames rendered, frames sampled, whether
/// sampling is done, and whether the full-ring warning was given.
#[derive(Debug, Clone, Copy, PartialEq, Eq, Structural)]
pub struct ProfileProgress {
    pub rendered_frames: u64,
    pub sampled_frames: u64,
    pub sample_complete: bool,
    pub warned_capacity: bool,
}

/// What to do with one rendered frame: announce the end of the warm-up,
/// store a sample of it, first drop the oldest sample, warn that the ring is
/// full, print a report, end the run.
#[derive(Debug, Clone, Copy, PartialEq, Eq, Structural)]
pub struct FrameDecision {
    pub warmup_done: bool,
    pub take_sample: bool,
    pub drop_oldest: bool,
    pub warn_capacity: bool,
    pub print_report: bool,
    pub exit: bool,
}

/// Progress after one more rendered frame, and what to do with it, with
/// `stored` samples kept so far.
pub open spec fn frame_outcome(p: ProfileProgress, s: ProfileSchedule, stored: int) -> (ProfileProgress, FrameDecision) {
    let rendered = (p.rendered_frames + 1) as u64;
    if rendered <= s.warmup_frames || p.sample_complete {
        (
            ProfileProgress { rendered_frames: rendered, ..p },
            FrameDecision {
                warmup_done: rendered == s.warmup_frames,
                take_sample: false,
                drop_oldest: false,
                warn_capacity: false,
                print_report: false,
                exit: false,
            },
        )
    } else {
        let sampled = (p.sampled_frames + 1) as u64;
        let full = stored == s.max_samples;
        let complete = s.sample_frames > 0 && sampled >= s.sample_frames;
        (
            ProfileProgress {
                rendered_frames: rendered,
                sampled_frames: sampled,
                sample_complete: complete,
                warned_capacity: p.warned_capacity || full,
            },
            FrameDecision {
                warmup_done: false,
                take_sample: true,
                drop_oldest: full,
                warn_capacity: full && !p.warned_capacity,
                print_report: s.report_every > 0 && sampled % s.report_every == 0,
                exit: complete && s.exit_after_sample,
            },
        )
    }
}

impl ProfileProgress {
    /// Nothing rendered yet.
    pub fn new() -> (p: Self)
        ensures
            p == (ProfileProgress {
                rendered_frames: 0,
                sampled_frames: 0,
                sample_complete: false,
                warned_capacity: false,
            }),
    {
        ProfileProgress { rendered_frames: 0, sampled_frames: 0, sample_complete: false, warned_capacity: false }
    }

    /// No more frames are sampled than rendered; with a sample limit, no
    /// more than the limit, and sampling is done exactly when it is reached.
    pub open spec fn wf(self, s: ProfileSchedule) -> bool {
        &&& self.sampled_frames <= self.rendered_frames
        &&& s.sample_frames > 0 ==> self.sampled_frames <= s.sample_frames && (self.sample_complete
            <==> self.sampled_frames == s.sample_frames)
        &&& s.sample_frames == 0 ==> !self.sample_complete
    }

    /// Counts one rendered frame and decides what to do with it, with
    /// `stored_samples` samples kept so far.
    pub fn record_frame(&mut self, schedule: &ProfileSchedule, stored_samples: usize) -> (d: FrameDecision)
        requires
            old(self).wf(*schedule),
            old(self).rendered_frames < u64::MAX,
        ensures
            (*final(self), d) == frame_outcome(*old(self), *schedule, stored_samples as int),
            final(self).wf(*schedule),
    {
        let rendered = self.rendered_frames + 1;
        self.rendered_frames = rendered;
        if rendered <= schedule.warmup_frames || self.sample_complete {
            return FrameDecision {
                warmup_done: rendered == schedule.warmup_frames,
                take_sample: false,
                drop_oldest: false,
                warn_capacity: false,
                print_report: false,
                exit: false,
            };
        }
        let sampled = self.sampled_frames + 1;
        self.sampled_frames = sampled;
        let full = stored_samples as u64 == schedule.max_samples;
        let warn = full && !self.warned_capacity;
        if full {
            self.warned_capacity = true;
        }
        let report = schedule.report_every > 0 && sampled % schedule.report_every == 0;
        let complete = schedule.sample_frames > 0 && sampled >= schedule.sample_frames;
        self.sample_complete = complete;
        FrameDecision {
            warmup_done: false,
            take_sample: true,
            drop_oldest: full,
            warn_capacity: warn,
            print_report: report,
            exit: complete && schedule.exit_after_sample,
        }
    }
}

/// The sample ring never outgrows its size: a frame that stores a sample
/// into a full ring first drops the oldest one.
pub proof fn lemma_profile_ring_bounded(p: ProfileProgress, s: ProfileSchedule, stored: int)
    requires
        0 <= stored <= s.max_samples,
    ensures
        ({
            let d = frame_outcome(p, s, stored).1;
            stored - (if d.drop_oldest { 1int } else { 0 }) + (if d.take_sample { 1int } else { 0 }) <= s.max_samples
        }),
{
}

/// The full-ring warning is given at most once: once given, no later frame
/// gives it again.
pub proof fn lemma_profile_warns_once(p: ProfileProgress, s: ProfileSchedule, stored: int)
    requires
        p.warned_capacity,
    ensures
        !frame_outcome(p, s, stored).1.warn_capacity,
        frame_outcome(p, s, stored).0.warned_capacity,
{
}

/// Once sampling is done, no frame is sampled and the run is not asked to
/// end again.
pub proof fn lemma_profile_done_takes_no_sample(p: ProfileProgress, s: ProfileSchedule, stored: int)
    requires
        p.sample_complete,
    ensures
        !frame_outcome(p, s, stored).1.take_sample,
        !frame_outcome(p, s, stored).1.exit,
        frame_outcome(p, s, stored).0.sample_complete,
        frame_outcome(p, s, stored).0.sampled_frames == p.sampled_frames,
{
}

/// Reports come every `report_every` samples, not every so many frames: a
/// frame asks for a report exactly when it is sampled and the count of
/// samples taken so far, that one included, is a multiple of
/// `report_every`; the count grows by one for each sampled frame only, and no
/// warm-up frame is sampled.
pub proof fn lemma_profile_reports_count_samples(p: ProfileProgress, s: ProfileSchedule, stored: int)
    requires
        p.wf(s),
        p.rendered_frames < u64::MAX,
    ensures
        ({
            let (q, d) = frame_outcome(p, s, stored);
            &&& q.rendered_frames == p.rendered_frames + 1
            &&& q.sampled_frames == p.sampled_frames + if d.take_sample { 1int } else { 0int }
            &&& d.take_sample ==> q.rendered_frames > s.warmup_frames
            &&& d.print_report <==> (d.take_sample && s.report_every > 0 && q.sampled_frames
                % s.report_every == 0)
            &&& d.print_report ==> q.sampled_frames >= s.report_every
            &&& d.take_sample <==> (q.rendered_frames > s.warmup_frames && !p.sample_complete)
            &&& d.warmup_done <==> q.rendered_frames == s.warmup_frames
            &&& d.drop_oldest <==> (d.take_sample && stored == s.max_samples)
            &&& d.exit <==> (d.take_sample && s.exit_after_sample && s.sample_frames > 0
                && q.sampled_frames == s.sample_frames)
        }),
{
    let (q, d) = frame_outcome(p, s, stored);
    if d.print_report {
        assert(q.sampled_frames >= s.report_every) by (nonlinear_arith)
            requires
                q.sampled_frames > 0,
                s.report_every > 0,
                q.sampled_frames % s.report_every == 0,
        ;
    }
}

} // verus!
