//! Audio: the validation and layout of a mix, and the playback state of a track.
//!
//! The samples themselves are floating point and are mixed by the
//! application; this module decides whether tracks can be mixed and what the
//! mixed track looks like.
use vstd::prelude::*;

verus! {

/// Why tracks could not be mixed.
#[derive(Debug, Clone, Copy, PartialEq, Eq, Structural)]
pub enum MixerError {
    NoSamplesToMix,
    InconsistentSampleRates,
    InconsistentChannelCounts,
    /// A track has no channel.
    InvalidInputSample,
}

/// Sample rate, channel count and number of interleaved samples of a track.
#[derive(Debug, Clone, Copy, PartialEq, Eq, Structural)]
pub struct TrackFormat {
    pub rate: u32,
    pub channels: u16,
    pub len: usize,
}

/// Shape of a mixed track: the common rate and channel count, the number of
/// interleaved samples (that of the longest track) and of frames.
#[derive(Debug, Clone, Copy, PartialEq, Eq, Structural)]
pub struct MixLayout {
    pub rate: u32,
    pub channels: u16,
    pub len: usize,
    pub frames: usize,
}

/// Track `t` differs in rate or channel count from `first`.
pub open spec fn mismatched(first: TrackFormat, t: TrackFormat) -> bool {
    t.rate != first.rate || t.channels != first.channels
}

/// Index of the first track after the first one that differs from it.
pub open spec fn first_mismatch(tracks: Seq<TrackFormat>, k: int) -> bool {
    &&& 1 <= k < tracks.len()
    &&& mismatched(tracks[0], tracks[k])
    &&& forall|j: int| 1 <= j < k ==> !mismatched(tracks[0], #[trigger] tracks[j])
}

/// Largest sample count among the first `n` tracks (0 for none).
pub open spec fn max_len(tracks: Seq<TrackFormat>, n: int) -> int
    decreases n,
{
    if n <= 0 {
        0
    } else {
        let m = max_len(tracks, n - 1);
        if tracks[n - 1].len > m {
            tracks[n - 1].len as int
        } else {
            m
        }
    }
}

/// The outcome of mixing tracks of formats `tracks`.
pub open spec fn mix_outcome(tracks: Seq<TrackFormat>) -> Result<MixLayout, MixerError> {
    if tracks.len() == 0 {
        Err(MixerError::NoSamplesToMix)
    } else if tracks[0].channels == 0 {
        Err(MixerError::InvalidInputSample)
    } else if exists|k: int| first_mismatch(tracks, k) {
        let k = choose|k: int| first_mismatch(tracks, k);
        if tracks[k].rate != tracks[0].rate {
            Err(MixerError::InconsistentSampleRates)
        } else {
            Err(MixerError::InconsistentChannelCounts)
        }
    } else {
        let len = max_len(tracks, tracks.len() as int);
        Ok(
            MixLayout {
                rate: tracks[0].rate,
                channels: tracks[0].channels,
                len: len as usize,
                frames: (len / (tracks[0].channels as int)) as usize,
            },
        )
    }
}

proof fn lemma_first_mismatch_unique(tracks: Seq<TrackFormat>, k: int, l: int)
    requires
        first_mismatch(tracks, k),
        first_mismatch(tracks, l),
    ensures
        k == l,
{
    if k < l {
        assert(!mismatched(tracks[0], tracks[k]));
    } else if l < k {
        assert(!mismatched(tracks[0], tracks[l]));
    }
}

/// Mixes tracks into one.
pub struct Mixer;

impl Mixer {
    /// Checks that tracks of formats `tracks` can be mixed and gives the
    /// shape of the mix: all tracks need the first track's sample rate and
    /// channel count, and that count must not be 0; the mix is as long as the
    /// longest track (shorter ones are padded with silence).
    pub fn mix_layout(tracks: &[TrackFormat]) -> (res: Result<MixLayout, MixerError>)
        ensures
            res == mix_outcome(tracks@),
    {
        if tracks.len() == 0 {
            return Err(MixerError::NoSamplesToMix);
        }
        let first = tracks[0];
        if first.channels == 0 {
            return Err(MixerError::InvalidInputSample);
        }
        let mut i: usize = 1;
        while i < tracks.len()
            invariant
                1 <= i <= tracks@.len(),
                first == tracks@[0],
                first.channels != 0,
                forall|j: int| 1 <= j < i ==> !mismatched(first, #[trigger] tracks@[j]),
            decreases tracks@.len() - i,
        {
            let t = tracks[i];
            if t.rate != first.rate || t.channels != first.channels {
                proof {
                    assert(first_mismatch(tracks@, i as int));
                    let k = choose|k: int| first_mismatch(tracks@, k);
                    lemma_first_mismatch_unique(tracks@, k, i as int);
                }
                if t.rate != first.rate {
                    return Err(MixerError::InconsistentSampleRates);
                }
                return Err(MixerError::InconsistentChannelCounts);
            }
            if t.channels == 0 {
                return Err(MixerError::InvalidInputSample);
            }
            i = i + 1;
        }
        assert(!exists|k: int| first_mismatch(tracks@, k));
        let mut max: usize = 0;
        let mut j: usize = 0;
        while j < tracks.len()
            invariant
                0 <= j <= tracks@.len(),
                max == max_len(tracks@, j as int),
            decreases tracks@.len() - j,
        {
            if tracks[j].len > max {
                max = tracks[j].len;
            }
            j = j + 1;
        }
        let frames = max / (first.channels as usize);
        Ok(MixLayout { rate: first.rate, channels: first.channels, len: max, frames })
    }
}

/// Commands that drive the playback of a track.
#[derive(Debug, Clone, Copy, PartialEq, Eq, Structural)]
pub enum PlaybackCommand {
    Play,
    Pause,
    Stop,
    /// Moves to a sample index.
    Seek(u32),
}

/// Playback state of a track of `len` samples: the last play, pause or stop
/// command and the index of the next sample.
#[derive(Debug, Clone, Copy, PartialEq, Eq, Structural)]
pub struct TrackPlayback {
    pub state: PlaybackCommand,
    pub current_sample_index: u32,
    pub len: usize,
}

impl TrackPlayback {
    /// A paused track at its first sample.
    pub fn new(len: usize) -> (p: Self)
        ensures
            p == (TrackPlayback { state: PlaybackCommand::Pause, current_sample_index: 0, len }),
    {
        TrackPlayback { state: PlaybackCommand::Pause, current_sample_index: 0, len }
    }

    /// Applies `command`: play and pause set the state, stop also rewinds to
    /// the first sample, and seek moves to the given index, clamped to the
    /// track length (cut to 32 bits).
    pub fn handle_command(&mut self, command: PlaybackCommand)
        ensures
            final(self).len == old(self).len,
            match command {
                PlaybackCommand::Play => final(self).state == PlaybackCommand::Play
                    && final(self).current_sample_index == old(self).current_sample_index,
                PlaybackCommand::Pause => final(self).state == PlaybackCommand::Pause
                    && final(self).current_sample_index == old(self).current_sample_index,
                PlaybackCommand::Stop => final(self).state == PlaybackCommand::Stop
                    && final(self).current_sample_index == 0,
                PlaybackCommand::Seek(idx) => final(self).state == old(self).state
                    && final(self).current_sample_index == if idx < (old(self).len as u32) {
                    idx
                } else {
                    old(self).len as u32
                },
            },
    {
        match command {
            PlaybackCommand::Play => {
                self.state = PlaybackCommand::Play;
            },
            PlaybackCommand::Pause => {
                self.state = PlaybackCommand::Pause;
            },
            PlaybackCommand::Stop => {
                self.state = PlaybackCommand::Stop;
                self.current_sample_index = 0;
            },
            PlaybackCommand::Seek(idx) => {
                let len32 = self.len as u32;
                self.current_sample_index = if idx < len32 {
                    idx
                } else {
                    len32
                };
            },
        }
    }

    /// Advances a playing track by one sample: gives the index of the sample
    /// to play and moves past it; at the end of the track the track stops.
    /// A paused or stopped track gives nothing (silence).
    pub fn next_sample_index(&mut self) -> (r: Option<u32>)
        ensures
            final(self).len == old(self).len,
            old(self).state == PlaybackCommand::Play && old(self).current_sample_index < (old(self).len as u32) ==> {
                &&& r == Some(old(self).current_sample_index)
                &&& final(self).current_sample_index == old(self).current_sample_index + 1
                &&& final(self).state == PlaybackCommand::Play
            },
            old(self).state == PlaybackCommand::Play && old(self).current_sample_index >= (old(self).len as u32) ==> {
                &&& r is None
                &&& final(self).current_sample_index == old(self).current_sample_index
                &&& final(self).state == PlaybackCommand::Stop
            },
            old(self).state != PlaybackCommand::Play ==> r is None && *final(self) == *old(self),
    {
        match self.state {
            PlaybackCommand::Play => {
                let len32 = self.len as u32;
                if self.current_sample_index < len32 {
                    let idx = self.current_sample_index;
                    self.current_sample_index = idx + 1;
                    Some(idx)
                } else {
                    self.state = PlaybackCommand::Stop;
                    None
                }
            },
            _ => None,
        }
    }

    /// Whether the track is stopped.
    pub fn is_stopped(&self) -> (b: bool)
        ensures
            b == (self.state == PlaybackCommand::Stop),
    {
        match self.state {
            PlaybackCommand::Stop => true,
            _ => false,
        }
    }
}

/// Lifecycle of a playing sound: its play identifier, whether it is paused,
/// and whether it has finished (or was stopped).
#[derive(Debug, Clone, Copy, PartialEq, Eq, Structural)]
pub struct PlayState {
    pub id: u64,
    pub paused: bool,
    pub finished: bool,
}

/// Index of the first sound of `s` with play identifier `id`.
pub open spec fn first_with_id(s: Seq<PlayState>, id: u64) -> Option<int>
    decreases s.len(),
{
    if s.len() == 0 {
        None
    } else if s[0].id == id {
        Some(0)
    } else {
        match first_with_id(s.drop_first(), id) {
            Some(k) => Some(k + 1),
            None => None,
        }
    }
}

proof fn lemma_first_with_id(s: Seq<PlayState>, id: u64)
    ensures
        match first_with_id(s, id) {
            Some(k) => 0 <= k < s.len() && s[k].id == id && forall|j: int| 0 <= j < k ==> (#[trigger] s[j]).id != id,
            None => forall|j: int| 0 <= j < s.len() ==> (#[trigger] s[j]).id != id,
        },
    decreases s.len(),
{
    if s.len() > 0 && s[0].id != id {
        lemma_first_with_id(s.drop_first(), id);
        assert forall|j: int| 0 < j < s.len() implies s[j] == s.drop_first()[j - 1] by {}
    }
}

/// The sounds being played by the mixer, and the play identifier the next
/// one gets (identifiers start at 1, wrap around and skip 0).
#[derive(Debug)]
pub struct PlayRoster {
    sounds: Vec<PlayState>,
    next_play_id: u64,
}

/// The identifier after `id`: one more, wrapping around to 1.
pub open spec fn next_play_id(id: u64) -> u64 {
    if id == u64::MAX {
        1
    } else {
        (id + 1) as u64
    }
}

impl PlayRoster {
    /// The sounds, in the order they were started.
    pub closed spec fn sounds(&self) -> Seq<PlayState> {
        self.sounds@
    }

    /// Identifier the next started sound gets.
    pub closed spec fn next_id(&self) -> u64 {
        self.next_play_id
    }

    /// No sound playing; the first one gets identifier 1.
    pub fn new() -> (r: Self)
        ensures
            r.sounds() == Seq::<PlayState>::empty(),
            r.next_id() == 1,
    {
        PlayRoster { sounds: Vec::new(), next_play_id: 1 }
    }

    /// Starts a sound (paused if `start_paused`) and returns its play
    /// identifier.
    pub fn start(&mut self, start_paused: bool) -> (id: u64)
        ensures
            id == old(self).next_id(),
            final(self).next_id() == next_play_id(old(self).next_id()),
            final(self).sounds() == old(self).sounds().push(PlayState { id, paused: start_paused, finished: false }),
    {
        let id = self.next_play_id;
        let next = self.next_play_id.wrapping_add(1);
        self.next_play_id = if next > 1 { next } else { 1 };
        self.sounds.push(PlayState { id, paused: start_paused, finished: false });
        id
    }

    /// Position of the first sound with identifier `id`.
    fn find(&self, id: u64) -> (r: Option<usize>)
        ensures
            match r {
                Some(i) => first_with_id(self.sounds(), id) == Some(i as int),
                None => first_with_id(self.sounds(), id) is None,
            },
    {
        proof {
            lemma_first_with_id(self.sounds@, id);
        }
        let mut i: usize = 0;
        while i < self.sounds.len()
            invariant
                0 <= i <= self.sounds@.len(),
                forall|j: int| 0 <= j < i ==> (#[trigger] self.sounds@[j]).id != id,
                match first_with_id(self.sounds@, id) {
                    Some(k) => 0 <= k < self.sounds@.len() && self.sounds@[k].id == id && forall|j: int|
                        0 <= j < k ==> (#[trigger] self.sounds@[j]).id != id,
                    None => forall|j: int| 0 <= j < self.sounds@.len() ==> (#[trigger] self.sounds@[j]).id != id,
                },
            decreases self.sounds@.len() - i,
        {
            if self.sounds[i].id == id {
                return Some(i);
            }
            i = i + 1;
        }
        None
    }

    /// Changes the first sound with identifier `id` by setting its paused
    /// and finished flags as `pause` and `finish` say (None keeps a flag).
    fn update(&mut self, id: u64, pause: Option<bool>, finish: bool)
        ensures
            final(self).next_id() == old(self).next_id(),
            final(self).sounds() == match first_with_id(old(self).sounds(), id) {
                Some(k) => old(self).sounds().update(
                    k,
                    PlayState {
                        id,
                        paused: match pause {
                            Some(p) => p,
                            None => old(self).sounds()[k].paused,
                        },
                        finished: old(self).sounds()[k].finished || finish,
                    },
                ),
                None => old(self).sounds(),
            },
    {
        proof {
            lemma_first_with_id(self.sounds@, id);
        }
        match self.find(id) {
            Some(i) => {
                let old_state = self.sounds[i];
                let paused = match pause {
                    Some(p) => p,
                    None => old_state.paused,
                };
                self.sounds.set(i, PlayState { id, paused, finished: old_state.finished || finish });
            },
            None => {},
        }
    }

    /// Pauses sound `id` (if it is there).
    pub fn pause(&mut self, id: u64)
        ensures
            final(self).next_id() == old(self).next_id(),
            final(self).sounds() == match first_with_id(old(self).sounds(), id) {
                Some(k) => old(self).sounds().update(k, PlayState { paused: true, ..old(self).sounds()[k] }),
                None => old(self).sounds(),
            },
    {
        proof {
            lemma_first_with_id(self.sounds@, id);
        }
        self.update(id, Some(true), false);
    }

    /// Resumes sound `id` (if it is there).
    pub fn resume(&mut self, id: u64)
        ensures
            final(self).next_id() == old(self).next_id(),
            final(self).sounds() == match first_with_id(old(self).sounds(), id) {
                Some(k) => old(self).sounds().update(k, PlayState { paused: false, ..old(self).sounds()[k] }),
                None => old(self).sounds(),
            },
    {
        proof {
            lemma_first_with_id(self.sounds@, id);
        }
        self.update(id, Some(false), false);
    }

    /// Stops sound `id` (if it is there): it counts as finished.
    pub fn stop(&mut self, id: u64)
        ensures
            final(self).next_id() == old(self).next_id(),
            final(self).sounds() == match first_with_id(old(self).sounds(), id) {
                Some(k) => old(self).sounds().update(k, PlayState { finished: true, ..old(self).sounds()[k] }),
                None => old(self).sounds(),
            },
    {
        proof {
            lemma_first_with_id(self.sounds@, id);
        }
        self.update(id, None, true);
    }

    /// Whether sound `id` is there, not finished and not paused.
    pub fn is_playing(&self, id: u64) -> (b: bool)
        ensures
            b == match first_with_id(self.sounds(), id) {
                Some(k) => !self.sounds()[k].finished && !self.sounds()[k].paused,
                None => false,
            },
    {
        proof {
            lemma_first_with_id(self.sounds@, id);
        }
        match self.find(id) {
            Some(i) => !self.sounds[i].finished && !self.sounds[i].paused,
            None => false,
        }
    }

    /// Drops the finished sounds, keeping the order of the others.
    pub fn retain_unfinished(&mut self)
        ensures
            final(self).next_id() == old(self).next_id(),
            final(self).sounds() == old(self).sounds().filter(|s: PlayState| !s.finished),
    {
        let mut kept: Vec<PlayState> = Vec::new();
        let mut i: usize = 0;
        while i < self.sounds.len()
            invariant
                0 <= i <= self.sounds@.len(),
                self.sounds@ == old(self).sounds@,
                kept@ == self.sounds@.take(i as int).filter(|s: PlayState| !s.finished),
            decreases self.sounds@.len() - i,
        {
            proof {
                reveal(Seq::filter);
                assert(self.sounds@.take(i + 1).drop_last() =~= self.sounds@.take(i as int));
            }
            let s = self.sounds[i];
            if !s.finished {
                kept.push(s);
            }
            i = i + 1;
        }
        assert(self.sounds@.take(i as int) =~= self.sounds@);
        self.sounds = kept;
    }
}

/// Identifiers of registered sounds: 1, 2, 3, ..., staying at `u32::MAX`
/// once reached.
#[derive(Debug)]
pub struct SoundIds {
    next: u32,
}

impl SoundIds {
    /// Identifier the next registered sound gets.
    pub closed spec fn next_spec(&self) -> u32 {
        self.next
    }

    /// The first sound gets identifier 1.
    pub fn new() -> (s: Self)
        ensures
            s.next_spec() == 1,
    {
        SoundIds { next: 1 }
    }

    /// Hands out the identifier of a newly registered sound.
    pub fn allocate(&mut self) -> (id: u32)
        ensures
            id == old(self).next_spec(),
            final(self).next_spec() == if old(self).next_spec() == u32::MAX {
                u32::MAX
            } else {
                (old(self).next_spec() + 1) as u32
            },
    {
        let id = self.next;
        let next = self.next.saturating_add(1);
        self.next = if next > 1 { next } else { 1 };
        id
    }
}

} // verus!
