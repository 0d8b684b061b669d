//! From recorded audio to chunks: how much one chunk takes, what a dispatched chunk
//! leaves behind, and what a stop still has to flush.

use vstd::prelude::*;

use crate::labels::{AudioSourceLabel, LiveSourceKind};
use crate::mic::{self, DictationMicSnapshot, SampleRange};
use crate::scheduler::JobOrigin;
use crate::single::{self, Scaled, Single, SPAN_LIMIT};
use crate::vad::{SourceVadState, VadAction};

verus! {

/// How long after a stop audio still counts: 0.3 seconds.
pub const STOP_TAIL_GRACE_BITS: u32 = 0x3e99_999a;

/// The shortest chunk worth transcribing: 0.1 seconds, as mantissa and exponent.
pub const MIN_CHUNK_MANT: u64 = 13_421_773;

/// The exponent that goes with [`MIN_CHUNK_MANT`].
pub const MIN_CHUNK_EXP: i32 = -27;

// --- Sample counts ---

/// The channel count that is reckoned with: at least one.
pub open spec fn channel_count(channels: u16) -> nat {
    if channels == 0 {
        1
    } else {
        channels as nat
    }
}

/// `n` cut down to whole frames.
pub open spec fn whole_frames(n: nat, channels: nat) -> nat {
    (n - n % channels) as nat
}

/// How many samples a stop still waits for.
pub open spec fn tail_samples(sample_rate: u32, channels: u16) -> nat {
    whole_frames(
        (Single { bits: STOP_TAIL_GRACE_BITS }).samples(
            sample_rate as nat,
            channel_count(channels),
        ),
        channel_count(channels),
    )
}

/// How many samples a stop still waits for: a whole number of frames.
pub fn tail_samples_for(sample_rate: u32, channels: u16) -> (r: usize)
    ensures
        r == tail_samples(sample_rate, channels),
        r as nat % channel_count(channels) == 0,
{
    let ch: u16 = if channels == 0 {
        1
    } else {
        channels
    };
    let raw: usize = (Single { bits: STOP_TAIL_GRACE_BITS }).sample_count(sample_rate, ch);
    proof {
        lemma_whole_frames(raw as nat, channel_count(channels));
    }
    raw - raw % (ch as usize)
}

pub proof fn lemma_whole_frames(n: nat, channels: nat)
    requires
        channels > 0,
    ensures
        n % channels <= n,
        whole_frames(n, channels) % channels == 0,
        whole_frames(n, channels) <= n,
        n < whole_frames(n, channels) + channels,
{
    vstd::arithmetic::div_mod::lemma_fundamental_div_mod(n as int, channels as int);
    let q = n as int / channels as int;
    assert(whole_frames(n, channels) == channels * q);
    assert((channels * q) % (channels as int) == 0) by {
        vstd::arithmetic::div_mod::lemma_mod_multiples_basic(q, channels as int);
        assert(q * channels as int == channels * q) by (nonlinear_arith);
    }
    assert(n % channels < channels) by {
        vstd::arithmetic::div_mod::lemma_mod_bound(n as int, channels as int);
    }
    assert(n % channels <= n) by {
        vstd::arithmetic::div_mod::lemma_mod_decreases(n, channels);
    }
}

/// How many samples one chunk of `duration` nanoseconds takes at most: at least one
/// frame, and whole frames only.
pub open spec fn max_raw_samples(duration: u128, sample_rate: u32, channels: u16) -> nat {
    let ch = channel_count(channels);
    let raw = single::sample_count(
        single::span_seconds(duration as nat),
        sample_rate as nat,
        ch,
    );
    whole_frames(
        if raw >= ch {
            raw
        } else {
            ch
        },
        ch,
    )
}

/// The longest chunk holds at least one frame, and whole frames only.
pub proof fn lemma_longest_chunk(duration: u128, sample_rate: u32, channels: u16)
    ensures
        max_raw_samples(duration, sample_rate, channels) >= channel_count(channels) >= 1,
{
    let ch = channel_count(channels);
    let raw = single::sample_count(single::span_seconds(duration as nat), sample_rate as nat, ch);
    let n = if raw >= ch {
        raw
    } else {
        ch
    };
    lemma_whole_frames(n, ch);
    vstd::arithmetic::div_mod::lemma_fundamental_div_mod(n as int, ch as int);
    let q = n as int / ch as int;
    assert(q >= 1) by (nonlinear_arith)
        requires
            q == n as int / ch as int,
            n >= ch,
            ch > 0,
    ;
    assert(ch * q >= ch) by (nonlinear_arith)
        requires
            q >= 1,
            ch > 0,
    ;
}

/// How many samples one chunk of `duration` nanoseconds takes at most.
pub fn max_raw_samples_for_duration(duration: u128, sample_rate: u32, channels: u16) -> (r: usize)
    requires
        duration < SPAN_LIMIT,
    ensures
        r == max_raw_samples(duration, sample_rate, channels),
        r == channel_count(channels) || r * 1_000_000_000 * 1_000_000 <= duration * (sample_rate
            * channel_count(channels)) * 1_000_001,
        r < usize::MAX - channel_count(channels) ==> duration * (sample_rate * channel_count(
            channels,
        )) * 999_999 < (r + channel_count(channels)) * 1_000_000_000 * 1_000_000,
        r >= channel_count(channels),
        r as nat % channel_count(channels) == 0,
{
    let ch: u16 = if channels == 0 {
        1
    } else {
        channels
    };
    let raw: usize = single::samples_in(single::seconds_of_span(duration), sample_rate, ch);
    let n: usize = if raw >= ch as usize {
        raw
    } else {
        ch as usize
    };
    proof {
        lemma_whole_frames(n as nat, ch as nat);
        lemma_longest_chunk(duration, sample_rate, channels);
        single::law_samples_of_span(duration as nat, sample_rate as nat, ch as nat);
    }
    n - n % (ch as usize)
}

/// How far back `secs` seconds of history reach: whole frames only.
pub open spec fn rewind(secs: Single, sample_rate: u32, channels: u16) -> nat {
    whole_frames(secs.samples(sample_rate as nat, channels as nat), channels as nat)
}

/// How far back `secs` seconds of history reach.
pub fn rewind_samples(secs: Single, sample_rate: u32, channels: u16) -> (r: usize)
    requires
        channels > 0,
    ensures
        r == rewind(secs, sample_rate, channels),
        r as nat % (channels as nat) == 0,
{
    let raw: usize = secs.sample_count(sample_rate, channels);
    proof {
        lemma_whole_frames(raw as nat, channels as nat);
    }
    raw - raw % (channels as usize)
}

/// Whether `samples` at `sample_rate` last less than the shortest chunk.
pub open spec fn too_short(samples: nat, sample_rate: nat) -> bool {
    sample_rate > 0 && single::less(
        single::quotient(single::fit(samples, 0), single::fit(sample_rate, 0)),
        (MIN_CHUNK_MANT as nat, MIN_CHUNK_EXP as int),
    )
}

/// Whether `samples` at `sample_rate` last less than the shortest chunk.
pub fn is_too_short(samples: usize, sample_rate: u32) -> (r: bool)
    ensures
        r == too_short(samples as nat, sample_rate as nat),
{
    if sample_rate == 0 {
        return false;
    }
    let a: Scaled = single::round_to_single(samples as u128, 0);
    let b: Scaled = single::round_to_single(sample_rate as u128, 0);
    proof {
        single::lemma_fit_positive(sample_rate as nat, 0);
    }
    single::below(single::over(a, b), Scaled { mant: MIN_CHUNK_MANT, exp: MIN_CHUNK_EXP })
}

// --- Positions ---

/// Positions in the two ring buffers.
#[derive(Clone, Copy, Debug, PartialEq, Eq, Structural)]
pub struct BufferPositions {
    pub mic_pos: usize,
    pub system_pos: usize,
}

impl BufferPositions {
    /// The position in the buffer of one stream.
    pub open spec fn of(self, label: AudioSourceLabel) -> usize {
        match label {
            AudioSourceLabel::Mic => self.mic_pos,
            AudioSourceLabel::System => self.system_pos,
        }
    }

    /// The position in the buffer of one stream.
    pub fn get(&self, label: AudioSourceLabel) -> (r: usize)
        ensures
            r == self.of(label),
    {
        match label {
            AudioSourceLabel::Mic => self.mic_pos,
            AudioSourceLabel::System => self.system_pos,
        }
    }
}

/// Rate and channels of a ring buffer.
#[derive(Clone, Copy, Debug, PartialEq, Eq, Structural)]
pub struct BufferFormat {
    pub sample_rate: u32,
    pub channels: u16,
}

/// `a + b`, or the largest index where that is beyond it.
pub open spec fn saturated(a: nat, b: nat) -> nat {
    if a + b > usize::MAX {
        usize::MAX as nat
    } else {
        a + b
    }
}

/// Where a stop ends one stream: its position and the tail that is still on its way;
/// no tail where there is no buffer.
pub open spec fn stop_pos(pos: usize, format: Option<BufferFormat>) -> nat {
    match format {
        Some(f) => saturated(pos as nat, tail_samples(f.sample_rate, f.channels)),
        None => pos as nat,
    }
}

/// Where a stop ends the two streams.
pub fn stop_positions_with_tail(
    positions: BufferPositions,
    mic: Option<BufferFormat>,
    system: Option<BufferFormat>,
) -> (r: BufferPositions)
    ensures
        r.mic_pos == stop_pos(positions.mic_pos, mic),
        r.system_pos == stop_pos(positions.system_pos, system),
        r.mic_pos >= positions.mic_pos,
        r.system_pos >= positions.system_pos,
{
    let mic_tail: usize = match mic {
        Some(f) => tail_samples_for(f.sample_rate, f.channels),
        None => 0,
    };
    let system_tail: usize = match system {
        Some(f) => tail_samples_for(f.sample_rate, f.channels),
        None => 0,
    };
    BufferPositions {
        mic_pos: positions.mic_pos.saturating_add(mic_tail),
        system_pos: positions.system_pos.saturating_add(system_tail),
    }
}

// --- Dispatch ---

/// What was read from a ring buffer: how many mono samples, at what rate, from which
/// position to which, and whether older ones were already overwritten.
#[derive(Clone, Copy, Debug, PartialEq, Eq, Structural)]
pub struct SourceAudioRange {
    pub samples: usize,
    pub sample_rate: u32,
    pub start_pos: usize,
    pub end_pos: usize,
    pub overrun: bool,
}

/// A chunk on its way to the engine.
#[derive(Debug)]
pub struct PreparedChunk {
    pub samples: usize,
    pub sample_rate: u32,
    pub start_pos: usize,
    pub end_pos: usize,
    /// How far behind the zero of the session's timeline the chunk begins.
    pub samples_since_start: usize,
    pub source_label: AudioSourceLabel,
    pub chunk_index: u32,
    pub accumulated_text: String,
    pub origin: JobOrigin,
    /// How much recorded audio is left behind the chunk.
    pub backlog_samples: usize,
}

/// Where the next chunk of a stream ends at most: at `current_pos`, or where the
/// longest chunk ends.
pub open spec fn dispatch_bound(s: SourceVadState, current_pos: usize, max_chunk: u128) -> nat {
    let far = saturated(
        s.speech_start_pos as nat,
        max_raw_samples(max_chunk, s.source_sample_rate, s.source_channels),
    );
    if current_pos <= far {
        current_pos as nat
    } else {
        far
    }
}

/// Whether dictation can take the stream from its runtime: only the microphone, and only
/// from a session.
pub open spec fn gated(kind: LiveSourceKind, label: AudioSourceLabel) -> bool {
    kind is Session && label is Mic
}

/// Up to where a stream may be read from its start: to what is recorded, and for a
/// session's microphone not into what belongs to dictation.
pub open spec fn usable(
    kind: LiveSourceKind,
    s: SourceVadState,
    windows: DictationMicSnapshot,
    write_pos: usize,
) -> usize {
    match mic::next_held(windows.open, windows.closed@, s.speech_start_pos as int) {
        Some(p) => if gated(kind, s.label) && p < write_pos {
            p as usize
        } else {
            write_pos
        },
        None => write_pos,
    }
}

/// Up to where a stream may be read from its start.
pub fn usable_until(
    kind: LiveSourceKind,
    source: &SourceVadState,
    windows: &DictationMicSnapshot,
    write_pos: usize,
) -> (r: usize)
    ensures
        r == usable(kind, *source, *windows, write_pos),
        r <= write_pos,
        r < write_pos ==> kind is Session && source.label is Mic && mic::held(
            windows.open,
            windows.closed@,
            r as int,
        ),
        gated(kind, source.label) ==> forall|p: int|
            source.speech_start_pos <= p < r ==> !#[trigger] mic::held(
                windows.open,
                windows.closed@,
                p,
            ),
{
    let held: Option<u64> = windows.first_held(source.speech_start_pos as u64);
    if kind == LiveSourceKind::Session && source.label == AudioSourceLabel::Mic {
        if let Some(p) = held {
            if p < write_pos as u64 {
                return p as usize;
            }
        }
    }
    write_pos
}

/// Where the next chunk of a stream ends at most: where the longest chunk ends, or up to
/// where the stream may be read. No position of a session's microphone that belongs to
/// dictation lies before that.
pub fn dispatch_until(
    kind: LiveSourceKind,
    vad: &SourceVadState,
    windows: &DictationMicSnapshot,
    write_pos: usize,
    max_chunk: u128,
) -> (r: usize)
    requires
        max_chunk < SPAN_LIMIT,
    ensures
        r == dispatch_bound(*vad, usable(kind, *vad, *windows, write_pos), max_chunk),
        r <= write_pos,
        gated(kind, vad.label) ==> forall|p: int|
            vad.speech_start_pos <= p < r ==> !#[trigger] mic::held(
                windows.open,
                windows.closed@,
                p,
            ),
{
    let current_pos: usize = usable_until(kind, vad, windows, write_pos);
    let max_raw: usize = max_raw_samples_for_duration(
        max_chunk,
        vad.source_sample_rate,
        vad.source_channels,
    );
    let far: usize = vad.speech_start_pos.saturating_add(max_raw);
    if current_pos <= far {
        current_pos
    } else {
        far
    }
}

/// The samples of a history that are silenced before it is worked on: of a session's
/// microphone all that hold a position of dictation. The history was read from `start` on
/// and brought to one channel.
pub fn muted_history(
    kind: LiveSourceKind,
    label: AudioSourceLabel,
    windows: &DictationMicSnapshot,
    start: u64,
    channels: u16,
    count: usize,
) -> (r: Vec<SampleRange>)
    requires
        channels > 0,
        start + count * channels <= u64::MAX,
    ensures
        forall|i: int| 0 <= i < r@.len() ==> (#[trigger] r@[i]).start < r@[i].end <= count,
        forall|k: int|
            0 <= k < count ==> (#[trigger] mic::in_samples(r@, k) <==> gated(kind, label)
                && mic::sample_held(windows.open, windows.closed@, start, channels, k)),
{
    if kind == LiveSourceKind::Session && label == AudioSourceLabel::Mic {
        windows.muted_samples(start, channels, count)
    } else {
        Vec::new()
    }
}

/// Whether a reading becomes a chunk: there is one, and it is long enough.
pub open spec fn dispatches(extraction: Option<SourceAudioRange>) -> bool {
    extraction matches Some(e) && !too_short(e.samples as nat, e.sample_rate as nat)
}

/// The stream once a chunk that ends at `end_pos` left it, with `current_pos` recorded.
/// What is recorded beyond the chunk, or being cut in the middle of speech, keeps it
/// speaking.
pub open spec fn after_dispatch(
    s: SourceVadState,
    end_pos: usize,
    current_pos: usize,
    is_force_chunk: bool,
    now: u64,
) -> SourceVadState {
    SourceVadState {
        cursor: end_pos,
        is_speaking: current_pos > end_pos || is_force_chunk,
        silence_since: None,
        speech_start_pos: end_pos,
        earliest_next_chunk_pos: end_pos,
        force_drain: current_pos > end_pos,
        speech_start_time: if is_force_chunk || current_pos > end_pos {
            Some(now)
        } else {
            None
        },
        chunk_index: s.chunk_index.wrapping_add(1),
        has_in_flight_task: true,
        ..s
    }
}

/// The chunk that is made of a reading.
pub open spec fn is_chunk(
    c: PreparedChunk,
    s: SourceVadState,
    e: SourceAudioRange,
    current_pos: usize,
    origin: JobOrigin,
) -> bool {
    &&& c.samples == e.samples
    &&& c.sample_rate == e.sample_rate
    &&& c.start_pos == e.start_pos
    &&& c.end_pos == e.end_pos
    &&& c.samples_since_start == (if e.start_pos >= s.session_start_pos {
        e.start_pos - s.session_start_pos
    } else {
        0
    })
    &&& c.source_label == s.label
    &&& c.chunk_index == s.chunk_index
    &&& c.accumulated_text == s.accumulated_text
    &&& c.origin == origin
    &&& c.backlog_samples == (if current_pos >= e.end_pos {
        current_pos - e.end_pos
    } else {
        0
    })
}

/// Turns what was read into a chunk, where it is enough for one, and moves the stream
/// behind it. Where nothing was read only the cursor moves, to the bound of the
/// reading; where too little was read, to the end of the reading; the start of the
/// chunk stays, so that the next reading takes it up again.
pub fn prepare_chunk_dispatch(
    vad: &mut SourceVadState,
    extraction: Option<SourceAudioRange>,
    bound: usize,
    current_pos: usize,
    is_force_chunk: bool,
    origin: JobOrigin,
    now: u64,
) -> (r: Option<PreparedChunk>)
    ensures
        r is Some <==> dispatches(extraction),
        extraction is None ==> *final(vad) == (SourceVadState { cursor: bound, ..*old(vad) }),
        extraction matches Some(e) ==> (!dispatches(extraction) ==> *final(vad)
            == (SourceVadState { cursor: e.end_pos, ..*old(vad) })),
        extraction matches Some(e) ==> (dispatches(extraction) ==> {
            &&& final(vad).accumulated_text@.len() == 0
            &&& *final(vad) == (SourceVadState {
                accumulated_text: final(vad).accumulated_text,
                ..after_dispatch(*old(vad), e.end_pos, current_pos, is_force_chunk, now)
            })
            &&& r matches Some(c)
            &&& is_chunk(c, *old(vad), e, current_pos, origin)
        }),
        r matches Some(c) ==> {
            &&& extraction matches Some(e)
            &&& c.start_pos == e.start_pos && c.end_pos == e.end_pos
            &&& c.samples == e.samples && c.sample_rate == e.sample_rate
            &&& e.start_pos >= old(vad).session_start_pos ==> c.samples_since_start
                + old(vad).session_start_pos == e.start_pos
            &&& e.start_pos <= old(vad).session_start_pos ==> c.samples_since_start == 0
            &&& current_pos >= e.end_pos ==> c.backlog_samples + e.end_pos == current_pos
            &&& current_pos <= e.end_pos ==> c.backlog_samples == 0
            &&& c.source_label == old(vad).label && c.origin == origin
            &&& c.chunk_index == old(vad).chunk_index
            &&& c.accumulated_text@ == old(vad).accumulated_text@
            &&& final(vad).speech_start_pos == e.end_pos
            &&& final(vad).earliest_next_chunk_pos == e.end_pos
            &&& final(vad).has_in_flight_task
            &&& final(vad).session_start_pos == old(vad).session_start_pos
            &&& final(vad).force_drain <==> current_pos > e.end_pos
            &&& final(vad).is_speaking <==> is_force_chunk || current_pos > e.end_pos
            &&& final(vad).is_speaking ==> final(vad).speech_start_time == Some(now)
            &&& final(vad).silence_since is None
        },
        r is None ==> final(vad).speech_start_pos == old(vad).speech_start_pos
            && final(vad).chunk_index == old(vad).chunk_index && final(vad).has_in_flight_task
            == old(vad).has_in_flight_task,
        old(vad).wf() ==> final(vad).wf(),
{
    let e: SourceAudioRange = match extraction {
        Some(e) => e,
        None => {
            vad.cursor = bound;
            return None;
        },
    };
    if is_too_short(e.samples, e.sample_rate) {
        vad.cursor = e.end_pos;
        return None;
    }
    let has_remaining: bool = current_pos > e.end_pos;
    let samples_since_start: usize = e.start_pos.saturating_sub(vad.session_start_pos);
    let backlog_samples: usize = current_pos.saturating_sub(e.end_pos);
    let chunk_index: u32 = vad.chunk_index;
    vad.chunk_index = vad.chunk_index.wrapping_add(1);
    let mut accumulated_text: String = String::new();
    core::mem::swap(&mut accumulated_text, &mut vad.accumulated_text);
    vad.cursor = e.end_pos;
    vad.is_speaking = has_remaining || is_force_chunk;
    vad.silence_since = None;
    vad.speech_start_pos = e.end_pos;
    vad.earliest_next_chunk_pos = e.end_pos;
    vad.force_drain = has_remaining;
    vad.speech_start_time = if is_force_chunk || has_remaining {
        Some(now)
    } else {
        None
    };
    vad.has_in_flight_task = true;
    Some(
        PreparedChunk {
            samples: e.samples,
            sample_rate: e.sample_rate,
            start_pos: e.start_pos,
            end_pos: e.end_pos,
            samples_since_start,
            source_label: vad.label,
            chunk_index,
            accumulated_text,
            origin,
            backlog_samples,
        },
    )
}

/// What one poll does for a stream.
#[derive(Clone, Copy, Debug, PartialEq, Eq, Structural)]
pub enum DispatchStep {
    /// Dictation owns the microphone: nothing of it is the session's.
    Suspended,
    /// A chunk of the stream is still being transcribed, or speech goes on.
    Keep,
    /// Cut a chunk.
    Dispatch { force: bool },
    /// Nobody speaks: move up to the write position.
    AdvanceIdle,
}

/// What one poll does for a stream that is its runtime's own, given what its state
/// machine asks for.
pub open spec fn dispatch_step(s: SourceVadState, action: VadAction) -> DispatchStep {
    if action is Hold {
        if !s.has_in_flight_task && !s.is_speaking {
            DispatchStep::AdvanceIdle
        } else {
            DispatchStep::Keep
        }
    } else if s.has_in_flight_task {
        DispatchStep::Keep
    } else {
        DispatchStep::Dispatch { force: action is ForceChunk }
    }
}

/// What one poll does for a stream that is its runtime's own.
pub fn decide_dispatch(source: &SourceVadState, action: VadAction) -> (r: DispatchStep)
    ensures
        r == dispatch_step(*source, action),
{
    match action {
        VadAction::Hold => if !source.has_in_flight_task && !source.is_speaking {
            DispatchStep::AdvanceIdle
        } else {
            DispatchStep::Keep
        },
        _ => if source.has_in_flight_task {
            DispatchStep::Keep
        } else {
            DispatchStep::Dispatch { force: action == VadAction::ForceChunk }
        },
    }
}

// --- The microphone changes hands ---

/// What the windows of dictation ask of a session.
#[derive(Clone, Copy, Debug, PartialEq, Eq, Structural)]
pub enum MicEdge {
    /// Nothing changed, or the runtime is not a session, or the stream is not the
    /// microphone.
    Steady,
    /// Dictation took it; `flush` where pending speech is to be sent up to there.
    Taken { flush: bool },
    /// Dictation has given it back: after a flush of what came before, where one is owed,
    /// the stream goes on at `to`.
    GivenBack { flush: bool, to: usize },
}

/// A position of the microphone as an index; the largest where it is beyond it.
pub open spec fn as_index(p: int) -> usize {
    if p > usize::MAX {
        usize::MAX
    } else {
        p as usize
    }
}

/// Whether speech before `at`, where dictation begins, is still to be sent.
pub open spec fn owes_flush(s: SourceVadState, at: int) -> bool {
    s.is_speaking && !s.has_in_flight_task && at > s.speech_start_pos
}

/// What the windows of dictation ask of a session. A window that opened and closed since
/// the last look is seen like any other. Where dictation gave the microphone back without
/// leaving a window, the stream takes up its speech again from the start.
pub open spec fn mic_edge(
    kind: LiveSourceKind,
    s: SourceVadState,
    windows: DictationMicSnapshot,
) -> MicEdge {
    if !gated(kind, s.label) {
        MicEdge::Steady
    } else {
        match mic::next_held(windows.open, windows.closed@, s.speech_start_pos as int) {
            Some(at) => match mic::next_free(windows.open, windows.closed@, at) {
                Some(to) => MicEdge::GivenBack {
                    flush: !s.dictation_was_active && owes_flush(s, at),
                    to: as_index(to),
                },
                None => if s.dictation_was_active {
                    MicEdge::Steady
                } else {
                    MicEdge::Taken { flush: owes_flush(s, at) }
                },
            },
            None => if s.dictation_was_active {
                MicEdge::GivenBack { flush: false, to: s.speech_start_pos }
            } else {
                MicEdge::Steady
            },
        }
    }
}

/// What the windows of dictation ask of a session.
pub fn decide_mic_edge(
    kind: LiveSourceKind,
    source: &SourceVadState,
    windows: &DictationMicSnapshot,
) -> (r: MicEdge)
    ensures
        r == mic_edge(kind, *source, *windows),
        r matches MicEdge::GivenBack { to, .. } ==> to >= source.speech_start_pos,
{
    if kind != LiveSourceKind::Session || source.label != AudioSourceLabel::Mic {
        return MicEdge::Steady;
    }
    let at: u64 = match windows.first_held(source.speech_start_pos as u64) {
        Some(p) => p,
        None => {
            return if source.dictation_was_active {
                MicEdge::GivenBack { flush: false, to: source.speech_start_pos }
            } else {
                MicEdge::Steady
            };
        },
    };
    let owed: bool = source.is_speaking && !source.has_in_flight_task && at
        > source.speech_start_pos as u64;
    match windows.first_free(at) {
        Some(to) => MicEdge::GivenBack {
            flush: !source.dictation_was_active && owed,
            to: if to > usize::MAX as u64 {
                usize::MAX
            } else {
                to as usize
            },
        },
        None => if source.dictation_was_active {
            MicEdge::Steady
        } else {
            MicEdge::Taken { flush: owed }
        },
    }
}

// --- Outcomes ---

/// What came back of a chunk.
#[derive(Debug)]
pub struct ChunkTaskOutcome {
    pub source_label: AudioSourceLabel,
    pub accumulated_text: String,
    pub sidecar_dead: bool,
}

/// The place of the first stream with this label; the number of streams where none
/// has it.
pub open spec fn place_of(sources: Seq<SourceVadState>, label: AudioSourceLabel) -> nat
    decreases sources.len(),
{
    if sources.len() == 0 || sources[0].label == label {
        0
    } else {
        1 + place_of(sources.drop_first(), label)
    }
}

/// The place of the first stream with this label, if any has it.
pub fn find_source(sources: &Vec<SourceVadState>, label: AudioSourceLabel) -> (r: Option<usize>)
    ensures
        match r {
            Some(i) => i == place_of(sources@, label) && i < sources@.len() && sources@[i as int].label
                == label,
            None => place_of(sources@, label) == sources@.len(),
        },
        r is None ==> forall|k: int|
            0 <= k < sources@.len() ==> (#[trigger] sources@[k]).label != label,
{
    let mut i: usize = 0;
    assert(sources@.skip(0) =~= sources@);
    while i < sources.len()
        invariant
            i <= sources@.len(),
            forall|k: int| 0 <= k < i ==> (#[trigger] sources@[k]).label != label,
            place_of(sources@, label) == i + place_of(sources@.skip(i as int), label),
        decreases sources@.len() - i,
    {
        if sources[i].label == label {
            return Some(i);
        }
        assert(sources@.skip(i as int).drop_first() =~= sources@.skip(i + 1));
        i = i + 1;
    }
    None
}

/// The streams once one chunk came back: its stream is free again and has its text.
pub open spec fn settled(sources: Seq<SourceVadState>, o: ChunkTaskOutcome) -> Seq<
    SourceVadState,
> {
    let i = place_of(sources, o.source_label);
    if i < sources.len() {
        sources.update(
            i as int,
            SourceVadState {
                has_in_flight_task: false,
                accumulated_text: o.accumulated_text,
                ..sources[i as int]
            },
        )
    } else {
        sources
    }
}

/// Gives a stream its text back and frees it for the next chunk. Returns whether the
/// engine is dead.
pub fn apply_outcome(sources: &mut Vec<SourceVadState>, outcome: ChunkTaskOutcome) -> (fatal: bool)
    ensures
        final(sources)@ == settled(old(sources)@, outcome),
        fatal == outcome.sidecar_dead,
{
    let dead: bool = outcome.sidecar_dead;
    if let Some(i) = find_source(sources, outcome.source_label) {
        sources[i].has_in_flight_task = false;
        sources[i].accumulated_text = outcome.accumulated_text;
    }
    dead
}

/// Whether a runtime keeps history back: it stops, chunks are on their way, or a
/// stream speaks, waits for a chunk or has audio left over.
pub open spec fn live_busy(
    sources: Seq<SourceVadState>,
    in_flight_tasks: nat,
    stopping: bool,
) -> bool {
    ||| stopping
    ||| in_flight_tasks > 0
    ||| exists|i: int|
        0 <= i < sources.len() && ((#[trigger] sources[i]).is_speaking
            || sources[i].has_in_flight_task || sources[i].force_drain)
}

/// Whether a runtime keeps history back.
pub fn is_live_busy(
    sources: &Vec<SourceVadState>,
    in_flight_tasks: usize,
    stopping: bool,
) -> (r: bool)
    ensures
        r == live_busy(sources@, in_flight_tasks as nat, stopping),
        stopping || in_flight_tasks > 0 ==> r,
        forall|i: int|
            0 <= i < sources@.len() && ((#[trigger] sources@[i]).is_speaking
                || sources@[i].has_in_flight_task || sources@[i].force_drain) ==> r,
        r ==> stopping || in_flight_tasks > 0 || exists|i: int|
            0 <= i < sources@.len() && ((#[trigger] sources@[i]).is_speaking
                || sources@[i].has_in_flight_task || sources@[i].force_drain),
{
    if stopping || in_flight_tasks > 0 {
        return true;
    }
    let mut i: usize = 0;
    while i < sources.len()
        invariant
            i <= sources@.len(),
            forall|k: int|
                0 <= k < i ==> !((#[trigger] sources@[k]).is_speaking
                    || sources@[k].has_in_flight_task || sources@[k].force_drain),
        decreases sources@.len() - i,
    {
        if sources[i].is_speaking || sources[i].has_in_flight_task || sources[i].force_drain {
            return true;
        }
        i = i + 1;
    }
    false
}

// --- What holds of chunks ---

/// A chunk that begins at the zero of its stream's timeline is at zero, a later one is as
/// far on as it begins behind it, and moving the start of the session and the reading by
/// the same number of positions leaves every chunk in its place.
pub proof fn law_chunk_keeps_its_place(
    s: SourceVadState,
    e: SourceAudioRange,
    c: PreparedChunk,
    u: SourceVadState,
    f: SourceAudioRange,
    d: PreparedChunk,
    current_pos: usize,
    origin: JobOrigin,
    by: int,
)
    requires
        is_chunk(c, s, e, current_pos, origin),
        is_chunk(d, u, f, current_pos, origin),
        u.session_start_pos == s.session_start_pos + by,
        f.start_pos == e.start_pos + by,
    ensures
        d.samples_since_start == c.samples_since_start,
        e.start_pos == s.session_start_pos ==> c.samples_since_start == 0,
        e.start_pos >= s.session_start_pos ==> c.samples_since_start + s.session_start_pos
            == e.start_pos,
{
}

/// Chunks follow one another on the timeline as their readings do: one whose reading begins
/// where another's ended is further on by the length of that reading.
pub proof fn law_places_follow(
    s: SourceVadState,
    e: SourceAudioRange,
    f: SourceAudioRange,
    c: PreparedChunk,
    d: PreparedChunk,
    current_pos: usize,
    origin: JobOrigin,
)
    requires
        is_chunk(c, s, e, current_pos, origin),
        is_chunk(d, s, f, current_pos, origin),
        s.session_start_pos <= e.start_pos <= e.end_pos == f.start_pos,
    ensures
        d.samples_since_start == c.samples_since_start + (e.end_pos - e.start_pos),
{
}

/// A reading becomes a chunk where it lasts a tenth of a second, and not where it is
/// shorter, up to two in a million.
pub proof fn law_tenth_of_a_second(e: SourceAudioRange)
    requires
        e.sample_rate > 0,
    ensures
        dispatches(Some(e)) ==> e.samples * 10 * 1_000_002 >= e.sample_rate * 1_000_000,
        !dispatches(Some(e)) ==> e.samples * 10 * 999_998 <= e.sample_rate * 1_000_000,
        !dispatches(None),
{
    let m = (MIN_CHUNK_MANT as nat, MIN_CHUNK_EXP as int);
    vstd::arithmetic::power2::lemma2_to64();
    single::law_quotient_compares(e.samples as nat, e.sample_rate as nat, m, 27);
    let one = vstd::arithmetic::power2::pow2((m.1 + 27) as nat);
    assert(m == (13_421_773nat, -27int));
    assert(one == 1);
    assert(m.0 * one == 13_421_773) by (nonlinear_arith)
        requires
            m.0 == 13_421_773,
            one == 1,
    ;
}

/// A chunk takes all that it may: it ends where the recorded audio ends, where dictation
/// begins, or because it is as long as a chunk may be, and it is never longer than that.
pub proof fn law_chunk_takes_all_it_may(
    kind: LiveSourceKind,
    s: SourceVadState,
    windows: DictationMicSnapshot,
    write_pos: usize,
    max_chunk: u128,
    longest: nat,
)
    requires
        longest == max_raw_samples(max_chunk, s.source_sample_rate, s.source_channels),
        s.speech_start_pos <= write_pos,
    ensures
        ({
            let end = dispatch_bound(s, usable(kind, s, windows, write_pos), max_chunk);
            &&& s.speech_start_pos <= end <= write_pos
            &&& end - s.speech_start_pos <= longest
            &&& end == write_pos || end - s.speech_start_pos == longest || (gated(kind, s.label)
                && mic::held(windows.open, windows.closed@, end as int))
        }),
{
}

/// The place of a label is the first that bears it.
pub proof fn lemma_first_place(sources: Seq<SourceVadState>, label: AudioSourceLabel, i: int)
    requires
        0 <= i < sources.len(),
        sources[i].label == label,
        forall|k: int| 0 <= k < i ==> (#[trigger] sources[k]).label != label,
    ensures
        place_of(sources, label) == i,
    decreases i,
{
    if i > 0 {
        let rest = sources.drop_first();
        assert(sources[0].label != label);
        assert(rest[i - 1] == sources[i]);
        assert forall|k: int| 0 <= k < i - 1 implies (#[trigger] rest[k]).label != label by {
            assert(rest[k] == sources[k + 1]);
        }
        lemma_first_place(rest, label, i - 1);
    }
}

/// What came back of a chunk goes to the stream that sent it: that one is free again and
/// has the text, and nothing else about it or about any other changes.
pub proof fn law_outcome_goes_to_its_stream(
    sources: Seq<SourceVadState>,
    o: ChunkTaskOutcome,
    i: int,
    j: int,
)
    requires
        0 <= i < sources.len(),
        sources[i].label == o.source_label,
        forall|k: int| 0 <= k < i ==> (#[trigger] sources[k]).label != o.source_label,
        0 <= j < sources.len(),
        j != i,
    ensures
        settled(sources, o).len() == sources.len(),
        settled(sources, o)[j] == sources[j],
        settled(sources, o)[i] == (SourceVadState {
            has_in_flight_task: false,
            accumulated_text: o.accumulated_text,
            ..sources[i]
        }),
{
    lemma_first_place(sources, o.source_label, i);
}

/// A stop still waits for three tenths of a second of audio: whole frames, up to two in a
/// million; without a buffer it waits for nothing.
pub proof fn law_stop_grants_a_tail(pos: usize, format: BufferFormat)
    ensures
        ({
            let ch: nat = if format.channels == 0 {
                1
            } else {
                format.channels as nat
            };
            let end = stop_pos(pos, Some(format));
            let tail = end - pos;
            &&& stop_pos(pos, None) == pos
            &&& pos <= end <= usize::MAX
            &&& tail * 10 * 1_000_000 <= 3 * (format.sample_rate * ch) * 1_000_002
            &&& end < usize::MAX - ch ==> 3 * (format.sample_rate * ch) * 999_998 < (tail + ch) * 10
                * 1_000_000
            &&& end < usize::MAX ==> tail % (ch as int) == 0
        }),
{
    let ch = channel_count(format.channels);
    let secs = Single { bits: STOP_TAIL_GRACE_BITS };
    let third = (secs.mant(), secs.exp());
    vstd::arithmetic::power2::lemma2_to64();
    assert(third == (10_066_330nat, -25int));
    let one = vstd::arithmetic::power2::pow2((third.1 + 25) as nat);
    assert(one == 1);
    assert(third.0 * one == 10_066_330) by (nonlinear_arith)
        requires
            third.0 == 10_066_330,
            one == 1,
    ;
    single::law_samples_of_seconds(third, format.sample_rate as nat, ch, 25);
    let n = single::sample_count(third, format.sample_rate as nat, ch);
    lemma_whole_frames(n, ch);
    assert(0 <= format.sample_rate * ch) by (nonlinear_arith);
}

} // verus!
