//! Voice activity: when a stream begins to speak, when a pause ends a chunk, and when
//! a chunk is cut because speech goes on.
//!
//! A detector outside hands in one speech probability per frame of 32 milliseconds.
//! Positions count interleaved samples in the ring buffer of a stream. Times are
//! nanoseconds of one clock that never goes back.

use vstd::prelude::*;

use crate::labels::{AudioSourceLabel, LiveSourceKind, LiveTranscriptionConfig};
use crate::model::EngineKind;
use crate::scheduler::JobOrigin;
use crate::single::{self, Single, SPAN_LIMIT};

verus! {

/// The probability from which a frame is speech: one half.
pub const SPEECH_THRESHOLD_BITS: u32 = 0x3f00_0000;

/// The probability below which speech pauses: 0.35.
pub const SILENCE_THRESHOLD_BITS: u32 = 0x3eb3_3333;

/// How long one frame of the detector lasts: 0.032 seconds.
pub const FRAME_DURATION_BITS: u32 = 0x3d03_126f;

/// How often a session is polled where the engine does not say otherwise.
pub const POLL_INTERVAL_MS: u64 = 300;

/// Nanoseconds in a millisecond.
pub const MILLI: u128 = 1_000_000;

/// Timing and thresholds of the detector's state machine. The two thresholds lie
/// apart so that a short dip does not end speech.
#[derive(Clone, Copy, Debug, PartialEq, Eq, Structural)]
pub struct VadTuning {
    /// A frame at or above this begins speech.
    pub speech_threshold: Single,
    /// A frame at or above this keeps speech going.
    pub offset_threshold: Single,
    /// How long a pause must last, in nanoseconds, to end a chunk.
    pub silence_duration: u128,
    /// How long speech may last, in nanoseconds, before a chunk is cut.
    pub max_chunk_duration: u128,
    /// How often the streams are polled, in nanoseconds.
    pub poll_interval: u128,
    /// How much audio before the onset belongs to the chunk, in nanoseconds.
    pub pre_roll: u128,
}

impl VadTuning {
    /// Every length of time is one that the system's clock type can hold.
    pub open spec fn wf(self) -> bool {
        &&& self.silence_duration < SPAN_LIMIT
        &&& self.max_chunk_duration < SPAN_LIMIT
        &&& self.poll_interval < SPAN_LIMIT
        &&& self.pre_roll < SPAN_LIMIT
    }
}

/// What depends on the engine, resolved once for a runtime.
#[derive(Debug)]
pub struct EngineProfile {
    pub engine_kind: EngineKind,
    pub engine_name: &'static str,
    pub vad_tuning: VadTuning,
    /// Whether the engine takes a text prompt.
    pub uses_initial_prompt: bool,
    pub accel: Option<String>,
    pub variant: Option<String>,
}

/// The detector's timing for an engine. Whisper follows the request; Parakeet has its
/// own.
pub open spec fn tuning_for(
    engine: EngineKind,
    silence_duration_ms: u32,
    max_chunk_seconds: Single,
) -> VadTuning {
    match engine {
        EngineKind::Whisper => VadTuning {
            speech_threshold: Single { bits: SPEECH_THRESHOLD_BITS },
            offset_threshold: Single { bits: SILENCE_THRESHOLD_BITS },
            silence_duration: (silence_duration_ms * MILLI) as u128,
            max_chunk_duration: single::seconds_span(
                (max_chunk_seconds.mant(), max_chunk_seconds.exp()),
            ) as u128,
            poll_interval: (POLL_INTERVAL_MS * MILLI) as u128,
            pre_roll: 0,
        },
        EngineKind::Parakeet => VadTuning {
            speech_threshold: Single { bits: SPEECH_THRESHOLD_BITS },
            offset_threshold: Single { bits: SILENCE_THRESHOLD_BITS },
            silence_duration: (500 * MILLI) as u128,
            max_chunk_duration: (10_000 * MILLI) as u128,
            poll_interval: (100 * MILLI) as u128,
            pre_roll: (250 * MILLI) as u128,
        },
    }
}

/// Everything that depends on the engine. Only Whisper takes a text prompt.
pub fn profile_for(engine: EngineKind, config: &LiveTranscriptionConfig) -> (r: EngineProfile)
    requires
        engine is Whisper ==> config.max_chunk_seconds.is_span(),
    ensures
        r.engine_kind == engine,
        r.engine_name@ == (match engine {
            EngineKind::Whisper => "Whisper"@,
            EngineKind::Parakeet => "Parakeet"@,
        }),
        r.vad_tuning == tuning_for(engine, config.silence_duration_ms, config.max_chunk_seconds),
        r.vad_tuning.speech_threshold.bits == 0x3f00_0000,
        r.vad_tuning.offset_threshold.bits == 0x3eb3_3333,
        engine is Whisper ==> r.vad_tuning.silence_duration == config.silence_duration_ms
            * 1_000_000 && r.vad_tuning.pre_roll == 0 && r.vad_tuning.poll_interval == 300_000_000,
        engine is Parakeet ==> r.vad_tuning.silence_duration == 500_000_000
            && r.vad_tuning.max_chunk_duration == 10_000_000_000 && r.vad_tuning.pre_roll
            == 250_000_000 && r.vad_tuning.poll_interval == 100_000_000,
        r.vad_tuning.wf(),
        r.uses_initial_prompt == (engine is Whisper),
        r.accel is None,
        r.variant is None,
{
    match engine {
        EngineKind::Whisper => EngineProfile {
            engine_kind: engine,
            engine_name: "Whisper",
            vad_tuning: VadTuning {
                speech_threshold: Single { bits: SPEECH_THRESHOLD_BITS },
                offset_threshold: Single { bits: SILENCE_THRESHOLD_BITS },
                silence_duration: config.silence_duration_ms as u128 * MILLI,
                max_chunk_duration: config.max_chunk_seconds.span(),
                poll_interval: POLL_INTERVAL_MS as u128 * MILLI,
                pre_roll: 0,
            },
            uses_initial_prompt: true,
            accel: None,
            variant: None,
        },
        EngineKind::Parakeet => EngineProfile {
            engine_kind: engine,
            engine_name: "Parakeet",
            vad_tuning: VadTuning {
                speech_threshold: Single { bits: SPEECH_THRESHOLD_BITS },
                offset_threshold: Single { bits: SILENCE_THRESHOLD_BITS },
                silence_duration: 500 * MILLI,
                max_chunk_duration: 10_000 * MILLI,
                poll_interval: 100 * MILLI,
                pre_roll: 250 * MILLI,
            },
            uses_initial_prompt: false,
            accel: None,
            variant: None,
        },
    }
}

// --- One stream ---

/// What the detector keeps for one stream: where it has read to and the last
/// probability it gave. Its recurrent memory is held outside; a change of
/// `generation` says that it has to be started afresh.
#[derive(Clone, Copy, Debug, PartialEq, Eq, Structural)]
pub struct SileroSource {
    pub read_pos: usize,
    pub last_probability: Option<Single>,
    pub generation: u64,
}

impl SileroSource {
    /// A detector that reads from `initial_read_pos`.
    pub fn new(initial_read_pos: usize) -> (r: Self)
        ensures
            r == (SileroSource {
                read_pos: initial_read_pos,
                last_probability: None,
                generation: 0,
            }),
    {
        SileroSource { read_pos: initial_read_pos, last_probability: None, generation: 0 }
    }

    /// The detector with its memory forgotten.
    pub open spec fn forgotten(self) -> SileroSource {
        SileroSource {
            read_pos: self.read_pos,
            last_probability: None,
            generation: self.generation.wrapping_add(1),
        }
    }

    /// Forgets what was heard.
    pub fn reset(&mut self)
        ensures
            *final(self) == old(self).forgotten(),
    {
        self.last_probability = None;
        self.generation = self.generation.wrapping_add(1);
    }
}

/// The state of one stream in a live transcription.
#[derive(Debug)]
pub struct SourceVadState {
    pub label: AudioSourceLabel,
    pub is_speaking: bool,
    /// Where the next chunk begins.
    pub speech_start_pos: usize,
    /// Where audio has been read to.
    pub cursor: usize,
    pub speech_start_time: Option<u64>,
    pub silence_since: Option<u64>,
    pub chunk_index: u32,
    pub accumulated_text: String,
    /// The position of the zero of the session's timeline.
    pub session_start_pos: usize,
    pub source_sample_rate: u32,
    pub source_channels: u16,
    pub last_seen_write_pos: usize,
    pub last_write_pos_advance: u64,
    pub restart_attempts: u32,
    pub last_restart_at: Option<u64>,
    /// Whether a chunk of the stream is being transcribed.
    pub has_in_flight_task: bool,
    /// No later chunk begins before this: where the last one ended.
    pub earliest_next_chunk_pos: usize,
    pub silero: SileroSource,
    /// Whether more recorded audio waits behind the last chunk.
    pub force_drain: bool,
    /// Whether dictation owned the microphone at the last poll.
    pub dictation_was_active: bool,
}

/// The time from `then` to `now`, none where the clock seems to have gone back.
pub open spec fn since(now: u64, then: u64) -> nat {
    if now >= then {
        (now - then) as nat
    } else {
        0
    }
}

/// The time from `then` to `now`.
pub fn elapsed(now: u64, then: u64) -> (r: u64)
    ensures
        r == since(now, then),
{
    if now >= then {
        now - then
    } else {
        0
    }
}

impl SourceVadState {
    /// No chunk that is still to come reaches back before the end of the last one.
    pub open spec fn wf(self) -> bool {
        self.earliest_next_chunk_pos <= self.speech_start_pos
    }

    /// A stream that is silent and reads from `initial_pos`.
    pub fn new(
        label: AudioSourceLabel,
        initial_pos: usize,
        session_start_pos: usize,
        sample_rate: u32,
        channels: u16,
        now: u64,
    ) -> (r: Self)
        ensures
            r.label == label,
            !r.is_speaking,
            r.speech_start_pos == initial_pos,
            r.cursor == initial_pos,
            r.speech_start_time is None,
            r.silence_since is None,
            r.chunk_index == 0,
            r.accumulated_text@ == Seq::<char>::empty(),
            r.session_start_pos == session_start_pos,
            r.source_sample_rate == sample_rate,
            r.source_channels == channels,
            r.last_seen_write_pos == initial_pos,
            r.last_write_pos_advance == now,
            r.restart_attempts == 0,
            r.last_restart_at is None,
            !r.has_in_flight_task,
            r.earliest_next_chunk_pos == session_start_pos,
            r.silero == (SileroSource {
                read_pos: initial_pos,
                last_probability: None,
                generation: 0,
            }),
            !r.force_drain,
            !r.dictation_was_active,
            session_start_pos <= initial_pos ==> r.wf(),
    {
        SourceVadState {
            label,
            is_speaking: false,
            speech_start_pos: initial_pos,
            cursor: initial_pos,
            speech_start_time: None,
            silence_since: None,
            chunk_index: 0,
            accumulated_text: String::new(),
            session_start_pos,
            source_sample_rate: sample_rate,
            source_channels: channels,
            last_seen_write_pos: initial_pos,
            last_write_pos_advance: now,
            restart_attempts: 0,
            last_restart_at: None,
            has_in_flight_task: false,
            earliest_next_chunk_pos: session_start_pos,
            silero: SileroSource::new(initial_pos),
            force_drain: false,
            dictation_was_active: false,
        }
    }

    /// The stream after its ring buffer was replaced: every position points into the
    /// new buffer, and what belongs to the recording stays.
    pub open spec fn rebased(self, new_pos: usize, rate: u32, channels: u16, now: u64) -> Self {
        SourceVadState {
            is_speaking: false,
            speech_start_pos: new_pos,
            cursor: new_pos,
            speech_start_time: None,
            silence_since: None,
            session_start_pos: new_pos,
            source_sample_rate: rate,
            source_channels: channels,
            last_seen_write_pos: new_pos,
            last_write_pos_advance: now,
            earliest_next_chunk_pos: new_pos,
            silero: SileroSource {
                read_pos: new_pos,
                last_probability: None,
                generation: self.silero.generation.wrapping_add(1),
            },
            force_drain: false,
            ..self
        }
    }

    /// Points every position into a new ring buffer.
    pub fn reset_for_buffer_replacement(
        &mut self,
        new_pos: usize,
        sample_rate: u32,
        channels: u16,
        now: u64,
    )
        ensures
            *final(self) == old(self).rebased(new_pos, sample_rate, channels, now),
            !final(self).is_speaking && !final(self).force_drain,
            final(self).cursor == new_pos && final(self).speech_start_pos == new_pos,
            final(self).earliest_next_chunk_pos == new_pos && final(self).silero.read_pos
                == new_pos,
            final(self).session_start_pos == new_pos,
            final(self).source_sample_rate == sample_rate && final(self).source_channels
                == channels,
            final(self).silero.last_probability is None && final(self).silero.generation
                != old(self).silero.generation,
            final(self).chunk_index == old(self).chunk_index && final(self).accumulated_text
                == old(self).accumulated_text,
            final(self).wf(),
    {
        self.is_speaking = false;
        self.speech_start_pos = new_pos;
        self.cursor = new_pos;
        self.speech_start_time = None;
        self.silence_since = None;
        self.session_start_pos = new_pos;
        self.source_sample_rate = sample_rate;
        self.source_channels = channels;
        self.last_seen_write_pos = new_pos;
        self.last_write_pos_advance = now;
        self.earliest_next_chunk_pos = new_pos;
        self.silero.read_pos = new_pos;
        self.silero.reset();
        self.force_drain = false;
    }

    /// The stream once its history up to `current` was handed to the backfill.
    pub open spec fn past_backfill(self, current: usize) -> Self {
        SourceVadState {
            cursor: current,
            speech_start_pos: current,
            earliest_next_chunk_pos: current,
            silero: (SileroSource { read_pos: current, ..self.silero }).forgotten(),
            ..self
        }
    }

    /// Moves the stream past the history that was handed to the backfill, so that
    /// nothing of it is heard twice.
    pub fn skip_backfill(&mut self, current: usize)
        ensures
            *final(self) == old(self).past_backfill(current),
            final(self).cursor == current && final(self).speech_start_pos == current,
            final(self).earliest_next_chunk_pos == current && final(self).silero.read_pos
                == current,
            final(self).silero.last_probability is None && final(self).silero.generation
                != old(self).silero.generation,
            final(self).session_start_pos == old(self).session_start_pos,
            final(self).chunk_index == old(self).chunk_index,
            final(self).wf(),
    {
        self.cursor = current;
        self.speech_start_pos = current;
        self.earliest_next_chunk_pos = current;
        self.silero.read_pos = current;
        self.silero.reset();
    }

    /// The stream once dictation has given the microphone back at `write_pos`.
    pub open spec fn past_dictation(self, write_pos: usize) -> Self {
        SourceVadState {
            cursor: write_pos,
            speech_start_pos: write_pos,
            earliest_next_chunk_pos: write_pos,
            silero: (SileroSource { read_pos: write_pos, ..self.silero }).forgotten(),
            is_speaking: false,
            speech_start_time: None,
            silence_since: None,
            force_drain: false,
            dictation_was_active: false,
            ..self
        }
    }

    /// Drops everything gathered while dictation owned the microphone.
    pub fn release_from_dictation(&mut self, write_pos: usize)
        ensures
            *final(self) == old(self).past_dictation(write_pos),
            !final(self).is_speaking && !final(self).force_drain,
            !final(self).dictation_was_active,
            final(self).cursor == write_pos && final(self).speech_start_pos == write_pos,
            final(self).earliest_next_chunk_pos == write_pos && final(self).silero.read_pos
                == write_pos,
            final(self).silero.last_probability is None && final(self).silero.generation
                != old(self).silero.generation,
            final(self).session_start_pos == old(self).session_start_pos,
            final(self).chunk_index == old(self).chunk_index,
            final(self).wf(),
    {
        self.cursor = write_pos;
        self.speech_start_pos = write_pos;
        self.earliest_next_chunk_pos = write_pos;
        self.silero.read_pos = write_pos;
        self.silero.reset();
        self.is_speaking = false;
        self.speech_start_time = None;
        self.silence_since = None;
        self.force_drain = false;
        self.dictation_was_active = false;
    }

    /// Moves a silent stream to the write position.
    pub fn advance_idle_cursor(&mut self, write_pos: usize)
        ensures
            *final(self) == (SourceVadState {
                cursor: write_pos,
                speech_start_pos: write_pos,
                ..*old(self)
            }),
            old(self).earliest_next_chunk_pos <= write_pos ==> final(self).wf(),
    {
        self.cursor = write_pos;
        self.speech_start_pos = write_pos;
    }
}

// --- The state machine ---

/// What the state machine asks for.
#[derive(Clone, Copy, Debug, PartialEq, Eq, Structural)]
pub enum VadAction {
    /// Nothing.
    Hold,
    /// A pause ended the chunk.
    Chunk,
    /// Speech goes on, but the chunk is long enough.
    ForceChunk,
}

impl VadAction {
    /// How strongly the action asks.
    pub open spec fn strength(self) -> int {
        match self {
            VadAction::Hold => 0,
            VadAction::Chunk => 1,
            VadAction::ForceChunk => 2,
        }
    }
}

/// The stronger of two actions.
pub open spec fn stronger(a: VadAction, b: VadAction) -> VadAction {
    if a.strength() >= b.strength() {
        a
    } else {
        b
    }
}

/// Where a chunk begins whose onset is heard now: back by the pre-roll, never before
/// the end of the last chunk.
pub open spec fn onset_pos(s: SourceVadState, t: VadTuning) -> usize {
    if t.pre_roll > 0 {
        let back = single::sample_count(
            single::span_seconds(t.pre_roll as nat),
            s.source_sample_rate as nat,
            s.source_channels as nat,
        );
        let rewound = if s.speech_start_pos >= back {
            (s.speech_start_pos - back) as usize
        } else {
            0
        };
        if rewound >= s.earliest_next_chunk_pos {
            rewound
        } else {
            s.earliest_next_chunk_pos
        }
    } else {
        s.speech_start_pos
    }
}

/// One probability through the state machine.
pub open spec fn polled(
    s: SourceVadState,
    probability: Option<Single>,
    t: VadTuning,
    now: u64,
) -> (SourceVadState, VadAction) {
    match probability {
        None => (s, VadAction::Hold),
        Some(p) => if s.is_speaking {
            if p.ge(t.offset_threshold) {
                let spoken: nat = match s.speech_start_time {
                    Some(then) => since(now, then),
                    None => 0,
                };
                (
                    SourceVadState { silence_since: None, ..s },
                    if spoken >= t.max_chunk_duration {
                        VadAction::ForceChunk
                    } else {
                        VadAction::Hold
                    },
                )
            } else {
                let paused_at = match s.silence_since {
                    Some(then) => then,
                    None => now,
                };
                (
                    SourceVadState { silence_since: Some(paused_at), ..s },
                    if since(now, paused_at) >= t.silence_duration {
                        VadAction::Chunk
                    } else {
                        VadAction::Hold
                    },
                )
            }
        } else if p.ge(t.speech_threshold) {
            (
                SourceVadState {
                    is_speaking: true,
                    silence_since: None,
                    speech_start_time: Some(now),
                    speech_start_pos: onset_pos(s, t),
                    ..s
                },
                VadAction::Hold,
            )
        } else {
            (s, VadAction::Hold)
        },
    }
}

/// One probability through the state machine; without one nothing happens.
pub fn poll_vad(
    state: &mut SourceVadState,
    probability: Option<Single>,
    tuning: &VadTuning,
    now: u64,
) -> (r: VadAction)
    requires
        tuning.wf(),
    ensures
        (*final(state), r) == polled(*old(state), probability, *tuning, now),
        old(state).wf() ==> final(state).wf(),
{
    let p: Single = match probability {
        Some(p) => p,
        None => {
            return VadAction::Hold;
        },
    };
    if state.is_speaking {
        if p.at_least(tuning.offset_threshold) {
            state.silence_since = None;
            let spoken: u64 = match state.speech_start_time {
                Some(then) => elapsed(now, then),
                None => 0,
            };
            if spoken as u128 >= tuning.max_chunk_duration {
                VadAction::ForceChunk
            } else {
                VadAction::Hold
            }
        } else {
            let paused_at: u64 = match state.silence_since {
                Some(then) => then,
                None => now,
            };
            state.silence_since = Some(paused_at);
            if elapsed(now, paused_at) as u128 >= tuning.silence_duration {
                VadAction::Chunk
            } else {
                VadAction::Hold
            }
        }
    } else {
        if p.at_least(tuning.speech_threshold) {
            if tuning.pre_roll > 0 {
                let back: usize = single::samples_in(
                    single::seconds_of_span(tuning.pre_roll),
                    state.source_sample_rate,
                    state.source_channels,
                );
                let rewound: usize = state.speech_start_pos.saturating_sub(back);
                state.speech_start_pos = if rewound >= state.earliest_next_chunk_pos {
                    rewound
                } else {
                    state.earliest_next_chunk_pos
                };
            }
            state.is_speaking = true;
            state.silence_since = None;
            state.speech_start_time = Some(now);
        }
        VadAction::Hold
    }
}

/// A batch of probabilities through the state machine, in order, with the strongest
/// action that any of them asked for.
pub open spec fn polled_batch(
    s: SourceVadState,
    probs: Seq<Single>,
    t: VadTuning,
    now: u64,
) -> (SourceVadState, VadAction)
    decreases probs.len(),
{
    if probs.len() == 0 {
        (s, VadAction::Hold)
    } else {
        let (before, best) = polled_batch(s, probs.drop_last(), t, now);
        let (after, action) = polled(before, Some(probs.last()), t, now);
        (after, stronger(best, action))
    }
}

/// One poll of a stream: a stream with audio left over is cut at once; without new
/// probabilities the last one counts again; otherwise every one counts, in order.
pub open spec fn polled_source(
    s: SourceVadState,
    probs: Seq<Single>,
    t: VadTuning,
    now: u64,
) -> (SourceVadState, VadAction) {
    if s.force_drain {
        (s, VadAction::ForceChunk)
    } else if probs.len() == 0 {
        polled(s, s.silero.last_probability, t, now)
    } else {
        polled_batch(s, probs, t, now)
    }
}

/// One poll of a stream.
pub fn poll_source(
    state: &mut SourceVadState,
    probs: &[Single],
    tuning: &VadTuning,
    now: u64,
) -> (r: VadAction)
    requires
        tuning.wf(),
    ensures
        (*final(state), r) == polled_source(*old(state), probs@, *tuning, now),
        old(state).wf() ==> final(state).wf(),
{
    if state.force_drain {
        return VadAction::ForceChunk;
    }
    if probs.len() == 0 {
        let last: Option<Single> = state.silero.last_probability;
        return poll_vad(state, last, tuning, now);
    }
    let mut best: VadAction = VadAction::Hold;
    let mut i: usize = 0;
    while i < probs.len()
        invariant
            i <= probs@.len(),
            tuning.wf(),
            (*state, best) == polled_batch(*old(state), probs@.take(i as int), *tuning, now),
            old(state).wf() ==> state.wf(),
        decreases probs@.len() - i,
    {
        let action: VadAction = poll_vad(state, Some(probs[i]), tuning, now);
        best = match (best, action) {
            (VadAction::ForceChunk, _) => VadAction::ForceChunk,
            (_, VadAction::ForceChunk) => VadAction::ForceChunk,
            (VadAction::Chunk, _) => VadAction::Chunk,
            (VadAction::Hold, a) => a,
        };
        i = i + 1;
        assert(probs@.take(i as int).drop_last() =~= probs@.take(i - 1));
        assert(probs@.take(i as int).last() == probs@[i - 1]);
    }
    assert(probs@.take(i as int) =~= probs@);
    best
}

/// Notes what the detector made of newly read audio: where it has read to, and the
/// last probability where there was any.
pub fn note_probabilities(state: &mut SourceVadState, new_pos: usize, probs: &[Single])
    ensures
        *final(state) == (SourceVadState {
            silero: SileroSource {
                read_pos: new_pos,
                last_probability: if probs@.len() > 0 {
                    Some(probs@.last())
                } else {
                    old(state).silero.last_probability
                },
                ..old(state).silero
            },
            ..*old(state)
        }),
{
    state.silero.read_pos = new_pos;
    if probs.len() > 0 {
        state.silero.last_probability = Some(probs[probs.len() - 1]);
    }
}

/// The class of a live chunk: dictation's microphone goes first.
pub open spec fn chunk_origin(kind: LiveSourceKind, label: AudioSourceLabel) -> JobOrigin {
    if kind is Dictation && label is Mic {
        JobOrigin::Dictation
    } else {
        JobOrigin::Live
    }
}

/// The class of a live chunk.
pub fn origin_of_chunk(kind: LiveSourceKind, label: AudioSourceLabel) -> (r: JobOrigin)
    ensures
        r == chunk_origin(kind, label),
        r == JobOrigin::Dictation <==> kind is Dictation && label is Mic,
        r == JobOrigin::Live <==> !(kind is Dictation && label is Mic),
{
    match (kind, label) {
        (LiveSourceKind::Dictation, AudioSourceLabel::Mic) => JobOrigin::Dictation,
        _ => JobOrigin::Live,
    }
}

// --- What holds of the state machine ---

/// Speech that begins within a batch is noticed, whatever follows it in the batch: a
/// stream that was silent ends the batch speaking where some frame reached the
/// threshold.
pub proof fn law_onset_within_batch(
    s: SourceVadState,
    probs: Seq<Single>,
    t: VadTuning,
    now: u64,
    i: int,
)
    requires
        0 <= i < probs.len(),
        probs[i].ge(t.speech_threshold),
    ensures
        polled_batch(s, probs, t, now).0.is_speaking,
    decreases probs.len(),
{
    let (before, best) = polled_batch(s, probs.drop_last(), t, now);
    if i < probs.len() - 1 {
        law_onset_within_batch(s, probs.drop_last(), t, now, i);
    }
}

/// The state machine never moves the start of a chunk before the end of the last one,
/// and never touches that bound.
pub proof fn law_poll_keeps_bound(s: SourceVadState, p: Option<Single>, t: VadTuning, now: u64)
    requires
        s.wf(),
    ensures
        polled(s, p, t, now).0.wf(),
        polled(s, p, t, now).0.earliest_next_chunk_pos == s.earliest_next_chunk_pos,
{
}

/// A chunk is asked for only by a stream that speaks.
pub proof fn law_action_means_speech(s: SourceVadState, p: Option<Single>, t: VadTuning, now: u64)
    ensures
        polled(s, p, t, now).1 != VadAction::Hold ==> s.is_speaking,
{
}

/// A frame at the onset threshold, and nothing less, makes a silent stream speak. The chunk
/// then begins earlier by the pre-roll, all of it, and by no more; only where the last
/// chunk ended within it does the new one begin right behind that. The samples of the
/// pre-roll are its nanoseconds times rate and channels, cut to a whole number, up to one
/// in a million.
pub proof fn law_onset_reaches_back(s: SourceVadState, p: Single, t: VadTuning, now: u64)
    requires
        s.wf(),
        !s.is_speaking,
    ensures
        ({
            let (after, action) = polled(s, Some(p), t, now);
            let per_second = s.source_sample_rate * s.source_channels;
            let back = s.speech_start_pos - after.speech_start_pos;
            &&& action is Hold
            &&& after.is_speaking <==> p.ge(t.speech_threshold)
            &&& !p.ge(t.speech_threshold) ==> after == s
            &&& p.ge(t.speech_threshold) ==> after.speech_start_time == Some(now)
                && after.silence_since is None
            &&& s.earliest_next_chunk_pos <= after.speech_start_pos <= s.speech_start_pos
            &&& back * 1_000_000_000 * 1_000_000 <= t.pre_roll * per_second * 1_000_001
            &&& p.ge(t.speech_threshold) && after.speech_start_pos > s.earliest_next_chunk_pos
                ==> t.pre_roll * per_second * 999_999 < (back + 1) * 1_000_000_000 * 1_000_000
            &&& after == (SourceVadState {
                is_speaking: after.is_speaking,
                silence_since: after.silence_since,
                speech_start_time: after.speech_start_time,
                speech_start_pos: after.speech_start_pos,
                ..s
            })
        }),
{
    let rate = s.source_sample_rate as nat;
    let channels = s.source_channels as nat;
    single::law_samples_of_span(t.pre_roll as nat, rate, channels);
    let n = single::sample_count(single::span_seconds(t.pre_roll as nat), rate, channels);
    let after = polled(s, Some(p), t, now).0;
    let back = s.speech_start_pos - after.speech_start_pos;
    assert(back <= n);
    assert(0 <= t.pre_roll * (rate * channels)) by (nonlinear_arith);
    if t.pre_roll == 0 {
        assert(t.pre_roll * (rate * channels) == 0) by (nonlinear_arith)
            requires
                t.pre_roll == 0,
        ;
    }
}

/// The start of a chunk moves with the stream: a stream that stands further on by `d`, the
/// end of its last chunk with it, begins its chunk further on by `d`, wherever the
/// pre-roll reaches back to no position below zero.
pub proof fn law_onset_moves_along(
    s: SourceVadState,
    u: SourceVadState,
    p: Single,
    t: VadTuning,
    now: u64,
    d: nat,
)
    requires
        s.wf(),
        !s.is_speaking,
        polled(s, Some(p), t, now).0.speech_start_pos > s.earliest_next_chunk_pos,
        u == (SourceVadState {
            speech_start_pos: u.speech_start_pos,
            earliest_next_chunk_pos: u.earliest_next_chunk_pos,
            ..s
        }),
        u.speech_start_pos == s.speech_start_pos + d,
        u.earliest_next_chunk_pos == s.earliest_next_chunk_pos + d,
    ensures
        polled(u, Some(p), t, now).0.speech_start_pos == polled(s, Some(p), t, now).0.speech_start_pos
            + d,
{
}

/// A pause ends a chunk once it has lasted as long as it must, reckoned from its first
/// frame below the lower threshold, and not before; a frame at that threshold in between
/// makes the pause begin anew.
pub proof fn law_pause_ends_chunk(
    s: SourceVadState,
    first: Single,
    between: Single,
    last: Single,
    t: VadTuning,
    from: u64,
    mid: u64,
    now: u64,
)
    requires
        s.is_speaking,
        s.silence_since is None,
        !first.ge(t.offset_threshold),
        !last.ge(t.offset_threshold),
        from <= mid <= now,
    ensures
        ({
            let paused = polled(s, Some(first), t, from).0;
            let dipped = polled(paused, Some(between), t, mid).0;
            let (after, action) = polled(dipped, Some(last), t, now);
            &&& polled(s, Some(first), t, from).1 is Chunk <==> t.silence_duration == 0
            &&& polled(s, Some(first), t, from).1 is Hold <==> t.silence_duration > 0
            &&& !between.ge(t.offset_threshold) ==> (action is Chunk <==> now - from
                >= t.silence_duration)
            &&& between.ge(t.offset_threshold) ==> (action is Chunk <==> t.silence_duration == 0)
            &&& action is Chunk || action is Hold
            &&& after.is_speaking && after.speech_start_pos == s.speech_start_pos
            &&& after.speech_start_time == s.speech_start_time
        }),
{
}

/// Speech that goes on is cut once it has lasted as long as a chunk may, reckoned from its
/// onset, and not before.
pub proof fn law_long_speech_is_cut(
    s: SourceVadState,
    onset: Single,
    p: Single,
    t: VadTuning,
    from: u64,
    now: u64,
)
    requires
        !s.is_speaking,
        onset.ge(t.speech_threshold),
        p.ge(t.offset_threshold),
        from <= now,
    ensures
        ({
            let speaking = polled(s, Some(onset), t, from).0;
            let (after, action) = polled(speaking, Some(p), t, now);
            &&& action is ForceChunk <==> now - from >= t.max_chunk_duration
            &&& action is Hold <==> now - from < t.max_chunk_duration
            &&& after == speaking
        }),
{
}

/// Without a probability nothing happens.
pub proof fn law_no_frame_no_change(s: SourceVadState, t: VadTuning, now: u64)
    ensures
        polled(s, None, t, now) == (s, VadAction::Hold),
{
}

/// A stream that has audio left over is cut at once, whatever is heard; where nothing new is
/// heard the last frame counts again; and one frame counts as itself.
pub proof fn law_poll_of_a_stream(s: SourceVadState, p: Single, t: VadTuning, now: u64)
    ensures
        s.force_drain ==> polled_source(s, seq![p], t, now) == (s, VadAction::ForceChunk)
            && polled_source(s, Seq::empty(), t, now) == (s, VadAction::ForceChunk),
        !s.force_drain ==> polled_source(s, Seq::empty(), t, now) == polled(
            s,
            s.silero.last_probability,
            t,
            now,
        ),
        !s.force_drain ==> polled_source(s, seq![p], t, now) == polled(s, Some(p), t, now),
{
    assert(seq![p].drop_last() =~= Seq::<Single>::empty());
    reveal_with_fuel(polled_batch, 2);
    assert(seq![p].last() == p);
}

/// A batch asks at least as strongly as each of its frames did when its turn came, and as
/// strongly as one of them.
pub proof fn law_batch_asks_as_its_frames(
    s: SourceVadState,
    probs: Seq<Single>,
    t: VadTuning,
    now: u64,
    i: int,
)
    requires
        0 <= i < probs.len(),
    ensures
        ({
            let asked = |k: int|
                polled(polled_batch(s, probs.take(k), t, now).0, Some(probs[k]), t, now).1;
            let action = polled_batch(s, probs, t, now).1;
            &&& asked(i) is ForceChunk ==> action is ForceChunk
            &&& asked(i) is Chunk ==> !(action is Hold)
            &&& action is Hold || exists|k: int| 0 <= k < probs.len() && #[trigger] asked(k) == action
        }),
    decreases probs.len(),
{
    let asked = |k: int|
        polled(polled_batch(s, probs.take(k), t, now).0, Some(probs[k]), t, now).1;
    let init = probs.drop_last();
    let action = polled_batch(s, probs, t, now).1;
    let n = probs.len() - 1;
    assert(probs.take(n) =~= init);
    assert(asked(n) == polled(polled_batch(s, init, t, now).0, Some(probs.last()), t, now).1);
    if init.len() > 0 {
        let before = |k: int|
            polled(polled_batch(s, init.take(k), t, now).0, Some(init[k]), t, now).1;
        assert forall|k: int| 0 <= k < init.len() implies #[trigger] before(k) == asked(k) by {
            assert(init.take(k) =~= probs.take(k));
        }
        let j = if i < n {
            i
        } else {
            0
        };
        law_batch_asks_as_its_frames(s, init, t, now, j);
        assert(before(j) == asked(j));
        let best = polled_batch(s, init, t, now).1;
        if !(best is Hold) {
            let k = choose|k: int| 0 <= k < init.len() && #[trigger] before(k) == best;
            assert(asked(k) == best);
        }
    } else {
        assert(init =~= Seq::<Single>::empty());
    }
}

} // verus!
