//! Starting a live transcription: what a request must satisfy, how far back the session
//! begins, and the streams that it begins with.

use vstd::prelude::*;

use crate::dispatch::{self, BufferFormat, BufferPositions};
use crate::error::CommandError;
use crate::files;
use crate::labels::{
    self, AudioExportFormatDto, AudioSourceLabel, LiveSourceKind, LiveTranscriptionConfig,
};
use crate::mic::DictationOwnsMic;
use crate::model::{CaptureSource, CaptureSourceDto, MixConfig};
use crate::platform::TargetOs;
use crate::single::{self, Single};
use crate::slots::LiveTranscriptionSlots;
use crate::text;
use crate::vad::SourceVadState;

verus! {

/// The number of the first live chunk of a session that also works on its history, whose
/// chunks are numbered from zero.
pub const FIRST_LIVE_CHUNK: u32 = 10_000;

/// The rate that is reckoned with for a microphone without a buffer.
pub const FALLBACK_SAMPLE_RATE: u32 = 48_000;

// --- Requests ---

/// What a dictation request violates, if anything: it records the microphone alone,
/// without history, and leaves no part behind.
pub open spec fn dictation_fault(c: LiveTranscriptionConfig) -> Option<Seq<char>> {
    if c.source_kind !is Dictation {
        None
    } else if c.source !is MicOnly {
        Some("dictation requires source=MicOnly"@)
    } else if !c.backfill_seconds.eqv(Single { bits: 0 }) {
        Some("dictation requires backfill_seconds=0"@)
    } else if c.persist_audio_part {
        Some("dictation requires persist_audio_part=false"@)
    } else {
        None
    }
}

/// Accepts a request that is no dictation, or a dictation as it must be.
pub fn check_dictation(config: &LiveTranscriptionConfig) -> (r: Result<(), CommandError>)
    ensures
        match dictation_fault(*config) {
            None => r is Ok,
            Some(m) => r matches Err(e) && e.invalid(m),
        },
{
    if config.source_kind == LiveSourceKind::Dictation {
        match config.source {
            CaptureSourceDto::MicOnly => {},
            _ => {
                return Err(CommandError::invalid_input("dictation requires source=MicOnly"));
            },
        }
        if !config.backfill_seconds.same_number(Single { bits: 0 }) {
            return Err(CommandError::invalid_input("dictation requires backfill_seconds=0"));
        }
        if config.persist_audio_part {
            return Err(CommandError::invalid_input("dictation requires persist_audio_part=false"));
        }
    }
    Ok(())
}

/// What the numbers of a request violate, if anything, in the order in which they are
/// looked at.
pub open spec fn number_fault(c: LiveTranscriptionConfig) -> Option<Seq<char>> {
    let zero = Single { bits: 0 };
    if c.silence_duration_ms == 0 {
        Some("silence_duration_ms must be > 0"@)
    } else if !c.max_chunk_seconds.finite() || zero.ge(c.max_chunk_seconds) {
        Some("max_chunk_seconds must be finite and > 0"@)
    } else if !c.backfill_seconds.finite() || zero.gt(c.backfill_seconds) {
        Some("backfill_seconds must be finite and >= 0"@)
    } else if c.prompt_decay_silence_seconds matches Some(d) && (!d.finite() || zero.gt(d)) {
        Some("prompt_decay_silence_seconds must be finite and >= 0"@)
    } else {
        None
    }
}

/// Accepts a request whose numbers can be reckoned with.
pub fn check_numbers(config: &LiveTranscriptionConfig) -> (r: Result<(), CommandError>)
    ensures
        match number_fault(*config) {
            None => r is Ok,
            Some(m) => r matches Err(e) && e.invalid(m),
        },
{
    let zero: Single = Single { bits: 0 };
    if config.silence_duration_ms == 0 {
        return Err(CommandError::invalid_input("silence_duration_ms must be > 0"));
    }
    if !config.max_chunk_seconds.is_finite() || zero.at_least(config.max_chunk_seconds) {
        return Err(CommandError::invalid_input("max_chunk_seconds must be finite and > 0"));
    }
    if !config.backfill_seconds.is_finite() || zero.above(config.backfill_seconds) {
        return Err(CommandError::invalid_input("backfill_seconds must be finite and >= 0"));
    }
    if let Some(decay) = config.prompt_decay_silence_seconds {
        if !decay.is_finite() || zero.above(decay) {
            return Err(
                CommandError::invalid_input(
                    "prompt_decay_silence_seconds must be finite and >= 0",
                ),
            );
        }
    }
    Ok(())
}

/// The bit rate that has to be one the encoder knows: the requested one, where the
/// recording will be compressed.
pub fn bitrate_to_check(config: &LiveTranscriptionConfig) -> (r: Option<u16>)
    ensures
        r == (if labels::export_format(config.audio_export_format) is Mp3 {
            config.mp3_bitrate
        } else {
            None
        }),
        config.audio_export_format == Some(AudioExportFormatDto::Wav) ==> r is None,
        config.audio_export_format != Some(AudioExportFormatDto::Wav) ==> r == config.mp3_bitrate,
{
    match config.audio_export_format {
        Some(AudioExportFormatDto::Wav) => None,
        _ => config.mp3_bitrate,
    }
}

/// What refuses a request before any stream is looked at: first a runtime of its kind that
/// is still there, next what a dictation must be, last its numbers.
pub open spec fn start_fault<R>(
    slots: LiveTranscriptionSlots<R>,
    c: LiveTranscriptionConfig,
) -> Option<Seq<char>> {
    if slots.of(c.source_kind) !is Idle {
        Some(LiveTranscriptionSlots::<R>::busy_text(c.source_kind))
    } else if dictation_fault(c) is Some {
        dictation_fault(c)
    } else {
        number_fault(c)
    }
}

/// Accepts a request or says what refuses it. Nothing changes but the microphone's
/// ownership. A session that finds no dictation forgets what an earlier one left behind.
/// A dictation takes the microphone at `mic_pos` before its numbers are looked at, so that
/// the first syllable is its own, and is told since when it has it; one whose numbers refuse
/// it gives the microphone back and leaves no window.
pub fn accept_start<R>(
    slots: &LiveTranscriptionSlots<R>,
    mic: &mut DictationOwnsMic,
    mic_pos: u64,
    config: &LiveTranscriptionConfig,
) -> (r: Result<Option<u64>, CommandError>)
    ensures
        match start_fault(*slots, *config) {
            None => r == Ok::<Option<u64>, CommandError>(
                if config.source_kind is Dictation {
                    Some(mic_pos)
                } else {
                    None
                },
            ),
            Some(m) => r matches Err(e) && e.invalid(m),
        },
        slots.of(config.source_kind) !is Idle || dictation_fault(*config) is Some ==> *final(mic)
            == *old(mic),
        slots.of(config.source_kind) is Idle && dictation_fault(*config) is None ==> {
            match config.source_kind {
                LiveSourceKind::Session => if slots.dictation is Idle {
                    final(mic).since() is None && final(mic).windows().len() == 0
                } else {
                    *final(mic) == *old(mic)
                },
                LiveSourceKind::Dictation => {
                    &&& final(mic).windows() == old(mic).windows()
                    &&& final(mic).since() == (if r is Ok {
                        Some(mic_pos)
                    } else {
                        None
                    })
                },
            }
        },
{
    slots.may_start(config.source_kind)?;
    check_dictation(config)?;
    if slots.clears_mic_ownership(config.source_kind) {
        mic.clear_for_session();
    }
    let mut taken_at: Option<u64> = None;
    if config.source_kind == LiveSourceKind::Dictation {
        taken_at = Some(mic.open(mic_pos));
    }
    match check_numbers(config) {
        Ok(()) => Ok(taken_at),
        Err(e) => {
            if config.source_kind == LiveSourceKind::Dictation {
                mic.clear_open();
            }
            Err(e)
        },
    }
}

/// A request that passed can be reckoned with: its numbers are finite and none is
/// negative.
pub proof fn law_accepted_numbers(c: LiveTranscriptionConfig)
    requires
        number_fault(c) is None,
    ensures
        c.silence_duration_ms > 0,
        c.max_chunk_seconds.finite() && c.max_chunk_seconds.gt(Single { bits: 0 }),
        c.backfill_seconds.finite() && c.backfill_seconds.ge(Single { bits: 0 }),
        c.prompt_decay_silence_seconds matches Some(d) ==> d.finite() && d.ge(Single { bits: 0 }),
{
}

/// A dictation that passed never touches the history or the parts of a session.
pub proof fn law_accepted_dictation(c: LiveTranscriptionConfig)
    requires
        dictation_fault(c) is None,
        c.source_kind is Dictation,
    ensures
        c.source is MicOnly,
        c.backfill_seconds.eqv(Single { bits: 0 }),
        !c.persist_audio_part,
{
}

// --- Where the session begins ---

/// The history that is asked for: none for a recording that is taken up again.
pub open spec fn requested_backfill(c: LiveTranscriptionConfig) -> Single {
    if c.resume is Some {
        Single { bits: 0 }
    } else {
        c.backfill_seconds
    }
}

/// Drops the history from the request of a recording that is taken up again.
pub fn settle_resume(config: &mut LiveTranscriptionConfig)
    ensures
        *final(config) == (LiveTranscriptionConfig {
            backfill_seconds: requested_backfill(*old(config)),
            ..*old(config)
        }),
        old(config).resume is Some ==> final(config).backfill_seconds.bits == 0,
        old(config).resume is None ==> *final(config) == *old(config),
{
    if config.resume.is_some() {
        config.backfill_seconds = Single { bits: 0 };
    }
}

/// The moment that the timeline of a recording goes on from: never below zero.
pub fn session_offset_base(config: &LiveTranscriptionConfig) -> (r: Single)
    ensures
        r == (match config.resume {
            Some(c) => c.offset_base_seconds.larger(Single { bits: 0 }),
            None => Single { bits: 0 },
        }),
{
    match config.resume {
        Some(c) => c.offset_base_seconds.max(Single { bits: 0 }),
        None => Single { bits: 0 },
    }
}

/// How much history is there: of two streams what both have; of one what it has.
pub open spec fn available_history(
    source: CaptureSource,
    mic: Option<Single>,
    system: Option<Single>,
) -> Single {
    let m = if source.mic() {
        mic
    } else {
        None
    };
    let s = if source.system() {
        system
    } else {
        None
    };
    match (m, s) {
        (Some(a), Some(b)) => a.smaller(b),
        (Some(a), None) => a,
        (None, Some(b)) => b,
        (None, None) => Single { bits: 0 },
    }
}

/// How much history is there.
pub fn available_backfill(
    source: CaptureSource,
    mic: Option<Single>,
    system: Option<Single>,
) -> (r: Single)
    ensures
        r == available_history(source, mic, system),
{
    let m: Option<Single> = if source.reads_mic() {
        mic
    } else {
        None
    };
    let s: Option<Single> = if source.reads_system() {
        system
    } else {
        None
    };
    match (m, s) {
        (Some(a), Some(b)) => a.min(b),
        (Some(a), None) => a,
        (None, Some(b)) => b,
        (None, None) => Single { bits: 0 },
    }
}

/// How much history a session takes: what was asked for, but no more than what can
/// safely be read; none where none was asked for.
pub fn effective_backfill(requested: Single, readable: Single) -> (r: Single)
    ensures
        r == (if requested.gt(Single { bits: 0 }) {
            requested.smaller(readable)
        } else {
            Single { bits: 0 }
        }),
{
    if requested.above(Single { bits: 0 }) {
        requested.min(readable)
    } else {
        Single { bits: 0 }
    }
}

/// A position moved back by the history that a session takes.
pub open spec fn rewound(pos: usize, history: Single, format: Option<BufferFormat>) -> usize {
    match format {
        Some(f) => {
            let back = dispatch::rewind(history, f.sample_rate, f.channels);
            if pos >= back {
                (pos - back) as usize
            } else {
                0
            }
        },
        None => pos,
    }
}

/// Whether a buffer, where there is one, has a channel.
pub open spec fn has_channels(format: Option<BufferFormat>) -> bool {
    format matches Some(f) ==> f.channels > 0
}

/// Moves a position back by the history that a session takes.
pub fn rewind_position(pos: usize, history: Single, format: Option<BufferFormat>) -> (r: usize)
    requires
        has_channels(format),
    ensures
        r == rewound(pos, history, format),
        r <= pos,
{
    match format {
        Some(f) => pos.saturating_sub(
            dispatch::rewind_samples(history, f.sample_rate, f.channels),
        ),
        None => pos,
    }
}

/// Where a runtime begins: at the present, a dictation where it took the microphone, so
/// that nothing is lost of what was said until it runs. A buffer that does not reach that
/// far is a new one, in which it begins at the present too.
pub fn begin_positions(now: BufferPositions, taken_at: Option<u64>) -> (r: BufferPositions)
    ensures
        r.system_pos == now.system_pos,
        r.mic_pos == (match taken_at {
            Some(at) => if at < now.mic_pos {
                at as usize
            } else {
                now.mic_pos
            },
            None => now.mic_pos,
        }),
{
    BufferPositions {
        mic_pos: match taken_at {
            Some(at) => if at < now.mic_pos as u64 {
                at as usize
            } else {
                now.mic_pos
            },
            None => now.mic_pos,
        },
        system_pos: now.system_pos,
    }
}

/// Where the recording begins: the history that the session takes is recorded too.
pub fn recording_start(
    positions: BufferPositions,
    history: Single,
    mic: Option<BufferFormat>,
    system: Option<BufferFormat>,
) -> (r: BufferPositions)
    requires
        has_channels(mic),
        has_channels(system),
    ensures
        history.gt(Single { bits: 0 }) ==> r == (BufferPositions {
            mic_pos: rewound(positions.mic_pos, history, mic),
            system_pos: rewound(positions.system_pos, history, system),
        }),
        !history.gt(Single { bits: 0 }) ==> r == positions,
{
    if history.above(Single { bits: 0 }) {
        BufferPositions {
            mic_pos: rewind_position(positions.mic_pos, history, mic),
            system_pos: rewind_position(positions.system_pos, history, system),
        }
    } else {
        positions
    }
}

// --- The streams of a session ---

/// Where a stream with this buffer begins.
pub open spec fn initial_pos(pos: usize, history: Single, format: Option<BufferFormat>) -> usize {
    if history.gt(Single { bits: 0 }) {
        rewound(pos, history, format)
    } else {
        pos
    }
}

/// Whether `s` is a fresh stream at `pos`.
pub open spec fn fresh(
    s: SourceVadState,
    label: AudioSourceLabel,
    pos: usize,
    format: BufferFormat,
    now: u64,
) -> bool {
    &&& s.label == label
    &&& s.source_sample_rate == format.sample_rate
    &&& s.source_channels == format.channels
    &&& s.speech_start_pos == pos
    &&& s.cursor == pos
    &&& s.session_start_pos == pos
    &&& s.earliest_next_chunk_pos == pos
    &&& s.last_seen_write_pos == pos
    &&& s.last_write_pos_advance == now
    &&& s.silero.read_pos == pos
    &&& s.silero.last_probability is None
    &&& !s.is_speaking
    &&& !s.has_in_flight_task
    &&& !s.force_drain
    &&& !s.dictation_was_active
    &&& s.speech_start_time is None
    &&& s.silence_since is None
    &&& s.last_restart_at is None
    &&& s.restart_attempts == 0
    &&& s.chunk_index == 0
    &&& s.accumulated_text@.len() == 0
}

/// The format that a microphone is taken to have.
pub open spec fn mic_format(mic: Option<BufferFormat>) -> BufferFormat {
    match mic {
        Some(f) => f,
        None => BufferFormat { sample_rate: FALLBACK_SAMPLE_RATE, channels: 1 },
    }
}

fn fresh_source(
    label: AudioSourceLabel,
    pos: usize,
    history: Single,
    format: Option<BufferFormat>,
    now: u64,
) -> (r: SourceVadState)
    requires
        has_channels(format),
    ensures
        fresh(r, label, initial_pos(pos, history, format), mic_format(format), now),
        r.wf(),
{
    let at: usize = if history.above(Single { bits: 0 }) {
        rewind_position(pos, history, format)
    } else {
        pos
    };
    let f: BufferFormat = match format {
        Some(f) => f,
        None => BufferFormat { sample_rate: FALLBACK_SAMPLE_RATE, channels: 1 },
    };
    SourceVadState::new(label, at, at, f.sample_rate, f.channels, now)
}

/// The streams that a session begins with: the microphone where it is read, with or
/// without a buffer; the system's output where it is read and has one. Each begins
/// where the history that the session takes begins.
pub fn initial_sources(
    source: CaptureSource,
    history: Single,
    positions: BufferPositions,
    mic: Option<BufferFormat>,
    system: Option<BufferFormat>,
    now: u64,
) -> (r: Vec<SourceVadState>)
    requires
        has_channels(mic),
        has_channels(system),
    ensures
        r@.len() == (if source.mic() {
            1int
        } else {
            0
        }) + (if source.system() && system is Some {
            1int
        } else {
            0
        }),
        source.mic() ==> fresh(
            r@[0],
            AudioSourceLabel::Mic,
            initial_pos(positions.mic_pos, history, mic),
            mic_format(mic),
            now,
        ),
        source.system() ==> (system matches Some(f) ==> fresh(
            r@.last(),
            AudioSourceLabel::System,
            initial_pos(positions.system_pos, history, system),
            f,
            now,
        )),
        forall|i: int| 0 <= i < r@.len() ==> (#[trigger] r@[i]).wf(),
        forall|i: int|
            0 <= i < r@.len() ==> {
                let s = #[trigger] r@[i];
                let pos = if s.label is Mic {
                    positions.mic_pos
                } else {
                    positions.system_pos
                };
                &&& s.session_start_pos == s.speech_start_pos == s.cursor
                    == s.earliest_next_chunk_pos == s.silero.read_pos
                &&& s.session_start_pos <= pos
                &&& !history.gt(Single { bits: 0 }) ==> s.session_start_pos == pos
                &&& !s.is_speaking && s.chunk_index == 0 && s.accumulated_text@.len() == 0
            },
        source != CaptureSource::SystemOnly ==> r@.len() > 0 && r@[0].label is Mic,
        source != CaptureSource::MicOnly && system is Some ==> r@.len() > 0 && r@.last().label
            is System,
        source == CaptureSource::MicOnly ==> r@.len() == 1,
        source == CaptureSource::SystemOnly && system is None ==> r@.len() == 0,
        source == CaptureSource::Mixed && system is Some ==> r@.len() == 2,
{
    let mut out: Vec<SourceVadState> = Vec::new();
    if source.reads_mic() {
        out.push(fresh_source(AudioSourceLabel::Mic, positions.mic_pos, history, mic, now));
    }
    if source.reads_system() && system.is_some() {
        out.push(
            fresh_source(AudioSourceLabel::System, positions.system_pos, history, system, now),
        );
    }
    out
}

/// Numbers the live chunks of a session apart from those of its history.
pub fn number_live_chunks(sources: &mut Vec<SourceVadState>)
    ensures
        final(sources)@.len() == old(sources)@.len(),
        forall|i: int|
            0 <= i < old(sources)@.len() ==> #[trigger] final(sources)@[i] == (SourceVadState {
                chunk_index: FIRST_LIVE_CHUNK,
                ..old(sources)@[i]
            }),
{
    let ghost before = sources@;
    let mut i: usize = 0;
    while i < sources.len()
        invariant
            i <= sources@.len() == before.len(),
            forall|k: int|
                0 <= k < i ==> #[trigger] sources@[k] == (SourceVadState {
                    chunk_index: FIRST_LIVE_CHUNK,
                    ..before[k]
                }),
            forall|k: int| i <= k < before.len() ==> sources@[k] == before[k],
        decreases sources@.len() - i,
    {
        sources[i].chunk_index = FIRST_LIVE_CHUNK;
        i = i + 1;
    }
}

// --- The recording ---

/// The file name of a part that is being recorded.
pub open spec fn part_name(session_id: Seq<char>, part_index: nat, extension: Seq<char>) -> Seq<
    char,
> {
    session_id + "."@ + text::decimal(part_index) + "."@ + extension
}

/// The file name of a part in this format.
pub fn part_file_name(session_id: &str, part_index: u32, format: AudioExportFormatDto) -> (r:
    String)
    ensures
        r@ == part_name(session_id@, part_index as nat, format.name()),
        r@ == session_id@ + "."@ + text::decimal(part_index as nat) + "."@ + (match format {
            AudioExportFormatDto::Wav => "wav"@,
            AudioExportFormatDto::Mp3 => "mp3"@,
        }),
{
    let mut out: String = text::joined(session_id, ".");
    out.append(text::decimal_text(part_index as u64).as_str());
    out.append(".");
    out.append(format.as_str());
    out
}

/// The number of the part that a run records: the one it goes on with, or the first.
pub fn part_index(config: &LiveTranscriptionConfig) -> (r: u32)
    ensures
        r == (match config.resume {
            Some(c) => c.part_index,
            None => 0,
        }),
{
    match config.resume {
        Some(c) => c.part_index,
        None => 0,
    }
}

/// The mix that a recording is made with: the requested gains as they are, and never
/// normalized, since piecewise normalizing makes the volume jump.
pub fn recording_mix(config: &LiveTranscriptionConfig) -> (r: Option<MixConfig>)
    ensures
        r == (match config.mix_config {
            Some(m) => Some(
                MixConfig { mic_gain: m.mic_gain, system_gain: m.system_gain, normalize: false },
            ),
            None => None,
        }),
{
    match config.mix_config {
        Some(m) => Some(
            MixConfig { mic_gain: m.mic_gain, system_gain: m.system_gain, normalize: false },
        ),
        None => None,
    }
}

/// Whether a runtime takes part in the routing of device changes: only a session does.
pub fn joins_restart_routing(kind: LiveSourceKind) -> (r: bool)
    ensures
        r == (kind is Session),
{
    kind == LiveSourceKind::Session
}

/// The model variant that a runtime reports: the name of the model's directory.
pub fn variant_of(model_dir: Option<&str>, os: TargetOs) -> (r: Option<String>)
    ensures
        match model_dir {
            Some(p) => match files::file_name(p@, os) {
                Some(n) => r matches Some(t) && t@ == n,
                None => r is None,
            },
            None => r is None,
        },
{
    match model_dir {
        Some(p) => files::file_name_of(p, os),
        None => None,
    }
}

// --- What holds of a start ---

/// A request is refused if and only if something is wrong with it: a runtime of its kind is
/// there, a dictation asks for more than the microphone, for history or for a part, or a
/// number is none that it can be.
pub proof fn law_start_is_refused_for_a_fault<R>(
    slots: LiveTranscriptionSlots<R>,
    c: LiveTranscriptionConfig,
)
    ensures
        ({
            let dictation_ok = c.source_kind is Session || (c.source is MicOnly && (
            c.backfill_seconds.bits == 0 || c.backfill_seconds.bits == 0x8000_0000)
                && !c.persist_audio_part);
            let idle = match c.source_kind {
                LiveSourceKind::Session => slots.session is Idle,
                LiveSourceKind::Dictation => slots.dictation is Idle,
            };
            let numbers_ok = c.silence_duration_ms > 0 && 0 < c.max_chunk_seconds.bits
                < 0x7f80_0000 && (c.backfill_seconds.bits < 0x7f80_0000 || c.backfill_seconds.bits
                == 0x8000_0000) && (c.prompt_decay_silence_seconds matches Some(d) ==> d.bits
                < 0x7f80_0000 || d.bits == 0x8000_0000);
            &&& dictation_fault(c) is None <==> dictation_ok
            &&& number_fault(c) is None <==> numbers_ok
            &&& start_fault(slots, c) is None <==> idle && dictation_ok && numbers_ok
        }),
{
}

/// Going back by a history moves by as many samples as it lasts, times rate and channels:
/// whole frames, up to one in a million, and never below the start of the buffer. A
/// position further on is moved to one further on by as much.
pub proof fn law_rewind_reaches_back(
    pos: usize,
    further: usize,
    history: Single,
    format: BufferFormat,
)
    requires
        history.finite(),
        !history.negative(),
        format.channels > 0,
        pos <= further,
    ensures
        ({
            let r = rewound(pos, history, Some(format));
            let back = pos - r;
            let unit = vstd::arithmetic::power2::pow2(149);
            let secs = history.mant() * vstd::arithmetic::power2::pow2(
                (history.exp() + 149) as nat,
            );
            let per_second = format.sample_rate * format.channels;
            &&& 0 <= r <= pos
            &&& back * unit * 1_000_000 <= secs * per_second * 1_000_001
            &&& r >= format.channels ==> secs * per_second * 999_999 < (back + format.channels)
                * unit * 1_000_000
            &&& r > 0 ==> back % (format.channels as int) == 0
            &&& r > 0 ==> rewound(further, history, Some(format)) == r + (further - pos)
            &&& rewound(pos, history, None) == pos
        }),
{
    let rate = format.sample_rate as nat;
    let ch = format.channels as nat;
    let secs = (history.mant(), history.exp());
    single::law_samples_of_seconds(secs, rate, ch, 149);
    let n = single::sample_count(secs, rate, ch);
    dispatch::lemma_whole_frames(n, ch);
    let back = dispatch::rewind(history, format.sample_rate, format.channels);
    let r = rewound(pos, history, Some(format));
    let unit = vstd::arithmetic::power2::pow2(149);
    vstd::arithmetic::power2::lemma_pow2_pos(149);
    let moved = (pos - r) as nat;
    assert(moved * unit <= n * unit) by (nonlinear_arith)
        requires
            moved <= n,
            unit > 0,
    ;
    if r > 0 {
        assert((n + 1) * unit <= (moved + ch) * unit) by (nonlinear_arith)
            requires
                n + 1 <= moved + ch,
                unit > 0,
        ;
    }
}

/// The history that can be had is what every stream that is read holds: not more than any
/// of them, and as much as one of them.
pub proof fn law_history_is_what_all_hold(
    source: CaptureSource,
    mic: Option<Single>,
    system: Option<Single>,
)
    requires
        mic matches Some(m) ==> !m.nan(),
        system matches Some(s) ==> !s.nan(),
    ensures
        ({
            let r = available_history(source, mic, system);
            let reads_mic = source != CaptureSource::SystemOnly && mic is Some;
            let reads_system = source != CaptureSource::MicOnly && system is Some;
            &&& reads_mic ==> mic->0.ge(r)
            &&& reads_system ==> system->0.ge(r)
            &&& reads_mic || reads_system ==> (reads_mic && r == mic->0) || (reads_system && r
                == system->0)
            &&& !reads_mic && !reads_system ==> r.bits == 0
        }),
{
}

} // verus!
