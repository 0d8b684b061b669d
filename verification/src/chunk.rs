//! One chunk and the engine: what is asked, what an answer means, and what is counted
//! and reported.

use vstd::prelude::*;

use crate::labels::{
    self, AudioSourceLabel, LiveSegmentEvent, LiveSourceKind, LiveTranscriptionPhase,
    LiveTranscriptionStatus, SegmentOrigin,
};
use crate::model::TranscriptionResult;
use crate::prompt::{self, PromptState};
use crate::scheduler::{JobOrigin, JobRequest, JobSource, SchedulerError};
use crate::single::{Double, Single};
use crate::text;
use crate::vad::EngineProfile;

verus! {

// --- Counters ---

/// What a runtime has done so far.
#[derive(Clone, Copy, Debug, PartialEq, Eq, Structural)]
pub struct SessionCounters {
    pub total_chunks: u32,
    pub total_audio_seconds: Single,
    /// How many live chunks left recorded audio behind.
    pub live_drain_backlog_chunks: u32,
    /// How much audio the last live chunk left behind.
    pub live_drain_backlog_seconds: Single,
    pub total_wall_ms: u64,
    /// The latest moment of the session's timeline that was transcribed.
    pub latest_completed_audio_offset_seconds: Option<Single>,
}

impl SessionCounters {
    /// Nothing done.
    pub fn new() -> (r: Self)
        ensures
            r == (SessionCounters {
                total_chunks: 0,
                total_audio_seconds: Single { bits: 0 },
                live_drain_backlog_chunks: 0,
                live_drain_backlog_seconds: Single { bits: 0 },
                total_wall_ms: 0,
                latest_completed_audio_offset_seconds: None,
            }),
    {
        SessionCounters {
            total_chunks: 0,
            total_audio_seconds: Single { bits: 0 },
            live_drain_backlog_chunks: 0,
            live_drain_backlog_seconds: Single { bits: 0 },
            total_wall_ms: 0,
            latest_completed_audio_offset_seconds: None,
        }
    }

    /// Counts a chunk that was transcribed. `total_audio_seconds` is the new sum of
    /// their lengths and `chunk_end` the moment that the chunk ends at; of the moments
    /// the latest counts, since history and live chunks come in no fixed order.
    pub fn record_success(&mut self, total_audio_seconds: Single, wall_ms: u64, chunk_end: Single)
        requires
            old(self).total_chunks < u32::MAX,
        ensures
            *final(self) == (SessionCounters {
                total_chunks: (old(self).total_chunks + 1) as u32,
                total_audio_seconds,
                total_wall_ms: if old(self).total_wall_ms + wall_ms > u64::MAX {
                    u64::MAX
                } else {
                    (old(self).total_wall_ms + wall_ms) as u64
                },
                latest_completed_audio_offset_seconds: Some(
                    match old(self).latest_completed_audio_offset_seconds {
                        Some(prev) => prev.larger(chunk_end),
                        None => chunk_end,
                    },
                ),
                ..*old(self)
            }),
    {
        self.total_chunks = self.total_chunks + 1;
        self.total_audio_seconds = total_audio_seconds;
        self.total_wall_ms = self.total_wall_ms.saturating_add(wall_ms);
        self.latest_completed_audio_offset_seconds = Some(
            match self.latest_completed_audio_offset_seconds {
                Some(prev) => prev.max(chunk_end),
                None => chunk_end,
            },
        );
    }
}

/// Notes how much audio a live chunk left behind; other classes do not count.
pub fn record_live_drain_backlog(
    counters: &mut SessionCounters,
    origin: JobOrigin,
    backlog_seconds: Single,
)
    ensures
        origin !is Live ==> *final(counters) == *old(counters),
        origin is Live ==> *final(counters) == (SessionCounters {
            live_drain_backlog_seconds: backlog_seconds,
            live_drain_backlog_chunks: if backlog_seconds.gt(Single { bits: 0 }) && old(
                counters,
            ).live_drain_backlog_chunks < u32::MAX {
                (old(counters).live_drain_backlog_chunks + 1) as u32
            } else {
                old(counters).live_drain_backlog_chunks
            },
            ..*old(counters)
        }),
{
    if origin != JobOrigin::Live {
        return;
    }
    counters.live_drain_backlog_seconds = backlog_seconds;
    if backlog_seconds.above(Single { bits: 0 }) {
        counters.live_drain_backlog_chunks = counters.live_drain_backlog_chunks.saturating_add(1);
    }
}

/// The latest transcribed moment never goes back, whatever order chunks come in.
pub proof fn law_latest_moment_is_monotone(prev: Single, chunk_end: Single)
    requires
        !prev.nan(),
    ensures
        !prev.larger(chunk_end).nan(),
        prev.larger(chunk_end).rank() >= prev.rank(),
        !chunk_end.nan() ==> prev.larger(chunk_end).rank() >= chunk_end.rank(),
{
}

// --- Asking ---

/// The prompt that an engine is sent: none for one that takes none.
pub open spec fn engine_prompt(uses_initial_prompt: bool, built: Option<String>) -> Option<String> {
    if uses_initial_prompt {
        built
    } else {
        None
    }
}

/// The request for one chunk.
pub fn chunk_request(
    profile: &EngineProfile,
    origin: JobOrigin,
    label: AudioSourceLabel,
    wav_path: String,
    language: Option<String>,
    built_prompt: Option<String>,
    diarization: bool,
) -> (r: JobRequest)
    ensures
        r == (JobRequest {
            origin,
            source: match label {
                AudioSourceLabel::Mic => JobSource::Mic,
                AudioSourceLabel::System => JobSource::System,
            },
            wav_path,
            language,
            initial_prompt: engine_prompt(profile.uses_initial_prompt, built_prompt),
            diarization,
        }),
        profile.uses_initial_prompt ==> r.initial_prompt == built_prompt,
        !profile.uses_initial_prompt ==> r.initial_prompt is None,
{
    JobRequest {
        origin,
        source: labels::source_from_label(label),
        wav_path,
        language,
        initial_prompt: if profile.uses_initial_prompt {
            built_prompt
        } else {
            None
        },
        diarization,
    }
}

// --- Answers ---

/// What became of a chunk.
#[derive(Clone, Copy, Debug, PartialEq, Eq, Structural)]
pub enum ChunkVerdict {
    /// It was transcribed.
    Success,
    /// It was not, and the user is told.
    SkippedWithWarning,
    /// It was not, because the engine is going away.
    SkippedQuietly,
    /// The engine is gone for good.
    SidecarDead,
}

/// How far a chunk got.
#[derive(Debug)]
pub enum ChunkProgress<'a> {
    /// It was too short to be sent, or could not be written for the engine.
    NotSent,
    /// The scheduler took no job.
    Refused,
    /// The scheduler let go of the job without an answer.
    Unanswered,
    /// The scheduler answered.
    Answered(&'a Result<TranscriptionResult, SchedulerError>),
}

/// What became of a chunk, by how far it got.
pub open spec fn verdict(p: ChunkProgress) -> ChunkVerdict {
    match p {
        ChunkProgress::NotSent => ChunkVerdict::SkippedQuietly,
        ChunkProgress::Refused => ChunkVerdict::SidecarDead,
        ChunkProgress::Unanswered => ChunkVerdict::SidecarDead,
        ChunkProgress::Answered(Ok(_)) => ChunkVerdict::Success,
        ChunkProgress::Answered(Err(SchedulerError::SidecarDead)) => ChunkVerdict::SidecarDead,
        ChunkProgress::Answered(Err(SchedulerError::Cancelled)) => ChunkVerdict::SkippedQuietly,
        ChunkProgress::Answered(Err(SchedulerError::Shutdown)) => ChunkVerdict::SkippedQuietly,
        ChunkProgress::Answered(
            Err(SchedulerError::Transcription(_)),
        ) => ChunkVerdict::SkippedWithWarning,
    }
}

/// What became of a chunk.
pub fn judge_chunk(progress: &ChunkProgress) -> (r: ChunkVerdict)
    ensures
        r == verdict(*progress),
        r is Success <==> (*progress matches ChunkProgress::Answered(a) && *a is Ok),
        r is SkippedWithWarning <==> (*progress matches ChunkProgress::Answered(a) && (*a matches Err(
            e,
        ) && e is Transcription)),
        r is SidecarDead <==> *progress is Refused || *progress is Unanswered || (
        *progress matches ChunkProgress::Answered(a) && (*a matches Err(e) && e is SidecarDead)),
{
    match progress {
        ChunkProgress::NotSent => ChunkVerdict::SkippedQuietly,
        ChunkProgress::Refused => ChunkVerdict::SidecarDead,
        ChunkProgress::Unanswered => ChunkVerdict::SidecarDead,
        ChunkProgress::Answered(result) => match result {
            Ok(_) => ChunkVerdict::Success,
            Err(SchedulerError::SidecarDead) => ChunkVerdict::SidecarDead,
            Err(SchedulerError::Cancelled) => ChunkVerdict::SkippedQuietly,
            Err(SchedulerError::Shutdown) => ChunkVerdict::SkippedQuietly,
            Err(SchedulerError::Transcription(_)) => ChunkVerdict::SkippedWithWarning,
        },
    }
}

/// Whether a chunk's audio is set aside for the user.
pub open spec fn set_aside(v: ChunkVerdict) -> bool {
    v is SkippedQuietly || v is SkippedWithWarning
}

/// Whether a chunk's audio is set aside for the user: it was not transcribed, and the
/// engine may still be there.
pub fn is_set_aside(v: ChunkVerdict) -> (r: bool)
    ensures
        r == set_aside(v),
        r <==> v is SkippedQuietly || v is SkippedWithWarning,
{
    matches!(v, ChunkVerdict::SkippedQuietly | ChunkVerdict::SkippedWithWarning)
}

/// Whether the history goes on after a chunk: until the engine is dead.
pub fn backfill_continues(v: ChunkVerdict) -> (r: bool)
    ensures
        r == (v !is SidecarDead),
{
    v != ChunkVerdict::SidecarDead
}

/// The text that a rejected chunk is reported with.
pub fn engine_error_warning() -> (r: String)
    ensures
        r@ == "Transcription engine error \u{2014} chunk skipped"@,
{
    "Transcription engine error \u{2014} chunk skipped".to_owned()
}

/// The text that a dead engine is reported with.
pub open spec fn dead_engine_text() -> Seq<char> {
    "Transcription engine stopped unexpectedly and could not be restarted"@
}

/// Where a chunk of a session is set aside: under the session's id, or with the
/// dictations.
pub fn quarantine_directory(session_id: Option<&str>) -> (r: String)
    ensures
        r@ == (match session_id {
            Some(id) => id@,
            None => "dictation"@,
        }),
{
    match session_id {
        Some(id) => id.to_owned(),
        None => "dictation".to_owned(),
    }
}

/// The file name of a chunk that is set aside.
pub fn quarantine_file_name(timestamp: &str, label: AudioSourceLabel, chunk_index: u32) -> (r:
    String)
    ensures
        r@ == timestamp@ + "_"@ + (match label {
            AudioSourceLabel::Mic => "mic"@,
            AudioSourceLabel::System => "system"@,
        }) + "_"@ + text::decimal(chunk_index as nat) + ".wav"@,
{
    let mut out: String = text::joined(timestamp, "_");
    out.append(
        match label {
            AudioSourceLabel::Mic => "mic",
            AudioSourceLabel::System => "system",
        },
    );
    out.append("_");
    out.append(text::decimal_text(chunk_index as u64).as_str());
    out.append(".wav");
    out
}

/// What the user is told of a chunk that was set aside; `seconds` is its length as
/// text.
pub fn quarantine_message(seconds: &str, path: Option<&str>) -> (r: String)
    ensures
        r@ == seconds@ + "s of audio could not be transcribed; saved for debugging at "@ + (
        match path {
            Some(p) => p@,
            None => "<no audio captured>"@,
        }),
{
    let mut out: String = text::joined(
        seconds,
        "s of audio could not be transcribed; saved for debugging at ",
    );
    out.append(
        match path {
            Some(p) => p,
            None => "<no audio captured>",
        },
    );
    out
}

/// Where a chunk belongs.
pub struct ChunkPlace {
    pub label: AudioSourceLabel,
    pub origin: JobOrigin,
    pub audio_offset_seconds: Single,
    pub chunk_duration_seconds: Single,
    pub source_kind: LiveSourceKind,
    pub session_id: Option<String>,
}

/// Takes the engine's answer on a chunk in. A chunk that was transcribed has its text
/// gathered, gets the stream's next number, restarts the clock by which a prompt is
/// forgotten, and its segments become an event; any other leaves all of that as it was.
/// `rejected` says of each segment whether it is a known invention of the engine, which is
/// shown but primes nothing.
pub fn complete_chunk(
    answer: Result<TranscriptionResult, SchedulerError>,
    rejected: &Vec<bool>,
    place: ChunkPlace,
    chunk_index: &mut u32,
    accumulated_text: &mut String,
    prompt_state: &mut PromptState,
    prompt_context_chars: Option<u32>,
    now: u64,
) -> (r: Result<LiveSegmentEvent, SchedulerError>)
    requires
        answer matches Ok(result) ==> rejected@.len() == result.segments@.len() && *old(chunk_index)
            < u32::MAX,
    ensures
        match answer {
            Ok(result) => {
                &&& *final(chunk_index) == *old(chunk_index) + 1
                &&& final(accumulated_text)@ == prompt::gathered(
                    old(accumulated_text)@,
                    prompt::kept_text(result.segments@, rejected@, result.segments@.len()).0,
                    prompt::MAX_ACCUMULATED_TEXT_CHARS as nat,
                )
                &&& final(prompt_state).shared_prompt@ == prompt::gathered(
                    old(prompt_state).shared_prompt@,
                    prompt::kept_text(result.segments@, rejected@, result.segments@.len()).0,
                    prompt::budget(prompt_context_chars),
                )
                &&& final(prompt_state).last_transcription_at == Some(now)
                &&& r matches Ok(event)
                &&& event.chunk_index == *old(chunk_index)
                &&& event.source == place.label
                &&& event.segments == result.segments
                &&& event.audio_offset_seconds == place.audio_offset_seconds
                &&& event.chunk_duration_seconds == place.chunk_duration_seconds
                &&& event.accumulated_text@ == final(accumulated_text)@
                &&& event.origin == labels::segment_origin(place.origin)
                &&& event.source_kind == place.source_kind
                &&& event.session_id == place.session_id
            },
            Err(e) => {
                &&& r == Err::<LiveSegmentEvent, SchedulerError>(e)
                &&& *final(chunk_index) == *old(chunk_index)
                &&& *final(accumulated_text) == *old(accumulated_text)
                &&& *final(prompt_state) == *old(prompt_state)
            },
        },
{
    let result: TranscriptionResult = match answer {
        Ok(result) => result,
        Err(e) => {
            return Err(e);
        },
    };
    let index: u32 = *chunk_index;
    *chunk_index = index + 1;
    let chunk_text: String = prompt::prompt_text(&result.segments, rejected);
    prompt::extend_prompts(
        accumulated_text,
        &mut prompt_state.shared_prompt,
        chunk_text.as_str(),
        prompt_context_chars,
    );
    prompt_state.last_transcription_at = Some(now);
    Ok(
        LiveSegmentEvent {
            chunk_index: index,
            source: place.label,
            segments: result.segments,
            audio_offset_seconds: place.audio_offset_seconds,
            chunk_duration_seconds: place.chunk_duration_seconds,
            accumulated_text: accumulated_text.clone(),
            origin: SegmentOrigin::from(place.origin),
            source_kind: place.source_kind,
            session_id: place.session_id,
        },
    )
}

// --- Status ---

/// What a status carries beside its phase.
#[derive(Clone, Copy, Debug, PartialEq, Eq, Structural)]
pub struct StatusProgress {
    pub chunks: u32,
    pub audio_secs: Single,
    pub lag_seconds: Option<Single>,
    pub live_drain_backlog_chunks: u32,
    pub live_drain_backlog_seconds: Single,
}

impl StatusProgress {
    /// Nothing done.
    pub open spec fn nothing() -> StatusProgress {
        StatusProgress {
            chunks: 0,
            audio_secs: Single { bits: 0 },
            lag_seconds: None,
            live_drain_backlog_chunks: 0,
            live_drain_backlog_seconds: Single { bits: 0 },
        }
    }

    /// Nothing done.
    pub fn zero() -> (r: Self)
        ensures
            r == StatusProgress::nothing(),
    {
        StatusProgress {
            chunks: 0,
            audio_secs: Single { bits: 0 },
            lag_seconds: None,
            live_drain_backlog_chunks: 0,
            live_drain_backlog_seconds: Single { bits: 0 },
        }
    }

    /// What the counters say.
    pub fn of(counters: &SessionCounters, lag_seconds: Option<Single>) -> (r: Self)
        ensures
            r == (StatusProgress {
                chunks: counters.total_chunks,
                audio_secs: counters.total_audio_seconds,
                lag_seconds,
                live_drain_backlog_chunks: counters.live_drain_backlog_chunks,
                live_drain_backlog_seconds: counters.live_drain_backlog_seconds,
            }),
    {
        StatusProgress {
            chunks: counters.total_chunks,
            audio_secs: counters.total_audio_seconds,
            lag_seconds,
            live_drain_backlog_chunks: counters.live_drain_backlog_chunks,
            live_drain_backlog_seconds: counters.live_drain_backlog_seconds,
        }
    }
}

/// The status of a runtime. Every one names the runtime's kind and session, by which
/// listeners tell one runtime's from another's.
pub fn status_event(
    phase: LiveTranscriptionPhase,
    progress: StatusProgress,
    error_message: Option<String>,
    session_id: Option<String>,
    source_kind: LiveSourceKind,
) -> (r: LiveTranscriptionStatus)
    ensures
        r == (LiveTranscriptionStatus {
            phase,
            chunks_processed: progress.chunks,
            total_audio_seconds: progress.audio_secs,
            error_message,
            session_id,
            effective_start_epoch_ms: None,
            lag_seconds: progress.lag_seconds,
            live_drain_backlog_chunks: progress.live_drain_backlog_chunks,
            live_drain_backlog_seconds: progress.live_drain_backlog_seconds,
            source_kind,
        }),
{
    LiveTranscriptionStatus {
        phase,
        chunks_processed: progress.chunks,
        total_audio_seconds: progress.audio_secs,
        error_message,
        session_id,
        effective_start_epoch_ms: None,
        lag_seconds: progress.lag_seconds,
        live_drain_backlog_chunks: progress.live_drain_backlog_chunks,
        live_drain_backlog_seconds: progress.live_drain_backlog_seconds,
        source_kind,
    }
}

/// The status of a runtime whose engine is dead.
pub fn fatal_sidecar_status(
    progress: StatusProgress,
    session_id: Option<String>,
    source_kind: LiveSourceKind,
) -> (r: LiveTranscriptionStatus)
    ensures
        r.phase is Error,
        r.error_message matches Some(m) && m@ == dead_engine_text(),
        r.error_message matches Some(m) && m@
            == "Transcription engine stopped unexpectedly and could not be restarted"@,
        r.chunks_processed == progress.chunks,
        r.total_audio_seconds == progress.audio_secs,
        r.lag_seconds == progress.lag_seconds,
        r.live_drain_backlog_chunks == progress.live_drain_backlog_chunks,
        r.live_drain_backlog_seconds == progress.live_drain_backlog_seconds,
        r.effective_start_epoch_ms is None,
        r.session_id == session_id,
        r.source_kind == source_kind,
{
    status_event(
        LiveTranscriptionPhase::Error,
        progress,
        Some("Transcription engine stopped unexpectedly and could not be restarted".to_owned()),
        session_id,
        source_kind,
    )
}

/// The status of a runtime that crashed.
pub fn crashed_status(session_id: Option<String>, source_kind: LiveSourceKind) -> (r:
    LiveTranscriptionStatus)
    ensures
        r.phase is Error,
        r.error_message matches Some(m) && m@ == "live transcription crashed unexpectedly"@,
        r.chunks_processed == 0,
        r.total_audio_seconds == (Single { bits: 0 }),
        r.lag_seconds is None,
        r.live_drain_backlog_chunks == 0,
        r.live_drain_backlog_seconds == (Single { bits: 0 }),
        r.effective_start_epoch_ms is None,
        r.session_id == session_id,
        r.source_kind == source_kind,
{
    status_event(
        LiveTranscriptionPhase::Error,
        StatusProgress::zero(),
        Some("live transcription crashed unexpectedly".to_owned()),
        session_id,
        source_kind,
    )
}

/// How long one chunk took, sent after every attempt.
#[derive(Debug)]
pub struct LiveTranscriptionPressureEvent {
    pub source: AudioSourceLabel,
    pub chunk_index: u32,
    pub chunk_audio_seconds: Single,
    pub wall_ms: u64,
    pub rtfx: Option<Single>,
    pub engine: String,
    pub origin: SegmentOrigin,
    pub lag_seconds: Option<Single>,
    pub drain_backlog_seconds: Single,
    pub accel: Option<String>,
    pub variant: Option<String>,
}

/// What one attempt measured.
#[derive(Debug)]
pub struct ChunkTiming {
    pub chunk_audio_seconds: Single,
    pub wall_ms: u64,
    /// Seconds of audio for every second that passed.
    pub rtfx: Single,
    /// How far the chunk lies behind the present.
    pub lag_seconds: Single,
    pub drain_backlog_seconds: Single,
}

/// The notice of how long a chunk took. The speed is given only for a chunk that went
/// well and took any time at all, the lag only for one that went well.
pub fn pressure_event(
    source: AudioSourceLabel,
    chunk_index: u32,
    timing: ChunkTiming,
    succeeded: bool,
    engine: String,
    origin: JobOrigin,
    accel: Option<String>,
    variant: Option<String>,
) -> (r: LiveTranscriptionPressureEvent)
    ensures
        r == (LiveTranscriptionPressureEvent {
            source,
            chunk_index,
            chunk_audio_seconds: timing.chunk_audio_seconds,
            wall_ms: timing.wall_ms,
            rtfx: if succeeded && timing.wall_ms > 0 {
                Some(timing.rtfx)
            } else {
                None
            },
            engine,
            origin: labels::segment_origin(origin),
            lag_seconds: if succeeded {
                Some(timing.lag_seconds)
            } else {
                None
            },
            drain_backlog_seconds: timing.drain_backlog_seconds,
            accel,
            variant,
        }),
{
    LiveTranscriptionPressureEvent {
        source,
        chunk_index,
        chunk_audio_seconds: timing.chunk_audio_seconds,
        wall_ms: timing.wall_ms,
        rtfx: if succeeded && timing.wall_ms > 0 {
            Some(timing.rtfx)
        } else {
            None
        },
        engine,
        origin: SegmentOrigin::from(origin),
        lag_seconds: if succeeded {
            Some(timing.lag_seconds)
        } else {
            None
        },
        drain_backlog_seconds: timing.drain_backlog_seconds,
        accel,
        variant,
    }
}

/// What a live runtime says of itself.
#[derive(Debug)]
pub struct RuntimeReport {
    pub progress: StatusProgress,
    pub running: bool,
    pub session_id: Option<String>,
    pub effective_start_epoch_ms: Double,
    pub source_kind: LiveSourceKind,
}

/// The status of the runtime of a kind, the session's where no kind is named. Without a
/// runtime it is stopped, and everything about it is zero or missing.
pub fn live_transcription_status(kind: Option<LiveSourceKind>, runtime: Option<RuntimeReport>) -> (r:
    LiveTranscriptionStatus)
    ensures
        match runtime {
            Some(t) => r == (LiveTranscriptionStatus {
                phase: if t.running {
                    LiveTranscriptionPhase::Running
                } else {
                    LiveTranscriptionPhase::Stopped
                },
                chunks_processed: t.progress.chunks,
                total_audio_seconds: t.progress.audio_secs,
                error_message: None,
                session_id: t.session_id,
                effective_start_epoch_ms: Some(t.effective_start_epoch_ms),
                lag_seconds: t.progress.lag_seconds,
                live_drain_backlog_chunks: t.progress.live_drain_backlog_chunks,
                live_drain_backlog_seconds: t.progress.live_drain_backlog_seconds,
                source_kind: t.source_kind,
            }),
            None => r == (LiveTranscriptionStatus {
                phase: LiveTranscriptionPhase::Stopped,
                chunks_processed: 0,
                total_audio_seconds: Single { bits: 0 },
                error_message: None,
                session_id: None,
                effective_start_epoch_ms: None,
                lag_seconds: None,
                live_drain_backlog_chunks: 0,
                live_drain_backlog_seconds: Single { bits: 0 },
                source_kind: match kind {
                    Some(k) => k,
                    None => LiveSourceKind::Session,
                },
            }),
        },
{
    let target = match kind {
        Some(k) => k,
        None => LiveSourceKind::Session,
    };
    match runtime {
        Some(t) => {
            let phase = if t.running {
                LiveTranscriptionPhase::Running
            } else {
                LiveTranscriptionPhase::Stopped
            };
            let mut status = status_event(phase, t.progress, None, t.session_id, t.source_kind);
            status.effective_start_epoch_ms = Some(t.effective_start_epoch_ms);
            status
        },
        None => status_event(
            LiveTranscriptionPhase::Stopped,
            StatusProgress::zero(),
            None,
            None,
            target,
        ),
    }
}

} // verus!
