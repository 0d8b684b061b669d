//! Names of streams, runtimes and formats, and the events that carry them.

use vstd::prelude::*;

use crate::model::{CaptureSourceDto, MixConfigDto, TranscriptSegmentDto};
use crate::platform::TargetOs;
use crate::scheduler::{JobOrigin, JobSource};
use crate::single::{Double, Single};

verus! {

/// Which of the two streams audio came from.
#[derive(Clone, Copy, Debug, PartialEq, Eq, Structural)]
pub enum AudioSourceLabel {
    Mic,
    System,
}

/// What a stream is called towards the user.
pub open spec fn display_name(label: AudioSourceLabel) -> Seq<char> {
    match label {
        AudioSourceLabel::Mic => "Microphone"@,
        AudioSourceLabel::System => "System audio"@,
    }
}

/// What a stream is called towards the user.
pub fn source_display_name(label: &AudioSourceLabel) -> (r: &'static str)
    ensures
        r@ == display_name(*label),
        *label is Mic ==> r@ == "Microphone"@,
        *label is System ==> r@ == "System audio"@,
{
    match label {
        AudioSourceLabel::Mic => "Microphone",
        AudioSourceLabel::System => "System audio",
    }
}

/// The stream of a job, by the label of its audio.
pub fn source_from_label(label: AudioSourceLabel) -> (r: JobSource)
    ensures
        r == (match label {
            AudioSourceLabel::Mic => JobSource::Mic,
            AudioSourceLabel::System => JobSource::System,
        }),
{
    match label {
        AudioSourceLabel::Mic => JobSource::Mic,
        AudioSourceLabel::System => JobSource::System,
    }
}

/// Whether a stream that stopped moving is to be restarted. On Windows the system's
/// output delivers nothing while nothing plays, which is no failure.
pub open spec fn stall_means_failure(label: AudioSourceLabel, os: TargetOs) -> bool {
    !(os is Windows && label is System)
}

/// Whether a stream that stopped moving is to be restarted.
pub fn should_stall_restart(label: &AudioSourceLabel, os: TargetOs) -> (r: bool)
    ensures
        r == stall_means_failure(*label, os),
        r <==> !(os is Windows && *label is System),
{
    !(os == TargetOs::Windows && *label == AudioSourceLabel::System)
}

/// Which kind of runtime something belongs to. Events are told apart by it.
#[derive(Clone, Copy, Debug, PartialEq, Eq, Structural)]
pub enum LiveSourceKind {
    Session,
    Dictation,
}

impl LiveSourceKind {
    /// The name of the kind.
    pub open spec fn name(self) -> Seq<char> {
        match self {
            LiveSourceKind::Session => "session"@,
            LiveSourceKind::Dictation => "dictation"@,
        }
    }

    /// The name of the kind.
    pub fn as_str(self) -> (r: &'static str)
        ensures
            r@ == self.name(),
    {
        match self {
            LiveSourceKind::Session => "session",
            LiveSourceKind::Dictation => "dictation",
        }
    }
}

/// The kind of a runtime whose request does not name one.
pub fn default_source_kind() -> (r: LiveSourceKind)
    ensures
        r is Session,
{
    LiveSourceKind::Session
}

/// Whether a recording gets a row in the database where the request does not say.
pub fn default_persist_audio_part() -> (r: bool)
    ensures
        r,
{
    true
}

/// The format that a recording ends up in.
#[derive(Clone, Copy, Debug, PartialEq, Eq, Structural)]
pub enum AudioExportFormatDto {
    Wav,
    Mp3,
}

impl AudioExportFormatDto {
    /// The name of the format, which is also its file extension.
    pub open spec fn name(self) -> Seq<char> {
        match self {
            AudioExportFormatDto::Wav => "wav"@,
            AudioExportFormatDto::Mp3 => "mp3"@,
        }
    }

    /// Whether the format is compressed.
    pub fn is_mp3(self) -> (r: bool)
        ensures
            r == (self is Mp3),
    {
        matches!(self, AudioExportFormatDto::Mp3)
    }

    /// The name of the format.
    pub fn as_str(self) -> (r: &'static str)
        ensures
            r@ == self.name(),
    {
        match self {
            AudioExportFormatDto::Wav => "wav",
            AudioExportFormatDto::Mp3 => "mp3",
        }
    }
}

/// The format of a recording whose request does not name one.
pub open spec fn export_format(requested: Option<AudioExportFormatDto>) -> AudioExportFormatDto {
    match requested {
        Some(f) => f,
        None => AudioExportFormatDto::Mp3,
    }
}

/// The class of a segment towards the user.
#[derive(Clone, Copy, Debug, PartialEq, Eq, Structural)]
pub enum SegmentOrigin {
    Live,
    Backfill,
    FinalFlush,
}

/// Dictation is a priority, not a class of segments: its segments are live ones.
pub open spec fn segment_origin(o: JobOrigin) -> SegmentOrigin {
    match o {
        JobOrigin::Live => SegmentOrigin::Live,
        JobOrigin::Dictation => SegmentOrigin::Live,
        JobOrigin::Backfill => SegmentOrigin::Backfill,
        JobOrigin::FinalFlush => SegmentOrigin::FinalFlush,
    }
}

/// A segment is of the history or of the last flush where its job was, and live otherwise:
/// dictation's too.
pub proof fn law_segment_says_where_it_is_from(o: JobOrigin)
    ensures
        segment_origin(o) is Backfill <==> o is Backfill,
        segment_origin(o) is FinalFlush <==> o is FinalFlush,
        segment_origin(o) is Live <==> o is Live || o is Dictation,
{
}

impl vstd::std_specs::convert::FromSpecImpl<JobOrigin> for SegmentOrigin {
    open spec fn obeys_from_spec() -> bool {
        true
    }

    open spec fn from_spec(o: JobOrigin) -> SegmentOrigin {
        segment_origin(o)
    }
}

impl From<JobOrigin> for SegmentOrigin {
    fn from(o: JobOrigin) -> SegmentOrigin {
        match o {
            JobOrigin::Live | JobOrigin::Dictation => SegmentOrigin::Live,
            JobOrigin::Backfill => SegmentOrigin::Backfill,
            JobOrigin::FinalFlush => SegmentOrigin::FinalFlush,
        }
    }
}

/// Where a recording that is taken up again continues.
#[derive(Clone, Copy, Debug, PartialEq, Eq, Structural)]
pub struct ResumeConfig {
    pub part_index: u32,
    pub offset_base_seconds: Single,
}

/// What a live transcription is asked to do.
#[derive(Debug)]
pub struct LiveTranscriptionConfig {
    pub silence_duration_ms: u32,
    pub max_chunk_seconds: Single,
    pub backfill_seconds: Single,
    pub source: CaptureSourceDto,
    pub mix_config: Option<MixConfigDto>,
    pub language: Option<String>,
    pub prompt_context_chars: Option<u32>,
    pub prompt_decay_silence_seconds: Option<Single>,
    pub session_id: Option<String>,
    pub persist_audio_part: bool,
    pub audio_save_location: Option<String>,
    pub audio_export_format: Option<AudioExportFormatDto>,
    pub mp3_bitrate: Option<u16>,
    pub diarization: bool,
    pub vocabulary_hints: Option<String>,
    pub resume: Option<ResumeConfig>,
    pub source_kind: LiveSourceKind,
}

/// Phase of a live transcription.
#[derive(Clone, Copy, Debug, PartialEq, Eq, Structural)]
pub enum LiveTranscriptionPhase {
    Running,
    Stopped,
    Error,
}

/// Standing of a live transcription.
#[derive(Debug)]
pub struct LiveTranscriptionStatus {
    pub phase: LiveTranscriptionPhase,
    pub chunks_processed: u32,
    pub total_audio_seconds: Single,
    pub error_message: Option<String>,
    pub session_id: Option<String>,
    pub effective_start_epoch_ms: Option<Double>,
    pub lag_seconds: Option<Single>,
    pub live_drain_backlog_chunks: u32,
    pub live_drain_backlog_seconds: Single,
    pub source_kind: LiveSourceKind,
}

/// The segments of one chunk.
#[derive(Debug)]
pub struct LiveSegmentEvent {
    pub chunk_index: u32,
    pub source: AudioSourceLabel,
    pub segments: Vec<TranscriptSegmentDto>,
    pub audio_offset_seconds: Single,
    pub chunk_duration_seconds: Single,
    pub accumulated_text: String,
    pub origin: SegmentOrigin,
    pub source_kind: LiveSourceKind,
    pub session_id: Option<String>,
}

/// A recording that could not be kept.
#[derive(Debug)]
pub struct SessionWavErrorEvent {
    pub session_id: String,
    pub message: String,
}

/// A recording that waits for sound.
#[derive(Debug)]
pub struct SessionWavWarningEvent {
    pub session_id: String,
    pub message: String,
}

/// A chunk that was passed over.
#[derive(Debug)]
pub struct LiveTranscriptionWarningEvent {
    pub message: String,
}

/// A stream that failed or came back.
#[derive(Debug)]
pub struct StreamHealthEvent {
    pub source: AudioSourceLabel,
    pub status: String,
    pub message: String,
    pub bound_device_name: Option<String>,
}

/// When a run began, as far back as its audio goes.
#[derive(Clone, Copy, Debug)]
pub struct LiveTranscriptionStartResult {
    pub effective_start_epoch_ms: Double,
}

/// The notice that a part of a recording is on disk.
#[derive(Debug)]
pub struct SessionPartReadyEvent {
    pub session_id: String,
    pub part_index: u32,
    pub file_path: String,
    pub format: AudioExportFormatDto,
    pub duration_seconds: Single,
    pub sample_rate: u32,
}

/// A request to bind one stream anew.
#[derive(Clone, Copy, Debug, PartialEq, Eq, Structural)]
pub enum RestartIntent {
    Mic,
    System,
}

/// The stream that a restart request is about.
pub fn intent_label(intent: RestartIntent) -> (r: AudioSourceLabel)
    ensures
        r == (match intent {
            RestartIntent::Mic => AudioSourceLabel::Mic,
            RestartIntent::System => AudioSourceLabel::System,
        }),
{
    match intent {
        RestartIntent::Mic => AudioSourceLabel::Mic,
        RestartIntent::System => AudioSourceLabel::System,
    }
}

} // verus!
