//! The file that a session records into: how far it has been written, what silence on
//! the way in means, and what is kept in the end.

use vstd::prelude::*;

use crate::dispatch::BufferPositions;
use crate::labels::{self, AudioExportFormatDto, LiveSourceKind};
use crate::mic::{self, DictationMicSnapshot, MicWindow};
use crate::model::CaptureSource;
use crate::platform::TargetOs;

verus! {

/// After how many empty reads in a row the user is told.
pub const WAV_FLUSH_ERROR_THRESHOLD: u32 = 10;

/// The bit rate of a compressed recording where the request does not say, in kilobits
/// per second.
pub const DEFAULT_MP3_KBPS: u16 = 64;

/// A recording in progress.
#[derive(Debug)]
pub struct SessionWavState {
    /// Up to where each stream has been written.
    pub flush_positions: BufferPositions,
    pub source: CaptureSource,
    pub session_id: String,
    pub part_index: u32,
    pub flush_count: u32,
    /// The rate that the file was opened with.
    pub wav_sample_rate: u32,
    pub persist_audio_part: bool,
}

/// How a write into the recording went.
#[derive(Clone, Copy, Debug, PartialEq, Eq, Structural)]
pub enum WavWriteOutcome {
    Wrote,
    /// The samples could not be brought to the file's rate and were dropped.
    ResampleFailed,
}

/// Whether exactly the positions of `from..to` that belong to dictation are silenced.
pub open spec fn silences(
    windows: DictationMicSnapshot,
    from: usize,
    to: usize,
    muted: Seq<MicWindow>,
) -> bool {
    &&& mic::ranged(muted, from as u64, to as u64)
    &&& forall|p: int|
        from <= p < to ==> (#[trigger] mic::in_windows(muted, p) <==> mic::held(
            windows.open,
            windows.closed@,
            p,
        ))
}

impl SessionWavState {
    /// Up to where the microphone has been written, where it is written at all.
    pub open spec fn mic_written(self) -> Option<usize> {
        if self.source.mic() {
            Some(self.flush_positions.mic_pos)
        } else {
            None
        }
    }

    /// The stretches of the microphone that the next write, up to `until`, silences before
    /// the streams are mixed: in a session's file all that belongs to dictation, in a
    /// dictation's own file nothing.
    pub fn muted_ranges(
        &self,
        kind: LiveSourceKind,
        windows: &DictationMicSnapshot,
        until: usize,
    ) -> (r: Vec<MicWindow>)
        ensures
            kind is Session && self.source.mic() ==> silences(
                *windows,
                self.flush_positions.mic_pos,
                until,
                r@,
            ),
            !(kind is Session && self.source.mic()) ==> r@.len() == 0,
            kind is Session && self.source !is SystemOnly ==> forall|p: int|
                self.flush_positions.mic_pos <= p < until ==> (#[trigger] mic::in_windows(r@, p)
                    <==> mic::held(windows.open, windows.closed@, p)),
            kind is Dictation || self.source is SystemOnly ==> r@.len() == 0,
    {
        if kind == LiveSourceKind::Session && self.source.reads_mic() {
            windows.held_ranges(self.flush_positions.mic_pos as u64, until as u64)
        } else {
            Vec::new()
        }
    }

    /// Whether samples have to be brought to the file's rate first.
    pub fn needs_resample(&self, sample_rate: u32) -> (r: bool)
        ensures
            r == (sample_rate != self.wav_sample_rate),
    {
        sample_rate != self.wav_sample_rate
    }

    /// Notes a write up to `new_positions`. The positions move on whether or not the
    /// write succeeded, so that no sample is written twice; only a write that was made
    /// is counted.
    pub fn write_session_wav_samples(
        &mut self,
        outcome: WavWriteOutcome,
        new_positions: BufferPositions,
    )
        requires
            old(self).flush_count < u32::MAX,
        ensures
            *final(self) == (SessionWavState {
                flush_positions: new_positions,
                flush_count: if outcome is Wrote {
                    (old(self).flush_count + 1) as u32
                } else {
                    old(self).flush_count
                },
                ..*old(self)
            }),
    {
        self.flush_positions = new_positions;
        if outcome == WavWriteOutcome::Wrote {
            self.flush_count = self.flush_count + 1;
        }
    }

    /// Notes the last write, up to `new_positions`, of `samples` samples. Returns whether
    /// they are written: not where they could not be brought to the file's rate, nor where
    /// there are none. The positions move on either way.
    pub fn flush_session_wav_to_limit(
        &mut self,
        samples: usize,
        outcome: WavWriteOutcome,
        new_positions: BufferPositions,
    ) -> (write: bool)
        ensures
            *final(self) == (SessionWavState { flush_positions: new_positions, ..*old(self) }),
            write == (outcome is Wrote && samples > 0),
    {
        self.flush_positions = new_positions;
        outcome == WavWriteOutcome::Wrote && samples > 0
    }
}

/// What empty reads in a row mean.
#[derive(Clone, Copy, Debug, PartialEq, Eq, Structural)]
pub enum EmptyFlushClassification {
    /// Nothing plays, on a system that then delivers nothing.
    WindowsSilence,
    /// Something is wrong.
    Error,
}

/// What empty reads in a row mean: silence only on Windows, only where the system's
/// output alone is recorded, and only without an error on the stream.
pub open spec fn empty_flush(source: CaptureSource, has_stream_error: bool, os: TargetOs) ->
    EmptyFlushClassification {
    if os is Windows && source is SystemOnly && !has_stream_error {
        EmptyFlushClassification::WindowsSilence
    } else {
        EmptyFlushClassification::Error
    }
}

/// What empty reads in a row mean.
pub fn classify_empty_flush(source: CaptureSource, has_stream_error: bool, os: TargetOs) -> (r:
    EmptyFlushClassification)
    ensures
        r == empty_flush(source, has_stream_error, os),
        r is WindowsSilence <==> os is Windows && source is SystemOnly && !has_stream_error,
{
    if os == TargetOs::Windows && source == CaptureSource::SystemOnly && !has_stream_error {
        EmptyFlushClassification::WindowsSilence
    } else {
        EmptyFlushClassification::Error
    }
}

/// What the user is told of empty reads.
pub fn empty_flush_message(c: EmptyFlushClassification) -> (r: &'static str)
    ensures
        r@ == (match c {
            EmptyFlushClassification::WindowsSilence =>
            "No system audio detected \u{2014} recording will resume when audio plays"@,
            EmptyFlushClassification::Error =>
            "No audio data available for recording \u{2014} audio may not be saved"@,
        }),
{
    match c {
        EmptyFlushClassification::WindowsSilence =>
        "No system audio detected \u{2014} recording will resume when audio plays",
        EmptyFlushClassification::Error =>
        "No audio data available for recording \u{2014} audio may not be saved",
    }
}

/// Counts one more empty read. At the threshold the user is told what it means, once;
/// while the history is still being worked on the count starts anew instead.
pub fn handle_empty_wav_flush(
    empty_flushes: &mut u32,
    backfill_done: bool,
    source: CaptureSource,
    has_stream_error: bool,
    os: TargetOs,
) -> (r: Option<EmptyFlushClassification>)
    requires
        *old(empty_flushes) < u32::MAX,
    ensures
        r == (if *old(empty_flushes) + 1 == WAV_FLUSH_ERROR_THRESHOLD && backfill_done {
            Some(empty_flush(source, has_stream_error, os))
        } else {
            None
        }),
        r is Some <==> *old(empty_flushes) == 9 && backfill_done,
        *final(empty_flushes) == (if *old(empty_flushes) + 1 == WAV_FLUSH_ERROR_THRESHOLD
            && !backfill_done {
            0
        } else {
            (*old(empty_flushes) + 1) as u32
        }),
{
    *empty_flushes = *empty_flushes + 1;
    if *empty_flushes == WAV_FLUSH_ERROR_THRESHOLD {
        if backfill_done {
            return Some(classify_empty_flush(source, has_stream_error, os));
        }
        *empty_flushes = 0;
    }
    None
}

/// What becomes of a recording in the end.
#[derive(Clone, Copy, Debug, PartialEq, Eq, Structural)]
pub enum RecordingFate {
    /// Nothing was recorded: the file goes, and the user is told.
    DeleteEmpty,
    /// Close the file as it is.
    KeepWav,
    /// Compress it at this bit rate.
    EncodeMp3 { kbps: u16 },
}

/// What becomes of a recording in the end.
pub open spec fn recording_fate(
    samples_written: u64,
    format: Option<AudioExportFormatDto>,
    mp3_bitrate: Option<u16>,
) -> RecordingFate {
    if samples_written == 0 {
        RecordingFate::DeleteEmpty
    } else if labels::export_format(format) is Wav {
        RecordingFate::KeepWav
    } else {
        RecordingFate::EncodeMp3 {
            kbps: match mp3_bitrate {
                Some(k) => k,
                None => DEFAULT_MP3_KBPS,
            },
        }
    }
}

/// What becomes of a recording in the end.
pub fn finalize_session_wav(
    samples_written: u64,
    format: Option<AudioExportFormatDto>,
    mp3_bitrate: Option<u16>,
) -> (r: RecordingFate)
    ensures
        r == recording_fate(samples_written, format, mp3_bitrate),
        r is DeleteEmpty <==> samples_written == 0,
        r is KeepWav <==> samples_written > 0 && format == Some(AudioExportFormatDto::Wav),
        r is EncodeMp3 <==> samples_written > 0 && format != Some(AudioExportFormatDto::Wav),
        r matches RecordingFate::EncodeMp3 { kbps } ==> kbps == mp3_bitrate.unwrap_or(64),
{
    if samples_written == 0 {
        return RecordingFate::DeleteEmpty;
    }
    match format {
        Some(AudioExportFormatDto::Wav) => RecordingFate::KeepWav,
        _ => RecordingFate::EncodeMp3 {
            kbps: match mp3_bitrate {
                Some(k) => k,
                None => DEFAULT_MP3_KBPS,
            },
        },
    }
}

/// A recording that holds samples is compressed if and only if MP3 was chosen, or nothing
/// was; where WAV was chosen it is kept as it is, whatever bit rate was asked for. The bit
/// rate is the one that was asked for. How much was recorded changes nothing, as long as
/// it is not nothing: only then is the file deleted.
pub proof fn law_recording_is_kept_as_chosen(
    samples: u64,
    more: u64,
    format: Option<AudioExportFormatDto>,
    bitrate: Option<u16>,
)
    ensures
        samples == 0 <==> recording_fate(samples, format, bitrate) is DeleteEmpty,
        samples > 0 && more > 0 ==> recording_fate(samples, format, bitrate) == recording_fate(
            more,
            format,
            bitrate,
        ),
        samples > 0 ==> recording_fate(samples, Some(AudioExportFormatDto::Wav), bitrate)
            == RecordingFate::KeepWav,
        samples > 0 ==> recording_fate(samples, Some(AudioExportFormatDto::Mp3), bitrate)
            is EncodeMp3,
        recording_fate(samples, None, bitrate) == recording_fate(
            samples,
            Some(AudioExportFormatDto::Mp3),
            bitrate,
        ),
        recording_fate(samples, format, bitrate) matches RecordingFate::EncodeMp3 { kbps } ==> kbps
            == bitrate.unwrap_or(64),
{
}

/// Empty reads are taken for silence where the system's output alone is recorded on
/// Windows and the stream has no error; anywhere else they are an error.
pub proof fn law_empty_reads(source: CaptureSource, has_stream_error: bool, os: TargetOs)
    ensures
        has_stream_error ==> empty_flush(source, has_stream_error, os) is Error,
        !(os is Windows) ==> empty_flush(source, has_stream_error, os) is Error,
        source != CaptureSource::SystemOnly ==> empty_flush(source, has_stream_error, os) is Error,
        empty_flush(CaptureSource::SystemOnly, false, TargetOs::Windows) is WindowsSilence,
{
}

/// What the user is told of a recording that stayed empty.
pub fn empty_recording_message() -> (r: &'static str)
    ensures
        r@ == "No audio was recorded \u{2014} WAV file not saved"@,
{
    "No audio was recorded \u{2014} WAV file not saved"
}

} // verus!
