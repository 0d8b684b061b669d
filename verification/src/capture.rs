//! Starting a capture and looking at what it holds.

use vstd::prelude::*;

use crate::error::CommandError;
use crate::model::{CaptureSource, CaptureSourceDtoSerialize, CaptureStatus, RingBufferInfoDto};
use crate::single::Single;
use crate::text;

verus! {

/// A piece of the captured audio.
#[derive(Clone, Debug)]
pub struct AudioSnapshotDto {
    pub samples: Vec<Single>,
    pub sample_rate: u32,
    pub channels: u16,
    pub duration_seconds: Single,
}

/// How loud the two streams are.
#[derive(Clone, Copy, Debug, PartialEq, Eq, Structural)]
pub struct CaptureEnergyDto {
    pub mic_rms: Option<Single>,
    pub system_rms: Option<Single>,
}

/// A capture that was written to a file.
#[derive(Clone, Debug)]
pub struct CaptureResultDto {
    pub file_path: String,
    pub duration_seconds: Single,
    pub sample_rate: u32,
    pub source: CaptureSourceDtoSerialize,
}

/// Whether a session runs, and for how long.
#[derive(Clone, Copy, Debug, PartialEq, Eq, Structural)]
pub struct SessionStatusDto {
    pub active: bool,
    pub elapsed_seconds: Option<Single>,
}

/// The notice that a stream of a capture is not well.
#[derive(Clone, Debug)]
pub struct CaptureStreamHealthEvent {
    pub source: &'static str,
    pub status: &'static str,
    pub message: String,
}

/// Whether the number is above zero and finite.
pub open spec fn positive(value: Single) -> bool {
    value.finite() && value.rank() > 0
}

/// What a number is refused with that is not above zero and finite. `shown` is how it is
/// written out.
pub open spec fn not_positive_text(name: Seq<char>, shown: Seq<char>) -> Seq<char> {
    name + " must be a positive finite number, got "@ + shown
}

/// Accepts a number that is above zero and finite.
pub fn check_positive(name: &str, value: Single, shown: &str) -> (r: Result<(), CommandError>)
    ensures
        r is Ok <==> positive(value),
        r is Ok <==> 0 < value.bits < 0x7f80_0000,
        r matches Err(e) ==> e.invalid(not_positive_text(name@, shown@)),
{
    if value.is_finite() && value.above(Single { bits: 0 }) {
        return Ok(());
    }
    let mut message: String = text::joined(name, " must be a positive finite number, got ");
    message.append(shown);
    Err(CommandError::InvalidInput { message })
}

/// How the start of a capture went.
#[derive(Clone, Debug)]
pub enum CaptureStart {
    Started,
    AlreadyRunning,
    /// What the audio system said.
    Failed(String),
}

/// Whether a started capture lacks a stream that was asked for: of both, the sound of
/// the system is missing.
pub open spec fn degraded(requested: CaptureSource, status: CaptureStatus) -> bool {
    requested is Mixed && !status.system_audio_active
}

/// What the user is told of a missing stream.
pub open spec fn degraded_text(detail: Option<String>) -> Seq<char> {
    "System audio unavailable — capturing microphone only. "@ + (match detail {
        Some(d) => d@,
        None => "unknown error"@,
    })
}

/// What the start of a capture comes to. A capture that is running already is as good as
/// one that was started; one that lacks the sound of the system goes on, and the user is
/// told.
pub fn start_capture(requested: CaptureSource, outcome: CaptureStart, status: CaptureStatus) -> (r:
    (Result<(), CommandError>, Option<CaptureStreamHealthEvent>))
    ensures
        match outcome {
            CaptureStart::Started => r.0 is Ok && (if degraded(requested, status) {
                r.1 matches Some(e) && e.source@ == "System"@ && e.status@ == "restart_failed"@
                    && e.message@ == degraded_text(status.error_message)
            } else {
                r.1 is None
            }),
            CaptureStart::AlreadyRunning => r.0 is Ok && r.1 is None,
            CaptureStart::Failed(text) => r.0 == Err::<(), CommandError>(
                CommandError::Audio { message: text },
            ) && r.1 is None,
        },
{
    match outcome {
        CaptureStart::Started => {
            if matches!(requested, CaptureSource::Mixed) && !status.system_audio_active {
                let detail: String = match status.error_message {
                    Some(d) => d,
                    None => "unknown error".to_owned(),
                };
                let message = text::joined(
                    "System audio unavailable — capturing microphone only. ",
                    detail.as_str(),
                );
                (
                    Ok(()),
                    Some(
                        CaptureStreamHealthEvent {
                            source: "System",
                            status: "restart_failed",
                            message,
                        },
                    ),
                )
            } else {
                (Ok(()), None)
            }
        },
        CaptureStart::AlreadyRunning => (Ok(()), None),
        CaptureStart::Failed(text) => (Err(CommandError::Audio { message: text }), None),
    }
}

/// The piece of audio that is handed out: nothing where the stream has no samples or no
/// buffer. `duration_seconds` is the length of the samples at the rate of the buffer.
pub fn snapshot_audio(
    samples: Option<Vec<Single>>,
    info: Option<RingBufferInfoDto>,
    duration_seconds: Single,
) -> (r: Option<AudioSnapshotDto>)
    ensures
        match (samples, info) {
            (Some(s), Some(i)) => r == Some(
                AudioSnapshotDto {
                    samples: s,
                    sample_rate: i.sample_rate,
                    channels: i.channels,
                    duration_seconds,
                },
            ),
            _ => r is None,
        },
{
    match (samples, info) {
        (Some(s), Some(i)) => Some(
            AudioSnapshotDto {
                samples: s,
                sample_rate: i.sample_rate,
                channels: i.channels,
                duration_seconds,
            },
        ),
        _ => None,
    }
}

/// A capture counts as lacking a stream only where both were asked for and the sound of
/// the system is missing: one of a single stream never does, nor one that has both.
pub proof fn law_degraded_only_without_system(requested: CaptureSource, status: CaptureStatus)
    ensures
        status.system_audio_active ==> !degraded(requested, status),
        !(requested is Mixed) ==> !degraded(requested, status),
        requested is Mixed && !status.system_audio_active ==> degraded(requested, status),
{
}

} // verus!
