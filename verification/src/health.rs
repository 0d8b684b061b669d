//! Streams that die silently: how a failure is noticed, how often a restart is tried,
//! and what the user is told.

use vstd::prelude::*;

use crate::dispatch::{BufferFormat, BufferPositions};
use crate::error::CommandError;
use crate::labels::{self, AudioSourceLabel, StreamHealthEvent};
use crate::model::CaptureSource;
use crate::platform::TargetOs;
use crate::text;
use crate::vad::{self, SourceVadState};

verus! {

/// How many restarts of one stream are tried before it is given up.
pub const STREAM_RESTART_MAX_ATTEMPTS: u32 = 3;

/// The least time between two restarts of one stream: five seconds.
pub const STREAM_RESTART_COOLDOWN: u64 = 5_000_000_000;

/// How long a stream may stand still: two seconds.
pub const STREAM_STALL_THRESHOLD: u64 = 2_000_000_000;

// --- Noticing ---

/// Why a stream is restarted.
#[derive(Clone, Copy, Debug, PartialEq, Eq, Structural)]
pub enum RestartReason {
    /// The system reported an error on the stream.
    StreamError,
    /// Nothing came in for too long.
    Stalled,
    /// The device changed.
    DeviceChange,
}

impl RestartReason {
    /// The reason in words.
    pub open spec fn words(self) -> Seq<char> {
        match self {
            RestartReason::StreamError => "stream error callback fired"@,
            RestartReason::Stalled => "write position stalled"@,
            RestartReason::DeviceChange => "device-change"@,
        }
    }

    /// The reason in words.
    pub fn as_str(self) -> (r: &'static str)
        ensures
            r@ == self.words(),
    {
        match self {
            RestartReason::StreamError => "stream error callback fired",
            RestartReason::Stalled => "write position stalled",
            RestartReason::DeviceChange => "device-change",
        }
    }
}

/// Whether a stream was restarted too short a time ago to be restarted again.
pub open spec fn cooling(s: SourceVadState, now: u64) -> bool {
    s.last_restart_at matches Some(then) && vad::since(now, then) < STREAM_RESTART_COOLDOWN
}

/// Whether a stream has been given up.
pub open spec fn given_up(s: SourceVadState) -> bool {
    s.restart_attempts >= STREAM_RESTART_MAX_ATTEMPTS
}

/// What one look at a stream shows, and the stream with what was seen noted.
pub open spec fn observed(
    s: SourceVadState,
    has_error: bool,
    current_pos: usize,
    now: u64,
    os: TargetOs,
) -> (SourceVadState, Option<RestartReason>) {
    if has_error {
        (s, Some(RestartReason::StreamError))
    } else if current_pos > s.last_seen_write_pos {
        (
            SourceVadState {
                last_seen_write_pos: current_pos,
                last_write_pos_advance: now,
                ..s
            },
            None,
        )
    } else if vad::since(now, s.last_write_pos_advance) > STREAM_STALL_THRESHOLD
        && labels::stall_means_failure(s.label, os) {
        (s, Some(RestartReason::Stalled))
    } else {
        (s, None)
    }
}

/// Looks at a stream: an error counts at once; standing still counts after a while,
/// where standing still is no silence.
pub fn evaluate_speculative_signals(
    source: &mut SourceVadState,
    has_error: bool,
    current_pos: usize,
    now: u64,
    os: TargetOs,
) -> (r: Option<RestartReason>)
    ensures
        (*final(source), r) == observed(*old(source), has_error, current_pos, now, os),
        has_error ==> r == Some(RestartReason::StreamError) && *final(source) == *old(source),
        !has_error && current_pos > old(source).last_seen_write_pos ==> r is None
            && final(source).last_seen_write_pos == current_pos
            && final(source).last_write_pos_advance == now,
        !has_error && current_pos <= old(source).last_seen_write_pos ==> *final(source) == *old(
            source,
        ) && (r == Some(RestartReason::Stalled) <==> now > old(source).last_write_pos_advance
            + 2_000_000_000 && !(os is Windows && old(source).label is System)) && (r is None || r
            == Some(RestartReason::Stalled)),
{
    if has_error {
        return Some(RestartReason::StreamError);
    }
    if current_pos > source.last_seen_write_pos {
        source.last_seen_write_pos = current_pos;
        source.last_write_pos_advance = now;
        None
    } else if vad::elapsed(now, source.last_write_pos_advance) > STREAM_STALL_THRESHOLD
        && labels::should_stall_restart(&source.label, os) {
        Some(RestartReason::Stalled)
    } else {
        None
    }
}

/// One look of the watchdog: a stream that was given up or is cooling down is passed
/// over.
pub fn check_stream_health(
    source: &mut SourceVadState,
    has_error: bool,
    current_pos: usize,
    now: u64,
    os: TargetOs,
) -> (r: Option<RestartReason>)
    ensures
        given_up(*old(source)) || cooling(*old(source), now) ==> r is None && *final(source)
            == *old(source),
        !given_up(*old(source)) && !cooling(*old(source), now) ==> (*final(source), r) == observed(
            *old(source),
            has_error,
            current_pos,
            now,
            os,
        ),
        ({
            let s = *old(source);
            let passed_over = s.restart_attempts >= 3 || (s.last_restart_at matches Some(then) && now
                < then + 5_000_000_000);
            let still = now > s.last_write_pos_advance + 2_000_000_000;
            &&& passed_over ==> r is None && *final(source) == s
            &&& !passed_over && has_error ==> r == Some(RestartReason::StreamError)
            &&& !passed_over && !has_error && current_pos > s.last_seen_write_pos ==> r is None
                && final(source).last_seen_write_pos == current_pos
                && final(source).last_write_pos_advance == now
            &&& r == Some(RestartReason::Stalled) <==> !passed_over && !has_error && current_pos
                <= s.last_seen_write_pos && still && !(os is Windows && s.label is System)
            &&& r is None || r == Some(RestartReason::Stalled) || r == Some(
                RestartReason::StreamError,
            ) && has_error
            &&& final(source).restart_attempts == s.restart_attempts
            &&& final(source).speech_start_pos == s.speech_start_pos && final(source).is_speaking
                == s.is_speaking
        }),
{
    if source.restart_attempts >= STREAM_RESTART_MAX_ATTEMPTS {
        return None;
    }
    if let Some(then) = source.last_restart_at {
        if vad::elapsed(now, then) < STREAM_RESTART_COOLDOWN {
            return None;
        }
    }
    evaluate_speculative_signals(source, has_error, current_pos, now, os)
}

/// Whether a capture of both streams ends because one of them was given up.
pub fn mixed_fail_fast(sources: &Vec<SourceVadState>, is_mixed: bool) -> (r: bool)
    ensures
        r == (is_mixed && exists|i: int| 0 <= i < sources@.len() && given_up(#[trigger] sources@[i])),
        r == (is_mixed && exists|i: int|
            0 <= i < sources@.len() && (#[trigger] sources@[i]).restart_attempts >= 3),
{
    if !is_mixed {
        return false;
    }
    let mut i: usize = 0;
    while i < sources.len()
        invariant
            is_mixed,
            i <= sources@.len(),
            forall|k: int| 0 <= k < i ==> !given_up(#[trigger] sources@[k]),
        decreases sources@.len() - i,
    {
        if sources[i].restart_attempts >= STREAM_RESTART_MAX_ATTEMPTS {
            return true;
        }
        i = i + 1;
    }
    false
}

// --- Restarting ---

/// What a restart that succeeded found.
#[derive(Clone, Copy, Debug, PartialEq, Eq, Structural)]
pub struct RestartReport {
    /// The stream came back on the device that had just failed.
    pub same_device: bool,
    /// The stream writes into a new ring buffer.
    pub buffer_replaced: bool,
}

/// Notes that a restart is tried now.
pub fn begin_restart(source: &mut SourceVadState, now: u64)
    ensures
        *final(source) == (SourceVadState { last_restart_at: Some(now), ..*old(source) }),
{
    source.last_restart_at = Some(now);
}

/// The stream after a restart that succeeded. Coming back on the same device counts as
/// one more attempt, and the next may follow at once; otherwise the count starts anew.
pub open spec fn recovered(s: SourceVadState, same_device: bool, now: u64) -> SourceVadState {
    if same_device {
        SourceVadState {
            restart_attempts: (s.restart_attempts + 1) as u32,
            last_restart_at: None,
            ..s
        }
    } else {
        SourceVadState { restart_attempts: 0, last_write_pos_advance: now, ..s }
    }
}

/// The position and format that a stream goes on with after its buffer was replaced:
/// its old format where the new buffer tells none.
pub open spec fn new_format(s: SourceVadState, format: Option<BufferFormat>) -> BufferFormat {
    match format {
        Some(f) => f,
        None => BufferFormat {
            sample_rate: s.source_sample_rate,
            channels: s.source_channels,
        },
    }
}

/// Takes a restart that succeeded in. With a new buffer every position of the stream,
/// and the position up to which the recording has been written, move into it.
pub fn restart_succeeded(
    source: &mut SourceVadState,
    report: RestartReport,
    write_pos: usize,
    format: Option<BufferFormat>,
    flush_positions: Option<BufferPositions>,
    now: u64,
) -> (r: Option<BufferPositions>)
    requires
        old(source).restart_attempts < u32::MAX,
    ensures
        ({
            let s = recovered(*old(source), report.same_device, now);
            let f = new_format(s, format);
            if report.buffer_replaced {
                &&& *final(source) == s.rebased(write_pos, f.sample_rate, f.channels, now)
                &&& r == (match flush_positions {
                    Some(p) => Some(
                        match s.label {
                            AudioSourceLabel::Mic => BufferPositions { mic_pos: write_pos, ..p },
                            AudioSourceLabel::System => BufferPositions {
                                system_pos: write_pos,
                                ..p
                            },
                        },
                    ),
                    None => None,
                })
            } else {
                *final(source) == s && r == flush_positions
            }
        }),
        report.same_device ==> final(source).restart_attempts == old(source).restart_attempts + 1
            && final(source).last_restart_at is None,
        !report.same_device ==> final(source).restart_attempts == 0
            && final(source).last_write_pos_advance == now,
        !report.buffer_replaced ==> r == flush_positions && final(source).speech_start_pos
            == old(source).speech_start_pos && final(source).session_start_pos
            == old(source).session_start_pos,
        report.buffer_replaced ==> {
            &&& final(source).speech_start_pos == write_pos && final(source).cursor == write_pos
            &&& final(source).session_start_pos == write_pos
            &&& final(source).earliest_next_chunk_pos == write_pos
            &&& format matches Some(f) ==> final(source).source_sample_rate == f.sample_rate
                && final(source).source_channels == f.channels
            &&& format is None ==> final(source).source_sample_rate
                == old(source).source_sample_rate && final(source).source_channels
                == old(source).source_channels
            &&& r is Some <==> flush_positions is Some
            &&& flush_positions matches Some(p) ==> (r matches Some(q) ==> if old(source).label
                is Mic {
                q.mic_pos == write_pos && q.system_pos == p.system_pos
            } else {
                q.system_pos == write_pos && q.mic_pos == p.mic_pos
            })
        },
        old(source).wf() ==> final(source).wf(),
{
    if report.same_device {
        source.restart_attempts = source.restart_attempts + 1;
        source.last_restart_at = None;
    } else {
        source.restart_attempts = 0;
        source.last_write_pos_advance = now;
    }
    if !report.buffer_replaced {
        return flush_positions;
    }
    let f: BufferFormat = match format {
        Some(f) => f,
        None => BufferFormat {
            sample_rate: source.source_sample_rate,
            channels: source.source_channels,
        },
    };
    source.reset_for_buffer_replacement(write_pos, f.sample_rate, f.channels, now);
    match flush_positions {
        Some(p) => Some(
            match source.label {
                AudioSourceLabel::Mic => BufferPositions {
                    mic_pos: write_pos,
                    system_pos: p.system_pos,
                },
                AudioSourceLabel::System => BufferPositions {
                    mic_pos: p.mic_pos,
                    system_pos: write_pos,
                },
            },
        ),
        None => None,
    }
}

/// What the user is told of a stream that came back.
pub fn restarted_event(
    label: AudioSourceLabel,
    reason: &str,
    bound_device_name: Option<String>,
) -> (r: StreamHealthEvent)
    ensures
        r.source == label,
        r.status@ == "restarted"@,
        r.message@ == labels::display_name(label) + " stream restarted ("@ + reason@ + ")"@,
        r.bound_device_name == bound_device_name,
{
    let mut message: String = text::joined(
        labels::source_display_name(&label),
        " stream restarted (",
    );
    message.append(reason);
    message.append(")");
    StreamHealthEvent {
        source: label,
        status: "restarted".to_owned(),
        message,
        bound_device_name,
    }
}

/// Takes a restart that failed in: one more attempt, and the user is told which it was
/// and whether it was the last.
pub fn restart_failed(source: &mut SourceVadState, error: &str) -> (r: StreamHealthEvent)
    requires
        old(source).restart_attempts < u32::MAX,
    ensures
        *final(source) == (SourceVadState {
            restart_attempts: (old(source).restart_attempts + 1) as u32,
            ..*old(source)
        }),
        r.source == old(source).label,
        old(source).restart_attempts + 1 >= 3 ==> r.status@ == "restart_abandoned"@,
        old(source).restart_attempts + 1 < 3 ==> r.status@ == "restart_failed"@,
        r.status@ == (if given_up(*final(source)) {
            "restart_abandoned"@
        } else {
            "restart_failed"@
        }),
        r.message@ == labels::display_name(old(source).label) + " stream restart failed: "@ + error@
            + " (attempt "@ + text::decimal(final(source).restart_attempts as nat) + "/"@
            + text::decimal(STREAM_RESTART_MAX_ATTEMPTS as nat) + ")"@,
        r.bound_device_name is None,
{
    source.restart_attempts = source.restart_attempts + 1;
    let status: &str = if source.restart_attempts >= STREAM_RESTART_MAX_ATTEMPTS {
        "restart_abandoned"
    } else {
        "restart_failed"
    };
    let mut message: String = text::joined(
        labels::source_display_name(&source.label),
        " stream restart failed: ",
    );
    message.append(error);
    message.append(" (attempt ");
    message.append(text::decimal_text(source.restart_attempts as u64).as_str());
    message.append("/");
    message.append(text::decimal_text(STREAM_RESTART_MAX_ATTEMPTS as u64).as_str());
    message.append(")");
    StreamHealthEvent {
        source: source.label,
        status: status.to_owned(),
        message,
        bound_device_name: None,
    }
}

// --- Before a session begins ---

/// Which streams are looked at before a session: those that it reads and that have a
/// buffer.
pub fn preflight_scope(source: CaptureSource, has_mic: bool, has_system: bool) -> (r: (bool, bool))
    ensures
        r == (source.mic() && has_mic, source.system() && has_system),
        r.0 <==> source !is SystemOnly && has_mic,
        r.1 <==> source !is MicOnly && has_system,
{
    (source.reads_mic() && has_mic, source.reads_system() && has_system)
}

/// Whether a stream has to be restarted before a session: it has an error, or did not
/// move while it was watched and standing still is no silence.
pub open spec fn needs_restart(
    label: AudioSourceLabel,
    has_error: bool,
    before: usize,
    after: usize,
    os: TargetOs,
) -> bool {
    has_error || (after == before && labels::stall_means_failure(label, os))
}

/// Whether a stream has to be restarted before a session.
pub fn preflight_needs_restart(
    label: AudioSourceLabel,
    has_error: bool,
    before: usize,
    after: usize,
    os: TargetOs,
) -> (r: bool)
    ensures
        r == needs_restart(label, has_error, before, after, os),
        has_error ==> r,
        !has_error && after != before ==> !r,
        !has_error && after == before ==> (r <==> !(os is Windows && label is System)),
{
    has_error || (after == before && labels::should_stall_restart(&label, os))
}

/// What a failed restart before a session means: without the microphone, or without
/// the only stream, the session cannot begin; a session of both goes on with the
/// microphone, and the user is told.
pub fn preflight_restart_failed(
    source: CaptureSource,
    label: AudioSourceLabel,
    error: &str,
) -> (r: Result<StreamHealthEvent, CommandError>)
    ensures
        r is Err <==> (label is Mic || source is SystemOnly),
        r matches Err(e) ==> (e matches CommandError::Audio { message } && message@ == error@),
        r matches Ok(event) ==> event.source is System && event.status@ == "restart_failed"@
            && event.message@ == "preflight system restart failed: "@ + error@
            && event.bound_device_name is None,
{
    if label == AudioSourceLabel::Mic || source == CaptureSource::SystemOnly {
        return Err(CommandError::Audio { message: error.to_owned() });
    }
    Ok(
        StreamHealthEvent {
            source: AudioSourceLabel::System,
            status: "restart_failed".to_owned(),
            message: text::joined("preflight system restart failed: ", error),
            bound_device_name: None,
        },
    )
}

// --- What holds of restarts ---

/// A stream that was given up stays given up when a further restart fails.
pub proof fn law_given_up_stays(s: SourceVadState)
    requires
        s.restart_attempts < u32::MAX,
        given_up(s),
    ensures
        given_up(SourceVadState { restart_attempts: (s.restart_attempts + 1) as u32, ..s }),
{
}

/// A restart on another device clears the count; on the same device it may be tried
/// again at once.
pub proof fn law_recovery(s: SourceVadState, now: u64, later: u64)
    requires
        s.restart_attempts < u32::MAX,
    ensures
        !given_up(recovered(s, false, now)),
        !cooling(recovered(s, true, now), later),
{
}

} // verus!
