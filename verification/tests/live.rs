use yapstack::chunk::{
    backfill_continues, chunk_request, complete_chunk, crashed_status, engine_error_warning,
    fatal_sidecar_status, is_set_aside, judge_chunk, live_transcription_status, pressure_event,
    quarantine_directory, quarantine_file_name, quarantine_message, record_live_drain_backlog,
    ChunkPlace, ChunkProgress, ChunkTiming, ChunkVerdict, RuntimeReport, SessionCounters,
    StatusProgress,
};
use yapstack::dispatch::{
    apply_outcome, decide_dispatch, decide_mic_edge, dispatch_until, is_live_busy, muted_history,
    usable_until,
    prepare_chunk_dispatch, stop_positions_with_tail, BufferFormat, BufferPositions,
    ChunkTaskOutcome, DispatchStep, MicEdge, SourceAudioRange,
};
use yapstack::engine::{
    check_downloaded, decide_init, engine_extras, init_reply, place_engine, required_model,
    EngineConfig, InitDecision, ModelChoice,
};
use yapstack::files::{
    check_export_path, delete_report, is_allowed_export_path, is_same_path, is_session_file,
    legacy_delete_report, refusal_text, refuse_delete, DeleteRefusal,
};
use yapstack::health::{
    begin_restart, check_stream_health, mixed_fail_fast, preflight_needs_restart,
    preflight_restart_failed, preflight_scope, restart_failed, restart_succeeded, restarted_event,
    RestartReason, RestartReport,
};
use yapstack::host::{
    ensure_command_succeeded, frontend_log_line, health_check, screen_capture_permission,
    AppNapState, CommandOutput, ScreenCapturePermissionDto, MAX_MESSAGE_LEN,
};
use yapstack::labels::{
    default_persist_audio_part, default_source_kind, intent_label, should_stall_restart, source_display_name, source_from_label, AudioExportFormatDto,
    AudioSourceLabel, LiveSourceKind, LiveTranscriptionPhase, RestartIntent, SegmentOrigin,
};
use yapstack::live_loop::{
    advance, announces_backfill_complete, final_chunk_done, final_flush_step, final_flush_until,
    has_final_pending, pending_chunk_done, plan_end, plan_pass, poll_sources, prune_point,
    reports_stopped, set_runtime_busy, settle_outcomes,
    skip_final_flush, take_final_chunk, EndStage, LoopExit, SourceProbabilities, StageReport,
    StreamPlan, TickStage,
};
use yapstack::mic::{DictationMicSnapshot, DictationOwnsMic, MicWindow};
use yapstack::model::{
    CaptureSource, EngineKind, ModelSize, ParakeetVariant, TranscriptSegmentDto,
    TranscriptionResult,
};
use yapstack::platform::{
    choose_sidecar, current_target_triple, sidecar_missing, sidecar_names, TargetArch, TargetOs,
};
use yapstack::prompt::PromptState;
use yapstack::recording::{
    classify_empty_flush, empty_flush_message, empty_recording_message, finalize_session_wav, handle_empty_wav_flush, EmptyFlushClassification,
    RecordingFate, SessionWavState, WavWriteOutcome,
};
use yapstack::scheduler::{
    JobOrigin, JobRequest, JobSource, SchedulerError, TranscriptionScheduler, WorkerStep,
};
use yapstack::single::{Double, Single};
use yapstack::start::joins_restart_routing;
use yapstack::slots::{LiveTranscriptionSlots, RuntimeSlot, StopStep};
use yapstack::vad::{EngineProfile, SourceVadState, VadAction, VadTuning};

const SECOND: u64 = 1_000_000_000;

fn s(x: f32) -> Single {
    Single { bits: x.to_bits() }
}

fn source(label: AudioSourceLabel) -> SourceVadState {
    SourceVadState::new(label, 0, 0, 48000, 1, 0)
}

fn tuning() -> VadTuning {
    VadTuning {
        speech_threshold: s(0.5),
        offset_threshold: s(0.35),
        silence_duration: 500_000_000,
        max_chunk_duration: 10_000_000_000,
        poll_interval: 100_000_000,
        pre_roll: 250_000_000,
    }
}

fn segment(text: &str) -> TranscriptSegmentDto {
    TranscriptSegmentDto {
        start_ms: 0,
        end_ms: 100,
        text: text.to_string(),
        confidence: s(1.0),
        speaker_id: None,
    }
}

// --- Platforms and paths ---

#[test]
fn test_current_target_triple_not_empty() {
    for os in [TargetOs::Macos, TargetOs::Windows, TargetOs::Linux] {
        for arch in [TargetArch::Aarch64, TargetArch::X86_64] {
            let triple = current_target_triple(os, arch);
            assert!(!triple.is_empty());
            assert!(triple.contains('-'), "target triple should contain hyphens");
        }
    }
    assert_eq!(
        current_target_triple(TargetOs::Macos, TargetArch::Aarch64),
        "aarch64-apple-darwin"
    );
}

#[test]
fn binaries_are_looked_for_in_two_places() {
    let (bundled, plain) = sidecar_names(
        "yapstack-transcription-sidecar",
        TargetOs::Windows,
        TargetArch::X86_64,
    );
    assert_eq!(
        bundled,
        "yapstack-transcription-sidecar-x86_64-pc-windows-msvc.exe"
    );
    assert_eq!(plain, "yapstack-transcription-sidecar.exe");
    assert_eq!(choose_sidecar(true, true), Some(true));
    assert_eq!(choose_sidecar(false, true), Some(false));
    assert_eq!(choose_sidecar(false, false), None);
    assert_eq!(
        sidecar_missing("sidecar binary", "/a", "/b"),
        "sidecar binary not found at /a or /b"
    );
}

#[test]
fn allows_text_export_extensions() {
    for os in [TargetOs::Macos, TargetOs::Linux, TargetOs::Windows] {
        assert!(is_allowed_export_path("/tmp/notes.md", os));
        assert!(is_allowed_export_path("/tmp/notes.MARKDOWN", os));
        assert!(is_allowed_export_path("transcript - my side.txt", os));
        assert!(is_allowed_export_path("C:\\Users\\me\\out.TXT", os));
    }
}

#[test]
fn rejects_non_text_targets() {
    for os in [TargetOs::Macos, TargetOs::Linux, TargetOs::Windows] {
        assert!(!is_allowed_export_path("/tmp/app.exe", os));
        assert!(!is_allowed_export_path("/etc/hosts", os));
        assert!(!is_allowed_export_path("/tmp/noext", os));
        assert!(!is_allowed_export_path("/tmp/archive.zip", os));
        assert!(!is_allowed_export_path("/tmp/config.json", os));
    }
    assert_eq!(
        check_export_path("/etc/hosts", TargetOs::Linux)
            .unwrap_err()
            .to_string(),
        "invalid input: write_text_file only writes text exports (md/markdown/txt/text); refusing '/etc/hosts'"
    );
}

#[test]
fn paths_are_the_same_component_by_component() {
    let paths = [
        "", ".", "./", "..", "./.", "/", "//", "/.", "x", "x/", "./x", "././x", "x/.", "/x", "/x/",
        "//x", "/./x", "/x/./y", "/x//y/", "/x/../y", "/X", "C:x", "\\x", ".x", "x.",
    ];
    for a in paths {
        for b in paths {
            let same = std::path::Path::new(a) == std::path::Path::new(b);
            assert_eq!(is_same_path(a, b, TargetOs::Linux), same, "{a} {b}");
        }
    }
}

#[test]
fn windows_paths_are_the_same_component_by_component() {
    let same = |a, b| is_same_path(a, b, TargetOs::Windows);
    assert!(same("c:\\x", "C:/x/"));
    assert!(!same("C:x", "C:\\x"));
    assert!(same("C:.\\x", "C:x"));
    assert!(!same(".\\x", "x"));
    assert!(!same("C:\\x", "C:\\X"));
    assert!(same("\\\\server\\share", "//server/share/"));
    assert!(!same("\\\\server\\share", "\\\\server\\other"));
    assert!(same("\\\\.\\device", "//./device\\"));
    // Word for word a dot counts, a slash does not separate, and a root is written.
    assert!(same("\\\\?\\c:\\x", "\\\\?\\C:\\\\x\\"));
    assert!(same("\\\\?\\C:/x", "\\\\?\\C:\\x"));
    assert!(!same("\\\\?\\C:\\x", "C:\\x"));
    assert!(!same("\\\\?\\C:\\x\\.", "\\\\?\\C:\\x"));
    assert!(!same("\\\\?\\C:\\x/y", "\\\\?\\C:\\x\\y"));
    assert!(!same("\\\\?\\thing", "\\\\?\\thing\\"));
    assert!(same("\\\\?\\UNC\\server\\share", "\\\\?\\UNC/server\\share"));
    assert!(!same("\\\\?\\foo", "//?/foo"));
}

#[test]
fn a_windows_prefix_names_no_file() {
    let allowed = |path| is_allowed_export_path(path, TargetOs::Windows);
    let refused = [
        "\\\\server\\share.md",
        "\\\\.\\device.md",
        "\\\\?\\thing.md",
        "\\\\?\\UNC\\server\\share.md",
        "\\\\?\\C:\\a.md\\.",
        "\\\\?\\C:/.md",
        "//server/share.md",
        "C:",
    ];
    for path in refused {
        assert!(!allowed(path), "{path}");
    }
    let accepted = [
        "\\\\server\\share\\a.md",
        "//server/share/a.md",
        "\\\\.\\device\\a.md",
        "\\\\?\\thing\\a.md",
        "\\\\?\\UNC\\server\\share\\a.md",
        "\\\\?\\C:\\a.md",
        "\\\\?\\C:/a.md",
        "C:a.md",
        "C:\\a.md\\.",
        "\\\\a.md",
    ];
    for path in accepted {
        assert!(allowed(path), "{path}");
    }
    // Elsewhere these are ordinary names.
    assert!(is_allowed_export_path("\\\\server\\share.md", TargetOs::Linux));
}

#[test]
fn files_of_a_session() {
    assert!(is_session_file("abc.0.wav", "abc"));
    assert!(is_session_file("abc.MP3", "abc"));
    assert!(!is_session_file("abcd.0.wav", "abc"));
    assert!(!is_session_file("abc.txt", "abc"));
    assert_eq!(
        refuse_delete(false, Some(true)),
        Some(DeleteRefusal::NotAbsolute)
    );
    assert_eq!(refuse_delete(true, None), Some(DeleteRefusal::NoParent));
    assert_eq!(
        refuse_delete(true, Some(false)),
        Some(DeleteRefusal::Untrusted)
    );
    assert_eq!(refuse_delete(true, Some(true)), None);
    assert_eq!(
        refusal_text("a.wav", DeleteRefusal::NotAbsolute),
        "a.wav (not absolute)"
    );
    assert_eq!(
        refusal_text("/", DeleteRefusal::NoParent),
        "/ (no parent dir)"
    );
    assert_eq!(
        refusal_text("/x", DeleteRefusal::Untrusted),
        "/x (outside trusted dirs)"
    );
    assert!(delete_report(&vec![]).is_ok());
    assert_eq!(
        delete_report(&vec!["a".to_string(), "b".to_string()])
            .unwrap_err()
            .to_string(),
        "internal: failed to delete 2 audio file(s): a; b"
    );
    assert_eq!(
        legacy_delete_report(&vec!["a".to_string()], "s1")
            .unwrap_err()
            .to_string(),
        "internal: failed to delete 1 legacy audio file(s) for session s1: a"
    );
}

// --- Host ---

#[test]
fn ensure_command_succeeded_accepts_success() {
    let output = CommandOutput {
        success: true,
        status: "exit status: 0".to_string(),
        stderr: Vec::new(),
    };
    assert!(ensure_command_succeeded("osascript", &output).is_ok());
}

#[test]
fn ensure_command_succeeded_rejects_failure_with_stderr() {
    let output = CommandOutput {
        success: false,
        status: "exit status: 1".to_string(),
        stderr: b"AppleEvent timed out".to_vec(),
    };
    let err = ensure_command_succeeded("osascript", &output).unwrap_err();
    let msg = err.to_string();
    assert!(msg.contains("failed"));
    assert!(msg.contains("AppleEvent timed out"));
}

#[test]
fn a_silent_failure_is_told_by_its_status() {
    let output = CommandOutput {
        success: false,
        status: "exit status: 1".to_string(),
        stderr: b" \n".to_vec(),
    };
    assert_eq!(
        ensure_command_succeeded("osascript", &output)
            .unwrap_err()
            .to_string(),
        "internal: osascript exited with status exit status: 1"
    );
    let output = CommandOutput {
        success: false,
        status: "exit status: 1".to_string(),
        stderr: vec![b'b', b'a', b'd', 0xff],
    };
    assert_eq!(
        ensure_command_succeeded("osascript", &output)
            .unwrap_err()
            .to_string(),
        "internal: osascript failed: bad\u{fffd}"
    );
}

#[test]
fn host_odds_and_ends() {
    let h = health_check("1.2.3");
    assert_eq!(h.status, "ok");
    assert_eq!(h.version, "1.2.3");
    assert_eq!(
        screen_capture_permission(TargetOs::Macos, true),
        ScreenCapturePermissionDto::Granted
    );
    assert_eq!(
        screen_capture_permission(TargetOs::Macos, false),
        ScreenCapturePermissionDto::NotDetermined
    );
    assert_eq!(
        screen_capture_permission(TargetOs::Linux, true),
        ScreenCapturePermissionDto::Unavailable
    );
    let long = "ä".repeat(MAX_MESSAGE_LEN);
    assert!(frontend_log_line(None, &long).len() <= MAX_MESSAGE_LEN + 64);
    let mut nap = AppNapState::new();
    assert!(!nap.end());
    assert!(nap.begin());
    assert!(!nap.begin());
    assert!(nap.end());
    assert!(!nap.held);
}

// --- Streams ---

#[test]
fn test_should_stall_restart_mic_always_true() {
    for os in [TargetOs::Macos, TargetOs::Windows, TargetOs::Linux] {
        assert!(should_stall_restart(&AudioSourceLabel::Mic, os));
    }
}

#[test]
fn test_should_stall_restart_system_platform_dependent() {
    assert!(
        !should_stall_restart(&AudioSourceLabel::System, TargetOs::Windows),
        "system stall restart should be skipped on Windows"
    );
    for os in [TargetOs::Macos, TargetOs::Linux] {
        assert!(
            should_stall_restart(&AudioSourceLabel::System, os),
            "system stall restart should be enabled on non-Windows"
        );
    }
}

#[test]
fn labels_name_their_streams() {
    assert_eq!(source_from_label(AudioSourceLabel::Mic), JobSource::Mic);
    assert_eq!(
        intent_label(RestartIntent::System),
        AudioSourceLabel::System
    );
    assert!(!source_display_name(&AudioSourceLabel::Mic).is_empty());
    assert_eq!(
        SegmentOrigin::from(JobOrigin::Dictation),
        SegmentOrigin::Live
    );
}

#[test]
fn stalled_streams_are_restarted_until_they_are_given_up() {
    let mut src = source(AudioSourceLabel::Mic);
    assert_eq!(
        check_stream_health(&mut src, false, 100, SECOND, TargetOs::Linux),
        None
    );
    assert_eq!(src.last_seen_write_pos, 100);
    assert_eq!(
        check_stream_health(&mut src, false, 100, 3 * SECOND, TargetOs::Linux),
        None
    );
    assert_eq!(
        check_stream_health(&mut src, false, 100, 3 * SECOND + 1, TargetOs::Linux),
        Some(RestartReason::Stalled)
    );
    assert_eq!(
        check_stream_health(&mut src, true, 200, 4 * SECOND, TargetOs::Linux),
        Some(RestartReason::StreamError)
    );
    begin_restart(&mut src, 4 * SECOND);
    let event = restart_failed(&mut src, "gone");
    assert_eq!(event.status, "restart_failed");
    assert!(event.message.contains("gone (attempt 1/3)"));
    assert_eq!(
        check_stream_health(&mut src, true, 200, 5 * SECOND, TargetOs::Linux),
        None
    );
    assert_eq!(
        check_stream_health(&mut src, true, 200, 9 * SECOND, TargetOs::Linux),
        Some(RestartReason::StreamError)
    );
    restart_failed(&mut src, "gone");
    let event = restart_failed(&mut src, "gone");
    assert_eq!(event.status, "restart_abandoned");
    assert_eq!(
        check_stream_health(&mut src, true, 200, 100 * SECOND, TargetOs::Linux),
        None
    );
    assert!(mixed_fail_fast(&vec![src], true));
    assert!(!mixed_fail_fast(
        &vec![source(AudioSourceLabel::System)],
        true
    ));
}

#[test]
fn a_restart_onto_a_new_buffer_starts_over() {
    let mut src = source(AudioSourceLabel::Mic);
    src.restart_attempts = 2;
    let positions = restart_succeeded(
        &mut src,
        RestartReport {
            same_device: false,
            buffer_replaced: true,
        },
        640,
        Some(BufferFormat {
            sample_rate: 16_000,
            channels: 2,
        }),
        Some(BufferPositions {
            mic_pos: 5,
            system_pos: 7,
        }),
        SECOND,
    );
    assert_eq!(src.restart_attempts, 0);
    assert_eq!(src.cursor, 640);
    assert_eq!(
        positions,
        Some(BufferPositions {
            mic_pos: 640,
            system_pos: 7
        })
    );
    restart_succeeded(
        &mut src,
        RestartReport {
            same_device: true,
            buffer_replaced: false,
        },
        0,
        None,
        None,
        SECOND,
    );
    assert_eq!(src.restart_attempts, 1);
}

#[test]
fn streams_are_probed_before_a_start() {
    assert_eq!(preflight_scope(CaptureSource::Mixed, true, true), (true, true));
    assert_eq!(
        preflight_scope(CaptureSource::MicOnly, true, true),
        (true, false)
    );
    assert!(preflight_needs_restart(
        AudioSourceLabel::Mic,
        false,
        5,
        5,
        TargetOs::Linux
    ));
    assert!(!preflight_needs_restart(
        AudioSourceLabel::Mic,
        false,
        5,
        6,
        TargetOs::Linux
    ));
    assert!(
        preflight_restart_failed(CaptureSource::Mixed, AudioSourceLabel::Mic, "x").is_err()
    );
    assert!(
        preflight_restart_failed(CaptureSource::Mixed, AudioSourceLabel::System, "x").is_ok()
    );
}

// --- Recording ---

#[test]
fn test_classify_empty_flush_table() {
    for os in [TargetOs::Macos, TargetOs::Windows, TargetOs::Linux] {
        let cases = [
            (
                CaptureSource::MicOnly,
                false,
                EmptyFlushClassification::Error,
            ),
            (
                CaptureSource::MicOnly,
                true,
                EmptyFlushClassification::Error,
            ),
            (CaptureSource::Mixed, false, EmptyFlushClassification::Error),
            (CaptureSource::Mixed, true, EmptyFlushClassification::Error),
            (
                CaptureSource::SystemOnly,
                false,
                if os == TargetOs::Windows {
                    EmptyFlushClassification::WindowsSilence
                } else {
                    EmptyFlushClassification::Error
                },
            ),
            (
                CaptureSource::SystemOnly,
                true,
                EmptyFlushClassification::Error,
            ),
        ];
        for (i, (source, has_error, expected)) in cases.iter().enumerate() {
            let result = classify_empty_flush(*source, *has_error, os);
            assert_eq!(
                result, *expected,
                "case {}: source={:?} has_error={} expected {:?} got {:?}",
                i, source, has_error, expected, result
            );
        }
    }
}

#[test]
fn the_tenth_empty_flush_is_reported() {
    let mut n = 8;
    assert_eq!(
        handle_empty_wav_flush(&mut n, true, CaptureSource::MicOnly, false, TargetOs::Linux),
        None
    );
    assert_eq!(
        handle_empty_wav_flush(&mut n, true, CaptureSource::MicOnly, false, TargetOs::Linux),
        Some(EmptyFlushClassification::Error)
    );
    assert_eq!(n, 10);
    let mut n = 9;
    assert_eq!(
        handle_empty_wav_flush(&mut n, false, CaptureSource::MicOnly, false, TargetOs::Linux),
        None
    );
    assert_eq!(n, 0);
}

#[test]
fn what_becomes_of_a_recording() {
    assert_eq!(
        finalize_session_wav(0, None, None),
        RecordingFate::DeleteEmpty
    );
    assert_eq!(
        finalize_session_wav(1, None, None),
        RecordingFate::EncodeMp3 { kbps: 64 }
    );
    assert_eq!(
        finalize_session_wav(1, None, Some(128)),
        RecordingFate::EncodeMp3 { kbps: 128 }
    );
}

// --- Chunks ---

#[test]
fn live_drain_backlog_counter_tracks_live_backlog_only() {
    let mut counters = SessionCounters::new();
    record_live_drain_backlog(&mut counters, JobOrigin::Backfill, s(9.0));
    record_live_drain_backlog(&mut counters, JobOrigin::Live, s(2.5));
    record_live_drain_backlog(&mut counters, JobOrigin::Live, s(0.0));
    assert_eq!(counters.live_drain_backlog_chunks, 1);
    assert_eq!(counters.live_drain_backlog_seconds, s(0.0));
}

#[test]
fn what_an_answer_of_the_engine_means() {
    let answered = |r: Result<TranscriptionResult, SchedulerError>| {
        judge_chunk(&ChunkProgress::Answered(&r))
    };
    assert_eq!(
        answered(Ok(TranscriptionResult {
            text: String::new(),
            segments: vec![]
        })),
        ChunkVerdict::Success
    );
    assert_eq!(
        answered(Err(SchedulerError::SidecarDead)),
        ChunkVerdict::SidecarDead
    );
    assert_eq!(
        answered(Err(SchedulerError::Cancelled)),
        ChunkVerdict::SkippedQuietly
    );
    assert_eq!(
        answered(Err(SchedulerError::Shutdown)),
        ChunkVerdict::SkippedQuietly
    );
    assert_eq!(
        answered(Err(SchedulerError::Transcription("x".to_string()))),
        ChunkVerdict::SkippedWithWarning
    );
    assert_eq!(
        judge_chunk(&ChunkProgress::Unanswered),
        ChunkVerdict::SidecarDead
    );
    assert!(is_set_aside(ChunkVerdict::SkippedQuietly));
    assert!(!is_set_aside(ChunkVerdict::SidecarDead));
    assert!(!backfill_continues(ChunkVerdict::SidecarDead));
    assert_eq!(
        engine_error_warning(),
        "Transcription engine error — chunk skipped"
    );
    assert_eq!(quarantine_directory(None), "dictation");
    assert_eq!(
        quarantine_file_name("20260101T000000", AudioSourceLabel::System, 12),
        "20260101T000000_system_12.wav"
    );
    assert_eq!(
        quarantine_message("1.5", None),
        "1.5s of audio could not be transcribed; saved for debugging at <no audio captured>"
    );
}

#[test]
fn only_engines_with_prompts_get_one() {
    let mut profile = EngineProfile {
        engine_kind: EngineKind::Parakeet,
        engine_name: "Parakeet",
        vad_tuning: tuning(),
        uses_initial_prompt: false,
        accel: None,
        variant: None,
    };
    let ask = |p: &EngineProfile| {
        chunk_request(
            p,
            JobOrigin::Live,
            AudioSourceLabel::Mic,
            "/tmp/a.wav".to_string(),
            None,
            Some("prompt".to_string()),
            true,
        )
    };
    assert_eq!(ask(&profile).initial_prompt, None);
    profile.uses_initial_prompt = true;
    assert_eq!(ask(&profile).initial_prompt.as_deref(), Some("prompt"));
}

#[test]
fn a_finished_chunk_is_numbered_and_told() {
    let mut index = 4;
    let mut text = String::new();
    let mut prompt = PromptState {
        shared_prompt: String::new(),
        last_transcription_at: None,
    };
    let place = || ChunkPlace {
        label: AudioSourceLabel::Mic,
        origin: JobOrigin::FinalFlush,
        audio_offset_seconds: s(2.0),
        chunk_duration_seconds: s(1.0),
        source_kind: LiveSourceKind::Session,
        session_id: Some("s1".to_string()),
    };
    let refused = complete_chunk(
        Err(SchedulerError::Cancelled),
        &Vec::new(),
        place(),
        &mut index,
        &mut text,
        &mut prompt,
        None,
        600,
    );
    assert!(matches!(refused, Err(SchedulerError::Cancelled)));
    assert_eq!(index, 4);
    assert!(prompt.shared_prompt.is_empty());
    assert_eq!(prompt.last_transcription_at, None);
    let event = complete_chunk(
        Ok(TranscriptionResult {
            text: "Hello. [noise]".to_string(),
            segments: vec![segment("Hello."), segment("[noise]")],
        }),
        &vec![false, true],
        place(),
        &mut index,
        &mut text,
        &mut prompt,
        None,
        700,
    )
    .unwrap();
    assert_eq!(prompt.last_transcription_at, Some(700));
    assert_eq!(event.chunk_index, 4);
    assert_eq!(index, 5);
    assert_eq!(event.origin, SegmentOrigin::FinalFlush);
    assert_eq!(event.session_id.as_deref(), Some("s1"));
    assert!(prompt.shared_prompt.contains("Hello."));
    assert!(!prompt.shared_prompt.contains("[noise]"));
}

#[test]
fn statuses_and_timings() {
    let progress = StatusProgress {
        chunks: 3,
        ..StatusProgress::zero()
    };
    let fatal = fatal_sidecar_status(progress, None, LiveSourceKind::Dictation);
    assert_eq!(fatal.phase, LiveTranscriptionPhase::Error);
    assert_eq!(fatal.chunks_processed, 3);
    assert_eq!(fatal.source_kind, LiveSourceKind::Dictation);
    assert_eq!(
        crashed_status(None, LiveSourceKind::Session)
            .error_message
            .as_deref(),
        Some("live transcription crashed unexpectedly")
    );
    let idle = live_transcription_status(None, None);
    assert_eq!(idle.phase, LiveTranscriptionPhase::Stopped);
    assert_eq!(idle.source_kind, LiveSourceKind::Session);
    let live = live_transcription_status(
        Some(LiveSourceKind::Session),
        Some(RuntimeReport {
            progress,
            running: true,
            session_id: Some("s".to_string()),
            effective_start_epoch_ms: Double {
                bits: 5.0f64.to_bits(),
            },
            source_kind: LiveSourceKind::Session,
        }),
    );
    assert_eq!(live.phase, LiveTranscriptionPhase::Running);
    assert_eq!(live.chunks_processed, 3);
    assert!(live.effective_start_epoch_ms.is_some());

    let event = |wall_ms, ok| {
        pressure_event(
            AudioSourceLabel::Mic,
            1,
            ChunkTiming {
                chunk_audio_seconds: s(2.0),
                wall_ms,
                rtfx: s(4.0),
                lag_seconds: s(0.5),
                drain_backlog_seconds: s(0.0),
            },
            ok,
            "Whisper".to_string(),
            JobOrigin::Live,
            None,
            None,
        )
    };
    assert_eq!(event(500, true).rtfx, Some(s(4.0)));
    assert_eq!(event(0, true).rtfx, None);
    assert_eq!(event(0, true).lag_seconds, Some(s(0.5)));
    assert_eq!(event(500, false).rtfx, None);
    assert_eq!(event(500, false).lag_seconds, None);
}

// --- Dispatch ---

fn range(start: usize, end: usize) -> SourceAudioRange {
    SourceAudioRange {
        samples: end - start,
        sample_rate: 48_000,
        start_pos: start,
        end_pos: end,
        overrun: false,
    }
}

#[test]
fn a_chunk_is_cut_and_the_stream_goes_on_behind_it() {
    let mut src = source(AudioSourceLabel::Mic);
    src.is_speaking = true;
    src.accumulated_text = "so far".to_string();
    let chunk = prepare_chunk_dispatch(
        &mut src,
        Some(range(0, 48_000)),
        48_000,
        60_000,
        false,
        JobOrigin::Live,
        SECOND,
    )
    .unwrap();
    assert_eq!(chunk.chunk_index, 0);
    assert_eq!(chunk.accumulated_text, "so far");
    assert_eq!(chunk.backlog_samples, 12_000);
    assert_eq!(src.chunk_index, 1);
    assert_eq!(src.speech_start_pos, 48_000);
    assert!(src.has_in_flight_task && src.force_drain && src.is_speaking);

    // Too short to transcribe.
    let mut src = source(AudioSourceLabel::Mic);
    assert!(prepare_chunk_dispatch(
        &mut src,
        Some(range(0, 100)),
        100,
        100,
        false,
        JobOrigin::Live,
        0
    )
    .is_none());
    assert_eq!(src.cursor, 100);
    assert!(!src.has_in_flight_task);
}

#[test]
fn one_chunk_at_a_time() {
    let mut src = source(AudioSourceLabel::Mic);
    src.is_speaking = true;
    let decide = |src: &SourceVadState, a| decide_dispatch(src, a);
    assert_eq!(
        decide(&src, VadAction::Chunk),
        DispatchStep::Dispatch { force: false }
    );
    assert_eq!(
        decide(&src, VadAction::ForceChunk),
        DispatchStep::Dispatch { force: true }
    );
    src.has_in_flight_task = true;
    assert_eq!(decide(&src, VadAction::Chunk), DispatchStep::Keep);
    let mut sources = vec![src];
    assert!(is_live_busy(&sources, 0, false));
    assert!(!apply_outcome(
        &mut sources,
        ChunkTaskOutcome {
            source_label: AudioSourceLabel::Mic,
            accumulated_text: "done".to_string(),
            sidecar_dead: false,
        }
    ));
    assert!(!sources[0].has_in_flight_task);
    assert_eq!(sources[0].accumulated_text, "done");
}

#[test]
fn the_microphone_changes_hands() {
    let mut src = source(AudioSourceLabel::Mic);
    src.is_speaking = true;
    let taken = windows(Some(500), &[]);
    assert_eq!(
        decide_mic_edge(LiveSourceKind::Session, &src, &taken),
        MicEdge::Taken { flush: true }
    );
    assert_eq!(
        decide_mic_edge(LiveSourceKind::Dictation, &src, &taken),
        MicEdge::Steady
    );
    // A dictation that came and went since the last look is seen.
    assert_eq!(
        decide_mic_edge(LiveSourceKind::Session, &src, &windows(None, &[(500, 900)])),
        MicEdge::GivenBack {
            flush: true,
            to: 900
        }
    );
    src.dictation_was_active = true;
    assert_eq!(
        decide_mic_edge(LiveSourceKind::Session, &src, &windows(None, &[(500, 900)])),
        MicEdge::GivenBack {
            flush: false,
            to: 900
        }
    );
    assert_eq!(
        decide_mic_edge(LiveSourceKind::Session, &src, &taken),
        MicEdge::Steady
    );
    // Given back without a window, the stream takes its speech up again.
    assert_eq!(
        decide_mic_edge(LiveSourceKind::Session, &src, &windows(None, &[])),
        MicEdge::GivenBack { flush: false, to: 0 }
    );
}

#[test]
fn a_stop_waits_for_the_tail() {
    let p = stop_positions_with_tail(
        BufferPositions {
            mic_pos: 1_000,
            system_pos: 2_000,
        },
        Some(BufferFormat {
            sample_rate: 48_000,
            channels: 2,
        }),
        None,
    );
    assert_eq!(p.mic_pos, 1_000 + 28_800);
    assert_eq!(p.system_pos, 2_000);
    let src = source(AudioSourceLabel::Mic);
    assert_eq!(
        dispatch_until(
            LiveSourceKind::Session,
            &src,
            &windows(None, &[]),
            100,
            10_000_000_000
        ),
        100
    );
}

// --- The loop ---

#[test]
fn a_tick_goes_through_its_stages() {
    let mut at = TickStage::Wait;
    let mut seen = Vec::new();
    for _ in 0..7 {
        seen.push(at);
        at = advance(at, StageReport::Done, false);
    }
    assert_eq!(
        seen,
        vec![
            TickStage::Wait,
            TickStage::Read,
            TickStage::Score,
            TickStage::Record,
            TickStage::Settle,
            TickStage::Dispatch,
            TickStage::Report,
        ]
    );
    assert_eq!(at, TickStage::Wait);
    assert_eq!(
        advance(TickStage::Read, StageReport::Done, true),
        TickStage::Leave(LoopExit::Stopped)
    );
    assert_eq!(
        advance(TickStage::Record, StageReport::ResampleFailed, true),
        TickStage::Wait
    );
    assert_eq!(
        advance(TickStage::Settle, StageReport::CaptureLost, false),
        TickStage::Leave(LoopExit::CaptureLost)
    );
    assert_eq!(
        advance(TickStage::Dispatch, StageReport::EngineDead, false),
        TickStage::Leave(LoopExit::EngineDead)
    );
    assert!(reports_stopped(LoopExit::Stopped));
}

#[test]
fn streams_are_polled_by_their_label() {
    let mut sources = vec![
        source(AudioSourceLabel::Mic),
        source(AudioSourceLabel::System),
    ];
    let batch = vec![SourceProbabilities {
        label: AudioSourceLabel::System,
        probs: vec![s(0.9)],
    }];
    let actions = poll_sources(
        &mut sources,
        &batch,
        LiveSourceKind::Session,
        &tuning(),
        SECOND,
    );
    assert_eq!(actions.len(), 2);
    assert!(!sources[0].is_speaking);
    assert!(sources[1].is_speaking);
    let report = settle_outcomes(
        &mut sources,
        vec![ChunkTaskOutcome {
            source_label: AudioSourceLabel::Mic,
            accumulated_text: String::new(),
            sidecar_dead: true,
        }],
    );
    assert_eq!(report, StageReport::EngineDead);
}

#[test]
fn the_last_flush_takes_what_is_left() {
    let mut src = source(AudioSourceLabel::Mic);
    let stop = BufferPositions {
        mic_pos: 10_000,
        system_pos: 0,
    };
    let kind = LiveSourceKind::Session;
    let max = 10_000_000_000;
    let none = windows(None, &[]);
    let next = |w: &DictationMicSnapshot, from| {
        final_flush_until(kind, &src, w, from, stop, max).map(|r| (r.start, r.end))
    };
    assert_eq!(next(&none, 0), Some((0, 10_000)));
    assert_eq!(next(&none, 10_000), None);
    // It reads around what belongs to dictation.
    let between = windows(None, &[(4_000, 6_000)]);
    assert_eq!(next(&between, 0), Some((0, 4_000)));
    assert_eq!(next(&between, 4_000), Some((6_000, 10_000)));
    assert_eq!(next(&windows(Some(4_000), &[]), 4_000), None);
    let step = final_flush_step(0, Some(range(0, 9_600)));
    assert!(step.keep);
    assert_eq!(step.next, Some(9_600));
    assert_eq!(final_flush_step(0, None).next, None);
    let chunk = take_final_chunk(&mut src, range(0, 9_600));
    assert_eq!(chunk.origin, JobOrigin::FinalFlush);
    assert_eq!(chunk.end_pos, 9_600);
    let open = windows(Some(4_000), &[]);
    assert!(skip_final_flush(kind, AudioSourceLabel::Mic, &open));
    assert!(!skip_final_flush(kind, AudioSourceLabel::System, &open));
    assert!(!skip_final_flush(kind, AudioSourceLabel::Mic, &between));
}

// --- Runtimes ---

#[test]
fn one_runtime_of_a_kind() {
    let mut slots: LiveTranscriptionSlots<u32> = LiveTranscriptionSlots::new();
    assert!(slots.may_start(LiveSourceKind::Session).is_ok());
    assert_eq!(
        slots
            .request_stop(LiveSourceKind::Session)
            .unwrap_err()
            .to_string(),
        "invalid input: live transcription (session) is not running"
    );
    slots.started(LiveSourceKind::Session, 7);
    assert!(slots.may_start(LiveSourceKind::Session).is_err());
    assert!(slots.may_start(LiveSourceKind::Dictation).is_ok());
    assert!(slots.may_shut_down_engine().is_err());
    assert_eq!(
        slots.request_stop(LiveSourceKind::Session).unwrap(),
        StopStep::Requested
    );
    assert_eq!(
        slots.request_stop(LiveSourceKind::Session).unwrap(),
        StopStep::AlreadyStopping
    );
    assert_eq!(slots.slot(LiveSourceKind::Session).runtime(), Some(&7));
    assert!(slots.may_start(LiveSourceKind::Session).is_err());
    slots.finished(LiveSourceKind::Session);
    assert!(!slots.any_active());
    *slots.slot_mut(LiveSourceKind::Dictation) = RuntimeSlot::Starting;
    assert!(slots
        .request_stop(LiveSourceKind::Dictation)
        .unwrap_err()
        .to_string()
        .contains("still starting"));
}

#[test]
fn the_engine_is_initialized_once() {
    let whisper = EngineConfig {
        kind: EngineKind::Whisper,
        whisper_model: Some(ModelSize::Base),
        parakeet_variant: None,
        diarization: false,
    };
    let parakeet = EngineConfig {
        kind: EngineKind::Parakeet,
        whisper_model: None,
        parakeet_variant: Some(ParakeetVariant::TdtV3),
        diarization: true,
    };
    assert_eq!(decide_init(None, whisper), InitDecision::Build);
    assert_eq!(
        decide_init(Some(whisper), whisper),
        InitDecision::AlreadyThere
    );
    assert_eq!(decide_init(Some(parakeet), whisper), InitDecision::Conflict);
    // Of two requests that were both told to build, the faster one stays.
    let mut current = None;
    assert_eq!(place_engine(&mut current, whisper), InitDecision::Build);
    assert_eq!(place_engine(&mut current, parakeet), InitDecision::Conflict);
    assert_eq!(current, Some(whisper));
    assert_eq!(place_engine(&mut current, whisper), InitDecision::AlreadyThere);
    assert!(init_reply(InitDecision::AlreadyThere).is_ok());
    assert!(init_reply(InitDecision::Conflict)
        .unwrap_err()
        .to_string()
        .contains("different config"));
    assert_eq!(
        required_model(&whisper).unwrap(),
        ModelChoice::Whisper(ModelSize::Base)
    );
    assert_eq!(
        required_model(&EngineConfig {
            whisper_model: None,
            ..whisper
        })
        .unwrap_err()
        .to_string(),
        "not found: whisper_model required when engine=Whisper"
    );
    assert_eq!(
        check_downloaded(ModelChoice::Parakeet(ParakeetVariant::TdtV3Int8), false)
            .unwrap_err()
            .to_string(),
        "not found: parakeet variant TdtV3Int8 not downloaded"
    );
    assert!(engine_extras(&parakeet).sortformer);
    assert!(engine_extras(&whisper).vad_model);
}

#[test]
fn dictation_owns_spans_of_the_microphone() {
    let mut owns = DictationOwnsMic::new();
    owns.open(100);
    assert!(owns.snapshot().overlaps(150, 160));
    assert!(!owns.snapshot().overlaps(50, 100));
    owns.close(200);
    let snap = owns.snapshot();
    assert!(snap.overlaps(199, 300));
    assert!(!snap.overlaps(200, 300));
    assert_eq!(snap.iter_all().len(), 1);
    owns.prune_before(200);
    assert!(owns.snapshot().iter_all().is_empty());
    owns.open(300);
    owns.clear_open();
    assert!(!owns.snapshot().overlaps(0, 1_000));
}

#[test]
fn an_end_puts_what_is_pending_into_safety_first() {
    assert_eq!(
        plan_end(LoopExit::Stopped, true, true),
        vec![
            EndStage::AwaitTail,
            EndStage::CopyPending,
            EndStage::RecordToStop,
            EndStage::DrainChunks,
            EndStage::SendCopied,
            EndStage::ClearBusy,
            EndStage::CloseRecording,
            EndStage::AwaitHistory,
            EndStage::ReportStopped,
        ]
    );
    assert_eq!(
        plan_end(LoopExit::CaptureLost, true, false),
        vec![
            EndStage::DrainChunks,
            EndStage::SendPending,
            EndStage::RecordRest,
            EndStage::ClearBusy,
            EndStage::CloseRecording,
            EndStage::ReportStopped,
        ]
    );
    assert_eq!(
        plan_end(LoopExit::EngineDead, false, false),
        vec![
            EndStage::DrainChunks,
            EndStage::SendPending,
            EndStage::ClearBusy,
        ]
    );
    assert_eq!(
        plan_end(LoopExit::Stopped, false, false),
        vec![
            EndStage::AwaitTail,
            EndStage::CopyPending,
            EndStage::DrainChunks,
            EndStage::SendCopied,
            EndStage::ClearBusy,
            EndStage::ReportStopped,
        ]
    );
}

#[test]
fn a_last_chunk_gives_its_stream_back() {
    let outcome = |dead: bool| ChunkTaskOutcome {
        source_label: AudioSourceLabel::Mic,
        accumulated_text: "so far".to_string(),
        sidecar_dead: dead,
    };
    let mut stream = source(AudioSourceLabel::Mic);
    stream.has_in_flight_task = true;
    stream.force_drain = true;
    assert!(pending_chunk_done(&mut stream, Some(outcome(false))));
    assert!(!stream.has_in_flight_task);
    assert!(stream.force_drain);
    assert_eq!(stream.accumulated_text, "so far");

    assert!(!pending_chunk_done(&mut stream, Some(outcome(true))));
    stream.has_in_flight_task = true;
    assert!(!pending_chunk_done(&mut stream, None));
    assert!(stream.has_in_flight_task);

    stream.force_drain = false;
    assert!(!pending_chunk_done(&mut stream, Some(outcome(false))));

    stream.force_drain = true;
    assert!(final_chunk_done(&mut stream, outcome(false)));
    assert!(!stream.force_drain);
    assert!(!final_chunk_done(&mut stream, outcome(true)));
}

#[test]
fn only_a_session_announces_the_end_of_its_history() {
    assert!(announces_backfill_complete(LiveSourceKind::Session));
    assert!(!announces_backfill_complete(LiveSourceKind::Dictation));
}

#[test]
fn the_last_write_moves_on_whether_or_not_it_succeeds() {
    let mut wav = SessionWavState {
        flush_positions: BufferPositions {
            mic_pos: 0,
            system_pos: 0,
        },
        source: CaptureSource::Mixed,
        session_id: "a".to_string(),
        part_index: 0,
        flush_count: 7,
        wav_sample_rate: 48000,
        persist_audio_part: true,
    };
    let at = |mic_pos: usize| BufferPositions {
        mic_pos,
        system_pos: 5,
    };
    assert!(wav.flush_session_wav_to_limit(10, WavWriteOutcome::Wrote, at(10)));
    assert_eq!(wav.flush_positions, at(10));
    assert!(!wav.flush_session_wav_to_limit(10, WavWriteOutcome::ResampleFailed, at(20)));
    assert_eq!(wav.flush_positions, at(20));
    assert!(!wav.flush_session_wav_to_limit(0, WavWriteOutcome::Wrote, at(30)));
    assert_eq!(wav.flush_positions, at(30));
    assert_eq!(wav.flush_count, 7);
}

#[test]
fn a_pass_follows_the_microphone_and_its_streams() {
    let batch = |p: f32| {
        vec![SourceProbabilities {
            label: AudioSourceLabel::Mic,
            probs: vec![s(p)],
        }]
    };
    let mut sources = vec![
        source(AudioSourceLabel::Mic),
        source(AudioSourceLabel::System),
    ];
    sources[0].is_speaking = true;
    sources[0].speech_start_pos = 100;

    // Dictation takes the microphone: what was said before is sent, nothing after.
    let kind = LiveSourceKind::Session;
    let taken = windows(Some(500), &[]);
    let plans = plan_pass(&mut sources, &batch(0.9), kind, &tuning(), &taken, SECOND);
    assert_eq!(
        plans[0],
        StreamPlan {
            edge: MicEdge::Taken { flush: true },
            step: DispatchStep::Suspended,
            origin: JobOrigin::Live,
        }
    );
    assert!(sources[0].dictation_was_active);
    assert_eq!(plans[1].edge, MicEdge::Steady);
    assert_eq!(plans[1].step, DispatchStep::AdvanceIdle);

    // While it has it, nothing happens.
    let plans = plan_pass(&mut sources, &batch(0.9), kind, &tuning(), &taken, SECOND);
    assert_eq!(plans[0].edge, MicEdge::Steady);
    assert_eq!(plans[0].step, DispatchStep::Suspended);

    // Given back, the stream goes on where the window ends, and is silent.
    let past = windows(None, &[(500, 900)]);
    let plans = plan_pass(&mut sources, &batch(0.9), kind, &tuning(), &past, SECOND);
    assert_eq!(
        plans[0].edge,
        MicEdge::GivenBack {
            flush: false,
            to: 900
        }
    );
    assert_eq!(plans[0].step, DispatchStep::Keep);
    sources[0].release_from_dictation(900);
    assert!(!sources[0].dictation_was_active);
    let plans = plan_pass(&mut sources, &batch(0.1), kind, &tuning(), &past, SECOND);
    assert_eq!(plans[0].edge, MicEdge::Steady);
    assert_eq!(plans[0].step, DispatchStep::AdvanceIdle);

    // A dictation's own microphone is never gated.
    let mut own = vec![source(AudioSourceLabel::Mic)];
    own[0].force_drain = true;
    let plans = plan_pass(
        &mut own,
        &batch(0.1),
        LiveSourceKind::Dictation,
        &tuning(),
        &taken,
        SECOND,
    );
    assert_eq!(
        plans[0],
        StreamPlan {
            edge: MicEdge::Steady,
            step: DispatchStep::Dispatch { force: true },
            origin: JobOrigin::Dictation,
        }
    );
}

#[test]
fn chunks_of_a_stream_never_overlap() {
    let mut stream = source(AudioSourceLabel::Mic);
    stream.is_speaking = true;
    let mut sent: Vec<(usize, usize)> = Vec::new();
    for current_pos in [60_000usize, 120_000, 130_000, 400_000] {
        let until = dispatch_until(
            LiveSourceKind::Session,
            &stream,
            &windows(None, &[]),
            current_pos,
            1_000_000_000,
        );
        let read = SourceAudioRange {
            samples: until - stream.speech_start_pos,
            sample_rate: 48000,
            start_pos: stream.speech_start_pos,
            end_pos: until,
            overrun: false,
        };
        if let Some(c) = prepare_chunk_dispatch(
            &mut stream,
            Some(read),
            until,
            current_pos,
            true,
            JobOrigin::Live,
            SECOND,
        ) {
            sent.push((c.start_pos, c.end_pos));
            stream.has_in_flight_task = false;
        }
    }
    assert_eq!(
        sent,
        vec![(0, 48_000), (48_000, 96_000), (96_000, 130_000), (130_000, 178_000)]
    );
}

#[test]
fn a_restarted_stream_is_announced() {
    let event = restarted_event(
        AudioSourceLabel::Mic,
        RestartReason::DeviceChange.as_str(),
        Some("Headset".to_string()),
    );
    assert_eq!(event.source, AudioSourceLabel::Mic);
    assert_eq!(event.status, "restarted");
    assert_eq!(event.message, "Microphone stream restarted (device-change)");
    assert_eq!(event.bound_device_name.as_deref(), Some("Headset"));
}

#[test]
fn a_busy_runtime_keeps_history_waiting() {
    let mut scheduler: TranscriptionScheduler<u8> =
        TranscriptionScheduler::new(EngineKind::Whisper);
    assert!(set_runtime_busy(&mut scheduler, LiveSourceKind::Session, true));
    assert!(!set_runtime_busy(&mut scheduler, LiveSourceKind::Dictation, true));
    let request = JobRequest {
        origin: JobOrigin::Backfill,
        source: JobSource::Mic,
        wav_path: "a.wav".to_string(),
        language: None,
        initial_prompt: None,
        diarization: false,
    };
    assert!(scheduler.submit(request, 1).is_ok());
    assert!(matches!(scheduler.worker_step(), WorkerStep::Wait));
    assert!(!set_runtime_busy(&mut scheduler, LiveSourceKind::Session, false));
    assert!(matches!(scheduler.worker_step(), WorkerStep::Wait));
    assert!(set_runtime_busy(&mut scheduler, LiveSourceKind::Dictation, false));
    assert!(matches!(scheduler.worker_step(), WorkerStep::Run(_)));
}

#[test]
fn a_stream_has_something_pending_behind_its_start() {
    let mut stream = source(AudioSourceLabel::Mic);
    stream.speech_start_pos = 100;
    let kind = LiveSourceKind::Session;
    let none = windows(None, &[]);
    assert!(!has_final_pending(&mut stream, kind, &none, 100));
    assert!(has_final_pending(&mut stream, kind, &none, 101));
    stream.has_in_flight_task = true;
    assert!(!has_final_pending(&mut stream, kind, &none, 101));
    stream.has_in_flight_task = false;
    // What belongs to dictation is passed over first.
    let past = windows(None, &[(100, 300)]);
    assert!(!has_final_pending(&mut stream, kind, &past, 300));
    assert_eq!(stream.speech_start_pos, 300);
    assert!(has_final_pending(&mut stream, kind, &past, 301));
    assert!(!has_final_pending(&mut stream, kind, &windows(Some(300), &[]), 900));
    assert_eq!(stream.speech_start_pos, 300);
}

#[test]
fn only_sessions_take_part_in_restart_routing() {
    assert!(joins_restart_routing(LiveSourceKind::Session));
    assert!(!joins_restart_routing(LiveSourceKind::Dictation));
}

#[test]
fn counters_follow_the_chunks() {
    let mut counters = SessionCounters::new();
    counters.record_success(s(2.0), 500, s(12.0));
    counters.record_success(s(3.5), 700, s(9.0));
    assert_eq!(counters.total_chunks, 2);
    assert_eq!(counters.total_audio_seconds, s(3.5));
    assert_eq!(counters.total_wall_ms, 1200);
    assert_eq!(counters.latest_completed_audio_offset_seconds, Some(s(12.0)));
}

#[test]
fn a_write_is_counted_where_it_was_made() {
    let mut wav = SessionWavState {
        flush_positions: BufferPositions {
            mic_pos: 0,
            system_pos: 0,
        },
        source: CaptureSource::MicOnly,
        session_id: "a".to_string(),
        part_index: 0,
        flush_count: 0,
        wav_sample_rate: 48000,
        persist_audio_part: true,
    };
    assert!(!wav.needs_resample(48000));
    assert!(wav.needs_resample(44100));
    let next = BufferPositions {
        mic_pos: 480,
        system_pos: 0,
    };
    wav.write_session_wav_samples(WavWriteOutcome::Wrote, next);
    assert_eq!(wav.flush_count, 1);
    let last = BufferPositions {
        mic_pos: 960,
        system_pos: 0,
    };
    wav.write_session_wav_samples(WavWriteOutcome::ResampleFailed, last);
    assert_eq!(wav.flush_count, 1);
    assert_eq!(wav.flush_positions, last);
}

#[test]
fn messages_about_a_recording() {
    assert_eq!(
        empty_flush_message(EmptyFlushClassification::WindowsSilence),
        "No system audio detected \u{2014} recording will resume when audio plays"
    );
    assert_eq!(
        empty_flush_message(EmptyFlushClassification::Error),
        "No audio data available for recording \u{2014} audio may not be saved"
    );
    assert_eq!(
        empty_recording_message(),
        "No audio was recorded \u{2014} WAV file not saved"
    );
}

#[test]
fn a_silent_stream_moves_up() {
    let mut stream = source(AudioSourceLabel::System);
    stream.advance_idle_cursor(4800);
    assert_eq!(stream.cursor, 4800);
    assert_eq!(stream.speech_start_pos, 4800);
    assert_eq!(stream.earliest_next_chunk_pos, 0);
}

#[test]
fn defaults_of_a_request() {
    assert_eq!(default_source_kind(), LiveSourceKind::Session);
    assert!(default_persist_audio_part());
    assert!(AudioExportFormatDto::Mp3.is_mp3());
    assert!(!AudioExportFormatDto::Wav.is_mp3());
}

// --- A session beside dictation ---

fn windows(open: Option<u64>, closed: &[(u64, u64)]) -> DictationMicSnapshot {
    let mut mic = DictationOwnsMic::new();
    for (start, end) in closed {
        mic.open(*start);
        mic.close(*end);
    }
    if let Some(start) = open {
        mic.open(start);
    }
    mic.snapshot()
}

fn pairs(ranges: Vec<MicWindow>) -> Vec<(u64, u64)> {
    ranges.iter().map(|w| (w.start, w.end)).collect()
}

#[test]
fn ranges_of_the_microphone_by_their_owner() {
    let w = windows(Some(900), &[(100, 200), (200, 250), (400, 500)]);
    assert_eq!(
        pairs(w.free_ranges(0, 1_000)),
        vec![(0, 100), (250, 400), (500, 900)]
    );
    assert_eq!(
        pairs(w.held_ranges(150, 950)),
        vec![(150, 250), (400, 500), (900, 950)]
    );
    assert_eq!(pairs(w.free_ranges(120, 240)), vec![]);
    assert_eq!(pairs(w.free_ranges(240, 240)), vec![]);
    assert_eq!(w.first_held(0), Some(100));
    assert_eq!(w.first_held(250), Some(400));
    assert_eq!(w.first_free(100), Some(250));
    assert_eq!(w.first_free(950), None);
    assert_eq!(windows(None, &[]).first_held(0), None);
}

#[test]
fn samples_that_hold_dictation_are_silenced() {
    // Two channels from position 10 on: sample k takes 10 + 2k and 11 + 2k.
    let w = windows(None, &[(13, 16), (20, 21)]);
    let muted: Vec<(usize, usize)> = w
        .muted_samples(10, 2, 8)
        .iter()
        .map(|r| (r.start, r.end))
        .collect();
    assert_eq!(muted, vec![(1, 3), (5, 6)]);
    let history = |kind, label| muted_history(kind, label, &w, 10, 2, 8).len();
    assert_eq!(history(LiveSourceKind::Session, AudioSourceLabel::Mic), 2);
    assert_eq!(history(LiveSourceKind::Session, AudioSourceLabel::System), 0);
    assert_eq!(history(LiveSourceKind::Dictation, AudioSourceLabel::Mic), 0);
}

#[test]
fn a_chunk_ends_where_dictation_begins() {
    let mut stream = source(AudioSourceLabel::Mic);
    stream.speech_start_pos = 1_000;
    let w = windows(None, &[(200, 300), (5_000, 9_000)]);
    let until = |kind, to| usable_until(kind, &stream, &w, to);
    assert_eq!(until(LiveSourceKind::Session, 20_000), 5_000);
    assert_eq!(until(LiveSourceKind::Session, 4_000), 4_000);
    assert_eq!(until(LiveSourceKind::Dictation, 20_000), 20_000);
}

#[test]
fn a_recording_is_silent_where_dictation_has_the_microphone() {
    let mut state = SessionWavState {
        flush_positions: BufferPositions {
            mic_pos: 1_000,
            system_pos: 0,
        },
        source: CaptureSource::Mixed,
        session_id: "s".to_string(),
        part_index: 0,
        flush_count: 0,
        wav_sample_rate: 48_000,
        persist_audio_part: true,
    };
    let w = windows(Some(4_000), &[(900, 1_100), (2_000, 3_000)]);
    let session = LiveSourceKind::Session;
    assert_eq!(
        pairs(state.muted_ranges(session, &w, 5_000)),
        vec![(1_000, 1_100), (2_000, 3_000), (4_000, 5_000)]
    );
    assert!(state
        .muted_ranges(LiveSourceKind::Dictation, &w, 5_000)
        .is_empty());
    state.source = CaptureSource::SystemOnly;
    assert!(state.muted_ranges(session, &w, 5_000).is_empty());
}

#[test]
fn windows_are_dropped_behind_every_reader() {
    let mut mic = source(AudioSourceLabel::Mic);
    mic.cursor = 900;
    mic.earliest_next_chunk_pos = 700;
    mic.speech_start_pos = 800;
    let mut state = SessionWavState {
        flush_positions: BufferPositions {
            mic_pos: 600,
            system_pos: 0,
        },
        source: CaptureSource::MicOnly,
        session_id: "s".to_string(),
        part_index: 0,
        flush_count: 0,
        wav_sample_rate: 48_000,
        persist_audio_part: true,
    };
    let sources = vec![source(AudioSourceLabel::System), mic];
    let session = LiveSourceKind::Session;
    assert_eq!(prune_point(session, &sources, Some(&state)), 600);
    assert_eq!(prune_point(session, &sources, None), 700);
    state.source = CaptureSource::SystemOnly;
    assert_eq!(prune_point(session, &sources, Some(&state)), 700);
    assert_eq!(prune_point(session, &vec![], None), u64::MAX);
    assert_eq!(prune_point(LiveSourceKind::Dictation, &sources, None), 0);
}

#[test]
fn a_new_buffer_keeps_who_has_the_microphone() {
    let mut mic = DictationOwnsMic::new();
    mic.open(100);
    mic.close(200);
    mic.open(5_000);
    mic.buffer_replaced();
    // The dictation goes on: all that the new buffer holds so far is its own.
    assert_eq!(pairs(mic.snapshot().held_ranges(0, 1_000)), vec![(0, 1_000)]);
    mic.close(300);
    assert_eq!(pairs(mic.snapshot().held_ranges(0, 1_000)), vec![(0, 300)]);
    mic.buffer_replaced();
    assert_eq!(pairs(mic.snapshot().free_ranges(0, 1_000)), vec![(0, 1_000)]);
}

#[test]
fn nothing_of_a_dictation_enters_a_session() {
    // Dictation has the microphone from 50_000 to 80_000 and from 200_000 to 230_000, both
    // between two looks, and from 400_000 on, where the session ends.
    let dictated = |p: usize| {
        (50_000..80_000).contains(&p) || (200_000..230_000).contains(&p) || p >= 400_000
    };
    let kind = LiveSourceKind::Session;
    let mut owns = DictationOwnsMic::new();
    let mut sources = vec![source(AudioSourceLabel::Mic)];
    sources[0].is_speaking = true;
    let mut state = SessionWavState {
        flush_positions: BufferPositions {
            mic_pos: 0,
            system_pos: 0,
        },
        source: CaptureSource::MicOnly,
        session_id: "s".to_string(),
        part_index: 0,
        flush_count: 0,
        wav_sample_rate: 48_000,
        persist_audio_part: true,
    };
    let mut sent: Vec<(usize, usize)> = Vec::new();
    let mut kept: Vec<(usize, usize)> = Vec::new();
    for step in 1..10usize {
        let recorded = step * 48_000;
        for (start, end) in [(50_000usize, 80_000usize), (200_000, 230_000)] {
            if recorded >= end && recorded - 48_000 < end {
                owns.open(start as u64);
                owns.close(end as u64);
            }
        }
        if recorded >= 400_000 && recorded - 48_000 < 400_000 {
            owns.open(400_000);
        }
        let windows = owns.snapshot();
        // The file.
        let from = state.flush_positions.mic_pos;
        let mut at = from;
        for m in state.muted_ranges(kind, &windows, recorded) {
            kept.push((at, m.start as usize));
            at = m.end as usize;
        }
        kept.push((at, recorded));
        state.flush_positions.mic_pos = recorded;
        // The transcript.
        let batch = vec![SourceProbabilities {
            label: AudioSourceLabel::Mic,
            probs: vec![s(0.9)],
        }];
        let now = step as u64 * SECOND;
        let plans = plan_pass(&mut sources, &batch, kind, &tuning(), &windows, now);
        let flush = matches!(
            plans[0].edge,
            MicEdge::Taken { flush: true } | MicEdge::GivenBack { flush: true, .. }
        );
        let cut = flush || matches!(plans[0].step, DispatchStep::Dispatch { .. });
        if cut || sources[0].is_speaking && plans[0].edge == MicEdge::Steady && step == 7 {
            let until = dispatch_until(kind, &sources[0], &windows, recorded, 60 * SECOND as u128);
            let start = sources[0].speech_start_pos;
            let usable = usable_until(kind, &sources[0], &windows, recorded);
            let read = range(start, until);
            if let Some(c) = prepare_chunk_dispatch(
                &mut sources[0],
                Some(read),
                until,
                usable,
                true,
                plans[0].origin,
                now,
            ) {
                sent.push((c.start_pos, c.end_pos));
                sources[0].has_in_flight_task = false;
            }
        }
        if let MicEdge::GivenBack { to, .. } = plans[0].edge {
            sources[0].release_from_dictation(to);
        }
        owns.prune_before(prune_point(kind, &sources, Some(&state)));
    }
    assert!(sent.contains(&(0, 50_000)));
    for (start, end) in sent.iter().chain(&kept) {
        for p in (*start..*end).step_by(500) {
            assert!(!dictated(p), "{p} belongs to dictation");
        }
        if end > start {
            assert!(!dictated(end - 1));
        }
    }
    let recorded: usize = kept.iter().map(|(a, b)| b - a).sum();
    assert_eq!(recorded, 400_000 - 60_000);
    // Both closed windows were dropped once they were passed.
    assert_eq!(pairs(owns.snapshot().iter_all()), vec![(400_000, u64::MAX)]);
}
