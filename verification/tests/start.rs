use yapstack::dispatch::{BufferFormat, BufferPositions};
use yapstack::labels::{
    AudioSourceLabel, LiveSourceKind, LiveTranscriptionConfig, ResumeConfig,
};
use yapstack::mic::DictationOwnsMic;
use yapstack::model::{CaptureSource, CaptureSourceDto, MixConfigDto};
use yapstack::platform::TargetOs;
use yapstack::single::Single;
use yapstack::slots::{LiveTranscriptionSlots, RuntimeSlot};
use yapstack::start::{
    accept_start, available_backfill, begin_positions, bitrate_to_check, check_dictation,
    check_numbers, effective_backfill,
    initial_sources, number_live_chunks, part_index, recording_mix, recording_start,
    rewind_position, session_offset_base, settle_resume, variant_of,
};

fn s(x: f32) -> Single {
    Single { bits: x.to_bits() }
}

fn config() -> LiveTranscriptionConfig {
    LiveTranscriptionConfig {
        silence_duration_ms: 800,
        max_chunk_seconds: s(30.0),
        backfill_seconds: s(0.0),
        source: CaptureSourceDto::MicOnly,
        mix_config: None,
        language: None,
        prompt_context_chars: None,
        prompt_decay_silence_seconds: None,
        session_id: None,
        persist_audio_part: true,
        audio_save_location: None,
        audio_export_format: None,
        mp3_bitrate: None,
        diarization: false,
        vocabulary_hints: None,
        resume: None,
        source_kind: LiveSourceKind::Session,
    }
}

fn format(sample_rate: u32, channels: u16) -> Option<BufferFormat> {
    Some(BufferFormat {
        sample_rate,
        channels,
    })
}

#[test]
fn a_dictation_is_a_plain_microphone_run() {
    let mut c = config();
    c.source_kind = LiveSourceKind::Dictation;
    let fault = |c: &LiveTranscriptionConfig| check_dictation(c).unwrap_err().to_string();
    assert_eq!(
        fault(&c),
        "invalid input: dictation requires persist_audio_part=false"
    );
    c.persist_audio_part = false;
    assert!(check_dictation(&c).is_ok());
    c.backfill_seconds = s(1.0);
    assert_eq!(
        fault(&c),
        "invalid input: dictation requires backfill_seconds=0"
    );
    c.source = CaptureSourceDto::Mixed;
    assert_eq!(
        fault(&c),
        "invalid input: dictation requires source=MicOnly"
    );
}

#[test]
fn numbers_of_a_request_are_checked() {
    assert!(check_numbers(&config()).is_ok());
    let fault = |c: &LiveTranscriptionConfig| check_numbers(c).unwrap_err().to_string();
    let mut c = config();
    c.silence_duration_ms = 0;
    assert_eq!(
        fault(&c),
        "invalid input: silence_duration_ms must be > 0"
    );
    let mut c = config();
    c.max_chunk_seconds = s(f32::NAN);
    assert_eq!(
        fault(&c),
        "invalid input: max_chunk_seconds must be finite and > 0"
    );
    let mut c = config();
    c.backfill_seconds = s(-1.0);
    assert_eq!(
        fault(&c),
        "invalid input: backfill_seconds must be finite and >= 0"
    );
    let mut c = config();
    c.prompt_decay_silence_seconds = Some(s(f32::INFINITY));
    assert_eq!(
        fault(&c),
        "invalid input: prompt_decay_silence_seconds must be finite and >= 0"
    );
}

#[test]
fn a_resumed_run_has_no_history() {
    let mut c = config();
    c.backfill_seconds = s(30.0);
    settle_resume(&mut c);
    assert_eq!(c.backfill_seconds, s(30.0));
    assert_eq!(part_index(&c), 0);
    assert_eq!(session_offset_base(&c), s(0.0));
    c.resume = Some(ResumeConfig {
        part_index: 3,
        offset_base_seconds: s(90.0),
    });
    settle_resume(&mut c);
    assert_eq!(c.backfill_seconds, s(0.0));
    assert_eq!(part_index(&c), 3);
    assert_eq!(session_offset_base(&c), s(90.0));
}

#[test]
fn history_is_limited_by_what_is_there() {
    assert_eq!(effective_backfill(s(0.0), s(100.0)), s(0.0));
    assert_eq!(effective_backfill(s(30.0), s(100.0)), s(30.0));
    assert_eq!(effective_backfill(s(30.0), s(10.0)), s(10.0));
    assert_eq!(
        available_backfill(CaptureSource::MicOnly, Some(s(5.0)), Some(s(9.0))),
        s(5.0)
    );
    assert_eq!(
        available_backfill(CaptureSource::SystemOnly, Some(s(5.0)), Some(s(9.0))),
        s(9.0)
    );
}

#[test]
fn streams_start_where_the_history_begins() {
    assert_eq!(rewind_position(100_000, s(1.0), format(48_000, 2)), 4_000);
    assert_eq!(rewind_position(10, s(1.0), format(48_000, 2)), 0);
    let positions = BufferPositions {
        mic_pos: 100_000,
        system_pos: 200_000,
    };
    let start = recording_start(positions, s(1.0), format(48_000, 1), format(48_000, 2));
    assert_eq!(start.mic_pos, 52_000);
    assert_eq!(start.system_pos, 104_000);
    let mut sources = initial_sources(
        CaptureSource::Mixed,
        s(1.0),
        positions,
        format(48_000, 1),
        format(48_000, 2),
        0,
    );
    assert_eq!(sources.len(), 2);
    assert_eq!(sources[0].label, AudioSourceLabel::Mic);
    assert_eq!(sources[0].cursor, 52_000);
    assert_eq!(sources[1].cursor, 104_000);
    number_live_chunks(&mut sources);
    assert_eq!(sources[0].chunk_index, 10_000);
    assert_eq!(
        initial_sources(
            CaptureSource::Mixed,
            s(0.0),
            positions,
            format(48_000, 1),
            None,
            0
        )
        .len(),
        1
    );
}

#[test]
fn odds_and_ends_of_a_start() {
    let mut c = config();
    c.mp3_bitrate = Some(96);
    assert_eq!(bitrate_to_check(&c), Some(96));
    assert!(recording_mix(&c).is_none());
    c.mix_config = Some(MixConfigDto {
        mic_gain: s(0.5),
        system_gain: s(2.0),
        normalize: true,
    });
    let mix = recording_mix(&c).unwrap();
    assert_eq!(mix.mic_gain, s(0.5));
    assert!(!mix.normalize);
    assert_eq!(
        variant_of(Some("/models/parakeet-tdt-v3-int8"), TargetOs::Linux).as_deref(),
        Some("parakeet-tdt-v3-int8")
    );
    assert_eq!(variant_of(None, TargetOs::Linux), None);
}

#[test]
fn a_start_is_refused_or_takes_the_microphone() {
    let mut slots: LiveTranscriptionSlots<u8> = LiveTranscriptionSlots::new();
    let mut mic = DictationOwnsMic::new();
    mic.open(100);
    mic.close(200);

    // A dictation that runs beside a session takes the microphone and keeps the windows.
    let mut dictation = config();
    dictation.source_kind = LiveSourceKind::Dictation;
    dictation.persist_audio_part = false;
    assert_eq!(
        accept_start(&slots, &mut mic, 300, &dictation).ok(),
        Some(Some(300))
    );
    assert!(mic.snapshot().overlaps(5000, 5001));
    assert!(mic.snapshot().overlaps(150, 160));
    assert!(!mic.snapshot().overlaps(200, 300));

    // One whose numbers refuse it gives the microphone back and leaves no window.
    dictation.silence_duration_ms = 0;
    assert_eq!(
        accept_start(&slots, &mut mic, 400, &dictation)
            .unwrap_err()
            .to_string(),
        "invalid input: silence_duration_ms must be > 0"
    );
    assert!(!mic.snapshot().overlaps(300, 5000));
    assert!(mic.snapshot().overlaps(150, 160));

    // A second dictation changes nothing.
    slots.dictation = RuntimeSlot::Running(1);
    mic.open(600);
    assert_eq!(
        accept_start(&slots, &mut mic, 700, &dictation)
            .unwrap_err()
            .to_string(),
        "invalid input: live transcription (dictation) is already running or finalizing"
    );
    assert!(mic.snapshot().overlaps(650, 651));

    // A session leaves a live dictation's window alone, and forgets all without one.
    assert_eq!(
        accept_start(&slots, &mut mic, 700, &config()).ok(),
        Some(None)
    );
    assert!(mic.snapshot().overlaps(650, 651));
    slots.dictation = RuntimeSlot::Idle;
    assert!(accept_start(&slots, &mut mic, 700, &config()).is_ok());
    assert!(mic.snapshot().iter_all().is_empty());
}

#[test]
fn a_dictation_begins_where_it_took_the_microphone() {
    let now = BufferPositions {
        mic_pos: 5_000,
        system_pos: 700,
    };
    assert_eq!(
        begin_positions(now, Some(3_000)),
        BufferPositions {
            mic_pos: 3_000,
            system_pos: 700,
        }
    );
    assert_eq!(begin_positions(now, None), now);
    assert_eq!(begin_positions(now, Some(9_000)), now);
}
