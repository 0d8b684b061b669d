use yapstack::backfill::{
    backfill_chunks_from_probabilities, backfill_order, split_backfill_chunks,
    vad_chunk_historical_audio, BackfillJob, VadBackfillChunk,
};
use yapstack::labels::{AudioSourceLabel, LiveSourceKind, LiveTranscriptionConfig};
use yapstack::model::{CaptureSourceDto, EngineKind};
use yapstack::scheduler::JobOrigin;
use yapstack::single::Single;
use yapstack::vad::{
    note_probabilities, origin_of_chunk, poll_source, poll_vad, profile_for, SourceVadState,
    VadAction, VadTuning,
};

const SECOND: u64 = 1_000_000_000;
const MILLI: u128 = 1_000_000;

fn s(x: f32) -> Single {
    Single { bits: x.to_bits() }
}

fn value(x: Single) -> f32 {
    f32::from_bits(x.bits)
}

fn mic() -> SourceVadState {
    SourceVadState::new(AudioSourceLabel::Mic, 0, 0, 48000, 1, 0)
}

fn poll(state: &mut SourceVadState, probability: Option<f32>, now: u64) -> VadAction {
    let tuning = VadTuning {
        speech_threshold: s(0.5),
        offset_threshold: s(0.5),
        silence_duration: 800 * MILLI,
        max_chunk_duration: 30_000 * MILLI,
        poll_interval: 300 * MILLI,
        pre_roll: 0,
    };
    poll_vad(state, probability.map(s), &tuning, now)
}

fn dummy_config() -> LiveTranscriptionConfig {
    LiveTranscriptionConfig {
        silence_duration_ms: 800,
        max_chunk_seconds: s(30.0),
        backfill_seconds: s(0.0),
        source: CaptureSourceDto::MicOnly,
        mix_config: None,
        language: None,
        prompt_context_chars: None,
        prompt_decay_silence_seconds: None,
        session_id: None,
        persist_audio_part: true,
        audio_save_location: None,
        audio_export_format: None,
        mp3_bitrate: None,
        diarization: false,
        vocabulary_hints: None,
        resume: None,
        source_kind: LiveSourceKind::Session,
    }
}

#[test]
fn test_poll_vad_silence_returns_none() {
    let mut state = mic();
    let action = poll(&mut state, Some(0.10), 0);
    assert!(matches!(action, VadAction::Hold));
    assert!(!state.is_speaking);
}

#[test]
fn test_poll_vad_speech_onset() {
    let mut state = mic();
    let action = poll(&mut state, Some(0.90), 0);
    assert!(matches!(action, VadAction::Hold));
    assert!(state.is_speaking);
    assert!(state.speech_start_time.is_some());
}

#[test]
fn test_poll_vad_loud_clears_silence_timer() {
    let mut state = mic();
    state.is_speaking = true;
    state.speech_start_time = Some(SECOND);
    state.silence_since = Some(SECOND);
    let action = poll(&mut state, Some(0.90), SECOND);
    assert!(matches!(action, VadAction::Hold));
    assert!(state.silence_since.is_none());
}

#[test]
fn test_poll_vad_energy_at_exact_threshold() {
    let mut state = mic();
    let action = poll(&mut state, Some(0.50), 0);
    assert!(matches!(action, VadAction::Hold));
    assert!(state.is_speaking);
    assert!(state.speech_start_time.is_some());
}

#[test]
fn test_poll_vad_silence_begins() {
    let mut state = mic();
    state.is_speaking = true;
    state.speech_start_time = Some(SECOND);
    let action = poll(&mut state, Some(0.10), SECOND);
    assert!(matches!(action, VadAction::Hold));
    assert!(state.silence_since.is_some());
}

#[test]
fn test_poll_vad_silence_triggers_chunk() {
    let mut state = mic();
    let now = 100 * SECOND;
    state.is_speaking = true;
    state.speech_start_time = Some(now);
    state.silence_since = Some(now - 2 * SECOND);
    let action = poll(&mut state, Some(0.10), now);
    assert!(matches!(action, VadAction::Chunk));
}

#[test]
fn test_poll_vad_force_chunk_max_duration() {
    let mut state = mic();
    let now = 100 * SECOND;
    state.is_speaking = true;
    state.speech_start_time = Some(now - 31 * SECOND);
    let action = poll(&mut state, Some(0.90), now);
    assert!(matches!(action, VadAction::ForceChunk));
}

#[test]
fn test_poll_vad_none_energy() {
    let mut state = mic();
    let action = poll(&mut state, None, 0);
    assert!(matches!(action, VadAction::Hold));

    state.is_speaking = true;
    state.speech_start_time = Some(0);
    let action = poll(&mut state, None, 0);
    assert!(matches!(action, VadAction::Hold));
}

#[test]
fn poll_vad_takes_no_notice_of_what_is_not_a_number() {
    let mut state = mic();
    let action = poll(&mut state, Some(f32::NAN), 0);
    assert!(matches!(action, VadAction::Hold));
    assert!(!state.is_speaking);
}

#[test]
fn test_vad_tuning_whisper_honors_user_silence_duration() {
    let mut cfg = dummy_config();
    cfg.silence_duration_ms = 600;
    cfg.max_chunk_seconds = s(25.0);
    let t = profile_for(EngineKind::Whisper, &cfg).vad_tuning;
    assert_eq!(t.silence_duration, 600 * MILLI);
    assert_eq!(t.max_chunk_duration, 25_000 * MILLI);
    assert!((value(t.speech_threshold) - 0.5).abs() < 1e-6);
    assert!((value(t.offset_threshold) / value(t.speech_threshold) - 0.7).abs() < 1e-6);
    assert_eq!(t.pre_roll, 0);
}

#[test]
fn test_vad_tuning_parakeet_ignores_user_knobs() {
    let cfg = dummy_config();
    let t = profile_for(EngineKind::Parakeet, &cfg).vad_tuning;
    assert_eq!(t.silence_duration, 500 * MILLI);
    assert_eq!(t.max_chunk_duration, 10_000 * MILLI);
    assert_eq!(t.poll_interval, 100 * MILLI);
    assert_eq!(t.pre_roll, 250 * MILLI);
    assert!((value(t.speech_threshold) - 0.5).abs() < 1e-6);
    assert!((value(t.offset_threshold) / value(t.speech_threshold) - 0.7).abs() < 1e-6);
}

#[test]
fn the_offset_threshold_is_the_onset_threshold_times_the_ratio() {
    let cfg = dummy_config();
    let t = profile_for(EngineKind::Parakeet, &cfg).vad_tuning;
    assert_eq!(value(t.offset_threshold), 0.5f32 * (0.35f32 / 0.5f32));
}

#[test]
fn poll_vad_enters_speaking_within_a_single_poll_batch() {
    let cfg = dummy_config();
    let tuning = profile_for(EngineKind::Parakeet, &cfg).vad_tuning;
    let mut state = mic();
    let probs = [0.10f32, 0.90, 0.10];
    for &p in &probs {
        let _ = poll_vad(&mut state, Some(s(p)), &tuning, SECOND);
    }
    assert!(
        state.is_speaking,
        "state should have transitioned to speaking during the batch"
    );
    assert!(state.speech_start_time.is_some());
    assert!(state.silence_since.is_some());
}

#[test]
fn a_batch_is_polled_frame_by_frame() {
    let cfg = dummy_config();
    let tuning = profile_for(EngineKind::Parakeet, &cfg).vad_tuning;
    let mut state = mic();
    let action = poll_source(&mut state, &[s(0.1), s(0.9), s(0.1)], &tuning, SECOND);
    assert!(matches!(action, VadAction::Hold));
    assert!(state.is_speaking);

    // The last probability of a batch counts for an empty batch.
    note_probabilities(&mut state, 4_800, &[s(0.9)]);
    assert_eq!(state.silero.read_pos, 4_800);
    assert_eq!(state.silero.last_probability, Some(s(0.9)));
    let action = poll_source(&mut state, &[], &tuning, 12 * SECOND);
    assert!(matches!(action, VadAction::ForceChunk));
}

#[test]
fn hysteresis_keeps_speech_between_the_thresholds() {
    let cfg = dummy_config();
    let tuning = profile_for(EngineKind::Whisper, &cfg).vad_tuning;
    let mut state = mic();
    poll_vad(&mut state, Some(s(0.4)), &tuning, 0);
    assert!(!state.is_speaking);
    poll_vad(&mut state, Some(s(0.6)), &tuning, 0);
    assert!(state.is_speaking);
    poll_vad(&mut state, Some(s(0.4)), &tuning, SECOND);
    assert!(state.silence_since.is_none());
    poll_vad(&mut state, Some(s(0.3)), &tuning, 2 * SECOND);
    assert_eq!(state.silence_since, Some(2 * SECOND));
    assert!(matches!(
        poll_vad(&mut state, Some(s(0.3)), &tuning, 2 * SECOND + 799_999_999),
        VadAction::Hold
    ));
    assert!(matches!(
        poll_vad(&mut state, Some(s(0.3)), &tuning, 2 * SECOND + 800_000_000),
        VadAction::Chunk
    ));
}

#[test]
fn chunks_of_a_dictation_have_their_own_priority() {
    assert_eq!(
        origin_of_chunk(LiveSourceKind::Session, AudioSourceLabel::Mic),
        JobOrigin::Live
    );
    assert_eq!(
        origin_of_chunk(LiveSourceKind::Dictation, AudioSourceLabel::Mic),
        JobOrigin::Dictation
    );
}

#[test]
fn backfill_chunks_do_not_overlap_when_gap_shorter_than_pre_roll() {
    let cfg = dummy_config();
    let tuning = profile_for(EngineKind::Parakeet, &cfg).vad_tuning;
    let sr: u32 = 48_000;
    let frame_secs: f32 = 0.032;
    let frames_for = |ms: u64| -> usize {
        (((ms as f32 / 1000.0) / frame_secs).ceil() as usize).max(1)
    };
    let loud_frames = frames_for(1_000);
    let silence_frames = frames_for((tuning.silence_duration / MILLI) as u64);
    let gap_frames = silence_frames + 1;

    let mut probs: Vec<Single> = Vec::new();
    probs.extend(std::iter::repeat(s(0.90)).take(loud_frames));
    probs.extend(std::iter::repeat(s(0.10)).take(gap_frames));
    probs.extend(std::iter::repeat(s(0.90)).take(loud_frames));

    let frame_samples = (frame_secs * sr as f32) as usize;
    let total_samples = probs.len() * frame_samples;

    let chunks = backfill_chunks_from_probabilities(&probs, total_samples, sr, &tuning);
    assert!(
        chunks.len() >= 2,
        "expected at least 2 chunks for two loud regions, got {}: {:?}",
        chunks.len(),
        chunks
    );
    for w in chunks.windows(2) {
        assert!(
            w[1].start >= w[0].end,
            "chunks overlap: first ends at {}, next starts at {}",
            w[0].end,
            w[1].start
        );
    }
}

#[test]
fn split_backfill_chunks_bounds_each_scheduler_job() {
    let sr: u32 = 1_000;
    let chunks = split_backfill_chunks(
        vec![VadBackfillChunk {
            start: 0,
            end: 12_500,
        }],
        sr,
    );
    assert_eq!(
        chunks,
        vec![
            VadBackfillChunk {
                start: 0,
                end: 5_000,
            },
            VadBackfillChunk {
                start: 5_000,
                end: 10_000,
            },
            VadBackfillChunk {
                start: 10_000,
                end: 12_500,
            },
        ]
    );
    assert!(chunks
        .iter()
        .all(|chunk| { chunk.end - chunk.start <= (5.0f32 * sr as f32) as usize }));
}

#[test]
fn every_frame_of_speech_is_in_a_job() {
    let cfg = dummy_config();
    let tuning = profile_for(EngineKind::Parakeet, &cfg).vad_tuning;
    let sr: u32 = 16_000;
    let frame = 512usize;
    let mut probs: Vec<Single> = Vec::new();
    for i in 0..900usize {
        let loud = i % 97 < 11 || i > 400 && i < 800 || i > 890;
        probs.push(if loud { s(0.95) } else { s(0.05) });
    }
    // The history ends within its last frame.
    let total = probs.len() * frame - 100;
    let jobs = vad_chunk_historical_audio(total, sr, &tuning, Some(&probs));
    for (i, p) in probs.iter().enumerate() {
        if *p == s(0.95) {
            for at in [i * frame, ((i + 1) * frame).min(total) - 1] {
                assert!(jobs.iter().any(|c| c.start <= at && at < c.end), "sample {}", at);
            }
        }
    }
    assert_eq!(jobs.last().map(|c| c.end), Some(total));
}

#[test]
fn history_without_a_detector_is_one_run_of_pieces() {
    let cfg = dummy_config();
    let tuning = profile_for(EngineKind::Whisper, &cfg).vad_tuning;
    let chunks = vad_chunk_historical_audio(16_000 * 12, 16_000, &tuning, None);
    assert_eq!(chunks.first().map(|c| c.start), Some(0));
    assert_eq!(chunks.last().map(|c| c.end), Some(16_000 * 12));
    for w in chunks.windows(2) {
        assert_eq!(w[0].end, w[1].start);
    }
    assert!(vad_chunk_historical_audio(0, 16_000, &tuning, None).is_empty());
}

#[test]
fn the_jobs_of_a_history_alternate_between_streams() {
    let job = |source, chunk| BackfillJob { source, chunk };
    assert_eq!(
        backfill_order(&[3, 1]),
        vec![job(0, 0), job(1, 0), job(0, 1), job(0, 2)]
    );
    assert!(backfill_order(&[0, 0]).is_empty());
}

#[test]
fn silero_state_resets_to_current_position_after_backfill_extract() {
    let session_start: usize = 1_000;
    let current: usize = 50_000;
    let mut state = SourceVadState::new(
        AudioSourceLabel::Mic,
        session_start,
        session_start,
        48000,
        1,
        0,
    );
    assert_eq!(state.silero.read_pos, session_start);
    assert_eq!(state.speech_start_pos, session_start);
    assert_eq!(state.earliest_next_chunk_pos, session_start);

    state.skip_backfill(current);

    assert_eq!(
        state.silero.read_pos, current,
        "Silero read cursor must jump past the backfill window"
    );
    assert_eq!(state.cursor, current);
    assert_eq!(state.speech_start_pos, current);
    assert_eq!(state.earliest_next_chunk_pos, current);
    assert!(state.silero.last_probability.is_none());
}

#[test]
fn a_replaced_buffer_starts_over_but_keeps_the_numbering() {
    let mut state = mic();
    state.is_speaking = true;
    state.chunk_index = 7;
    state.accumulated_text = "so far".to_string();
    state.reset_for_buffer_replacement(320, 16_000, 2, SECOND);
    assert!(!state.is_speaking);
    assert_eq!(state.cursor, 320);
    assert_eq!(state.speech_start_pos, 320);
    assert_eq!(state.source_sample_rate, 16_000);
    assert_eq!(state.source_channels, 2);
    assert_eq!(state.chunk_index, 7);
}
