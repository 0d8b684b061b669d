use yapstack::labels::AudioSourceLabel;
use yapstack::model::TranscriptSegmentDto;
use yapstack::prompt::{
    bridge_prompt, build_effective_prompt, check_prompt_decay, extend_prompts, gather,
    prompt_budget, prompt_text, run_prompt_decay, seed_prompt_from_backfill, PromptState,
};
use yapstack::single::Single;
use yapstack::vad::SourceVadState;

const SECOND: u64 = 1_000_000_000;

fn s(x: f32) -> Single {
    Single { bits: x.to_bits() }
}

fn mic() -> SourceVadState {
    SourceVadState::new(AudioSourceLabel::Mic, 0, 0, 48000, 1, 0)
}

fn segment(text: &str) -> TranscriptSegmentDto {
    TranscriptSegmentDto {
        start_ms: 0,
        end_ms: 0,
        text: text.to_string(),
        confidence: s(1.0),
        speaker_id: None,
    }
}

#[test]
fn test_prompt_decay_clears_after_timeout() {
    let mut sources = vec![mic()];
    let mut prompt = "some prior transcript context".to_string();
    let now = 100 * SECOND;
    let cleared =
        check_prompt_decay(&mut sources, &mut prompt, s(5.0), Some(now - 6 * SECOND), now);
    assert!(cleared);
    assert!(prompt.is_empty());
}

#[test]
fn test_prompt_decay_no_clear_with_recent_transcription() {
    let mut sources = vec![mic()];
    let mut prompt = "some context".to_string();
    let now = 100 * SECOND;
    let cleared = check_prompt_decay(&mut sources, &mut prompt, s(5.0), Some(now), now);
    assert!(!cleared);
    assert_eq!(prompt, "some context");
}

#[test]
fn test_prompt_decay_no_clear_before_timeout() {
    let mut sources = vec![mic()];
    let mut prompt = "some context".to_string();
    let now = 100 * SECOND;
    let cleared =
        check_prompt_decay(&mut sources, &mut prompt, s(5.0), Some(now - 2 * SECOND), now);
    assert!(!cleared);
    assert_eq!(prompt, "some context");
}

#[test]
fn test_prompt_decay_disabled_when_zero() {
    let mut sources = vec![mic()];
    let mut prompt = "some context".to_string();
    let now = 100 * SECOND;
    let cleared =
        check_prompt_decay(&mut sources, &mut prompt, s(0.0), Some(now - 60 * SECOND), now);
    assert!(!cleared);
    assert_eq!(prompt, "some context");
}

#[test]
fn test_prompt_decay_already_empty() {
    let mut sources = vec![mic()];
    let mut prompt = String::new();
    let now = 100 * SECOND;
    let cleared =
        check_prompt_decay(&mut sources, &mut prompt, s(5.0), Some(now - 10 * SECOND), now);
    assert!(!cleared);
}

#[test]
fn test_prompt_decay_clears_accumulated_text() {
    let mut sources = vec![
        mic(),
        SourceVadState::new(AudioSourceLabel::System, 0, 0, 48000, 2, 0),
    ];
    sources[0].accumulated_text = "mic transcript context".to_string();
    sources[1].accumulated_text = "system transcript context".to_string();
    let mut prompt = "shared prompt".to_string();
    let now = 100 * SECOND;
    let cleared =
        check_prompt_decay(&mut sources, &mut prompt, s(5.0), Some(now - 6 * SECOND), now);
    assert!(cleared);
    assert!(prompt.is_empty());
    assert!(sources[0].accumulated_text.is_empty());
    assert!(sources[1].accumulated_text.is_empty());
}

#[test]
fn test_prompt_decay_triggers_on_accumulated_text_only() {
    let mut sources = vec![mic()];
    sources[0].accumulated_text = "stale context from before silence".to_string();
    let mut prompt = String::new();
    let now = 100 * SECOND;
    let cleared =
        check_prompt_decay(&mut sources, &mut prompt, s(5.0), Some(now - 6 * SECOND), now);
    assert!(cleared);
    assert!(sources[0].accumulated_text.is_empty());
}

#[test]
fn test_prompt_decay_no_clear_when_never_transcribed() {
    let mut sources = vec![mic()];
    sources[0].accumulated_text = "seeded context".to_string();
    let mut prompt = "shared prompt".to_string();
    let cleared = check_prompt_decay(&mut sources, &mut prompt, s(5.0), None, 100 * SECOND);
    assert!(!cleared);
    assert_eq!(prompt, "shared prompt");
    assert_eq!(sources[0].accumulated_text, "seeded context");
}

#[test]
fn decay_happens_once_and_forgets_the_last_transcription() {
    let mut sources = vec![mic()];
    let mut prompt = PromptState {
        shared_prompt: "context".to_string(),
        last_transcription_at: Some(0),
    };
    assert!(run_prompt_decay(&mut prompt, &mut sources, None, 6 * SECOND));
    assert!(prompt.shared_prompt.is_empty());
    assert!(!run_prompt_decay(&mut prompt, &mut sources, None, 60 * SECOND));
}

#[test]
fn the_prompt_puts_the_vocabulary_in_front() {
    assert_eq!(prompt_budget(None), 350);
    assert_eq!(
        build_effective_prompt(None, "Kubernetes, Verus", "we were saying").as_deref(),
        Some("Kubernetes, Verus. we were saying")
    );
    assert_eq!(build_effective_prompt(None, "", "").as_deref(), None);
    assert_eq!(
        build_effective_prompt(None, "", "we were saying").as_deref(),
        Some("we were saying")
    );
}

#[test]
fn the_prompt_keeps_to_its_budget() {
    let long = "ä".repeat(600);
    let built = build_effective_prompt(Some(100), "", &long).unwrap();
    assert!(built.len() <= 100);
    assert!(long.ends_with(&built));
}

#[test]
fn rejected_segments_stay_out_of_the_prompt() {
    let segments = vec![segment("Hello there."), segment("[music]"), segment("Again.")];
    assert_eq!(
        prompt_text(&segments, &vec![false, true, false]),
        "Hello there. Again."
    );
    assert_eq!(prompt_text(&segments, &vec![true, true, true]), "");
}

#[test]
fn gathered_text_is_cut_at_the_front() {
    let mut kept = "0123456789".to_string();
    gather(&mut kept, "abc", 8);
    assert!(kept.len() <= 8);
    assert!(kept.ends_with("abc"));
}

#[test]
fn a_chunk_extends_both_prompts() {
    let mut accumulated = String::new();
    let mut shared = "before".to_string();
    extend_prompts(&mut accumulated, &mut shared, "now", None);
    assert!(accumulated.contains("now"));
    assert!(shared.ends_with("now"));
    assert!(shared.starts_with("before"));
}

#[test]
fn the_history_seeds_what_is_still_empty() {
    assert_eq!(bridge_prompt("tail of the history", None), "tail of the history");
    let mut sources = vec![mic()];
    let mut prompt = PromptState {
        shared_prompt: String::new(),
        last_transcription_at: None,
    };
    assert!(seed_prompt_from_backfill("history", &mut prompt, &mut sources, 3 * SECOND));
    assert_eq!(prompt.shared_prompt, "history");
    assert_eq!(sources[0].accumulated_text, "history");
}
