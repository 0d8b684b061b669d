use yapstack::dispatch::{is_too_short, max_raw_samples_for_duration, tail_samples_for};
use yapstack::single::{
    over, plus, rounded_up, seconds_of_span, times, whole_part, Double, Scaled, Single, NANOS,
};
use yapstack::text;

fn s(x: f32) -> Single {
    Single { bits: x.to_bits() }
}

fn back(a: Scaled) -> f64 {
    a.mant as f64 * (2.0f64).powi(a.exp)
}

const SAMPLES: [f32; 16] = [
    0.0, 0.1, 0.25, 0.3, 0.35, 0.5, 0.7, 1.0, 1.5, 3.1415927, 5.0, 29.999998, 30.0, 123.456, 1e-20,
    8.5e9,
];

#[test]
fn classification_agrees_with_the_machine() {
    let mut all: Vec<f32> = SAMPLES.to_vec();
    all.extend(SAMPLES.iter().map(|x| -x));
    all.extend([f32::NAN, f32::INFINITY, f32::NEG_INFINITY, f32::MIN_POSITIVE]);
    for &a in &all {
        assert_eq!(s(a).is_nan(), a.is_nan());
        assert_eq!(s(a).is_finite(), a.is_finite());
        for &b in &all {
            assert_eq!(s(a).at_least(s(b)), a >= b);
            assert_eq!(s(a).above(s(b)), a > b);
            assert_eq!(s(a).same_number(s(b)), a == b);
            if !(a == 0.0 && b == 0.0) {
                assert_eq!(f32::from_bits(s(a).max(s(b)).bits).to_bits(), a.max(b).to_bits());
                assert_eq!(f32::from_bits(s(a).min(s(b)).bits).to_bits(), a.min(b).to_bits());
            }
        }
    }
    assert!(Double {
        bits: 1.5f64.to_bits()
    }
    .is_finite());
    assert!(!Double {
        bits: f64::NAN.to_bits()
    }
    .is_finite());
}

#[test]
fn arithmetic_rounds_as_the_machine_does() {
    for &a in &SAMPLES[1..13] {
        for &b in &SAMPLES[1..13] {
            let x = s(a).scaled();
            let y = s(b).scaled();
            assert_eq!(back(times(x, y)), (a * b) as f64, "{a} * {b}");
            assert_eq!(back(over(x, y)), (a / b) as f64, "{a} / {b}");
            let (hi, lo) = if x.exp >= y.exp { (x, y) } else { (y, x) };
            if hi.exp - lo.exp <= 100 {
                assert_eq!(back(plus(hi, lo)), (a + b) as f64, "{a} + {b}");
            }
        }
        assert_eq!(whole_part(s(a).scaled()), a as usize);
        assert_eq!(rounded_up(s(a).scaled()), a.ceil() as usize);
    }
}

#[test]
fn seconds_of_a_span_agree_with_the_machine() {
    for nanos in [
        0u128,
        1,
        250_000_000,
        300_000_000,
        500_000_000,
        800_000_000,
        10_000_000_000,
        29_999_999_999,
        123_456_789_012,
    ] {
        let d = std::time::Duration::from_nanos(nanos as u64);
        assert_eq!(back(seconds_of_span(nanos)), d.as_secs_f32() as f64, "{nanos}");
    }
    for secs in [0.1f32, 0.3, 5.0, 25.0, 29.999998, 0.0] {
        assert_eq!(
            s(secs).span(),
            std::time::Duration::from_secs_f32(secs).as_nanos()
        );
    }
    assert_eq!(NANOS, 1_000_000_000);
}

#[test]
fn sample_counts_agree_with_the_machine() {
    for &secs in &SAMPLES {
        for (rate, channels) in [(48_000u32, 1u16), (44_100, 2), (16_000, 1), (8_000, 6)] {
            let expected = (secs * rate as f32 * channels as f32) as usize;
            assert_eq!(s(secs).sample_count(rate, channels), expected, "{secs} {rate}");
        }
    }
    assert_eq!(s(f32::NAN).sample_count(48_000, 1), 0);
    assert_eq!(s(-1.0).sample_count(48_000, 1), 0);
    assert_eq!(s(f32::INFINITY).sample_count(48_000, 1), usize::MAX);
}

#[test]
fn stop_tail_samples_are_frame_aligned() {
    assert_eq!(tail_samples_for(48_000, 2), 28_800);
    assert_eq!(tail_samples_for(16_000, 1), 4_800);
}

#[test]
fn the_most_samples_of_a_chunk() {
    for (nanos, rate, channels) in [
        (30_000_000_000u128, 48_000u32, 2u16),
        (10_000_000_000, 44_100, 1),
        (250_000_000, 16_000, 1),
    ] {
        let secs = std::time::Duration::from_nanos(nanos as u64).as_secs_f32();
        let frames = (secs * rate as f32) as usize;
        let got = max_raw_samples_for_duration(nanos, rate, channels);
        assert_eq!(got % channels as usize, 0);
        assert!(got >= frames.saturating_sub(1) * channels as usize);
        assert!(got <= (frames + 1) * channels as usize);
    }
}

#[test]
fn short_chunks_are_dropped() {
    for samples in [0usize, 1, 1_599, 1_600, 1_601, 4_799, 4_800, 4_801] {
        for rate in [16_000u32, 48_000] {
            assert_eq!(
                is_too_short(samples, rate),
                (samples as f32 / rate as f32) < 0.1,
                "{samples} at {rate}"
            );
        }
    }
}

// --- Text ---

#[test]
fn text_agrees_with_the_machine() {
    for t in ["", " a ", "\u{2003}x\u{3000}", "plain", "\u{200b}y", "\u{85}z\n\t"] {
        let trimmed: String = text::trim_chars(&text::chars_of(t)).iter().collect();
        assert_eq!(trimmed, t.trim());
        assert_eq!(text::is_blank(t), t.trim().is_empty());
        assert_eq!(text::byte_length(t), t.len());
        let low: String = text::lower_chars(&text::chars_of(t)).iter().collect();
        assert_eq!(low, t.to_ascii_lowercase());
    }
    for c in ['a', 'ä', '\u{2014}', '\u{1f600}', '\u{7f}', '\u{800}', '\u{ffff}'] {
        assert_eq!(text::char_width(c), c.len_utf8());
    }
    for c in (0u32..0x3100).filter_map(char::from_u32) {
        assert_eq!(text::is_white(c), c.is_whitespace(), "{:x}", c as u32);
    }
}

#[test]
fn numbers_are_read_as_the_machine_reads_them() {
    for t in ["0", "7", "+7", "-7", "", "+", "4294967295", "4294967296", "007", "1 ", "٣"] {
        let expected = t.parse::<u32>().ok().map(|n| n as u64);
        assert_eq!(
            text::parse_unsigned(&text::chars_of(t), u32::MAX as u64),
            expected,
            "{t:?}"
        );
    }
    for n in [0u64, 9, 10, 1_234_567_890, u64::MAX] {
        assert_eq!(text::decimal_text(n), n.to_string());
        assert_eq!(
            text::parse_unsigned(&text::decimal_chars(n), u64::MAX),
            Some(n)
        );
    }
}

#[test]
fn cuts_respect_characters() {
    assert_eq!(text::tail_text("aäb", 2), "b");
    assert_eq!(text::tail_text("aäb", 3), "äb");
    assert_eq!(text::head_text("aäb", 2), "a");
    assert_eq!(text::head_text("aäb", 3), "aä");
    assert_eq!(text::tail_text("abc", 0), "");
    assert_eq!(
        text::list(&vec!["a".to_string(), "b".to_string()], "; "),
        "a; b"
    );
}
