use yapstack::capture::{check_positive, snapshot_audio, start_capture, CaptureStart};
use yapstack::error::{validate_session_id, CommandError};
use yapstack::model::{
    AudioDeviceInfo, AudioDeviceInfoDto, CaptureSource, CaptureSourceDto,
    CaptureSourceDtoSerialize, CaptureState, CaptureStateDto, CaptureStatus, CaptureStatusDto,
    DeviceType, DeviceTypeDto, EngineKind, EngineKindDto, MixConfig, MixConfigDto, ModelSize,
    ModelSizeDto, ParakeetVariant, ParakeetVariantDto, PermissionStatus, PermissionStatusDto,
    RingBufferInfoDto, SortformerVariant, SortformerVariantDto,
};
use yapstack::single::Single;

fn s(x: f32) -> Single {
    Single { bits: x.to_bits() }
}

fn value(x: Single) -> f32 {
    f32::from_bits(x.bits)
}

fn mix(mic: f32, system: f32, normalize: bool) -> MixConfigDto {
    MixConfigDto {
        mic_gain: s(mic),
        system_gain: s(system),
        normalize,
    }
}

fn sanitized(dto: &MixConfigDto) -> (f32, f32) {
    let (mic, sys) = dto.sanitized();
    (value(mic), value(sys))
}

#[test]
fn test_mix_config_sanitized_valid() {
    let (mic, sys) = sanitized(&mix(0.5, 0.8, true));
    assert!((mic - 0.5).abs() < f32::EPSILON);
    assert!((sys - 0.8).abs() < f32::EPSILON);
}

#[test]
fn test_mix_config_sanitized_nan() {
    let (mic, sys) = sanitized(&mix(f32::NAN, f32::NAN, false));
    assert!((mic - 1.0).abs() < f32::EPSILON);
    assert!((sys - 1.0).abs() < f32::EPSILON);
}

#[test]
fn test_mix_config_sanitized_infinity() {
    let (mic, sys) = sanitized(&mix(f32::INFINITY, f32::NEG_INFINITY, false));
    assert!((mic - 1.0).abs() < f32::EPSILON);
    assert!((sys - 1.0).abs() < f32::EPSILON);
}

#[test]
fn test_mix_config_sanitized_negative() {
    let (mic, sys) = sanitized(&mix(-0.5, -1.0, true));
    assert!((mic - 1.0).abs() < f32::EPSILON);
    assert!((sys - 1.0).abs() < f32::EPSILON);
}

#[test]
fn test_mix_config_sanitized_zero_valid() {
    let (mic, sys) = sanitized(&mix(0.0, 0.0, false));
    assert!((mic - 0.0).abs() < f32::EPSILON);
    assert!((sys - 0.0).abs() < f32::EPSILON);
}

#[test]
fn test_mix_config_into_mix_config_sanitizes() {
    let config: MixConfig = mix(f32::NAN, -1.0, true).into();
    assert!((value(config.mic_gain) - 1.0).abs() < f32::EPSILON);
    assert!((value(config.system_gain) - 1.0).abs() < f32::EPSILON);
    assert!(config.normalize);
}

#[test]
fn test_capture_source_dto_to_domain_mic_only() {
    let domain: CaptureSource = CaptureSourceDto::MicOnly.into();
    assert!(matches!(domain, CaptureSource::MicOnly));
}

#[test]
fn test_capture_source_dto_to_domain_system_only() {
    let domain: CaptureSource = CaptureSourceDto::SystemOnly.into();
    assert!(matches!(domain, CaptureSource::SystemOnly));
}

#[test]
fn test_capture_source_dto_to_domain_mixed() {
    let domain: CaptureSource = CaptureSourceDto::Mixed.into();
    assert!(matches!(domain, CaptureSource::Mixed));
}

#[test]
fn test_capture_source_dto_into() {
    let source: CaptureSource = CaptureSourceDto::MicOnly.into();
    assert_eq!(source, CaptureSource::MicOnly);
    let source: CaptureSource = CaptureSourceDto::SystemOnly.into();
    assert_eq!(source, CaptureSource::SystemOnly);
    let source: CaptureSource = CaptureSourceDto::Mixed.into();
    assert_eq!(source, CaptureSource::Mixed);
}

#[test]
fn test_model_size_dto_roundtrip() {
    let sizes = [
        (ModelSizeDto::Tiny, ModelSize::Tiny),
        (ModelSizeDto::Base, ModelSize::Base),
        (ModelSizeDto::Small, ModelSize::Small),
        (ModelSizeDto::Medium, ModelSize::Medium),
    ];
    for (dto, expected) in sizes {
        let domain: ModelSize = dto.into();
        assert!(
            matches!(domain, ref _e if std::mem::discriminant(&domain) == std::mem::discriminant(&expected))
        );
    }
}

#[test]
fn test_model_size_domain_to_dto_roundtrip() {
    let sizes = [
        ModelSize::Tiny,
        ModelSize::Base,
        ModelSize::Small,
        ModelSize::Medium,
    ];
    for size in sizes {
        let dto: ModelSizeDto = size.into();
        let back: ModelSize = dto.into();
        assert_eq!(std::mem::discriminant(&size), std::mem::discriminant(&back));
    }
}

#[test]
fn the_other_types_keep_their_names() {
    assert_eq!(
        CaptureSourceDtoSerialize::from(CaptureSource::Mixed),
        CaptureSourceDtoSerialize::Mixed
    );
    assert_eq!(
        CaptureStateDto::from(CaptureState::Error),
        CaptureStateDto::Error
    );
    assert_eq!(
        PermissionStatusDto::from(PermissionStatus::Denied),
        PermissionStatusDto::Denied
    );
    assert_eq!(
        EngineKind::from(EngineKindDto::Parakeet),
        EngineKind::Parakeet
    );
    assert_eq!(
        EngineKindDto::from(EngineKind::Whisper),
        EngineKindDto::Whisper
    );
    assert_eq!(
        ParakeetVariant::from(ParakeetVariantDto::TdtV3Int8),
        ParakeetVariant::TdtV3Int8
    );
    assert_eq!(
        ParakeetVariantDto::from(ParakeetVariant::TdtV3),
        ParakeetVariantDto::TdtV3
    );
    assert_eq!(
        SortformerVariant::from(SortformerVariantDto::V2_1),
        SortformerVariant::V2_1
    );
    let device = AudioDeviceInfoDto::from(AudioDeviceInfo {
        id: None,
        name: "Speakers".to_string(),
        device_type: DeviceType::Output,
        is_default: true,
    });
    assert_eq!(device.device_type, DeviceTypeDto::Output);
    assert!(device.is_default);
    let status = CaptureStatusDto::from(CaptureStatus {
        state: CaptureState::Capturing,
        mic_active: true,
        system_audio_active: false,
        error_message: Some("x".to_string()),
    });
    assert_eq!(status.state, CaptureStateDto::Capturing);
    assert_eq!(status.error_message.as_deref(), Some("x"));
    assert!(CaptureSource::Mixed.reads_mic() && CaptureSource::Mixed.reads_system());
    assert!(!CaptureSource::SystemOnly.reads_mic());
}

// --- Capture ---

fn capture_status(system: bool, error: Option<&str>) -> CaptureStatus {
    CaptureStatus {
        state: CaptureState::Capturing,
        mic_active: true,
        system_audio_active: system,
        error_message: error.map(|e| e.to_string()),
    }
}

#[test]
fn a_capture_of_both_streams_that_lacks_one_goes_on() {
    let (r, notice) = start_capture(
        CaptureSource::Mixed,
        CaptureStart::Started,
        capture_status(false, None),
    );
    assert!(r.is_ok());
    let notice = notice.unwrap();
    assert_eq!(notice.source, "System");
    assert_eq!(notice.status, "restart_failed");
    assert_eq!(
        notice.message,
        "System audio unavailable — capturing microphone only. unknown error"
    );
    let (_, notice) = start_capture(
        CaptureSource::Mixed,
        CaptureStart::Started,
        capture_status(false, Some("denied")),
    );
    assert!(notice.unwrap().message.ends_with("only. denied"));
    let (r, notice) = start_capture(
        CaptureSource::MicOnly,
        CaptureStart::Started,
        capture_status(false, None),
    );
    assert!(r.is_ok() && notice.is_none());
}

#[test]
fn a_running_capture_is_no_error() {
    let (r, notice) = start_capture(
        CaptureSource::Mixed,
        CaptureStart::AlreadyRunning,
        capture_status(false, None),
    );
    assert!(r.is_ok() && notice.is_none());
    let (r, _) = start_capture(
        CaptureSource::Mixed,
        CaptureStart::Failed("no device".to_string()),
        capture_status(false, None),
    );
    assert_eq!(r.unwrap_err().to_string(), "audio: no device");
}

#[test]
fn lengths_must_be_positive_and_finite() {
    assert!(check_positive("window_secs", s(0.1), "0.1").is_ok());
    for bad in [0.0, -0.0, -1.0, f32::NAN, f32::INFINITY] {
        let e = check_positive("window_secs", s(bad), &format!("{bad}")).unwrap_err();
        assert_eq!(
            e.to_string(),
            format!("invalid input: window_secs must be a positive finite number, got {bad}")
        );
    }
}

#[test]
fn a_snapshot_needs_samples_and_a_buffer() {
    let info = RingBufferInfoDto {
        capacity_samples: 10,
        samples_written: 2,
        available_samples: 2,
        capacity_seconds: s(1.0),
        available_seconds: s(0.2),
        sample_rate: 10,
        channels: 1,
    };
    let snap = snapshot_audio(Some(vec![s(0.5), s(0.25)]), Some(info), s(0.2)).unwrap();
    assert_eq!(snap.samples.len(), 2);
    assert_eq!(snap.sample_rate, 10);
    assert!(snapshot_audio(None, Some(info), s(0.2)).is_none());
    assert!(snapshot_audio(Some(vec![]), None, s(0.2)).is_none());
}

// --- Errors ---

#[test]
fn errors_are_shown_with_their_kind() {
    let show = |e: CommandError| e.to_string();
    let m = || "x".to_string();
    assert_eq!(show(CommandError::Audio { message: m() }), "audio: x");
    assert_eq!(
        show(CommandError::Transcription { message: m() }),
        "transcription: x"
    );
    assert_eq!(
        show(CommandError::Embedding { message: m() }),
        "embedding: x"
    );
    assert_eq!(
        show(CommandError::NotInitialized { message: m() }),
        "not initialized: x"
    );
    assert_eq!(show(CommandError::invalid_input("x")), "invalid input: x");
    assert_eq!(show(CommandError::not_found("x")), "not found: x");
    assert_eq!(
        show(CommandError::from_sqlite("locked")),
        "internal: sqlite: locked"
    );
}

#[test]
fn session_ids_stand_in_file_names() {
    assert!(validate_session_id("abc-def-123").is_ok());
    for bad in ["", "a/b", "a\\b", "..", "a..b"] {
        assert_eq!(
            validate_session_id(bad).unwrap_err().to_string(),
            "invalid input: invalid session ID"
        );
    }
}
