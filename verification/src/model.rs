//! The values that cross the boundary of the application: devices, sources,
//! engines, models, and the conversions between the outer and the inner names.

use vstd::prelude::*;

use crate::single::{Single, ONE_BITS};

verus! {

/// Which streams a capture records.
#[derive(Clone, Copy, Debug, PartialEq, Eq, Structural)]
pub enum CaptureSource {
    /// The microphone alone.
    MicOnly,
    /// The system's output alone.
    SystemOnly,
    /// Both.
    Mixed,
}

/// The capture source that a request names.
#[derive(Clone, Copy, Debug, PartialEq, Eq, Structural)]
pub enum CaptureSourceDto {
    /// The microphone alone.
    MicOnly,
    /// The system's output alone.
    SystemOnly,
    /// Both.
    Mixed,
}

/// The capture source that a response names.
#[derive(Clone, Copy, Debug, PartialEq, Eq, Structural)]
pub enum CaptureSourceDtoSerialize {
    /// The microphone alone.
    MicOnly,
    /// The system's output alone.
    SystemOnly,
    /// Both.
    Mixed,
}

/// The CaptureSource named like `v`.
pub open spec fn capture_source_of(v: CaptureSourceDto) -> CaptureSource {
    match v {
        CaptureSourceDto::MicOnly => CaptureSource::MicOnly,
        CaptureSourceDto::SystemOnly => CaptureSource::SystemOnly,
        CaptureSourceDto::Mixed => CaptureSource::Mixed,
    }
}

impl vstd::std_specs::convert::FromSpecImpl<CaptureSourceDto> for CaptureSource {
    open spec fn obeys_from_spec() -> bool {
        true
    }

    open spec fn from_spec(v: CaptureSourceDto) -> CaptureSource {
        capture_source_of(v)
    }
}

impl From<CaptureSourceDto> for CaptureSource {
    fn from(v: CaptureSourceDto) -> CaptureSource {
        match v {
            CaptureSourceDto::MicOnly => CaptureSource::MicOnly,
            CaptureSourceDto::SystemOnly => CaptureSource::SystemOnly,
            CaptureSourceDto::Mixed => CaptureSource::Mixed,
        }
    }
}

/// The CaptureSourceDtoSerialize named like `v`.
pub open spec fn capture_source_shown(v: CaptureSource) -> CaptureSourceDtoSerialize {
    match v {
        CaptureSource::MicOnly => CaptureSourceDtoSerialize::MicOnly,
        CaptureSource::SystemOnly => CaptureSourceDtoSerialize::SystemOnly,
        CaptureSource::Mixed => CaptureSourceDtoSerialize::Mixed,
    }
}

impl vstd::std_specs::convert::FromSpecImpl<CaptureSource> for CaptureSourceDtoSerialize {
    open spec fn obeys_from_spec() -> bool {
        true
    }

    open spec fn from_spec(v: CaptureSource) -> CaptureSourceDtoSerialize {
        capture_source_shown(v)
    }
}

impl From<CaptureSource> for CaptureSourceDtoSerialize {
    fn from(v: CaptureSource) -> CaptureSourceDtoSerialize {
        match v {
            CaptureSource::MicOnly => CaptureSourceDtoSerialize::MicOnly,
            CaptureSource::SystemOnly => CaptureSourceDtoSerialize::SystemOnly,
            CaptureSource::Mixed => CaptureSourceDtoSerialize::Mixed,
        }
    }
}

impl CaptureSource {
    /// Whether the capture reads the microphone.
    pub open spec fn mic(self) -> bool {
        self is MicOnly || self is Mixed
    }

    /// Whether the capture reads the system's output.
    pub open spec fn system(self) -> bool {
        self is SystemOnly || self is Mixed
    }

    /// Whether the capture reads the microphone.
    pub fn reads_mic(self) -> (r: bool)
        ensures
            r == self.mic(),
            r <==> self != CaptureSource::SystemOnly,
    {
        matches!(self, CaptureSource::MicOnly | CaptureSource::Mixed)
    }

    /// Whether the capture reads the system's output.
    pub fn reads_system(self) -> (r: bool)
        ensures
            r == self.system(),
            r <==> self != CaptureSource::MicOnly,
    {
        matches!(self, CaptureSource::SystemOnly | CaptureSource::Mixed)
    }
}

/// Direction of an audio device.
#[derive(Clone, Copy, Debug, PartialEq, Eq, Structural)]
pub enum DeviceType {
    /// Records.
    Input,
    /// Plays.
    Output,
}

/// Direction of an audio device, as shown.
#[derive(Clone, Copy, Debug, PartialEq, Eq, Structural)]
pub enum DeviceTypeDto {
    /// Records.
    Input,
    /// Plays.
    Output,
}

/// The DeviceTypeDto named like `v`.
pub open spec fn device_type_shown(v: DeviceType) -> DeviceTypeDto {
    match v {
        DeviceType::Input => DeviceTypeDto::Input,
        DeviceType::Output => DeviceTypeDto::Output,
    }
}

impl vstd::std_specs::convert::FromSpecImpl<DeviceType> for DeviceTypeDto {
    open spec fn obeys_from_spec() -> bool {
        true
    }

    open spec fn from_spec(v: DeviceType) -> DeviceTypeDto {
        device_type_shown(v)
    }
}

impl From<DeviceType> for DeviceTypeDto {
    fn from(v: DeviceType) -> DeviceTypeDto {
        match v {
            DeviceType::Input => DeviceTypeDto::Input,
            DeviceType::Output => DeviceTypeDto::Output,
        }
    }
}

/// State of the capture.
#[derive(Clone, Copy, Debug, PartialEq, Eq, Structural)]
pub enum CaptureState {
    /// Nothing is recorded.
    Idle,
    /// Streams are open.
    Capturing,
    /// A stream failed.
    Error,
}

/// State of the capture, as shown.
#[derive(Clone, Copy, Debug, PartialEq, Eq, Structural)]
pub enum CaptureStateDto {
    /// Nothing is recorded.
    Idle,
    /// Streams are open.
    Capturing,
    /// A stream failed.
    Error,
}

/// The CaptureStateDto named like `v`.
pub open spec fn capture_state_shown(v: CaptureState) -> CaptureStateDto {
    match v {
        CaptureState::Idle => CaptureStateDto::Idle,
        CaptureState::Capturing => CaptureStateDto::Capturing,
        CaptureState::Error => CaptureStateDto::Error,
    }
}

impl vstd::std_specs::convert::FromSpecImpl<CaptureState> for CaptureStateDto {
    open spec fn obeys_from_spec() -> bool {
        true
    }

    open spec fn from_spec(v: CaptureState) -> CaptureStateDto {
        capture_state_shown(v)
    }
}

impl From<CaptureState> for CaptureStateDto {
    fn from(v: CaptureState) -> CaptureStateDto {
        match v {
            CaptureState::Idle => CaptureStateDto::Idle,
            CaptureState::Capturing => CaptureStateDto::Capturing,
            CaptureState::Error => CaptureStateDto::Error,
        }
    }
}

/// Standing of a permission.
#[derive(Clone, Copy, Debug, PartialEq, Eq, Structural)]
pub enum PermissionStatus {
    /// Allowed.
    Granted,
    /// Refused.
    Denied,
    /// Not asked yet.
    NotDetermined,
    /// The system has no such permission.
    Unavailable,
}

/// Standing of a permission, as shown.
#[derive(Clone, Copy, Debug, PartialEq, Eq, Structural)]
pub enum PermissionStatusDto {
    /// Allowed.
    Granted,
    /// Refused.
    Denied,
    /// Not asked yet.
    NotDetermined,
    /// The system has no such permission.
    Unavailable,
}

/// The PermissionStatusDto named like `v`.
pub open spec fn permission_shown(v: PermissionStatus) -> PermissionStatusDto {
    match v {
        PermissionStatus::Granted => PermissionStatusDto::Granted,
        PermissionStatus::Denied => PermissionStatusDto::Denied,
        PermissionStatus::NotDetermined => PermissionStatusDto::NotDetermined,
        PermissionStatus::Unavailable => PermissionStatusDto::Unavailable,
    }
}

impl vstd::std_specs::convert::FromSpecImpl<PermissionStatus> for PermissionStatusDto {
    open spec fn obeys_from_spec() -> bool {
        true
    }

    open spec fn from_spec(v: PermissionStatus) -> PermissionStatusDto {
        permission_shown(v)
    }
}

impl From<PermissionStatus> for PermissionStatusDto {
    fn from(v: PermissionStatus) -> PermissionStatusDto {
        match v {
            PermissionStatus::Granted => PermissionStatusDto::Granted,
            PermissionStatus::Denied => PermissionStatusDto::Denied,
            PermissionStatus::NotDetermined => PermissionStatusDto::NotDetermined,
            PermissionStatus::Unavailable => PermissionStatusDto::Unavailable,
        }
    }
}

/// One audio device.
#[derive(Debug)]
pub struct AudioDeviceInfo {
    pub id: Option<String>,
    pub name: String,
    pub device_type: DeviceType,
    pub is_default: bool,
}

/// One audio device, as shown.
#[derive(Debug)]
pub struct AudioDeviceInfoDto {
    pub id: Option<String>,
    pub name: String,
    pub device_type: DeviceTypeDto,
    pub is_default: bool,
}

impl vstd::std_specs::convert::FromSpecImpl<AudioDeviceInfo> for AudioDeviceInfoDto {
    open spec fn obeys_from_spec() -> bool {
        true
    }

    open spec fn from_spec(d: AudioDeviceInfo) -> AudioDeviceInfoDto {
        AudioDeviceInfoDto {
            id: d.id,
            name: d.name,
            device_type: device_type_shown(d.device_type),
            is_default: d.is_default,
        }
    }
}

impl From<AudioDeviceInfo> for AudioDeviceInfoDto {
    fn from(d: AudioDeviceInfo) -> AudioDeviceInfoDto {
        AudioDeviceInfoDto {
            id: d.id,
            name: d.name,
            device_type: DeviceTypeDto::from(d.device_type),
            is_default: d.is_default,
        }
    }
}

/// What the capture is doing.
#[derive(Debug)]
pub struct CaptureStatus {
    pub state: CaptureState,
    pub mic_active: bool,
    pub system_audio_active: bool,
    pub error_message: Option<String>,
}

/// What the capture is doing, as shown.
#[derive(Debug, Clone, PartialEq)]
pub struct CaptureStatusDto {
    pub state: CaptureStateDto,
    pub mic_active: bool,
    pub system_audio_active: bool,
    pub error_message: Option<String>,
}

impl vstd::std_specs::convert::FromSpecImpl<CaptureStatus> for CaptureStatusDto {
    open spec fn obeys_from_spec() -> bool {
        true
    }

    open spec fn from_spec(s: CaptureStatus) -> CaptureStatusDto {
        CaptureStatusDto {
            state: capture_state_shown(s.state),
            mic_active: s.mic_active,
            system_audio_active: s.system_audio_active,
            error_message: s.error_message,
        }
    }
}

impl From<CaptureStatus> for CaptureStatusDto {
    fn from(s: CaptureStatus) -> CaptureStatusDto {
        CaptureStatusDto {
            state: CaptureStateDto::from(s.state),
            mic_active: s.mic_active,
            system_audio_active: s.system_audio_active,
            error_message: s.error_message,
        }
    }
}

/// Fill of one ring buffer.
#[derive(Debug, Clone, Copy, PartialEq, Eq, Structural)]
pub struct RingBufferInfoDto {
    pub capacity_samples: usize,
    pub samples_written: usize,
    pub available_samples: usize,
    pub capacity_seconds: Single,
    pub available_seconds: Single,
    pub sample_rate: u32,
    pub channels: u16,
}

/// Fill of the two ring buffers.
#[derive(Debug, Clone, Copy, PartialEq, Eq, Structural)]
pub struct BufferStatusDto {
    pub mic: Option<RingBufferInfoDto>,
    pub system: Option<RingBufferInfoDto>,
}

/// Size of a Whisper model.
#[derive(Clone, Copy, Debug, PartialEq, Eq, Structural)]
pub enum ModelSize {
    /// Tiny.
    Tiny,
    /// Base.
    Base,
    /// Small.
    Small,
    /// Medium.
    Medium,
}

/// Size of a Whisper model, as requested.
#[derive(Clone, Copy, Debug, PartialEq, Eq, Structural)]
pub enum ModelSizeDto {
    /// Tiny.
    Tiny,
    /// Base.
    Base,
    /// Small.
    Small,
    /// Medium.
    Medium,
}

/// The ModelSize named like `v`.
pub open spec fn model_size_of(v: ModelSizeDto) -> ModelSize {
    match v {
        ModelSizeDto::Tiny => ModelSize::Tiny,
        ModelSizeDto::Base => ModelSize::Base,
        ModelSizeDto::Small => ModelSize::Small,
        ModelSizeDto::Medium => ModelSize::Medium,
    }
}

impl vstd::std_specs::convert::FromSpecImpl<ModelSizeDto> for ModelSize {
    open spec fn obeys_from_spec() -> bool {
        true
    }

    open spec fn from_spec(v: ModelSizeDto) -> ModelSize {
        model_size_of(v)
    }
}

impl From<ModelSizeDto> for ModelSize {
    fn from(v: ModelSizeDto) -> ModelSize {
        match v {
            ModelSizeDto::Tiny => ModelSize::Tiny,
            ModelSizeDto::Base => ModelSize::Base,
            ModelSizeDto::Small => ModelSize::Small,
            ModelSizeDto::Medium => ModelSize::Medium,
        }
    }
}

/// The ModelSizeDto named like `v`.
pub open spec fn model_size_shown(v: ModelSize) -> ModelSizeDto {
    match v {
        ModelSize::Tiny => ModelSizeDto::Tiny,
        ModelSize::Base => ModelSizeDto::Base,
        ModelSize::Small => ModelSizeDto::Small,
        ModelSize::Medium => ModelSizeDto::Medium,
    }
}

impl vstd::std_specs::convert::FromSpecImpl<ModelSize> for ModelSizeDto {
    open spec fn obeys_from_spec() -> bool {
        true
    }

    open spec fn from_spec(v: ModelSize) -> ModelSizeDto {
        model_size_shown(v)
    }
}

impl From<ModelSize> for ModelSizeDto {
    fn from(v: ModelSize) -> ModelSizeDto {
        match v {
            ModelSize::Tiny => ModelSizeDto::Tiny,
            ModelSize::Base => ModelSizeDto::Base,
            ModelSize::Small => ModelSizeDto::Small,
            ModelSize::Medium => ModelSizeDto::Medium,
        }
    }
}

/// Neither direction of the model-size conversion loses anything.
pub proof fn law_model_size_round_trip(a: ModelSizeDto, b: ModelSize)
    ensures
        model_size_shown(model_size_of(a)) == a,
        model_size_of(model_size_shown(b)) == b,
{
}

/// The transcription engines.
#[derive(Clone, Copy, Debug, PartialEq, Eq, Structural)]
pub enum EngineKind {
    /// Decoder that takes a text prompt.
    Whisper,
    /// Decoder without one.
    Parakeet,
}

/// The transcription engine that a request names.
#[derive(Clone, Copy, Debug, PartialEq, Eq, Structural)]
pub enum EngineKindDto {
    /// Decoder that takes a text prompt.
    Whisper,
    /// Decoder without one.
    Parakeet,
}

/// The EngineKind named like `v`.
pub open spec fn engine_kind_of(v: EngineKindDto) -> EngineKind {
    match v {
        EngineKindDto::Whisper => EngineKind::Whisper,
        EngineKindDto::Parakeet => EngineKind::Parakeet,
    }
}

impl vstd::std_specs::convert::FromSpecImpl<EngineKindDto> for EngineKind {
    open spec fn obeys_from_spec() -> bool {
        true
    }

    open spec fn from_spec(v: EngineKindDto) -> EngineKind {
        engine_kind_of(v)
    }
}

impl From<EngineKindDto> for EngineKind {
    fn from(v: EngineKindDto) -> EngineKind {
        match v {
            EngineKindDto::Whisper => EngineKind::Whisper,
            EngineKindDto::Parakeet => EngineKind::Parakeet,
        }
    }
}

/// The EngineKindDto named like `v`.
pub open spec fn engine_kind_shown(v: EngineKind) -> EngineKindDto {
    match v {
        EngineKind::Whisper => EngineKindDto::Whisper,
        EngineKind::Parakeet => EngineKindDto::Parakeet,
    }
}

impl vstd::std_specs::convert::FromSpecImpl<EngineKind> for EngineKindDto {
    open spec fn obeys_from_spec() -> bool {
        true
    }

    open spec fn from_spec(v: EngineKind) -> EngineKindDto {
        engine_kind_shown(v)
    }
}

impl From<EngineKind> for EngineKindDto {
    fn from(v: EngineKind) -> EngineKindDto {
        match v {
            EngineKind::Whisper => EngineKindDto::Whisper,
            EngineKind::Parakeet => EngineKindDto::Parakeet,
        }
    }
}

/// Neither direction of the engine conversion loses anything.
pub proof fn law_engine_kind_round_trip(a: EngineKindDto, b: EngineKind)
    ensures
        engine_kind_shown(engine_kind_of(a)) == a,
        engine_kind_of(engine_kind_shown(b)) == b,
{
}

/// Bundles of the Parakeet model.
#[derive(Clone, Copy, Debug, PartialEq, Eq, Structural)]
pub enum ParakeetVariant {
    /// Full precision.
    TdtV3,
    /// Quantized to eight bits.
    TdtV3Int8,
}

/// Bundle of the Parakeet model, as requested.
#[derive(Clone, Copy, Debug, PartialEq, Eq, Structural)]
pub enum ParakeetVariantDto {
    /// Full precision.
    TdtV3,
    /// Quantized to eight bits.
    TdtV3Int8,
}

/// The ParakeetVariant named like `v`.
pub open spec fn parakeet_variant_of(v: ParakeetVariantDto) -> ParakeetVariant {
    match v {
        ParakeetVariantDto::TdtV3 => ParakeetVariant::TdtV3,
        ParakeetVariantDto::TdtV3Int8 => ParakeetVariant::TdtV3Int8,
    }
}

impl vstd::std_specs::convert::FromSpecImpl<ParakeetVariantDto> for ParakeetVariant {
    open spec fn obeys_from_spec() -> bool {
        true
    }

    open spec fn from_spec(v: ParakeetVariantDto) -> ParakeetVariant {
        parakeet_variant_of(v)
    }
}

impl From<ParakeetVariantDto> for ParakeetVariant {
    fn from(v: ParakeetVariantDto) -> ParakeetVariant {
        match v {
            ParakeetVariantDto::TdtV3 => ParakeetVariant::TdtV3,
            ParakeetVariantDto::TdtV3Int8 => ParakeetVariant::TdtV3Int8,
        }
    }
}

/// The ParakeetVariantDto named like `v`.
pub open spec fn parakeet_variant_shown(v: ParakeetVariant) -> ParakeetVariantDto {
    match v {
        ParakeetVariant::TdtV3 => ParakeetVariantDto::TdtV3,
        ParakeetVariant::TdtV3Int8 => ParakeetVariantDto::TdtV3Int8,
    }
}

impl vstd::std_specs::convert::FromSpecImpl<ParakeetVariant> for ParakeetVariantDto {
    open spec fn obeys_from_spec() -> bool {
        true
    }

    open spec fn from_spec(v: ParakeetVariant) -> ParakeetVariantDto {
        parakeet_variant_shown(v)
    }
}

impl From<ParakeetVariant> for ParakeetVariantDto {
    fn from(v: ParakeetVariant) -> ParakeetVariantDto {
        match v {
            ParakeetVariant::TdtV3 => ParakeetVariantDto::TdtV3,
            ParakeetVariant::TdtV3Int8 => ParakeetVariantDto::TdtV3Int8,
        }
    }
}

/// Neither direction of the Parakeet conversion loses anything.
pub proof fn law_parakeet_variant_round_trip(a: ParakeetVariantDto, b: ParakeetVariant)
    ensures
        parakeet_variant_shown(parakeet_variant_of(a)) == a,
        parakeet_variant_of(parakeet_variant_shown(b)) == b,
{
}

/// Bundles of the diarization model.
#[derive(Clone, Copy, Debug, PartialEq, Eq, Structural)]
pub enum SortformerVariant {
    /// Version 2.1.
    V2_1,
}

/// Bundle of the diarization model, as requested.
#[derive(Clone, Copy, Debug, PartialEq, Eq, Structural)]
pub enum SortformerVariantDto {
    /// Version 2.1.
    V2_1,
}

/// The SortformerVariant named like `v`.
pub open spec fn sortformer_variant_of(v: SortformerVariantDto) -> SortformerVariant {
    match v {
        SortformerVariantDto::V2_1 => SortformerVariant::V2_1,
    }
}

impl vstd::std_specs::convert::FromSpecImpl<SortformerVariantDto> for SortformerVariant {
    open spec fn obeys_from_spec() -> bool {
        true
    }

    open spec fn from_spec(v: SortformerVariantDto) -> SortformerVariant {
        sortformer_variant_of(v)
    }
}

impl From<SortformerVariantDto> for SortformerVariant {
    fn from(v: SortformerVariantDto) -> SortformerVariant {
        match v {
            SortformerVariantDto::V2_1 => SortformerVariant::V2_1,
        }
    }
}

/// A Whisper model on disk or to be fetched.
#[derive(Debug)]
pub struct ModelInfoDto {
    pub size: ModelSizeDto,
    pub downloaded: bool,
    pub path: Option<String>,
    pub display_name: String,
    pub approximate_size_bytes: u64,
}

/// One stretch of transcribed speech.
#[derive(Debug, Clone)]
pub struct TranscriptSegmentDto {
    pub start_ms: u64,
    pub end_ms: u64,
    pub text: String,
    pub confidence: Single,
    /// Set where the engine told speakers apart.
    pub speaker_id: Option<u8>,
}

/// What an engine made of one chunk.
#[derive(Debug, Clone)]
pub struct TranscriptionResult {
    pub text: String,
    pub segments: Vec<TranscriptSegmentDto>,
}

/// What an engine offers.
#[derive(Debug)]
pub struct EngineDescriptorDto {
    pub kind: EngineKindDto,
    pub display_name: String,
    pub languages: Vec<String>,
    pub supports_diarization: bool,
    pub supports_initial_prompt: bool,
}

/// A Parakeet bundle on disk or to be fetched.
#[derive(Debug)]
pub struct ParakeetModelInfoDto {
    pub variant: ParakeetVariantDto,
    pub downloaded: bool,
    pub display_name: String,
    pub approximate_size_bytes: u64,
}

/// A diarization bundle on disk or to be fetched.
#[derive(Debug)]
pub struct SortformerModelInfoDto {
    pub variant: SortformerVariantDto,
    pub downloaded: bool,
    pub display_name: String,
    pub approximate_size_bytes: u64,
}

/// Sent once an engine has loaded its model.
#[derive(Debug)]
pub struct TranscriptionEngineLoadedEvent {
    pub engine: EngineKindDto,
    pub accel: Option<String>,
    pub model_dir: Option<String>,
}

/// Whether an engine is up.
#[derive(Debug, Clone, Copy, PartialEq, Eq, Structural)]
pub struct TranscriptionStatusDto {
    pub initialized: bool,
}

/// Gains and normalization of a mix, as requested.
#[derive(Debug, Clone, Copy, PartialEq, Eq, Structural)]
pub struct MixConfigDto {
    pub mic_gain: Single,
    pub system_gain: Single,
    pub normalize: bool,
}

/// Gains and normalization of a mix.
#[derive(Debug, Clone, Copy, PartialEq, Eq, Structural)]
pub struct MixConfig {
    pub mic_gain: Single,
    pub system_gain: Single,
    pub normalize: bool,
}

/// A gain that can be applied: the requested one, or one where that is negative,
/// infinite or not a number.
pub open spec fn usable_gain(g: Single) -> Single {
    if g.finite() && g.ge(Single { bits: 0 }) {
        g
    } else {
        Single { bits: ONE_BITS }
    }
}

fn gain_or_one(g: Single) -> (r: Single)
    ensures
        r == usable_gain(g),
{
    if g.is_finite() && g.at_least(Single { bits: 0 }) {
        g
    } else {
        Single { bits: ONE_BITS }
    }
}

impl MixConfigDto {
    /// The two gains, each replaced by one where it cannot be applied.
    pub fn sanitized(&self) -> (r: (Single, Single))
        ensures
            r == (usable_gain(self.mic_gain), usable_gain(self.system_gain)),
    {
        (gain_or_one(self.mic_gain), gain_or_one(self.system_gain))
    }
}

impl vstd::std_specs::convert::FromSpecImpl<MixConfigDto> for MixConfig {
    open spec fn obeys_from_spec() -> bool {
        true
    }

    open spec fn from_spec(c: MixConfigDto) -> MixConfig {
        MixConfig {
            mic_gain: usable_gain(c.mic_gain),
            system_gain: usable_gain(c.system_gain),
            normalize: c.normalize,
        }
    }
}

impl From<MixConfigDto> for MixConfig {
    fn from(c: MixConfigDto) -> MixConfig {
        let (mic_gain, system_gain) = c.sanitized();
        MixConfig { mic_gain, system_gain, normalize: c.normalize }
    }
}

/// A usable gain is finite and not below zero, whatever was asked for; one that was asked
/// for and is both is kept, and any other becomes one.
pub proof fn law_usable_gain(g: Single)
    ensures
        usable_gain(g).finite(),
        usable_gain(g).ge(Single { bits: 0 }),
        usable_gain(usable_gain(g)) == usable_gain(g),
        g.bits < 0x7f80_0000 || g.bits == 0x8000_0000 ==> usable_gain(g) == g,
        g.bits >= 0x7f80_0000 && g.bits != 0x8000_0000 ==> usable_gain(g).bits == 0x3f80_0000,
{
}

/// What is shown of the capture, and what is asked of it, keeps its meaning.
pub proof fn law_capture_keeps_its_meaning(
    asked: CaptureSourceDto,
    source: CaptureSource,
    kind: DeviceType,
    state: CaptureState,
    permission: PermissionStatus,
)
    ensures
        asked is MicOnly <==> capture_source_of(asked) is MicOnly,
        asked is SystemOnly <==> capture_source_of(asked) is SystemOnly,
        asked is Mixed <==> capture_source_of(asked) is Mixed,
        source is MicOnly <==> capture_source_shown(source) is MicOnly,
        source is SystemOnly <==> capture_source_shown(source) is SystemOnly,
        source is Mixed <==> capture_source_shown(source) is Mixed,
        kind is Input <==> device_type_shown(kind) is Input,
        kind is Output <==> device_type_shown(kind) is Output,
        state is Idle <==> capture_state_shown(state) is Idle,
        state is Capturing <==> capture_state_shown(state) is Capturing,
        state is Error <==> capture_state_shown(state) is Error,
        permission is Granted <==> permission_shown(permission) is Granted,
        permission is Denied <==> permission_shown(permission) is Denied,
        permission is NotDetermined <==> permission_shown(permission) is NotDetermined,
        permission is Unavailable <==> permission_shown(permission) is Unavailable,
{
}

/// A request for an engine or for a model keeps its meaning.
pub proof fn law_request_keeps_its_meaning(
    size: ModelSizeDto,
    engine: EngineKindDto,
    bundle: ParakeetVariantDto,
)
    ensures
        size is Tiny <==> model_size_of(size) is Tiny,
        size is Base <==> model_size_of(size) is Base,
        size is Small <==> model_size_of(size) is Small,
        size is Medium <==> model_size_of(size) is Medium,
        engine is Whisper <==> engine_kind_of(engine) is Whisper,
        engine is Parakeet <==> engine_kind_of(engine) is Parakeet,
        bundle is TdtV3 <==> parakeet_variant_of(bundle) is TdtV3,
        bundle is TdtV3Int8 <==> parakeet_variant_of(bundle) is TdtV3Int8,
{
}

} // verus!
