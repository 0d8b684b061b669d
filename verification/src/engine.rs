//! Bringing an engine up: whether a request fits what is already there, and which model
//! it needs.

use vstd::prelude::*;

use crate::error::CommandError;
use crate::model::{EngineKind, ModelSize, ParakeetVariant};
use crate::text;

verus! {

/// What an engine was brought up for.
#[derive(Clone, Copy, Debug, PartialEq, Eq, Structural)]
pub struct EngineConfig {
    pub kind: EngineKind,
    pub whisper_model: Option<ModelSize>,
    pub parakeet_variant: Option<ParakeetVariant>,
    pub diarization: bool,
}

/// What a request to bring an engine up comes to.
#[derive(Clone, Copy, Debug, PartialEq, Eq, Structural)]
pub enum InitDecision {
    /// There is no engine: bring it up.
    Build,
    /// The engine that is asked for is there.
    AlreadyThere,
    /// Another one is there.
    Conflict,
}

/// What a request to bring an engine up comes to.
pub open spec fn init_decision(existing: Option<EngineConfig>, requested: EngineConfig) ->
    InitDecision {
    match existing {
        None => InitDecision::Build,
        Some(c) => if c == requested {
            InitDecision::AlreadyThere
        } else {
            InitDecision::Conflict
        },
    }
}

/// What a request to bring an engine up comes to. It is asked before the engine is built;
/// [`place_engine`] asks again when the engine is to be put in its place, since another
/// request may have been faster.
pub fn decide_init(existing: Option<EngineConfig>, requested: EngineConfig) -> (r: InitDecision)
    ensures
        r == init_decision(existing, requested),
        r is Build <==> existing is None,
        r is AlreadyThere <==> existing == Some(requested),
{
    match existing {
        None => InitDecision::Build,
        Some(c) => if c == requested {
            InitDecision::AlreadyThere
        } else {
            InitDecision::Conflict
        },
    }
}

/// The engine that is there once a request has been served.
pub open spec fn engine_after(existing: Option<EngineConfig>, requested: EngineConfig) -> Option<
    EngineConfig,
> {
    match existing {
        Some(c) => Some(c),
        None => Some(requested),
    }
}

/// Puts an engine that was built in its place, where there is none. Otherwise the one
/// that is there stays, and the new one has to go again.
pub fn place_engine(current: &mut Option<EngineConfig>, requested: EngineConfig) -> (r:
    InitDecision)
    ensures
        r == init_decision(*old(current), requested),
        *final(current) == engine_after(*old(current), requested),
        r is Build <==> *old(current) is None,
        r is AlreadyThere <==> *old(current) == Some(requested),
        *old(current) is None ==> *final(current) == Some(requested),
        *old(current) is Some ==> *final(current) == *old(current),
{
    let decision = decide_init(*current, requested);
    if decision == InitDecision::Build {
        *current = Some(requested);
    }
    decision
}

/// What the caller of an init is told where the engine is not built: success where the
/// engine that was asked for is there, an error where another one is.
pub fn init_reply(decision: InitDecision) -> (r: Result<(), CommandError>)
    ensures
        r is Err <==> decision is Conflict,
        r matches Err(e) ==> e.invalid(
            "engine already initialized with a different config; call shutdown_transcription_client first"@,
        ),
{
    match decision {
        InitDecision::Conflict => Err(
            CommandError::invalid_input(
                "engine already initialized with a different config; call shutdown_transcription_client first",
            ),
        ),
        _ => Ok(()),
    }
}

/// An init reports success exactly where it leaves the engine that was asked for: the one
/// that was there, or the one that was built. An engine that is there is never replaced.
pub proof fn law_init_is_single_valued(existing: Option<EngineConfig>, requested: EngineConfig)
    ensures
        init_decision(existing, requested) !is Conflict <==> engine_after(existing, requested)
            == Some(requested),
        existing is Some ==> engine_after(existing, requested) == existing,
{
}

/// The model that an engine loads.
#[derive(Clone, Copy, Debug, PartialEq, Eq, Structural)]
pub enum ModelChoice {
    Whisper(ModelSize),
    Parakeet(ParakeetVariant),
}

/// The model that a request names for its engine.
pub fn required_model(config: &EngineConfig) -> (r: Result<ModelChoice, CommandError>)
    ensures
        match config.kind {
            EngineKind::Whisper => match config.whisper_model {
                Some(m) => r == Ok::<_, CommandError>(ModelChoice::Whisper(m)),
                None => r matches Err(e) && e.missing(
                    "whisper_model required when engine=Whisper"@,
                ),
            },
            EngineKind::Parakeet => match config.parakeet_variant {
                Some(v) => r == Ok::<_, CommandError>(ModelChoice::Parakeet(v)),
                None => r matches Err(e) && e.missing(
                    "parakeet_variant required when engine=Parakeet"@,
                ),
            },
        },
{
    match config.kind {
        EngineKind::Whisper => match config.whisper_model {
            Some(m) => Ok(ModelChoice::Whisper(m)),
            None => Err(CommandError::not_found("whisper_model required when engine=Whisper")),
        },
        EngineKind::Parakeet => match config.parakeet_variant {
            Some(v) => Ok(ModelChoice::Parakeet(v)),
            None => Err(
                CommandError::not_found("parakeet_variant required when engine=Parakeet"),
            ),
        },
    }
}

/// What is said of a model that is not on disk.
pub open spec fn not_downloaded(choice: ModelChoice) -> Seq<char> {
    match choice {
        ModelChoice::Whisper(m) => "whisper model "@ + (match m {
            ModelSize::Tiny => "Tiny"@,
            ModelSize::Base => "Base"@,
            ModelSize::Small => "Small"@,
            ModelSize::Medium => "Medium"@,
        }) + " not downloaded"@,
        ModelChoice::Parakeet(v) => "parakeet variant "@ + (match v {
            ParakeetVariant::TdtV3 => "TdtV3"@,
            ParakeetVariant::TdtV3Int8 => "TdtV3Int8"@,
        }) + " not downloaded"@,
    }
}

/// Accepts a model that is on disk.
pub fn check_downloaded(choice: ModelChoice, downloaded: bool) -> (r: Result<(), CommandError>)
    ensures
        r is Ok <==> downloaded,
        r matches Err(e) ==> e.missing(not_downloaded(choice)),
{
    if downloaded {
        return Ok(());
    }
    let mut message: String = match choice {
        ModelChoice::Whisper(m) => text::joined(
            "whisper model ",
            match m {
                ModelSize::Tiny => "Tiny",
                ModelSize::Base => "Base",
                ModelSize::Small => "Small",
                ModelSize::Medium => "Medium",
            },
        ),
        ModelChoice::Parakeet(v) => text::joined(
            "parakeet variant ",
            match v {
                ParakeetVariant::TdtV3 => "TdtV3",
                ParakeetVariant::TdtV3Int8 => "TdtV3Int8",
            },
        ),
    };
    message.append(" not downloaded");
    Err(CommandError::NotFound { message })
}

/// What an engine is given beside its model.
#[derive(Clone, Copy, Debug, PartialEq, Eq, Structural)]
pub struct EngineExtras {
    /// A detector of speech, where one can be had.
    pub vad_model: bool,
    /// A model that tells speakers apart, without which the engine is not brought up.
    pub sortformer: bool,
    /// A directory for compiled models.
    pub cache_dir: bool,
}

/// What an engine is given beside its model: Whisper a detector of speech; Parakeet a
/// cache, and where diarization is asked for the model that tells speakers apart.
pub fn engine_extras(config: &EngineConfig) -> (r: EngineExtras)
    ensures
        r == (EngineExtras {
            vad_model: config.kind is Whisper,
            sortformer: config.kind is Parakeet && config.diarization,
            cache_dir: config.kind is Parakeet,
        }),
{
    match config.kind {
        EngineKind::Whisper => EngineExtras { vad_model: true, sortformer: false, cache_dir: false },
        EngineKind::Parakeet => EngineExtras {
            vad_model: false,
            sortformer: config.diarization,
            cache_dir: true,
        },
    }
}

} // verus!
