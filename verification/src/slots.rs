//! The two runtimes that can be live at once: one session and one dictation.

use vstd::prelude::*;

use crate::error::CommandError;
use crate::labels::LiveSourceKind;
use crate::text;

verus! {

/// The life of one runtime. It leaves `Idle` when it is started and comes back only when
/// it has finished everything, however it was stopped.
#[derive(Debug)]
pub enum RuntimeSlot<R> {
    Idle,
    /// A start was accepted and is being carried out.
    Starting,
    Running(R),
    /// A stop was asked for; what was recorded is still being worked on.
    Stopping(R),
}

impl<R> RuntimeSlot<R> {
    /// Whether nothing is live.
    pub fn is_idle(&self) -> (r: bool)
        ensures
            r == (self is Idle),
    {
        matches!(self, RuntimeSlot::Idle)
    }

    /// The runtime, while there is one.
    pub open spec fn live(self) -> Option<R> {
        match self {
            RuntimeSlot::Running(r) => Some(r),
            RuntimeSlot::Stopping(r) => Some(r),
            _ => None,
        }
    }

    /// The runtime, while there is one.
    pub fn runtime(&self) -> (r: Option<&R>)
        ensures
            match self.live() {
                Some(v) => r == Some(&v),
                None => r is None,
            },
            r is None <==> self is Idle || self is Starting,
            *self matches RuntimeSlot::Running(v) ==> r == Some(&v),
            *self matches RuntimeSlot::Stopping(v) ==> r == Some(&v),
    {
        match self {
            RuntimeSlot::Running(r) | RuntimeSlot::Stopping(r) => Some(r),
            _ => None,
        }
    }
}

/// The two runtimes.
#[derive(Debug)]
pub struct LiveTranscriptionSlots<R> {
    pub session: RuntimeSlot<R>,
    pub dictation: RuntimeSlot<R>,
}

/// What a stop did.
#[derive(Clone, Copy, Debug, PartialEq, Eq, Structural)]
pub enum StopStep {
    /// The runtime was running and is asked to stop.
    Requested,
    /// It was asked before.
    AlreadyStopping,
}

impl<R> LiveTranscriptionSlots<R> {
    /// The runtime of one kind.
    pub open spec fn of(self, kind: LiveSourceKind) -> RuntimeSlot<R> {
        match kind {
            LiveSourceKind::Session => self.session,
            LiveSourceKind::Dictation => self.dictation,
        }
    }

    /// The two with that of one kind replaced.
    pub open spec fn with(self, kind: LiveSourceKind, slot: RuntimeSlot<R>) -> Self {
        match kind {
            LiveSourceKind::Session => LiveTranscriptionSlots { session: slot, ..self },
            LiveSourceKind::Dictation => LiveTranscriptionSlots { dictation: slot, ..self },
        }
    }

    /// Nothing is live.
    pub fn new() -> (r: Self)
        ensures
            r.session is Idle,
            r.dictation is Idle,
    {
        LiveTranscriptionSlots { session: RuntimeSlot::Idle, dictation: RuntimeSlot::Idle }
    }

    /// The runtime of one kind.
    pub fn slot(&self, kind: LiveSourceKind) -> (r: &RuntimeSlot<R>)
        ensures
            *r == self.of(kind),
            kind is Session ==> *r == self.session,
            kind is Dictation ==> *r == self.dictation,
    {
        match kind {
            LiveSourceKind::Session => &self.session,
            LiveSourceKind::Dictation => &self.dictation,
        }
    }

    /// The runtime of one kind, to be changed.
    pub fn slot_mut(&mut self, kind: LiveSourceKind) -> (r: &mut RuntimeSlot<R>)
        ensures
            *r == old(self).of(kind),
            *final(self) == old(self).with(kind, *final(r)),
            kind is Session ==> final(self).session == *final(r) && final(self).dictation
                == old(self).dictation,
            kind is Dictation ==> final(self).dictation == *final(r) && final(self).session
                == old(self).session,
    {
        match kind {
            LiveSourceKind::Session => &mut self.session,
            LiveSourceKind::Dictation => &mut self.dictation,
        }
    }

    /// Whether anything is live.
    pub fn any_active(&self) -> (r: bool)
        ensures
            r == !(self.session is Idle && self.dictation is Idle),
    {
        !self.session.is_idle() || !self.dictation.is_idle()
    }

    /// What a refused start is told.
    pub open spec fn busy_text(kind: LiveSourceKind) -> Seq<char> {
        "live transcription ("@ + kind.name() + ") is already running or finalizing"@
    }

    /// Whether a runtime of this kind can be started: only where none of its kind is
    /// live, running or still finishing.
    pub fn may_start(&self, kind: LiveSourceKind) -> (r: Result<(), CommandError>)
        ensures
            r is Ok <==> self.of(kind) is Idle,
            r matches Err(e) ==> e.invalid(Self::busy_text(kind)),
    {
        if self.slot(kind).is_idle() {
            return Ok(());
        }
        let mut message: String = text::joined("live transcription (", kind.as_str());
        message.append(") is already running or finalizing");
        Err(CommandError::InvalidInput { message })
    }

    /// Puts a runtime in its place.
    pub fn started(&mut self, kind: LiveSourceKind, runtime: R)
        requires
            old(self).of(kind) is Idle || old(self).of(kind) is Starting,
        ensures
            *final(self) == old(self).with(kind, RuntimeSlot::Running(runtime)),
    {
        *self.slot_mut(kind) = RuntimeSlot::Running(runtime);
    }

    /// Asks a runtime to stop. Asking twice is as good as asking once.
    pub fn request_stop(&mut self, kind: LiveSourceKind) -> (r: Result<StopStep, CommandError>)
        ensures
            match old(self).of(kind) {
                RuntimeSlot::Running(rt) => r == Ok::<_, CommandError>(StopStep::Requested)
                    && *final(self) == old(self).with(kind, RuntimeSlot::Stopping(rt)),
                RuntimeSlot::Stopping(rt) => r == Ok::<_, CommandError>(StopStep::AlreadyStopping)
                    && *final(self) == *old(self),
                RuntimeSlot::Starting => *final(self) == *old(self) && (r matches Err(e)
                    && e.invalid("live transcription is still starting; cannot stop yet"@)),
                RuntimeSlot::Idle => *final(self) == *old(self) && (r matches Err(e) && e.invalid(
                    "live transcription ("@ + kind.name() + ") is not running"@,
                )),
            },
    {
        let mut taken: RuntimeSlot<R> = RuntimeSlot::Idle;
        core::mem::swap(&mut taken, self.slot_mut(kind));
        match taken {
            RuntimeSlot::Running(rt) => {
                *self.slot_mut(kind) = RuntimeSlot::Stopping(rt);
                Ok(StopStep::Requested)
            },
            RuntimeSlot::Stopping(rt) => {
                *self.slot_mut(kind) = RuntimeSlot::Stopping(rt);
                Ok(StopStep::AlreadyStopping)
            },
            RuntimeSlot::Starting => {
                *self.slot_mut(kind) = RuntimeSlot::Starting;
                Err(
                    CommandError::invalid_input(
                        "live transcription is still starting; cannot stop yet",
                    ),
                )
            },
            RuntimeSlot::Idle => {
                let mut message: String = text::joined("live transcription (", kind.as_str());
                message.append(") is not running");
                Err(CommandError::InvalidInput { message })
            },
        }
    }

    /// A runtime has finished everything: its place is free again, whether it was
    /// asked to stop or not.
    pub fn finished(&mut self, kind: LiveSourceKind)
        ensures
            *final(self) == old(self).with(kind, RuntimeSlot::Idle),
    {
        *self.slot_mut(kind) = RuntimeSlot::Idle;
    }

    /// Whether a start may forget who owned the microphone: a session's may, and only
    /// while no dictation is live.
    pub fn clears_mic_ownership(&self, kind: LiveSourceKind) -> (r: bool)
        ensures
            r == (kind is Session && self.dictation is Idle),
    {
        kind == LiveSourceKind::Session && self.dictation.is_idle()
    }

    /// Whether the engine can be shut down: only while nothing is live.
    pub fn may_shut_down_engine(&self) -> (r: Result<(), CommandError>)
        ensures
            r is Ok <==> self.session is Idle && self.dictation is Idle,
            r matches Err(e) ==> e.invalid(
                "live transcription is running; stop it before shutting down the engine"@,
            ),
    {
        if self.any_active() {
            return Err(
                CommandError::invalid_input(
                    "live transcription is running; stop it before shutting down the engine",
                ),
            );
        }
        Ok(())
    }
}

impl<R> Default for LiveTranscriptionSlots<R> {
    fn default() -> (r: Self)
        ensures
            r.session is Idle,
            r.dictation is Idle,
    {
        LiveTranscriptionSlots::new()
    }
}

/// From a start until it has finished, a kind of runtime cannot be started again; one
/// that has finished can. What happens to one kind leaves the other as it is.
pub proof fn law_one_runtime_of_a_kind<R>(
    s: LiveTranscriptionSlots<R>,
    kind: LiveSourceKind,
    other: LiveSourceKind,
    runtime: R,
)
    requires
        other != kind,
    ensures
        !(s.with(kind, RuntimeSlot::Running(runtime)).of(kind) is Idle),
        !(s.with(kind, RuntimeSlot::Stopping(runtime)).of(kind) is Idle),
        s.with(kind, RuntimeSlot::Idle).of(kind) is Idle,
        s.with(kind, RuntimeSlot::Running(runtime)).of(other) == s.of(other),
        s.with(kind, RuntimeSlot::Stopping(runtime)).of(other) == s.of(other),
        s.with(kind, RuntimeSlot::Idle).of(other) == s.of(other),
{
}

} // verus!
