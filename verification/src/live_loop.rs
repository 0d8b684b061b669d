//! The loop of a live transcription: what one pass does, in which order, when it ends,
//! and what is still flushed then.
//!
//! The runtime around it reads audio, runs the detector and the engine, and waits; each
//! function here takes what that brought and says what is next.

use vstd::prelude::*;

use crate::dispatch::{
    self, BufferPositions, ChunkTaskOutcome, DispatchStep, MicEdge, PreparedChunk,
    SourceAudioRange,
};
use crate::labels::{AudioSourceLabel, LiveSourceKind};
use crate::mic::{self, DictationMicSnapshot, MicWindow};
use crate::recording::{self, SessionWavState};
use crate::scheduler::{BusyKind, JobOrigin, TranscriptionScheduler};
use crate::single::{Single, SPAN_LIMIT};
use crate::vad::{self, SourceVadState, VadAction, VadTuning};

verus! {

// --- The order of one pass ---

/// Where a pass stands.
#[derive(Clone, Copy, Debug, PartialEq, Eq, Structural)]
pub enum TickStage {
    /// Wait for the next poll, a finished chunk, a device change or a stop.
    Wait,
    /// Read new audio for the detector and for the recording.
    Read,
    /// Run the detector.
    Score,
    /// Write the recording.
    Record,
    /// Look after the streams, take over the history's prompt, take in finished chunks.
    Settle,
    /// Poll the streams, follow the microphone, dispatch chunks.
    Dispatch,
    /// Forget a stale prompt, report whether the runtime is busy.
    Report,
    /// Leave the loop.
    Leave(LoopExit),
}

/// Why a loop ends.
#[derive(Clone, Copy, Debug, PartialEq, Eq, Structural)]
pub enum LoopExit {
    /// A stop was asked for.
    Stopped,
    /// A capture of both streams lost one of them for good.
    CaptureLost,
    /// The engine is dead.
    EngineDead,
}

/// What a stage came to.
#[derive(Clone, Copy, Debug, PartialEq, Eq, Structural)]
pub enum StageReport {
    /// It is done.
    Done,
    /// The stop itself arrived.
    StopArrived,
    /// The recording could not be brought to its rate: the rest of the pass is left out.
    ResampleFailed,
    /// A capture of both streams lost one of them for good.
    CaptureLost,
    /// A chunk came back with the news that the engine is dead.
    EngineDead,
}

/// The stage that follows. A stop that was asked for is noticed between any two stages up
/// to the dispatch; a dead engine ends the loop once the pass has dispatched.
pub open spec fn next_stage(at: TickStage, report: StageReport, stop_requested: bool) -> TickStage {
    match at {
        TickStage::Wait => if report is StopArrived || stop_requested {
            TickStage::Leave(LoopExit::Stopped)
        } else {
            TickStage::Read
        },
        TickStage::Read => if stop_requested {
            TickStage::Leave(LoopExit::Stopped)
        } else {
            TickStage::Score
        },
        TickStage::Score => if stop_requested {
            TickStage::Leave(LoopExit::Stopped)
        } else {
            TickStage::Record
        },
        TickStage::Record => if report is ResampleFailed {
            TickStage::Wait
        } else if stop_requested {
            TickStage::Leave(LoopExit::Stopped)
        } else {
            TickStage::Settle
        },
        TickStage::Settle => if report is CaptureLost {
            TickStage::Leave(LoopExit::CaptureLost)
        } else if stop_requested {
            TickStage::Leave(LoopExit::Stopped)
        } else {
            TickStage::Dispatch
        },
        TickStage::Dispatch => if report is EngineDead {
            TickStage::Leave(LoopExit::EngineDead)
        } else {
            TickStage::Report
        },
        TickStage::Report => TickStage::Wait,
        TickStage::Leave(e) => TickStage::Leave(e),
    }
}

/// The stage that follows.
pub fn advance(at: TickStage, report: StageReport, stop_requested: bool) -> (r: TickStage)
    ensures
        r == next_stage(at, report, stop_requested),
{
    match at {
        TickStage::Wait => if report == StageReport::StopArrived || stop_requested {
            TickStage::Leave(LoopExit::Stopped)
        } else {
            TickStage::Read
        },
        TickStage::Read => if stop_requested {
            TickStage::Leave(LoopExit::Stopped)
        } else {
            TickStage::Score
        },
        TickStage::Score => if stop_requested {
            TickStage::Leave(LoopExit::Stopped)
        } else {
            TickStage::Record
        },
        TickStage::Record => if report == StageReport::ResampleFailed {
            TickStage::Wait
        } else if stop_requested {
            TickStage::Leave(LoopExit::Stopped)
        } else {
            TickStage::Settle
        },
        TickStage::Settle => if report == StageReport::CaptureLost {
            TickStage::Leave(LoopExit::CaptureLost)
        } else if stop_requested {
            TickStage::Leave(LoopExit::Stopped)
        } else {
            TickStage::Dispatch
        },
        TickStage::Dispatch => if report == StageReport::EngineDead {
            TickStage::Leave(LoopExit::EngineDead)
        } else {
            TickStage::Report
        },
        TickStage::Report => TickStage::Wait,
        TickStage::Leave(e) => TickStage::Leave(e),
    }
}

/// Once a stop was asked for, no chunk is dispatched any more: from every stage but the
/// dispatch itself, what follows is not a dispatch.
pub proof fn law_stop_before_dispatch(at: TickStage, report: StageReport)
    ensures
        next_stage(at, report, true) != TickStage::Dispatch,
        at is Wait || at is Read || at is Score ==> next_stage(at, report, true)
            == TickStage::Leave(LoopExit::Stopped),
{
}

/// A loop that was left is not entered again.
pub proof fn law_leave_is_final(exit: LoopExit, report: StageReport, stop_requested: bool)
    ensures
        next_stage(TickStage::Leave(exit), report, stop_requested) == TickStage::Leave(exit),
{
}

/// A pass whose stages are all done, with no stop asked for, goes through every stage once,
/// in order, and then waits for the next: what is read is scored, recorded and settled
/// before anything is dispatched.
pub proof fn law_pass_goes_through_every_stage()
    ensures
        next_stage(TickStage::Wait, StageReport::Done, false) == TickStage::Read,
        next_stage(TickStage::Read, StageReport::Done, false) == TickStage::Score,
        next_stage(TickStage::Score, StageReport::Done, false) == TickStage::Record,
        next_stage(TickStage::Record, StageReport::Done, false) == TickStage::Settle,
        next_stage(TickStage::Settle, StageReport::Done, false) == TickStage::Dispatch,
        next_stage(TickStage::Dispatch, StageReport::Done, false) == TickStage::Report,
        next_stage(TickStage::Report, StageReport::Done, false) == TickStage::Wait,
{
}

/// A loop is left for a reason, and for the reason that it names: a stop that was asked for
/// or that arrived, a capture that was lost, or an engine that is dead. A lost capture and
/// a dead engine are always followed.
pub proof fn law_loop_is_left_for_a_reason(
    at: TickStage,
    report: StageReport,
    stop_requested: bool,
)
    requires
        !(at is Leave),
    ensures
        next_stage(at, report, stop_requested) == TickStage::Leave(LoopExit::Stopped)
            ==> stop_requested || report is StopArrived,
        next_stage(at, report, stop_requested) == TickStage::Leave(LoopExit::CaptureLost) <==> at
            is Settle && report is CaptureLost,
        next_stage(at, report, stop_requested) == TickStage::Leave(LoopExit::EngineDead) <==> at
            is Dispatch && report is EngineDead,
        at is Wait && report is StopArrived ==> next_stage(at, report, stop_requested)
            == TickStage::Leave(LoopExit::Stopped),
        at is Record && report is ResampleFailed ==> next_stage(at, report, stop_requested)
            == TickStage::Wait,
{
}

/// Whether a loop that ends reports that it stopped: one whose engine died has already
/// reported that.
pub fn reports_stopped(exit: LoopExit) -> (r: bool)
    ensures
        r == (exit !is EngineDead),
{
    exit != LoopExit::EngineDead
}

// --- Taking chunks in ---

/// The streams once the first `n` chunks came back, in order.
pub open spec fn settled_all(
    sources: Seq<SourceVadState>,
    outcomes: Seq<ChunkTaskOutcome>,
    n: nat,
) -> Seq<SourceVadState>
    decreases n,
{
    if n == 0 {
        sources
    } else {
        dispatch::settled(settled_all(sources, outcomes, (n - 1) as nat), outcomes[n - 1])
    }
}

/// Takes in the chunks that came back, in order. Returns whether one of them brought the
/// news that the engine is dead.
pub fn settle_outcomes(sources: &mut Vec<SourceVadState>, outcomes: Vec<ChunkTaskOutcome>) -> (r:
    StageReport)
    ensures
        final(sources)@ == settled_all(old(sources)@, outcomes@, outcomes@.len()),
        r == (if exists|i: int| 0 <= i < outcomes@.len() && (#[trigger] outcomes@[i]).sidecar_dead {
            StageReport::EngineDead
        } else {
            StageReport::Done
        }),
{
    let ghost all = outcomes@;
    let mut rest = outcomes;
    let mut dead: bool = false;
    let ghost mut done: int = 0;
    while rest.len() > 0
        invariant
            0 <= done <= all.len(),
            rest@ == all.skip(done),
            sources@ == settled_all(old(sources)@, all, done as nat),
            dead == (exists|i: int| 0 <= i < done && (#[trigger] all[i]).sidecar_dead),
        decreases rest@.len(),
    {
        let outcome = rest.remove(0);
        proof {
            assert(outcome == all[done]);
            assert(rest@ =~= all.skip(done + 1));
        }
        if dispatch::apply_outcome(sources, outcome) {
            dead = true;
        }
        proof {
            done = done + 1;
        }
    }
    assert(done == all.len());
    if dead {
        StageReport::EngineDead
    } else {
        StageReport::Done
    }
}

// --- Polling ---

/// The probabilities that one pass brought for one stream.
#[derive(Debug)]
pub struct SourceProbabilities {
    pub label: AudioSourceLabel,
    pub probs: Vec<Single>,
}

/// The probabilities of the first entry with this label; none where no entry has it.
pub open spec fn probs_for(batch: Seq<SourceProbabilities>, label: AudioSourceLabel) -> Seq<Single>
    decreases batch.len(),
{
    if batch.len() == 0 {
        Seq::empty()
    } else if batch[0].label == label {
        batch[0].probs@
    } else {
        probs_for(batch.drop_first(), label)
    }
}

/// Polls one stream with the probabilities that one pass brought for it.
fn poll_one(
    source: &mut SourceVadState,
    batch: &Vec<SourceProbabilities>,
    tuning: &VadTuning,
    now: u64,
) -> (r: VadAction)
    requires
        tuning.wf(),
    ensures
        (*final(source), r) == vad::polled_source(
            *old(source),
            probs_for(batch@, old(source).label),
            *tuning,
            now,
        ),
        old(source).wf() ==> final(source).wf(),
{
    let label: AudioSourceLabel = source.label;
    let mut i: usize = 0;
    assert(batch@.skip(0) =~= batch@);
    while i < batch.len() && batch[i].label != label
        invariant
            i <= batch@.len(),
            probs_for(batch@, label) == probs_for(batch@.skip(i as int), label),
        decreases batch@.len() - i,
    {
        assert(batch@.skip(i as int).drop_first() =~= batch@.skip(i + 1));
        i = i + 1;
    }
    if i < batch.len() {
        assert(batch@.skip(i as int)[0] == batch@[i as int]);
        vad::poll_source(source, batch[i].probs.as_slice(), tuning, now)
    } else {
        let none: Vec<Single> = Vec::new();
        vad::poll_source(source, none.as_slice(), tuning, now)
    }
}

/// Polls every stream, also those with a chunk on its way, so that what is said meanwhile
/// is not lost. Returns, stream by stream, what is asked for and in which class.
pub fn poll_sources(
    sources: &mut Vec<SourceVadState>,
    batch: &Vec<SourceProbabilities>,
    kind: LiveSourceKind,
    tuning: &VadTuning,
    now: u64,
) -> (r: Vec<(VadAction, JobOrigin)>)
    requires
        tuning.wf(),
    ensures
        final(sources)@.len() == old(sources)@.len(),
        r@.len() == old(sources)@.len(),
        forall|i: int|
            0 <= i < r@.len() ==> {
                &&& (final(sources)@[i], (#[trigger] r@[i]).0) == vad::polled_source(
                    old(sources)@[i],
                    probs_for(batch@, old(sources)@[i].label),
                    *tuning,
                    now,
                )
                &&& r@[i].1 == vad::chunk_origin(kind, old(sources)@[i].label)
            },
        (forall|i: int| 0 <= i < old(sources)@.len() ==> (#[trigger] old(sources)@[i]).wf()) ==> (
        forall|i: int| 0 <= i < final(sources)@.len() ==> (#[trigger] final(sources)@[i]).wf()),
{
    let ghost before = sources@;
    let mut out: Vec<(VadAction, JobOrigin)> = Vec::new();
    let mut i: usize = 0;
    while i < sources.len()
        invariant
            tuning.wf(),
            i <= sources@.len() == before.len(),
            out@.len() == i,
            forall|k: int|
                0 <= k < i ==> {
                    &&& (sources@[k], (#[trigger] out@[k]).0) == vad::polled_source(
                        before[k],
                        probs_for(batch@, before[k].label),
                        *tuning,
                        now,
                    )
                    &&& out@[k].1 == vad::chunk_origin(kind, before[k].label)
                },
            forall|k: int| i <= k < before.len() ==> sources@[k] == before[k],
            forall|k: int|
                0 <= k < i ==> (before[k].wf() ==> (#[trigger] sources@[k]).wf()),
        decreases sources@.len() - i,
    {
        let origin: JobOrigin = vad::origin_of_chunk(kind, sources[i].label);
        let action: VadAction = poll_one(&mut sources[i], batch, tuning, now);
        out.push((action, origin));
        i = i + 1;
    }
    out
}

// --- One pass over the streams ---

/// What one pass does for a stream: first what a change of the microphone's owner asks,
/// next what its state machine asks.
#[derive(Clone, Copy, Debug, PartialEq, Eq, Structural)]
pub struct StreamPlan {
    pub edge: MicEdge,
    pub step: DispatchStep,
    /// The class of a chunk that the step cuts.
    pub origin: JobOrigin,
}

/// What one pass does for a stream that was polled. A stream that dictation has is left
/// alone, and one that dictation gives back starts anew where it goes on.
pub open spec fn stream_plan(
    kind: LiveSourceKind,
    s: SourceVadState,
    action: VadAction,
    windows: DictationMicSnapshot,
) -> StreamPlan {
    let edge = dispatch::mic_edge(kind, s, windows);
    StreamPlan {
        edge,
        step: match edge {
            MicEdge::Taken { .. } => DispatchStep::Suspended,
            MicEdge::GivenBack { .. } => DispatchStep::Keep,
            MicEdge::Steady => if dispatch::gated(kind, s.label) && s.dictation_was_active {
                DispatchStep::Suspended
            } else {
                dispatch::dispatch_step(s, action)
            },
        },
        origin: vad::chunk_origin(kind, s.label),
    }
}

/// The stream once a pass has planned for it: it knows that dictation took the
/// microphone.
pub open spec fn noted(s: SourceVadState, edge: MicEdge) -> SourceVadState {
    if edge is Taken {
        SourceVadState { dictation_was_active: true, ..s }
    } else {
        s
    }
}

/// What one pass does for a stream that was polled.
fn plan_one(
    source: &mut SourceVadState,
    action: VadAction,
    kind: LiveSourceKind,
    windows: &DictationMicSnapshot,
) -> (r: StreamPlan)
    ensures
        r == stream_plan(kind, *old(source), action, *windows),
        *final(source) == noted(*old(source), r.edge),
{
    let edge: MicEdge = dispatch::decide_mic_edge(kind, source, windows);
    let step: DispatchStep = match edge {
        MicEdge::Taken { .. } => DispatchStep::Suspended,
        MicEdge::GivenBack { .. } => DispatchStep::Keep,
        MicEdge::Steady => if kind == LiveSourceKind::Session && source.label
            == AudioSourceLabel::Mic && source.dictation_was_active {
            DispatchStep::Suspended
        } else {
            dispatch::decide_dispatch(source, action)
        },
    };
    if let MicEdge::Taken { .. } = edge {
        source.dictation_was_active = true;
    }
    StreamPlan { edge, step, origin: vad::origin_of_chunk(kind, source.label) }
}

/// Polls every stream and plans what the pass does for each, around the windows of
/// dictation.
pub fn plan_pass(
    sources: &mut Vec<SourceVadState>,
    batch: &Vec<SourceProbabilities>,
    kind: LiveSourceKind,
    tuning: &VadTuning,
    windows: &DictationMicSnapshot,
    now: u64,
) -> (r: Vec<StreamPlan>)
    requires
        tuning.wf(),
    ensures
        final(sources)@.len() == old(sources)@.len(),
        r@.len() == old(sources)@.len(),
        forall|i: int|
            0 <= i < r@.len() ==> {
                let polled = vad::polled_source(
                    old(sources)@[i],
                    probs_for(batch@, old(sources)@[i].label),
                    *tuning,
                    now,
                );
                &&& #[trigger] r@[i] == stream_plan(kind, polled.0, polled.1, *windows)
                &&& final(sources)@[i] == noted(polled.0, r@[i].edge)
                &&& final(sources)@[i].dictation_was_active == (polled.0.dictation_was_active
                    || r@[i].edge is Taken)
            },
        (forall|i: int| 0 <= i < old(sources)@.len() ==> (#[trigger] old(sources)@[i]).wf()) ==> (
        forall|i: int| 0 <= i < final(sources)@.len() ==> (#[trigger] final(sources)@[i]).wf()),
{
    let ghost before = sources@;
    let actions: Vec<(VadAction, JobOrigin)> = poll_sources(sources, batch, kind, tuning, now);
    let ghost after_poll = sources@;
    let mut out: Vec<StreamPlan> = Vec::new();
    let mut i: usize = 0;
    while i < sources.len()
        invariant
            i <= sources@.len() == after_poll.len() == actions@.len(),
            out@.len() == i,
            forall|k: int| i <= k < after_poll.len() ==> sources@[k] == after_poll[k],
            forall|k: int|
                0 <= k < i ==> {
                    &&& #[trigger] out@[k] == stream_plan(
                        kind,
                        after_poll[k],
                        actions@[k].0,
                        *windows,
                    )
                    &&& sources@[k] == noted(after_poll[k], out@[k].edge)
                },
        decreases sources@.len() - i,
    {
        let plan: StreamPlan = plan_one(&mut sources[i], actions[i].0, kind, windows);
        out.push(plan);
        i = i + 1;
    }
    proof {
        assert forall|k: int| 0 <= k < out@.len() implies {
            let polled = vad::polled_source(
                before[k],
                probs_for(batch@, before[k].label),
                *tuning,
                now,
            );
            &&& #[trigger] out@[k] == stream_plan(kind, polled.0, polled.1, *windows)
            &&& sources@[k] == noted(polled.0, out@[k].edge)
        } by {
            assert((after_poll[k], actions@[k].0) == vad::polled_source(
                before[k],
                probs_for(batch@, before[k].label),
                *tuning,
                now,
            ));
        }
        if forall|k: int| 0 <= k < before.len() ==> (#[trigger] before[k]).wf() {
            assert forall|k: int| 0 <= k < sources@.len() implies (#[trigger] sources@[k]).wf() by {
                assert(sources@[k] == noted(after_poll[k], out@[k].edge));
                assert(after_poll[k].wf());
            }
        }
    }
    out
}

/// A stream that is its runtime's own does what its state machine asks: a chunk is cut
/// where a pause ended it or speech went on for too long, unless one is still on its way;
/// a silent stream without one moves up; and nothing is cut without being asked for. Only
/// dictation's microphone goes in front of the others.
pub proof fn law_plan_follows_the_state_machine(
    kind: LiveSourceKind,
    s: SourceVadState,
    action: VadAction,
    windows: DictationMicSnapshot,
)
    requires
        !(kind is Session && s.label is Mic),
    ensures
        ({
            let plan = stream_plan(kind, s, action, windows);
            &&& plan.edge is Steady
            &&& action is Chunk && !s.has_in_flight_task ==> plan.step == (DispatchStep::Dispatch {
                force: false,
            })
            &&& action is ForceChunk && !s.has_in_flight_task ==> plan.step == (
            DispatchStep::Dispatch { force: true })
            &&& s.has_in_flight_task ==> plan.step is Keep
            &&& action is Hold ==> !(plan.step is Dispatch)
            &&& plan.step is AdvanceIdle <==> action is Hold && !s.is_speaking
                && !s.has_in_flight_task
            &&& plan.origin == JobOrigin::Dictation <==> kind is Dictation && s.label is Mic
            &&& plan.origin == JobOrigin::Live <==> !(kind is Dictation && s.label is Mic)
        }),
{
}

/// A stream hears the probabilities that are its own: those of the first entry with its
/// label, whatever the others hold.
pub proof fn law_stream_hears_its_own(
    batch: Seq<SourceProbabilities>,
    label: AudioSourceLabel,
    i: int,
)
    requires
        0 <= i < batch.len(),
        batch[i].label == label,
        forall|k: int| 0 <= k < i ==> (#[trigger] batch[k]).label != label,
    ensures
        probs_for(batch, label) == batch[i].probs@,
    decreases i,
{
    if i > 0 {
        let rest = batch.drop_first();
        assert(batch[0].label != label);
        assert(rest[i - 1] == batch[i]);
        assert forall|k: int| 0 <= k < i - 1 implies (#[trigger] rest[k]).label != label by {
            assert(rest[k] == batch[k + 1]);
        }
        law_stream_hears_its_own(rest, label, i - 1);
    }
}

// --- Windows that every reader has passed ---

/// Before which position neither the stream nor the file of a session reads any more: the
/// smallest of the stream's cursor, of where its next chunk may begin at the earliest, and
/// of up to where the file has been written. Whoever is not there does not count.
pub open spec fn passed_by(stream: Option<SourceVadState>, written: Option<usize>) -> u64 {
    let heard: u64 = match stream {
        Some(s) => if s.cursor <= s.earliest_next_chunk_pos {
            s.cursor as u64
        } else {
            s.earliest_next_chunk_pos as u64
        },
        None => u64::MAX,
    };
    match written {
        Some(w) => if w <= heard {
            w as u64
        } else {
            heard
        },
        None => heard,
    }
}

/// The stream of the microphone, if there is one.
pub open spec fn mic_stream(sources: Seq<SourceVadState>) -> Option<SourceVadState> {
    let i = dispatch::place_of(sources, AudioSourceLabel::Mic);
    if i < sources.len() {
        Some(sources[i as int])
    } else {
        None
    }
}

/// Before which position the windows of dictation can be dropped: behind every reader of
/// a session. A dictation drops none.
pub fn prune_point(
    kind: LiveSourceKind,
    sources: &Vec<SourceVadState>,
    recording: Option<&SessionWavState>,
) -> (r: u64)
    ensures
        kind is Session ==> r == passed_by(
            mic_stream(sources@),
            match recording {
                Some(w) => w.mic_written(),
                None => None,
            },
        ),
        kind is Dictation ==> r == 0,
        kind is Session ==> forall|i: int|
            0 <= i < sources@.len() && (#[trigger] sources@[i]).label is Mic && (forall|k: int|
                0 <= k < i ==> !((#[trigger] sources@[k]).label is Mic)) ==> r <= sources@[i].cursor
                && r <= sources@[i].earliest_next_chunk_pos,
        recording matches Some(w) ==> (w.source !is SystemOnly ==> r
            <= w.flush_positions.mic_pos),
        kind is Session && (recording matches Some(w) ==> w.source is SystemOnly) && (forall|k: int|
            0 <= k < sources@.len() ==> !((#[trigger] sources@[k]).label is Mic)) ==> r
            == u64::MAX,
{
    proof {
        assert forall|i: int|
            0 <= i < sources@.len() && (#[trigger] sources@[i]).label is Mic && (forall|k: int|
                0 <= k < i ==> !((#[trigger] sources@[k]).label is Mic)) implies dispatch::place_of(
            sources@,
            AudioSourceLabel::Mic,
        ) == i by {
            dispatch::lemma_first_place(sources@, AudioSourceLabel::Mic, i);
        }
    }
    if kind == LiveSourceKind::Dictation {
        return 0;
    }
    let heard: u64 = match dispatch::find_source(sources, AudioSourceLabel::Mic) {
        Some(i) => {
            let cursor: usize = sources[i].cursor;
            let earliest: usize = sources[i].earliest_next_chunk_pos;
            if cursor <= earliest {
                cursor as u64
            } else {
                earliest as u64
            }
        },
        None => u64::MAX,
    };
    match recording {
        Some(w) => if w.source.reads_mic() && w.flush_positions.mic_pos as u64 <= heard {
            w.flush_positions.mic_pos as u64
        } else {
            heard
        },
        None => heard,
    }
}

/// Windows are dropped only where every reader has passed: behind no stream of the
/// microphone and behind no file, and right up to the last of them.
pub proof fn law_prune_point_is_behind_every_reader(
    stream: Option<SourceVadState>,
    written: Option<usize>,
)
    ensures
        stream matches Some(s) ==> passed_by(stream, written) <= s.cursor && passed_by(
            stream,
            written,
        ) <= s.earliest_next_chunk_pos,
        written matches Some(w) ==> passed_by(stream, written) <= w,
        passed_by(stream, written) == u64::MAX || (stream matches Some(s) && (passed_by(
            stream,
            written,
        ) == s.cursor || passed_by(stream, written) == s.earliest_next_chunk_pos)) || (
        written matches Some(w) && passed_by(stream, written) == w),
{
}

// --- Busy ---

/// Raises or lowers the flags of a runtime of this kind, and only those. Returns whether
/// the worker has to look again.
pub fn set_runtime_busy<R>(
    scheduler: &mut TranscriptionScheduler<R>,
    kind: LiveSourceKind,
    busy: bool,
) -> (wake: bool)
    requires
        old(scheduler).wf(),
    ensures
        final(scheduler).wf(),
        wake == (old(scheduler).any_busy() != final(scheduler).any_busy()),
        kind is Session ==> {
            &&& final(scheduler).busy(BusyKind::LiveMic) == busy
            &&& final(scheduler).busy(BusyKind::LiveSystem) == busy
            &&& final(scheduler).busy(BusyKind::Dictation) == old(scheduler).busy(
                BusyKind::Dictation,
            )
        },
        kind is Dictation ==> {
            &&& final(scheduler).busy(BusyKind::Dictation) == busy
            &&& final(scheduler).busy(BusyKind::LiveMic) == old(scheduler).busy(BusyKind::LiveMic)
            &&& final(scheduler).busy(BusyKind::LiveSystem) == old(scheduler).busy(
                BusyKind::LiveSystem,
            )
        },
        final(scheduler).jobs() == old(scheduler).jobs(),
        final(scheduler).life() == old(scheduler).life(),
{
    match kind {
        LiveSourceKind::Session => scheduler.set_live_busy(busy),
        LiveSourceKind::Dictation => scheduler.set_busy(BusyKind::Dictation, busy),
    }
}

// --- The end ---

/// What is done, in this order, once a loop was left.
#[derive(Clone, Copy, Debug, PartialEq, Eq, Structural)]
pub enum EndStage {
    /// Wait until the tail that the stop grants has been recorded.
    AwaitTail,
    /// Copy what is not transcribed yet, up to where the stop ended each stream.
    CopyPending,
    /// Write the recording up to where the stop ended each stream.
    RecordToStop,
    /// Wait for the chunks that are on their way.
    DrainChunks,
    /// Transcribe what was copied.
    SendCopied,
    /// Transcribe what is there and not transcribed yet.
    SendPending,
    /// Write the recording up to what is there.
    RecordRest,
    /// Take the runtime's busy flags back.
    ClearBusy,
    /// Close the recording.
    CloseRecording,
    /// Wait for the history, and give it up where it takes too long.
    AwaitHistory,
    /// Report that the runtime stopped.
    ReportStopped,
}

/// The first stages of an end. After a stop, what is pending is put into safety before
/// anything is waited for: the buffers go on being written and do not keep it.
pub open spec fn end_of_streams(exit: LoopExit, recording: bool) -> Seq<EndStage> {
    if exit is Stopped {
        if recording {
            seq![
                EndStage::AwaitTail,
                EndStage::CopyPending,
                EndStage::RecordToStop,
                EndStage::DrainChunks,
                EndStage::SendCopied,
            ]
        } else {
            seq![
                EndStage::AwaitTail,
                EndStage::CopyPending,
                EndStage::DrainChunks,
                EndStage::SendCopied,
            ]
        }
    } else if recording {
        seq![EndStage::DrainChunks, EndStage::SendPending, EndStage::RecordRest]
    } else {
        seq![EndStage::DrainChunks, EndStage::SendPending]
    }
}

/// One stage, where it takes place at all.
pub open spec fn stage_if(stage: EndStage, takes_place: bool) -> Seq<EndStage> {
    if takes_place {
        seq![stage]
    } else {
        seq![]
    }
}

/// All stages of an end. A recording is closed only where there is one, a history waited
/// for only where one is worked on, and a dead engine has already been reported.
pub open spec fn end_stages(exit: LoopExit, recording: bool, history: bool) -> Seq<EndStage> {
    end_of_streams(exit, recording) + seq![EndStage::ClearBusy] + stage_if(
        EndStage::CloseRecording,
        recording,
    ) + stage_if(EndStage::AwaitHistory, history) + stage_if(
        EndStage::ReportStopped,
        exit !is EngineDead,
    )
}

/// What is done, in this order, once a loop was left.
pub fn plan_end(exit: LoopExit, recording: bool, history: bool) -> (r: Vec<EndStage>)
    ensures
        r@ == end_stages(exit, recording, history),
{
    let mut out: Vec<EndStage> = Vec::new();
    if exit == LoopExit::Stopped {
        out.push(EndStage::AwaitTail);
        out.push(EndStage::CopyPending);
        if recording {
            out.push(EndStage::RecordToStop);
        }
        out.push(EndStage::DrainChunks);
        out.push(EndStage::SendCopied);
    } else {
        out.push(EndStage::DrainChunks);
        out.push(EndStage::SendPending);
        if recording {
            out.push(EndStage::RecordRest);
        }
    }
    assert(out@ =~= end_of_streams(exit, recording));
    out.push(EndStage::ClearBusy);
    if recording {
        out.push(EndStage::CloseRecording);
    }
    if history {
        out.push(EndStage::AwaitHistory);
    }
    if reports_stopped(exit) {
        out.push(EndStage::ReportStopped);
    }
    assert(out@ =~= end_stages(exit, recording, history));
    out
}

/// Whatever ends a loop, nothing is written into a recording that was closed, the flags
/// are taken back, and a report that the runtime stopped comes last of all.
#[verifier::spinoff_prover]
#[verifier::rlimit(50)]
pub proof fn law_end_keeps_order(
    exit: LoopExit,
    recording: bool,
    history: bool,
    i: int,
    j: int,
)
    requires
        0 <= i < end_stages(exit, recording, history).len(),
        0 <= j < end_stages(exit, recording, history).len(),
    ensures
        ({
            let s = end_stages(exit, recording, history);
            &&& s.contains(EndStage::ClearBusy)
            &&& s[i] is CloseRecording && (s[j] is RecordToStop || s[j] is RecordRest) ==> j < i
            &&& s[i] is ReportStopped ==> i == s.len() - 1
            &&& s[i] == s[j] ==> i == j
        }),
{
    let s = end_stages(exit, recording, history);
    assert(s[end_of_streams(exit, recording).len() as int] == EndStage::ClearBusy);
}

/// After a stop, what was said before it is copied before any chunk is waited for, and
/// sent only once every earlier chunk is back, so that the transcript keeps its order.
#[verifier::spinoff_prover]
#[verifier::rlimit(50)]
pub proof fn law_stop_copies_before_waiting(recording: bool, history: bool, i: int, j: int)
    requires
        0 <= i < end_stages(LoopExit::Stopped, recording, history).len(),
        0 <= j < end_stages(LoopExit::Stopped, recording, history).len(),
        end_stages(LoopExit::Stopped, recording, history)[i] is DrainChunks,
    ensures
        ({
            let s = end_stages(LoopExit::Stopped, recording, history);
            &&& s[j] is CopyPending || s[j] is RecordToStop ==> j < i
            &&& s[j] is SendCopied ==> i < j
            &&& s[j] !is SendPending && s[j] !is RecordRest
        }),
{
}

#[verifier::spinoff_prover]
#[verifier::rlimit(50)]
proof fn lemma_end_stage(exit: LoopExit, recording: bool, history: bool, i: int)
    requires
        0 <= i < end_stages(exit, recording, history).len(),
    ensures
        ({
            let s = end_stages(exit, recording, history);
            let n = end_of_streams(exit, recording).len();
            &&& s[i] is AwaitTail || s[i] is CopyPending || s[i] is SendCopied ==> exit is Stopped
            &&& s[i] is SendPending ==> !(exit is Stopped)
            &&& s[i] is RecordToStop ==> recording && exit is Stopped
            &&& s[i] is RecordRest ==> recording && !(exit is Stopped)
            &&& s[i] is CloseRecording ==> recording
            &&& s[i] is AwaitHistory ==> history
            &&& s[i] is ReportStopped ==> exit !is EngineDead
            &&& s[i] is CopyPending || s[i] is SendPending ==> i == 1
            &&& s[i] is SendCopied ==> i == n - 1 && n >= 4
            &&& s[i] is DrainChunks ==> i == (if exit is Stopped {
                n - 2
            } else {
                0
            })
        }),
{
    if exit is Stopped {
        if recording {
        } else {
        }
    } else {
        if recording {
        } else {
        }
    }
}

/// However a loop ends, what is not transcribed yet is sent, chunks that are on their way
/// are waited for before, a recording is written to its end and closed, and a history is
/// waited for; after a stop its tail is granted first. The end is reported unless the
/// engine is dead.
#[verifier::spinoff_prover]
#[verifier::rlimit(50)]
pub proof fn law_end_leaves_nothing_undone(exit: LoopExit, recording: bool, history: bool)
    ensures
        ({
            let s = end_stages(exit, recording, history);
            &&& s.contains(EndStage::DrainChunks)
            &&& exit is Stopped <==> s.contains(EndStage::SendCopied)
            &&& exit is Stopped <==> s.contains(EndStage::CopyPending)
            &&& exit is Stopped <==> s[0] == EndStage::AwaitTail
            &&& exit is Stopped <==> !s.contains(EndStage::SendPending)
            &&& recording && exit is Stopped <==> s.contains(EndStage::RecordToStop)
            &&& recording && !(exit is Stopped) <==> s.contains(EndStage::RecordRest)
            &&& recording <==> s.contains(EndStage::CloseRecording)
            &&& history <==> s.contains(EndStage::AwaitHistory)
            &&& exit is EngineDead <==> !s.contains(EndStage::ReportStopped)
            &&& forall|i: int, j: int|
                0 <= i < s.len() && 0 <= j < s.len() && #[trigger] s[i] is DrainChunks && (
                #[trigger] s[j] is SendPending || s[j] is SendCopied) ==> i < j
            &&& forall|i: int, j: int|
                0 <= i < s.len() && 0 <= j < s.len() && #[trigger] s[i] is CopyPending
                    && #[trigger] s[j] is SendCopied ==> i < j
        }),
{
    let s = end_stages(exit, recording, history);
    let n = end_of_streams(exit, recording).len() as int;
    assert forall|i: int| 0 <= i < s.len() implies {
        &&& (#[trigger] s[i]) is AwaitTail || s[i] is CopyPending || s[i] is SendCopied
            ==> exit is Stopped
        &&& s[i] is SendPending ==> !(exit is Stopped)
        &&& s[i] is RecordToStop ==> recording && exit is Stopped
        &&& s[i] is RecordRest ==> recording && !(exit is Stopped)
        &&& s[i] is CloseRecording ==> recording
        &&& s[i] is AwaitHistory ==> history
        &&& s[i] is ReportStopped ==> exit !is EngineDead
        &&& s[i] is CopyPending || s[i] is SendPending ==> i == 1
        &&& s[i] is SendCopied ==> i == n - 1 && n >= 4
        &&& s[i] is DrainChunks ==> i == (if exit is Stopped {
            n - 2
        } else {
            0
        })
    } by {
        lemma_end_stage(exit, recording, history, i);
    }
    if exit is Stopped {
        assert(s[0] == EndStage::AwaitTail);
        assert(s[1] == EndStage::CopyPending);
        if recording {
            assert(s[2] == EndStage::RecordToStop);
        }
        assert(s[n - 2] == EndStage::DrainChunks);
        assert(s[n - 1] == EndStage::SendCopied);
    } else {
        assert(s[0] == EndStage::DrainChunks);
        assert(s[1] == EndStage::SendPending);
        if recording {
            assert(s[2] == EndStage::RecordRest);
        }
    }
    if recording {
        assert(s[n + 1] == EndStage::CloseRecording);
    }
    if history {
        assert(s[n + 1 + if recording {
            1int
        } else {
            0
        }] == EndStage::AwaitHistory);
    }
    if exit !is EngineDead {
        assert(s[s.len() - 1] == EndStage::ReportStopped);
    }
}

/// Whether the end of the history's work is announced: to the listeners of a session. A
/// session without history announces it at once.
pub fn announces_backfill_complete(kind: LiveSourceKind) -> (r: bool)
    ensures
        r == (kind is Session),
{
    kind == LiveSourceKind::Session
}

/// Whether a stream is left out of the last flush: a session's microphone, while it
/// belongs to dictation.
pub open spec fn left_out(
    kind: LiveSourceKind,
    label: AudioSourceLabel,
    windows: DictationMicSnapshot,
) -> bool {
    dispatch::gated(kind, label) && windows.open is Some
}

/// Whether a stream is left out of the last flush.
pub fn skip_final_flush(
    kind: LiveSourceKind,
    label: AudioSourceLabel,
    windows: &DictationMicSnapshot,
) -> (r: bool)
    ensures
        r == left_out(kind, label, *windows),
        r <==> kind is Session && label is Mic && windows.open is Some,
{
    kind == LiveSourceKind::Session && label == AudioSourceLabel::Mic && windows.open.is_some()
}

/// What the last flush reads next.
#[derive(Clone, Copy, Debug, PartialEq, Eq, Structural)]
pub struct FinalRange {
    pub start: usize,
    pub end: usize,
}

/// Where the last flush of a stream reads on from `from`: behind what belongs to
/// dictation. Nowhere where dictation has all of it.
pub open spec fn final_start(
    kind: LiveSourceKind,
    s: SourceVadState,
    windows: DictationMicSnapshot,
    from: usize,
) -> Option<usize> {
    if !dispatch::gated(kind, s.label) {
        Some(from)
    } else {
        match mic::next_free(windows.open, windows.closed@, from as int) {
            Some(p) => Some(dispatch::as_index(p)),
            None => None,
        }
    }
}

/// Up to where the last flush of a stream may read from `start`: where the stop ended the
/// stream, or where dictation begins.
pub open spec fn final_limit(
    kind: LiveSourceKind,
    s: SourceVadState,
    windows: DictationMicSnapshot,
    start: usize,
    stop: BufferPositions,
) -> usize {
    match mic::next_held(windows.open, windows.closed@, start as int) {
        Some(p) => if dispatch::gated(kind, s.label) && p < stop.of(s.label) {
            p as usize
        } else {
            stop.of(s.label)
        },
        None => stop.of(s.label),
    }
}

/// What the last flush reads next from `from`: one longest chunk, never beyond where the
/// stop ended the stream, and nothing that belongs to dictation; nothing where the end is
/// reached.
pub open spec fn final_bound(
    kind: LiveSourceKind,
    s: SourceVadState,
    windows: DictationMicSnapshot,
    from: usize,
    stop: BufferPositions,
    max_chunk: u128,
) -> Option<FinalRange> {
    match final_start(kind, s, windows, from) {
        Some(start) => if start >= stop.of(s.label) {
            None
        } else {
            let far = dispatch::saturated(
                start as nat,
                dispatch::max_raw_samples(max_chunk, s.source_sample_rate, s.source_channels),
            );
            let limit = final_limit(kind, s, windows, start, stop);
            Some(
                FinalRange {
                    start,
                    end: if far <= limit {
                        far as usize
                    } else {
                        limit
                    },
                },
            )
        },
        None => None,
    }
}

/// What the last flush reads next from `from`.
pub fn final_flush_until(
    kind: LiveSourceKind,
    source: &SourceVadState,
    windows: &DictationMicSnapshot,
    from: usize,
    stop: BufferPositions,
    max_chunk: u128,
) -> (r: Option<FinalRange>)
    requires
        max_chunk < SPAN_LIMIT,
    ensures
        r == final_bound(kind, *source, *windows, from, stop, max_chunk),
        r matches Some(f) ==> from <= f.start <= f.end <= stop.of(source.label),
        r matches Some(f) ==> (dispatch::gated(kind, source.label) ==> forall|p: int|
            f.start <= p < f.end ==> !#[trigger] mic::held(windows.open, windows.closed@, p)),
{
    let gated: bool = kind == LiveSourceKind::Session && source.label == AudioSourceLabel::Mic;
    let start: usize = if gated {
        match windows.first_free(from as u64) {
            Some(p) => if p > usize::MAX as u64 {
                usize::MAX
            } else {
                p as usize
            },
            None => {
                return None;
            },
        }
    } else {
        from
    };
    let stopped: usize = stop.get(source.label);
    if start >= stopped {
        return None;
    }
    let held: Option<u64> = windows.first_held(start as u64);
    let limit: usize = match held {
        Some(p) => if gated && p < stopped as u64 {
            p as usize
        } else {
            stopped
        },
        None => stopped,
    };
    let max_raw: usize = dispatch::max_raw_samples_for_duration(
        max_chunk,
        source.source_sample_rate,
        source.source_channels,
    );
    let far: usize = start.saturating_add(max_raw);
    Some(
        FinalRange {
            start,
            end: if far <= limit {
                far
            } else {
                limit
            },
        },
    )
}

proof fn lemma_all_held(open: Option<u64>, closed: Seq<MicWindow>, from: int, p: int)
    requires
        mic::next_free(open, closed, from) is None,
        from <= p,
    ensures
        mic::held(open, closed, p),
    decreases p - from,
{
    if !mic::held(open, closed, p) {
        assert forall|q: int| from <= q < p implies #[trigger] mic::held(open, closed, q) by {
            lemma_all_held(open, closed, from, q);
        }
        assert(mic::is_next_free(open, closed, from, p));
    }
}

/// The last flush leaves nothing out: what lies before the stretch that it reads next
/// belongs to dictation, all of it; the stretch ends where the stop ended the stream,
/// where dictation begins, or because it is as long as a chunk may be; it is not empty;
/// and there is none only where dictation has everything up to the stop.
pub proof fn law_last_flush_leaves_nothing_out(
    kind: LiveSourceKind,
    s: SourceVadState,
    windows: DictationMicSnapshot,
    from: usize,
    stop: BufferPositions,
    max_chunk: u128,
    p: int,
)
    requires
        from <= p < stop.of(s.label),
    ensures
        match final_bound(kind, s, windows, from, stop, max_chunk) {
            Some(f) => {
                let len = f.end - f.start;
                let longest = dispatch::max_raw_samples(
                    max_chunk,
                    s.source_sample_rate,
                    s.source_channels,
                );
                &&& p < f.start ==> kind is Session && s.label is Mic && mic::held(
                    windows.open,
                    windows.closed@,
                    p,
                )
                &&& 0 < len <= longest
                &&& f.end <= stop.of(s.label)
                &&& f.end == stop.of(s.label) || len == longest || (kind is Session && s.label
                    is Mic && mic::held(windows.open, windows.closed@, f.end as int))
            },
            None => kind is Session && s.label is Mic && mic::held(
                windows.open,
                windows.closed@,
                p,
            ),
        },
{
    dispatch::lemma_longest_chunk(max_chunk, s.source_sample_rate, s.source_channels);
    if dispatch::gated(kind, s.label) {
        if mic::next_free(windows.open, windows.closed@, from as int) is None {
            lemma_all_held(windows.open, windows.closed@, from as int, p);
        }
    }
}

/// What one reading of the last flush comes to.
#[derive(Clone, Copy, Debug, PartialEq, Eq, Structural)]
pub struct FinalStep {
    /// Whether the reading is long enough to be kept.
    pub keep: bool,
    /// Where to read on; nowhere where nothing was read or the reading did not move.
    pub next: Option<usize>,
}

/// What one reading of the last flush comes to.
pub fn final_flush_step(from: usize, extraction: Option<SourceAudioRange>) -> (r: FinalStep)
    ensures
        r.keep == dispatch::dispatches(extraction),
        r.next == (match extraction {
            Some(e) => if e.end_pos > from {
                Some(e.end_pos)
            } else {
                None
            },
            None => None,
        }),
        r.next matches Some(n) ==> n > from,
{
    match extraction {
        None => FinalStep { keep: false, next: None },
        Some(e) => FinalStep {
            keep: !dispatch::is_too_short(e.samples, e.sample_rate),
            next: if e.end_pos > from {
                Some(e.end_pos)
            } else {
                None
            },
        },
    }
}

/// Makes a chunk of a reading that the last flush kept. It is of the highest class and
/// takes the stream's next number and its text along; the stream's positions stay.
pub fn take_final_chunk(source: &mut SourceVadState, e: SourceAudioRange) -> (r: PreparedChunk)
    ensures
        final(source).accumulated_text@.len() == 0,
        *final(source) == (SourceVadState {
            accumulated_text: final(source).accumulated_text,
            chunk_index: old(source).chunk_index.wrapping_add(1),
            ..*old(source)
        }),
        dispatch::is_chunk(r, *old(source), e, e.end_pos, JobOrigin::FinalFlush),
        r.start_pos == e.start_pos && r.end_pos == e.end_pos,
        r.samples == e.samples && r.sample_rate == e.sample_rate,
        e.start_pos >= old(source).session_start_pos ==> r.samples_since_start
            + old(source).session_start_pos == e.start_pos,
        e.start_pos <= old(source).session_start_pos ==> r.samples_since_start == 0,
        r.chunk_index == old(source).chunk_index,
        r.source_label == old(source).label,
        r.accumulated_text@ == old(source).accumulated_text@,
        r.origin == JobOrigin::FinalFlush,
{
    let chunk_index: u32 = source.chunk_index;
    source.chunk_index = source.chunk_index.wrapping_add(1);
    let mut accumulated_text: String = String::new();
    core::mem::swap(&mut accumulated_text, &mut source.accumulated_text);
    PreparedChunk {
        samples: e.samples,
        sample_rate: e.sample_rate,
        start_pos: e.start_pos,
        end_pos: e.end_pos,
        samples_since_start: e.start_pos.saturating_sub(source.session_start_pos),
        source_label: source.label,
        chunk_index,
        accumulated_text,
        origin: JobOrigin::FinalFlush,
        backlog_samples: 0,
    }
}

/// Takes a chunk of the last flush in. Returns whether the flush goes on: not once the
/// engine is dead.
pub fn final_chunk_done(source: &mut SourceVadState, outcome: ChunkTaskOutcome) -> (r: bool)
    ensures
        *final(source) == (SourceVadState {
            accumulated_text: outcome.accumulated_text,
            has_in_flight_task: false,
            force_drain: false,
            ..*old(source)
        }),
        r == !outcome.sidecar_dead,
{
    source.accumulated_text = outcome.accumulated_text;
    source.has_in_flight_task = false;
    source.force_drain = false;
    !outcome.sidecar_dead
}

/// Takes a chunk in that a loop that was not asked to stop sent at its end; none where it
/// took too long. Returns whether the stream has more to send: not once the engine is
/// dead, nor where the chunk was lost.
pub fn pending_chunk_done(source: &mut SourceVadState, outcome: Option<ChunkTaskOutcome>) -> (r:
    bool)
    ensures
        match outcome {
            Some(o) => {
                &&& *final(source) == (SourceVadState {
                    accumulated_text: o.accumulated_text,
                    has_in_flight_task: false,
                    ..*old(source)
                })
                &&& r == (!o.sidecar_dead && old(source).force_drain)
            },
            None => *final(source) == *old(source) && !r,
        },
{
    match outcome {
        Some(o) => {
            source.accumulated_text = o.accumulated_text;
            source.has_in_flight_task = false;
            !o.sidecar_dead && source.force_drain
        },
        None => false,
    }
}

/// The stream behind what belongs to dictation at its start, where that has an end.
pub open spec fn behind_dictation(
    kind: LiveSourceKind,
    s: SourceVadState,
    windows: DictationMicSnapshot,
) -> SourceVadState {
    if dispatch::gated(kind, s.label) && mic::held(
        windows.open,
        windows.closed@,
        s.speech_start_pos as int,
    ) {
        match mic::next_free(windows.open, windows.closed@, s.speech_start_pos as int) {
            Some(p) => s.past_dictation(dispatch::as_index(p)),
            None => s,
        }
    } else {
        s
    }
}

/// Whether a loop that was not asked to stop still has a chunk to make of a stream, which
/// is moved behind dictation first.
pub fn has_final_pending(
    source: &mut SourceVadState,
    kind: LiveSourceKind,
    windows: &DictationMicSnapshot,
    write_pos: usize,
) -> (r: bool)
    ensures
        old(source).has_in_flight_task ==> !r && *final(source) == *old(source),
        !old(source).has_in_flight_task ==> {
            &&& *final(source) == behind_dictation(kind, *old(source), *windows)
            &&& r == (dispatch::usable(kind, *final(source), *windows, write_pos)
                > final(source).speech_start_pos)
        },
        old(source).wf() ==> final(source).wf(),
{
    if source.has_in_flight_task {
        return false;
    }
    let start: u64 = source.speech_start_pos as u64;
    if kind == LiveSourceKind::Session && source.label == AudioSourceLabel::Mic {
        if let Some(p) = windows.first_free(start) {
            if p != start {
                proof {
                    assert(mic::held(windows.open, windows.closed@, start as int));
                }
                source.release_from_dictation(
                    if p > usize::MAX as u64 {
                        usize::MAX
                    } else {
                        p as usize
                    },
                );
            }
        }
    }
    dispatch::usable_until(kind, source, windows, write_pos) > source.speech_start_pos
}

// --- What holds of a whole session ---

proof fn lemma_next_held_exists(
    open: Option<u64>,
    closed: Seq<MicWindow>,
    from: int,
    p: int,
)
    requires
        from <= p,
        mic::held(open, closed, p),
    ensures
        mic::next_held(open, closed, from) matches Some(q) && mic::is_next_held(
            open,
            closed,
            from,
            q,
        ) && q <= p,
    decreases p - from,
{
    if exists|q: int| from <= q < p && #[trigger] mic::held(open, closed, q) {
        let q = choose|q: int| from <= q < p && #[trigger] mic::held(open, closed, q);
        lemma_next_held_exists(open, closed, from, q);
    } else {
        assert(mic::is_next_held(open, closed, from, p));
        mic::lemma_next_held(open, closed, from, p);
    }
}

/// No window of dictation is overlooked, also not one that opened and closed between two
/// passes: as long as a position that a session's microphone has still to send belongs to
/// dictation, nothing but a flush of what lies before is sent, and the stream does not
/// move up in silence. Where dictation has given the microphone back, the stream goes on
/// where the window ends.
pub proof fn law_window_is_never_overlooked(
    s: SourceVadState,
    action: VadAction,
    windows: DictationMicSnapshot,
    p: int,
)
    requires
        s.label is Mic,
        s.speech_start_pos <= p,
        mic::held(windows.open, windows.closed@, p),
    ensures
        ({
            let plan = stream_plan(LiveSourceKind::Session, s, action, windows);
            &&& plan.step !is Dispatch && plan.step !is AdvanceIdle
            &&& plan.edge matches MicEdge::GivenBack { to, .. } ==> exists|at: int, end: int|
                #![trigger mic::is_next_held(
                    windows.open,
                    windows.closed@,
                    s.speech_start_pos as int,
                    at,
                ), mic::is_next_free(windows.open, windows.closed@, at, end)]
                mic::is_next_held(windows.open, windows.closed@, s.speech_start_pos as int, at)
                    && mic::is_next_free(windows.open, windows.closed@, at, end) && to
                    == dispatch::as_index(end)
        }),
{
    lemma_next_held_exists(windows.open, windows.closed@, s.speech_start_pos as int, p);
    let at = mic::next_held(windows.open, windows.closed@, s.speech_start_pos as int)->0;
    if let Some(end) = mic::next_free(windows.open, windows.closed@, at) {
        assert(mic::is_next_free(windows.open, windows.closed@, at, end));
    }
}

/// What was said before dictation took the microphone is still sent: where a stream speaks,
/// no chunk of it is on its way and dictation begins behind its start, the pass that first
/// sees the window flushes up to there, and otherwise there is nothing to flush. The
/// microphone is taken as long as the window has no end, and given back once it has one.
pub proof fn law_speech_before_dictation_is_flushed(
    s: SourceVadState,
    action: VadAction,
    windows: DictationMicSnapshot,
    at: int,
)
    requires
        s.label is Mic,
        !s.dictation_was_active,
        mic::is_next_held(windows.open, windows.closed@, s.speech_start_pos as int, at),
    ensures
        ({
            let edge = stream_plan(LiveSourceKind::Session, s, action, windows).edge;
            let owed = s.is_speaking && !s.has_in_flight_task && at > s.speech_start_pos;
            &&& edge is Taken || edge is GivenBack
            &&& edge matches MicEdge::Taken { flush } ==> flush == owed && forall|p: int|
                at <= p ==> #[trigger] mic::held(windows.open, windows.closed@, p)
            &&& edge matches MicEdge::GivenBack { flush, to } ==> flush == owed && exists|p: int|
                mic::is_next_free(windows.open, windows.closed@, at, p) && (p <= usize::MAX ==> to
                    == p)
        }),
{
    mic::lemma_next_held(windows.open, windows.closed@, s.speech_start_pos as int, at);
    let edge = stream_plan(LiveSourceKind::Session, s, action, windows).edge;
    match mic::next_free(windows.open, windows.closed@, at) {
        Some(to) => {
            assert(mic::is_next_free(windows.open, windows.closed@, at, to));
        },
        None => {
            assert forall|p: int| at <= p implies #[trigger] mic::held(
                windows.open,
                windows.closed@,
                p,
            ) by {
                lemma_all_held(windows.open, windows.closed@, at, p);
            }
        },
    }
}

/// Once nothing that is still to be sent belongs to dictation, the microphone that it had
/// is given back where the stream stands.
pub proof fn law_microphone_is_given_back(
    s: SourceVadState,
    action: VadAction,
    windows: DictationMicSnapshot,
)
    requires
        s.label is Mic,
        s.dictation_was_active,
        forall|p: int|
            s.speech_start_pos <= p ==> !#[trigger] mic::held(windows.open, windows.closed@, p),
    ensures
        stream_plan(LiveSourceKind::Session, s, action, windows).edge == (MicEdge::GivenBack {
            flush: false,
            to: s.speech_start_pos,
        }),
{
}

/// While dictation has the microphone its session waits: nothing is cut and nothing moves
/// up until it is given back, and then the stream goes on at the first free position.
pub proof fn law_taken_microphone_waits(
    s: SourceVadState,
    action: VadAction,
    windows: DictationMicSnapshot,
)
    requires
        s.label is Mic,
    ensures
        ({
            let plan = stream_plan(LiveSourceKind::Session, s, action, windows);
            &&& plan.edge is Taken ==> plan.step is Suspended
            &&& plan.edge is GivenBack ==> plan.step is Keep
            &&& plan.edge is Steady && s.dictation_was_active ==> plan.step is Suspended
        }),
{
}

/// A stream at the end of a loop is moved behind what dictation has at its start, and no
/// further: to the first position that is free.
pub proof fn law_end_goes_on_behind_dictation(
    kind: LiveSourceKind,
    s: SourceVadState,
    windows: DictationMicSnapshot,
    p: int,
)
    requires
        mic::is_next_free(windows.open, windows.closed@, s.speech_start_pos as int, p),
        p <= usize::MAX,
    ensures
        ({
            let moved = behind_dictation(kind, s, windows);
            &&& kind is Session && s.label is Mic ==> moved.speech_start_pos == p
            &&& kind is Dictation || s.label is System ==> moved == s
            &&& p == s.speech_start_pos ==> moved == s
        }),
{
    mic::lemma_next_free(windows.open, windows.closed@, s.speech_start_pos as int, p);
    if p > s.speech_start_pos {
        assert(mic::held(windows.open, windows.closed@, s.speech_start_pos as int));
    }
}

/// As long as dictation has nothing of what is still to be sent, and had nothing before, a
/// session's microphone does what its state machine asks, as any other stream.
pub proof fn law_free_microphone_is_like_any_stream(
    s: SourceVadState,
    action: VadAction,
    windows: DictationMicSnapshot,
)
    requires
        s.label is Mic,
        !s.dictation_was_active,
        forall|p: int|
            s.speech_start_pos <= p ==> !#[trigger] mic::held(windows.open, windows.closed@, p),
    ensures
        ({
            let plan = stream_plan(LiveSourceKind::Session, s, action, windows);
            &&& plan.edge is Steady
            &&& action is Chunk && !s.has_in_flight_task ==> plan.step == (DispatchStep::Dispatch {
                force: false,
            })
            &&& action is ForceChunk && !s.has_in_flight_task ==> plan.step == (
            DispatchStep::Dispatch { force: true })
            &&& s.has_in_flight_task ==> plan.step is Keep
            &&& plan.step is AdvanceIdle <==> action is Hold && !s.is_speaking
                && !s.has_in_flight_task
        }),
{
}

/// Dictation changes nothing for a dictation's own runtime or for the system's output.
pub proof fn law_only_session_mic_is_gated(
    kind: LiveSourceKind,
    s: SourceVadState,
    windows: DictationMicSnapshot,
    action: VadAction,
    write_pos: usize,
    from: usize,
)
    requires
        kind is Dictation || s.label is System,
    ensures
        dispatch::mic_edge(kind, s, windows) == MicEdge::Steady,
        stream_plan(kind, s, action, windows).step == dispatch::dispatch_step(s, action),
        dispatch::usable(kind, s, windows, write_pos) == write_pos,
        final_start(kind, s, windows, from) == Some(from),
        !left_out(kind, s.label, windows),
        behind_dictation(kind, s, windows) == s,
{
}

/// The chunks of a stream follow one another: a chunk that is read from where the stream
/// says begins at or after the end of the last one, and the next begins where it ended.
pub proof fn law_chunks_follow(
    s: SourceVadState,
    e: SourceAudioRange,
    current_pos: usize,
    force: bool,
    now: u64,
)
    requires
        s.wf(),
        s.speech_start_pos <= e.start_pos <= e.end_pos,
    ensures
        e.start_pos >= s.earliest_next_chunk_pos,
        dispatch::after_dispatch(s, e.end_pos, current_pos, force, now).wf(),
        dispatch::after_dispatch(s, e.end_pos, current_pos, force, now).speech_start_pos
            == e.end_pos,
        dispatch::after_dispatch(s, e.end_pos, current_pos, force, now).earliest_next_chunk_pos
            == e.end_pos,
        e.end_pos >= s.earliest_next_chunk_pos,
{
}

/// What happens to a stream while its buffer stays: it is polled, a chunk is cut, it moves
/// up in silence, it is given back by dictation, or a chunk of it comes back.
pub ghost enum StreamEvent {
    Polled { probs: Seq<Single>, tuning: VadTuning, now: u64 },
    Cut { read: SourceAudioRange, current_pos: usize, force: bool, now: u64 },
    Idle { write_pos: usize },
    GivenBack { write_pos: usize },
    Settled { text: String },
}

impl StreamEvent {
    /// Whether the event can happen to the stream: what is cut was read from where the
    /// stream says, and write positions never lie before what was sent.
    pub open spec fn fits(self, s: SourceVadState) -> bool {
        match self {
            StreamEvent::Polled { .. } => true,
            StreamEvent::Cut { read, .. } => s.speech_start_pos <= read.start_pos <= read.end_pos,
            StreamEvent::Idle { write_pos } => s.earliest_next_chunk_pos <= write_pos,
            StreamEvent::GivenBack { write_pos } => s.earliest_next_chunk_pos <= write_pos,
            StreamEvent::Settled { .. } => true,
        }
    }

    /// The stream after the event.
    pub open spec fn applied(self, s: SourceVadState) -> SourceVadState {
        match self {
            StreamEvent::Polled { probs, tuning, now } => vad::polled_source(
                s,
                probs,
                tuning,
                now,
            ).0,
            StreamEvent::Cut { read, current_pos, force, now } => dispatch::after_dispatch(
                s,
                read.end_pos,
                current_pos,
                force,
                now,
            ),
            StreamEvent::Idle { write_pos } => SourceVadState {
                cursor: write_pos,
                speech_start_pos: write_pos,
                ..s
            },
            StreamEvent::GivenBack { write_pos } => s.past_dictation(write_pos),
            StreamEvent::Settled { text } => SourceVadState {
                has_in_flight_task: false,
                accumulated_text: text,
                ..s
            },
        }
    }

    /// What the event sends to the engine.
    pub open spec fn sent(self) -> Seq<SourceAudioRange> {
        match self {
            StreamEvent::Cut { read, .. } => seq![read],
            _ => seq![],
        }
    }
}

/// The stream after the first `n` events.
pub open spec fn stream_after(s: SourceVadState, events: Seq<StreamEvent>, n: nat) -> SourceVadState
    decreases n,
{
    if n == 0 {
        s
    } else {
        events[n - 1].applied(stream_after(s, events, (n - 1) as nat))
    }
}

/// What the first `n` events sent to the engine, in order.
pub open spec fn sent_by(events: Seq<StreamEvent>, n: nat) -> Seq<SourceAudioRange>
    decreases n,
{
    if n == 0 {
        seq![]
    } else {
        sent_by(events, (n - 1) as nat) + events[n - 1].sent()
    }
}

/// Whether an event can happen when it comes.
pub open spec fn fits_at(s: SourceVadState, events: Seq<StreamEvent>, i: int) -> bool {
    events[i].fits(stream_after(s, events, i as nat))
}

/// Whether every one of the first `n` events can happen when it comes.
pub open spec fn all_fit(s: SourceVadState, events: Seq<StreamEvent>, n: nat) -> bool {
    forall|i: int| 0 <= i < n ==> #[trigger] fits_at(s, events, i)
}

proof fn lemma_batch_keeps_bound(s: SourceVadState, probs: Seq<Single>, t: VadTuning, now: u64)
    requires
        s.wf(),
    ensures
        vad::polled_batch(s, probs, t, now).0.wf(),
        vad::polled_batch(s, probs, t, now).0.earliest_next_chunk_pos == s.earliest_next_chunk_pos,
    decreases probs.len(),
{
    if probs.len() > 0 {
        lemma_batch_keeps_bound(s, probs.drop_last(), t, now);
        vad::law_poll_keeps_bound(
            vad::polled_batch(s, probs.drop_last(), t, now).0,
            Some(probs.last()),
            t,
            now,
        );
    }
}

proof fn lemma_event_keeps_bound(s: SourceVadState, event: StreamEvent)
    requires
        s.wf(),
        event.fits(s),
    ensures
        event.applied(s).wf(),
        event.applied(s).earliest_next_chunk_pos >= s.earliest_next_chunk_pos,
        event matches StreamEvent::Cut { read, .. } ==> read.start_pos >= s.earliest_next_chunk_pos
            && event.applied(s).earliest_next_chunk_pos == read.end_pos,
{
    match event {
        StreamEvent::Polled { probs, tuning, now } => {
            lemma_batch_keeps_bound(s, probs, tuning, now);
        },
        _ => {},
    }
}

/// Ranges that follow one another, from `from` on and up to `to`.
pub open spec fn follow(sent: Seq<SourceAudioRange>, from: usize, to: usize) -> bool {
    &&& forall|i: int|
        0 <= i < sent.len() ==> from <= (#[trigger] sent[i]).start_pos && sent[i].end_pos <= to
    &&& forall|i: int, j: int|
        0 <= i < j < sent.len() ==> (#[trigger] sent[i]).end_pos <= (#[trigger] sent[j]).start_pos
}

proof fn lemma_sent_follow(s: SourceVadState, events: Seq<StreamEvent>, n: nat)
    requires
        s.wf(),
        n <= events.len(),
        all_fit(s, events, n),
    ensures
        stream_after(s, events, n).wf(),
        stream_after(s, events, n).earliest_next_chunk_pos >= s.earliest_next_chunk_pos,
        follow(
            sent_by(events, n),
            s.earliest_next_chunk_pos,
            stream_after(s, events, n).earliest_next_chunk_pos,
        ),
    decreases n,
{
    if n > 0 {
        let m = (n - 1) as nat;
        lemma_sent_follow(s, events, m);
        let before = stream_after(s, events, m);
        let event = events[m as int];
        assert(fits_at(s, events, m as int));
        lemma_event_keeps_bound(before, event);
        let old_sent = sent_by(events, m);
        let new_sent = sent_by(events, n);
        if let StreamEvent::Cut { read, .. } = event {
            assert(new_sent =~= old_sent.push(read));
        } else {
            assert(new_sent =~= old_sent);
        }
    }
}

/// Whatever happens to a stream, in whatever order, nothing that it recorded is sent to
/// the engine twice, and what is sent keeps the order in which it was recorded.
pub proof fn law_nothing_is_sent_twice(
    s: SourceVadState,
    events: Seq<StreamEvent>,
    i: int,
    j: int,
)
    requires
        s.wf(),
        all_fit(s, events, events.len()),
        0 <= i < j < sent_by(events, events.len()).len(),
    ensures
        sent_by(events, events.len())[i].end_pos <= sent_by(events, events.len())[j].start_pos,
        sent_by(events, events.len())[i].start_pos >= s.earliest_next_chunk_pos,
{
    lemma_sent_follow(s, events, events.len());
}

/// Whether a position lies in one of the ranges.
pub open spec fn in_sent(sent: Seq<SourceAudioRange>, p: int) -> bool {
    exists|i: int| 0 <= i < sent.len() && (#[trigger] sent[i]).start_pos <= p < sent[i].end_pos
}

/// Whether event `i` comes while the stream speaks and leaves the microphone where it is:
/// a chunk that is cut is read from where the stream says, and the stream does not move
/// up, which it does in silence alone.
pub open spec fn speaks_on(s: SourceVadState, events: Seq<StreamEvent>, i: int) -> bool {
    let before = stream_after(s, events, i as nat);
    &&& before.is_speaking
    &&& match events[i] {
        StreamEvent::Polled { .. } => true,
        StreamEvent::Cut { read, .. } => read.start_pos == before.speech_start_pos
            && read.start_pos <= read.end_pos,
        StreamEvent::Idle { .. } => false,
        StreamEvent::GivenBack { .. } => false,
        StreamEvent::Settled { .. } => true,
    }
}

proof fn lemma_batch_speaks_on(s: SourceVadState, probs: Seq<Single>, t: VadTuning, now: u64)
    requires
        s.is_speaking,
    ensures
        vad::polled_batch(s, probs, t, now).0.is_speaking,
        vad::polled_batch(s, probs, t, now).0.speech_start_pos == s.speech_start_pos,
    decreases probs.len(),
{
    if probs.len() > 0 {
        lemma_batch_speaks_on(s, probs.drop_last(), t, now);
    }
}

/// Speech is sent whole: as long as a stream speaks, everything from where its speech
/// began up to where its next chunk will begin is in a chunk that was sent.
pub proof fn law_speech_is_sent_whole(
    s: SourceVadState,
    events: Seq<StreamEvent>,
    n: nat,
    p: int,
)
    requires
        n <= events.len(),
        forall|i: int| 0 <= i < n ==> #[trigger] speaks_on(s, events, i),
        s.speech_start_pos <= p < stream_after(s, events, n).speech_start_pos,
    ensures
        in_sent(sent_by(events, n), p),
    decreases n,
{
    if n > 0 {
        let m = (n - 1) as nat;
        let before = stream_after(s, events, m);
        let event = events[m as int];
        let old_sent = sent_by(events, m);
        let new_sent = sent_by(events, n);
        assert(speaks_on(s, events, m as int));
        assert(stream_after(s, events, n) == event.applied(before));
        match event {
            StreamEvent::Polled { probs, tuning, now } => {
                lemma_batch_speaks_on(before, probs, tuning, now);
                assert(new_sent =~= old_sent);
                law_speech_is_sent_whole(s, events, m, p);
            },
            StreamEvent::Cut { read, .. } => {
                assert(new_sent =~= old_sent.push(read));
                if p < before.speech_start_pos {
                    law_speech_is_sent_whole(s, events, m, p);
                    let i = choose|i: int|
                        0 <= i < old_sent.len() && (#[trigger] old_sent[i]).start_pos <= p
                            < old_sent[i].end_pos;
                    assert(new_sent[i] == old_sent[i]);
                } else {
                    assert(new_sent[old_sent.len() as int] == read);
                }
            },
            _ => {
                assert(new_sent =~= old_sent);
                law_speech_is_sent_whole(s, events, m, p);
            },
        }
    }
}

/// A stream falls silent only by a chunk that leaves nothing behind of what was recorded,
/// and moves up without sending only while it is silent and has no chunk on its way.
pub proof fn law_silence_leaves_nothing(
    s: SourceVadState,
    end_pos: usize,
    current_pos: usize,
    force: bool,
    now: u64,
    action: VadAction,
)
    ensures
        !dispatch::after_dispatch(s, end_pos, current_pos, force, now).is_speaking ==> current_pos
            <= end_pos && !force,
        dispatch::dispatch_step(s, action) is AdvanceIdle ==> !s.is_speaking
            && !s.has_in_flight_task,
{
}

/// What the last flush reads lies behind everything that was sent and before where the
/// stop ended the stream; and the flush goes on behind it, until nothing is left.
pub proof fn law_last_flush_stays_between(
    kind: LiveSourceKind,
    s: SourceVadState,
    windows: DictationMicSnapshot,
    from: usize,
    stop: BufferPositions,
    max_chunk: u128,
    read: SourceAudioRange,
)
    requires
        s.wf(),
        s.speech_start_pos <= from,
        final_bound(kind, s, windows, from, stop, max_chunk) matches Some(f) && f.start
            <= read.start_pos <= read.end_pos <= f.end,
    ensures
        s.earliest_next_chunk_pos <= read.start_pos,
        read.end_pos <= stop.of(s.label),
        s.speech_start_pos <= read.end_pos,
        final_bound(kind, s, windows, stop.of(s.label), stop, max_chunk) is None,
{
    let f = final_bound(kind, s, windows, from, stop, max_chunk)->0;
    lemma_final_start(kind, s, windows, from);
    lemma_final_start(kind, s, windows, stop.of(s.label));
}

proof fn lemma_final_start(
    kind: LiveSourceKind,
    s: SourceVadState,
    windows: DictationMicSnapshot,
    from: usize,
)
    ensures
        final_start(kind, s, windows, from) matches Some(start) ==> start >= from,
{
    if let Some(p) = mic::next_free(windows.open, windows.closed@, from as int) {
        assert(mic::is_next_free(windows.open, windows.closed@, from as int, p));
    }
}

/// While a chunk of a stream is on its way, no second one of it is sent, and its start is
/// not moved up in silence.
pub proof fn law_one_chunk_at_a_time(
    kind: LiveSourceKind,
    s: SourceVadState,
    windows: DictationMicSnapshot,
    action: VadAction,
)
    requires
        s.has_in_flight_task,
    ensures
        stream_plan(kind, s, action, windows).step !is Dispatch,
        stream_plan(kind, s, action, windows).step !is AdvanceIdle,
        !(dispatch::mic_edge(kind, s, windows) matches MicEdge::Taken { flush } && flush),
        !(dispatch::mic_edge(kind, s, windows) matches MicEdge::GivenBack { flush, .. } && flush),
{
}

/// Every chunk that comes back frees its stream, so that none is blocked for good.
pub proof fn law_outcome_frees_stream(sources: Seq<SourceVadState>, o: ChunkTaskOutcome)
    requires
        dispatch::place_of(sources, o.source_label) < sources.len(),
    ensures
        !dispatch::settled(sources, o)[dispatch::place_of(
            sources,
            o.source_label,
        ) as int].has_in_flight_task,
{
}

/// Every chunk that came back is taken in by its stream: the last of a stream leaves its
/// text there, and a stream of which none came back stays as it is.
pub proof fn law_every_outcome_is_taken_in(
    sources: Seq<SourceVadState>,
    outcomes: Seq<ChunkTaskOutcome>,
    n: nat,
    i: int,
    k: int,
)
    requires
        n <= outcomes.len(),
        0 <= i < sources.len(),
        forall|m: int| 0 <= m < i ==> (#[trigger] sources[m]).label != sources[i].label,
        -1 <= k < n,
        k >= 0 ==> outcomes[k].source_label == sources[i].label,
        forall|m: int|
            k < m < n ==> (#[trigger] outcomes[m]).source_label != sources[i].label,
    ensures
        ({
            let after = settled_all(sources, outcomes, n);
            &&& after.len() == sources.len()
            &&& forall|m: int| 0 <= m < sources.len() ==> (#[trigger] after[m]).label == sources[m].label
            &&& k >= 0 ==> after[i].accumulated_text == outcomes[k].accumulated_text
                && !after[i].has_in_flight_task
            &&& k < 0 ==> after[i] == sources[i]
        }),
    decreases n,
{
    if n > 0 {
        let m = (n - 1) as nat;
        let before = settled_all(sources, outcomes, m);
        let o = outcomes[n - 1];
        if k == n - 1 {
            lemma_settling_keeps_labels(sources, outcomes, m);
            dispatch::lemma_first_place(before, o.source_label, i);
        } else {
            law_every_outcome_is_taken_in(sources, outcomes, m, i, k);
            assert(o.source_label != sources[i].label);
            lemma_place_bears_label(before, o.source_label);
        }
        lemma_settling_keeps_labels(sources, outcomes, n);
    }
}

proof fn lemma_place_bears_label(sources: Seq<SourceVadState>, label: AudioSourceLabel)
    ensures
        dispatch::place_of(sources, label) <= sources.len(),
        dispatch::place_of(sources, label) < sources.len() ==> sources[dispatch::place_of(
            sources,
            label,
        ) as int].label == label,
    decreases sources.len(),
{
    if sources.len() > 0 && sources[0].label != label {
        lemma_place_bears_label(sources.drop_first(), label);
    }
}

proof fn lemma_settling_keeps_labels(
    sources: Seq<SourceVadState>,
    outcomes: Seq<ChunkTaskOutcome>,
    n: nat,
)
    ensures
        settled_all(sources, outcomes, n).len() == sources.len(),
        forall|m: int|
            0 <= m < sources.len() ==> (#[trigger] settled_all(sources, outcomes, n)[m]).label
                == sources[m].label,
    decreases n,
{
    if n > 0 {
        lemma_settling_keeps_labels(sources, outcomes, (n - 1) as nat);
    }
}

// --- A session beside dictation ---

/// A session's microphone beside dictation: the stream, the windows, up to where the
/// session's file has been written, how far the microphone has recorded, and which
/// positions dictation recorded, the engine was sent for the session, and the file holds
/// with their sound.
pub ghost struct Beside {
    pub stream: SourceVadState,
    pub open: Option<u64>,
    pub closed: Seq<MicWindow>,
    pub written: Option<usize>,
    pub recorded: usize,
    pub dictated: spec_fn(int) -> bool,
    pub sent: spec_fn(int) -> bool,
    pub kept: spec_fn(int) -> bool,
}

/// What happens to a session's microphone beside dictation.
pub ghost enum BesideEvent {
    /// The microphone records on.
    Heard { to: usize },
    /// Dictation takes the microphone.
    Opened,
    /// Dictation gives it back.
    Closed,
    /// Dictation gives it back without having used it.
    Cleared,
    /// The microphone records into a new buffer, in which it stands at `pos`: from now on
    /// positions are those of that buffer.
    Replaced { pos: usize, rate: u32, channels: u16, now: u64 },
    /// The session drops windows that it has passed.
    Pruned,
    /// Something happens to the session's stream, which saw these windows.
    Stream { event: StreamEvent, windows: DictationMicSnapshot, max_chunk: u128 },
    /// The last flush reads.
    Flushed {
        windows: DictationMicSnapshot,
        from: usize,
        stop: BufferPositions,
        max_chunk: u128,
        read: SourceAudioRange,
    },
    /// The session's file is written up to `to`, with these stretches silenced.
    Written { windows: DictationMicSnapshot, to: usize, muted: Seq<MicWindow> },
}

impl Beside {
    /// Whether a session saw the windows as they are.
    pub open spec fn seen(self, windows: DictationMicSnapshot) -> bool {
        windows.open == self.open && windows.closed@ == self.closed
    }

    /// Whether position `p` was recorded by dictation, or is being recorded by it.
    pub open spec fn belongs(self, p: int) -> bool {
        (self.dictated)(p) || (self.open matches Some(from) && from <= p)
    }

    /// Whether a session begins: of what dictation recorded every window is there, and of
    /// the history only what lies in none has been sent.
    pub open spec fn begins(self) -> bool {
        &&& self.stream.wf()
        &&& self.stream.label is Mic
        &&& self.open matches Some(from) ==> from <= self.recorded
        &&& forall|p: int| #[trigger]
            (self.dictated)(p) ==> p < self.recorded && mic::in_windows(self.closed, p)
        &&& forall|p: int| #[trigger]
            (self.sent)(p) ==> p < self.recorded && !mic::held(self.open, self.closed, p)
        &&& forall|p: int| !#[trigger] (self.kept)(p)
    }

    /// Whether nothing that dictation recorded was sent or kept, and no window is missing
    /// that a later chunk or write could meet.
    pub open spec fn apart(self) -> bool {
        &&& self.stream.wf()
        &&& self.stream.label is Mic
        &&& self.open matches Some(from) ==> from <= self.recorded
        &&& forall|p: int| #[trigger]
            (self.dictated)(p) ==> p < self.recorded && (p >= self.stream.earliest_next_chunk_pos
                || (self.written matches Some(w) && p >= w) ==> mic::in_windows(self.closed, p))
        &&& forall|p: int| #[trigger]
            (self.sent)(p) ==> p < self.recorded && !self.belongs(p)
        &&& forall|p: int| #[trigger]
            (self.kept)(p) ==> p < self.recorded && !self.belongs(p)
    }

    /// Whether the event can happen: a session looks at the windows and at how far the
    /// microphone has recorded at one moment, a chunk is read within its bound, and the
    /// file is written with what its windows ask for.
    pub open spec fn fits(self, event: BesideEvent) -> bool {
        match event {
            BesideEvent::Heard { to } => self.recorded <= to,
            BesideEvent::Opened => self.open is None,
            BesideEvent::Closed => true,
            BesideEvent::Cleared => true,
            BesideEvent::Replaced { .. } => true,
            BesideEvent::Pruned => true,
            BesideEvent::Stream { event, windows, max_chunk } => {
                &&& self.seen(windows)
                &&& event.fits(self.stream)
                &&& event matches StreamEvent::Cut { read, .. } ==> read.end_pos
                    <= dispatch::dispatch_bound(
                    self.stream,
                    dispatch::usable(
                        LiveSourceKind::Session,
                        self.stream,
                        windows,
                        self.recorded,
                    ),
                    max_chunk,
                )
            },
            BesideEvent::Flushed { windows, from, stop, max_chunk, read } => {
                &&& self.seen(windows)
                &&& self.stream.speech_start_pos <= from
                &&& final_bound(
                    LiveSourceKind::Session,
                    self.stream,
                    windows,
                    from,
                    stop,
                    max_chunk,
                ) matches Some(f) && f.start <= read.start_pos && read.end_pos <= f.end
                &&& read.end_pos <= self.recorded
            },
            BesideEvent::Written { windows, to, muted } => {
                &&& self.seen(windows)
                &&& self.written matches Some(w) && w <= to <= self.recorded
                    && recording::silences(windows, w, to, muted)
            },
        }
    }

    /// What the event leaves.
    pub open spec fn after(self, event: BesideEvent) -> Beside {
        match event {
            BesideEvent::Heard { to } => Beside { recorded: to, ..self },
            BesideEvent::Opened => Beside { open: Some(self.recorded as u64), ..self },
            BesideEvent::Closed => match self.open {
                Some(start) if self.recorded > start => Beside {
                    open: None,
                    closed: self.closed.push(MicWindow { start, end: self.recorded as u64 }),
                    dictated: |p: int| (self.dictated)(p) || start <= p < self.recorded,
                    ..self
                },
                _ => Beside { open: None, ..self },
            },
            BesideEvent::Cleared => Beside { open: None, ..self },
            BesideEvent::Replaced { pos, rate, channels, now } => Beside {
                stream: self.stream.rebased(pos, rate, channels, now),
                open: match self.open {
                    Some(_) => Some(0u64),
                    None => None,
                },
                closed: Seq::empty(),
                written: match self.written {
                    Some(_) => Some(pos),
                    None => None,
                },
                recorded: pos,
                dictated: |p: int| false,
                sent: |p: int| false,
                kept: |p: int| false,
            },
            BesideEvent::Pruned => Beside {
                closed: mic::unpassed(self.closed, passed_by(Some(self.stream), self.written)),
                ..self
            },
            BesideEvent::Stream { event, .. } => Beside {
                stream: event.applied(self.stream),
                sent: |p: int| (self.sent)(p) || in_sent(event.sent(), p),
                ..self
            },
            BesideEvent::Flushed { read, .. } => Beside {
                sent: |p: int| (self.sent)(p) || read.start_pos <= p < read.end_pos,
                ..self
            },
            BesideEvent::Written { to, muted, .. } => Beside {
                written: Some(to),
                kept: |p: int|
                    (self.kept)(p) || (self.written->0 <= p < to && !mic::in_windows(muted, p)),
                ..self
            },
        }
    }

    /// What the first `n` events leave.
    pub open spec fn after_all(self, events: Seq<BesideEvent>, n: nat) -> Beside
        decreases n,
    {
        if n == 0 {
            self
        } else {
            self.after_all(events, (n - 1) as nat).after(events[n - 1])
        }
    }

    /// Whether event `i` can happen when it comes.
    pub open spec fn fits_at(self, events: Seq<BesideEvent>, i: int) -> bool {
        self.after_all(events, i as nat).fits(events[i])
    }
}

proof fn lemma_polled_label(s: SourceVadState, probs: Seq<Single>, t: VadTuning, now: u64)
    ensures
        vad::polled_batch(s, probs, t, now).0.label == s.label,
    decreases probs.len(),
{
    if probs.len() > 0 {
        lemma_polled_label(s, probs.drop_last(), t, now);
    }
}

proof fn lemma_cut_is_free(
    s: SourceVadState,
    windows: DictationMicSnapshot,
    write_pos: usize,
    p: int,
)
    requires
        s.label is Mic,
        s.speech_start_pos <= p < dispatch::usable(LiveSourceKind::Session, s, windows, write_pos),
    ensures
        !mic::held(windows.open, windows.closed@, p),
        p < write_pos,
{
    if mic::held(windows.open, windows.closed@, p) {
        lemma_next_held_exists(windows.open, windows.closed@, s.speech_start_pos as int, p);
    }
}

proof fn lemma_flush_is_free(
    s: SourceVadState,
    windows: DictationMicSnapshot,
    from: usize,
    stop: BufferPositions,
    max_chunk: u128,
    p: int,
)
    requires
        s.label is Mic,
        final_bound(LiveSourceKind::Session, s, windows, from, stop, max_chunk) matches Some(f)
            && f.start <= p < f.end,
    ensures
        !mic::held(windows.open, windows.closed@, p),
        p >= from,
{
    let f = final_bound(LiveSourceKind::Session, s, windows, from, stop, max_chunk)->0;
    lemma_final_start(LiveSourceKind::Session, s, windows, from);
    if mic::held(windows.open, windows.closed@, p) {
        lemma_next_held_exists(windows.open, windows.closed@, f.start as int, p);
    }
}

proof fn lemma_event_keeps_apart(st: Beside, event: BesideEvent)
    requires
        st.apart(),
        st.fits(event),
    ensures
        st.after(event).apart(),
{
    let now = st.after(event);
    match event {
        BesideEvent::Closed => {
            assert forall|p: int| #[trigger] (now.dictated)(p) implies p < now.recorded && (p
                >= now.stream.earliest_next_chunk_pos || (now.written matches Some(w) && p >= w)
                ==> mic::in_windows(now.closed, p)) by {
                if let Some(start) = st.open {
                    if st.recorded > start {
                        mic::lemma_in_push(
                            st.closed,
                            MicWindow { start, end: st.recorded as u64 },
                            p,
                        );
                    }
                }
                if (st.dictated)(p) {
                }
            }
            assert forall|p: int| #[trigger] (now.sent)(p) implies p < now.recorded
                && !now.belongs(p) by {
                assert((st.sent)(p));
            }
            assert forall|p: int| #[trigger] (now.kept)(p) implies p < now.recorded
                && !now.belongs(p) by {
                assert((st.kept)(p));
            }
        },
        BesideEvent::Pruned => {
            let point = passed_by(Some(st.stream), st.written);
            assert forall|p: int| #[trigger] (now.dictated)(p) implies p < now.recorded && (p
                >= now.stream.earliest_next_chunk_pos || (now.written matches Some(w) && p >= w)
                ==> mic::in_windows(now.closed, p)) by {
                assert((st.dictated)(p));
                if p >= point {
                    mic::lemma_prune_keeps_held(None, st.closed, point, p);
                }
            }
        },
        BesideEvent::Stream { event: e, windows, max_chunk } => {
            lemma_event_keeps_bound(st.stream, e);
            if let StreamEvent::Polled { probs, tuning, now: at } = e {
                lemma_polled_label(st.stream, probs, tuning, at);
            }
            assert forall|p: int| #[trigger] (now.dictated)(p) implies p < now.recorded && (p
                >= now.stream.earliest_next_chunk_pos || (now.written matches Some(w) && p >= w)
                ==> mic::in_windows(now.closed, p)) by {
                assert((st.dictated)(p));
            }
            assert forall|p: int| #[trigger] (now.sent)(p) implies p < now.recorded
                && !now.belongs(p) by {
                if !(st.sent)(p) {
                    assert(in_sent(e.sent(), p));
                    assert(e is Cut);
                    lemma_cut_is_free(st.stream, windows, st.recorded, p);
                    if (st.dictated)(p) {
                        assert(mic::in_windows(st.closed, p));
                    }
                }
            }
        },
        BesideEvent::Flushed { windows, from, stop, max_chunk, read } => {
            assert forall|p: int| #[trigger] (now.sent)(p) implies p < now.recorded
                && !now.belongs(p) by {
                if !(st.sent)(p) {
                    lemma_flush_is_free(st.stream, windows, from, stop, max_chunk, p);
                    if (st.dictated)(p) {
                        assert(mic::in_windows(st.closed, p));
                    }
                }
            }
        },
        BesideEvent::Written { windows, to, muted } => {
            assert forall|p: int| #[trigger] (now.dictated)(p) implies p < now.recorded && (p
                >= now.stream.earliest_next_chunk_pos || (now.written matches Some(w) && p >= w)
                ==> mic::in_windows(now.closed, p)) by {
                assert((st.dictated)(p));
            }
            assert forall|p: int| #[trigger] (now.kept)(p) implies p < now.recorded
                && !now.belongs(p) by {
                if !(st.kept)(p) {
                    assert(!mic::in_windows(muted, p));
                    if (st.dictated)(p) {
                        assert(mic::in_windows(st.closed, p));
                    }
                }
            }
        },
        BesideEvent::Replaced { .. } => {},
        _ => {
            assert forall|p: int| #[trigger] (now.sent)(p) implies p < now.recorded
                && !now.belongs(p) by {
                assert((st.sent)(p));
            }
            assert forall|p: int| #[trigger] (now.kept)(p) implies p < now.recorded
                && !now.belongs(p) by {
                assert((st.kept)(p));
            }
        },
    }
}

/// What dictation records never enters a session's transcript or its file: whatever
/// happens to a session's microphone, and in whatever order, no position of its buffer that
/// dictation has recorded or is recording was sent to the engine for the session, and none
/// is in the session's file with its sound.
pub proof fn law_dictation_stays_out(st: Beside, events: Seq<BesideEvent>, n: nat, p: int)
    requires
        st.begins(),
        n <= events.len(),
        forall|i: int| 0 <= i < n ==> #[trigger] st.fits_at(events, i),
    ensures
        ({
            let now = st.after_all(events, n);
            now.belongs(p) ==> !(now.sent)(p) && !(now.kept)(p)
        }),
{
    lemma_stays_apart(st, events, n);
}

proof fn lemma_stays_apart(st: Beside, events: Seq<BesideEvent>, n: nat)
    requires
        st.begins(),
        n <= events.len(),
        forall|i: int| 0 <= i < n ==> #[trigger] st.fits_at(events, i),
    ensures
        st.after_all(events, n).apart(),
    decreases n,
{
    if n == 0 {
        assert forall|p: int| #[trigger] (st.sent)(p) implies !st.belongs(p) by {
            if (st.dictated)(p) {
                assert(mic::in_windows(st.closed, p));
            }
        }
    } else {
        lemma_stays_apart(st, events, (n - 1) as nat);
        assert(st.fits_at(events, n - 1));
        lemma_event_keeps_apart(st.after_all(events, (n - 1) as nat), events[n - 1]);
    }
}

} // verus!
