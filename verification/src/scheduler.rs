//! The transcription scheduler: one lane to the engine, jobs in four classes.
//!
//! The engine runs one job at a time and cannot be interrupted, so the order is
//! decided before a job enters it: what closes a recording first, then dictation,
//! then live speech with microphone and system taking turns, and history last and
//! only while no live producer is busy. The runtime around this module owns the
//! queue's lock, the wake-ups and the engine process.

use std::collections::VecDeque;

use vstd::prelude::*;

use crate::model::{EngineKind, TranscriptionResult};
use crate::text;

verus! {

/// The class of a job: which lane it waits in. It says nothing of the runtime that
/// the job came from.
#[derive(Clone, Copy, Debug, PartialEq, Eq, Hash, Structural)]
pub enum JobOrigin {
    Live,
    Dictation,
    Backfill,
    FinalFlush,
}

impl JobOrigin {
    /// The name of the class.
    pub open spec fn name(self) -> Seq<char> {
        match self {
            JobOrigin::Live => "live"@,
            JobOrigin::Dictation => "dictation"@,
            JobOrigin::Backfill => "backfill"@,
            JobOrigin::FinalFlush => "final_flush"@,
        }
    }

    /// The name of the class.
    pub fn as_str(self) -> (r: &'static str)
        ensures
            r@ == self.name(),
            self is Live ==> r@ == "live"@,
            self is Dictation ==> r@ == "dictation"@,
            self is Backfill ==> r@ == "backfill"@,
            self is FinalFlush ==> r@ == "final_flush"@,
    {
        match self {
            JobOrigin::Live => "live",
            JobOrigin::Dictation => "dictation",
            JobOrigin::Backfill => "backfill",
            JobOrigin::FinalFlush => "final_flush",
        }
    }
}

/// A producer of live work. Each raises and lowers its own flag.
#[derive(Clone, Copy, Debug, PartialEq, Eq, Structural)]
pub enum BusyKind {
    LiveMic,
    LiveSystem,
    Dictation,
}

/// Which audio stream a job came from.
#[derive(Clone, Copy, Debug, PartialEq, Eq, Hash, Structural)]
pub enum JobSource {
    Mic,
    System,
}

/// One transcription request.
#[derive(Debug)]
pub struct JobRequest {
    pub origin: JobOrigin,
    pub source: JobSource,
    pub wav_path: String,
    pub language: Option<String>,
    pub initial_prompt: Option<String>,
    pub diarization: bool,
}

/// Why a job has no result.
#[derive(Debug)]
pub enum SchedulerError {
    /// The scheduler went away before the job ran.
    Cancelled,
    /// The scheduler takes no more jobs.
    Shutdown,
    /// The engine process died and did not come back.
    SidecarDead,
    /// The engine refused the job.
    Transcription(String),
}

impl SchedulerError {
    /// What the error is shown as.
    pub open spec fn shown(self) -> Seq<char> {
        match self {
            SchedulerError::Cancelled => "scheduler shut down before job completed"@,
            SchedulerError::Shutdown => "scheduler is shut down; submit refused"@,
            SchedulerError::SidecarDead => "sidecar died and could not be restarted"@,
            SchedulerError::Transcription(msg) => "transcription failed: "@ + msg@,
        }
    }

    /// What the error is shown as.
    pub fn to_string(&self) -> (r: String)
        ensures
            r@ == self.shown(),
    {
        match self {
            SchedulerError::Cancelled => "scheduler shut down before job completed".to_owned(),
            SchedulerError::Shutdown => "scheduler is shut down; submit refused".to_owned(),
            SchedulerError::SidecarDead => "sidecar died and could not be restarted".to_owned(),
            SchedulerError::Transcription(msg) => text::joined(
                "transcription failed: ",
                msg.as_str(),
            ),
        }
    }
}

/// What became of a job, and how long the engine took over it.
#[derive(Debug)]
pub struct JobOutcome {
    pub result: Result<TranscriptionResult, SchedulerError>,
    pub wall_ms: u64,
}

/// A request with the channel on which its outcome is awaited.
#[derive(Debug)]
pub struct JobEnvelope<R> {
    pub request: JobRequest,
    pub respond: R,
}

// --- Queues ---

/// The five queues.
#[derive(Clone, Copy, Debug, PartialEq, Eq, Structural)]
pub enum Lane {
    FinalFlush,
    Dictation,
    LiveMic,
    LiveSystem,
    Backfill,
}

impl Lane {
    /// The priority of the queue: a lower number is served first.
    pub open spec fn tier(self) -> int {
        match self {
            Lane::FinalFlush => 0,
            Lane::Dictation => 1,
            Lane::LiveMic => 2,
            Lane::LiveSystem => 2,
            Lane::Backfill => 3,
        }
    }

    /// The stream that a live queue serves.
    pub open spec fn live_source(self) -> Option<JobSource> {
        match self {
            Lane::LiveMic => Some(JobSource::Mic),
            Lane::LiveSystem => Some(JobSource::System),
            _ => None,
        }
    }
}

/// The queue that a job of this class and stream waits in.
pub open spec fn lane_of(origin: JobOrigin, source: JobSource) -> Lane {
    match (origin, source) {
        (JobOrigin::FinalFlush, _) => Lane::FinalFlush,
        (JobOrigin::Dictation, _) => Lane::Dictation,
        (JobOrigin::Live, JobSource::Mic) => Lane::LiveMic,
        (JobOrigin::Live, JobSource::System) => Lane::LiveSystem,
        (JobOrigin::Backfill, _) => Lane::Backfill,
    }
}

/// The queues as sequences, the next job of each first.
#[verifier::ext_equal]
#[verifier::reject_recursive_types(R)]
pub struct QueuesView<R> {
    pub final_flush: Seq<JobEnvelope<R>>,
    pub live_dictation: Seq<JobEnvelope<R>>,
    pub live_mic: Seq<JobEnvelope<R>>,
    pub live_system: Seq<JobEnvelope<R>>,
    pub backfill: Seq<JobEnvelope<R>>,
    pub last_live_source: Option<JobSource>,
}

impl<R> QueuesView<R> {
    /// The contents of one queue.
    pub open spec fn lane(self, l: Lane) -> Seq<JobEnvelope<R>> {
        match l {
            Lane::FinalFlush => self.final_flush,
            Lane::Dictation => self.live_dictation,
            Lane::LiveMic => self.live_mic,
            Lane::LiveSystem => self.live_system,
            Lane::Backfill => self.backfill,
        }
    }

    /// The queues with the contents of one replaced.
    pub open spec fn with_lane(self, l: Lane, s: Seq<JobEnvelope<R>>) -> QueuesView<R> {
        match l {
            Lane::FinalFlush => QueuesView { final_flush: s, ..self },
            Lane::Dictation => QueuesView { live_dictation: s, ..self },
            Lane::LiveMic => QueuesView { live_mic: s, ..self },
            Lane::LiveSystem => QueuesView { live_system: s, ..self },
            Lane::Backfill => QueuesView { backfill: s, ..self },
        }
    }

    /// Every queued job, class by class.
    pub open spec fn all(self) -> Seq<JobEnvelope<R>> {
        self.final_flush + self.live_dictation + self.live_mic + self.live_system + self.backfill
    }

    /// Whether every job stands in the queue of its class and stream.
    pub open spec fn sorted(self) -> bool {
        forall|l: Lane, i: int|
            0 <= i < self.lane(l).len() ==> lane_of(
                #[trigger] self.lane(l)[i].request.origin,
                self.lane(l)[i].request.source,
            ) == l
    }

    /// The live queue whose turn it is: the one not served last, the microphone's
    /// at the start; the other where that one is empty.
    pub open spec fn live_turn(self) -> Option<Lane> {
        let (first, second) = if self.last_live_source == Some(JobSource::Mic) {
            (Lane::LiveSystem, Lane::LiveMic)
        } else {
            (Lane::LiveMic, Lane::LiveSystem)
        };
        if self.lane(first).len() > 0 {
            Some(first)
        } else if self.lane(second).len() > 0 {
            Some(second)
        } else {
            None
        }
    }

    /// The queue that the next job is taken from.
    pub open spec fn next_lane(self, producers_busy: bool) -> Option<Lane> {
        if self.final_flush.len() > 0 {
            Some(Lane::FinalFlush)
        } else if self.live_dictation.len() > 0 {
            Some(Lane::Dictation)
        } else if self.live_turn() is Some {
            self.live_turn()
        } else if !producers_busy && self.backfill.len() > 0 {
            Some(Lane::Backfill)
        } else {
            None
        }
    }

    /// The job that is taken next.
    pub open spec fn next_job(self, producers_busy: bool) -> Option<JobEnvelope<R>> {
        match self.next_lane(producers_busy) {
            Some(l) => Some(self.lane(l)[0]),
            None => None,
        }
    }

    /// The queues once the next job was taken.
    pub open spec fn after_pick(self, producers_busy: bool) -> QueuesView<R> {
        match self.next_lane(producers_busy) {
            Some(l) => {
                let rest = self.with_lane(l, self.lane(l).drop_first());
                match l.live_source() {
                    Some(s) => QueuesView { last_live_source: Some(s), ..rest },
                    None => rest,
                }
            },
            None => self,
        }
    }

    /// The queues once a job was added: last in the queue of its class and stream.
    pub open spec fn after_push(self, env: JobEnvelope<R>) -> QueuesView<R> {
        let l = lane_of(env.request.origin, env.request.source);
        self.with_lane(l, self.lane(l).push(env))
    }

    /// The queues once every job was withdrawn.
    pub open spec fn emptied(self) -> QueuesView<R> {
        QueuesView {
            final_flush: Seq::empty(),
            live_dictation: Seq::empty(),
            live_mic: Seq::empty(),
            live_system: Seq::empty(),
            backfill: Seq::empty(),
            last_live_source: self.last_live_source,
        }
    }
}

/// The queues of jobs that wait for the engine.
#[verifier::reject_recursive_types(R)]
pub struct SchedulerQueues<R> {
    final_flush: VecDeque<JobEnvelope<R>>,
    live_dictation: VecDeque<JobEnvelope<R>>,
    live_mic: VecDeque<JobEnvelope<R>>,
    live_system: VecDeque<JobEnvelope<R>>,
    backfill: VecDeque<JobEnvelope<R>>,
    last_live_source: Option<JobSource>,
}

impl<R> View for SchedulerQueues<R> {
    type V = QueuesView<R>;

    closed spec fn view(&self) -> QueuesView<R> {
        QueuesView {
            final_flush: self.final_flush@,
            live_dictation: self.live_dictation@,
            live_mic: self.live_mic@,
            live_system: self.live_system@,
            backfill: self.backfill@,
            last_live_source: self.last_live_source,
        }
    }
}

/// Takes the front of one queue and answers it as cancelled, until it is empty.
fn cancel_lane<R>(lane: &mut VecDeque<JobEnvelope<R>>, out: &mut Vec<(R, JobOutcome)>)
    ensures
        final(lane)@.len() == 0,
        final(out)@.len() == old(out)@.len() + old(lane)@.len(),
        forall|i: int| 0 <= i < old(out)@.len() ==> final(out)@[i] == old(out)@[i],
        forall|i: int|
            0 <= i < old(lane)@.len() ==> (#[trigger] final(out)@[old(out)@.len() + i]).0 == old(
                lane,
            )@[i].respond && is_cancellation(final(out)@[old(out)@.len() + i].1),
{
    let ghost lane0 = lane@;
    let ghost out0 = out@;
    let ghost mut k: int = 0;
    loop
        invariant
            0 <= k <= lane0.len(),
            lane@ == lane0.skip(k),
            out@.len() == out0.len() + k,
            forall|i: int| 0 <= i < out0.len() ==> out@[i] == out0[i],
            forall|i: int|
                0 <= i < k ==> (#[trigger] out@[out0.len() + i]).0 == lane0[i].respond
                    && is_cancellation(out@[out0.len() + i].1),
        ensures
            k == lane0.len(),
        decreases lane@.len(),
    {
        match lane.pop_front() {
            Some(env) => {
                out.push(
                    (
                        env.respond,
                        JobOutcome { result: Err(SchedulerError::Cancelled), wall_ms: 0 },
                    ),
                );
                proof {
                    k = k + 1;
                    assert(lane@ =~= lane0.skip(k));
                }
            },
            None => {
                break;
            },
        }
    }
}

/// Whether an outcome is the answer to a withdrawn job.
pub open spec fn is_cancellation(o: JobOutcome) -> bool {
    o.result matches Err(SchedulerError::Cancelled) && o.wall_ms == 0
}

impl<R> SchedulerQueues<R> {
    /// Empty queues.
    pub fn new() -> (r: Self)
        ensures
            r@.all() == Seq::<JobEnvelope<R>>::empty(),
            r@ == r@.emptied(),
            r@.last_live_source is None,
            r@.sorted(),
    {
        SchedulerQueues {
            final_flush: VecDeque::new(),
            live_dictation: VecDeque::new(),
            live_mic: VecDeque::new(),
            live_system: VecDeque::new(),
            backfill: VecDeque::new(),
            last_live_source: None,
        }
    }

    /// Takes the next job: what closes a recording, then dictation, then live speech
    /// in turns, then history where no producer is busy.
    pub fn pick_next(&mut self, producers_busy: bool) -> (r: Option<JobEnvelope<R>>)
        ensures
            r == old(self)@.next_job(producers_busy),
            final(self)@ == old(self)@.after_pick(producers_busy),
            old(self)@.sorted() ==> final(self)@.sorted(),
    {
        proof {
            law_pick_keeps_sorted(self@, producers_busy);
        }
        if self.final_flush.len() > 0 {
            return self.final_flush.pop_front();
        }
        if self.live_dictation.len() > 0 {
            return self.live_dictation.pop_front();
        }
        let system_first: bool = self.last_live_source == Some(JobSource::Mic);
        if system_first && self.live_system.len() > 0 {
            self.last_live_source = Some(JobSource::System);
            return self.live_system.pop_front();
        }
        if self.live_mic.len() > 0 {
            self.last_live_source = Some(JobSource::Mic);
            return self.live_mic.pop_front();
        }
        if self.live_system.len() > 0 {
            self.last_live_source = Some(JobSource::System);
            return self.live_system.pop_front();
        }
        if !producers_busy && self.backfill.len() > 0 {
            return self.backfill.pop_front();
        }
        None
    }

    /// Adds a job behind the others of its class and stream.
    pub fn push(&mut self, env: JobEnvelope<R>)
        ensures
            final(self)@ == old(self)@.after_push(env),
            old(self)@.sorted() ==> final(self)@.sorted(),
    {
        proof {
            law_push_keeps_sorted(self@, env);
        }
        match (env.request.origin, env.request.source) {
            (JobOrigin::FinalFlush, _) => self.final_flush.push_back(env),
            (JobOrigin::Dictation, _) => self.live_dictation.push_back(env),
            (JobOrigin::Live, JobSource::Mic) => self.live_mic.push_back(env),
            (JobOrigin::Live, JobSource::System) => self.live_system.push_back(env),
            (JobOrigin::Backfill, _) => self.backfill.push_back(env),
        }
    }

    /// Withdraws every job and hands back, class by class, each waiting channel with
    /// the answer that is owed on it.
    pub fn cancel_all(&mut self) -> (r: Vec<(R, JobOutcome)>)
        ensures
            final(self)@ == old(self)@.emptied(),
            r@.len() == old(self)@.all().len(),
            forall|i: int|
                0 <= i < r@.len() ==> (#[trigger] r@[i]).0 == old(self)@.all()[i].respond
                    && is_cancellation(r@[i].1),
            final(self)@.all().len() == 0,
            forall|i: int|
                0 <= i < r@.len() ==> ((#[trigger] r@[i]).1.result matches Err(e) && e is Cancelled),
    {
        let ghost q = self@;
        let mut out: Vec<(R, JobOutcome)> = Vec::new();
        cancel_lane(&mut self.final_flush, &mut out);
        cancel_lane(&mut self.live_dictation, &mut out);
        cancel_lane(&mut self.live_mic, &mut out);
        cancel_lane(&mut self.live_system, &mut out);
        cancel_lane(&mut self.backfill, &mut out);
        proof {
            let a = q.final_flush.len();
            let b = a + q.live_dictation.len();
            let c = b + q.live_mic.len();
            let d = c + q.live_system.len();
            assert forall|i: int| 0 <= i < out@.len() implies (#[trigger] out@[i]).0
                == q.all()[i].respond && is_cancellation(out@[i].1) by {
                if i < a {
                    assert(out@[i] == out@[0 + i]);
                } else if i < b {
                    assert(out@[a + (i - a)] == out@[i]);
                } else if i < c {
                    assert(out@[b + (i - b)] == out@[i]);
                } else if i < d {
                    assert(out@[c + (i - c)] == out@[i]);
                } else {
                    assert(out@[d + (i - d)] == out@[i]);
                }
            }
        }
        out
    }
}

proof fn law_pick_keeps_sorted<R>(q: QueuesView<R>, busy: bool)
    ensures
        q.sorted() ==> q.after_pick(busy).sorted(),
{
    if q.sorted() {
        let p = q.after_pick(busy);
        assert forall|l: Lane, i: int| 0 <= i < p.lane(l).len() implies lane_of(
            #[trigger] p.lane(l)[i].request.origin,
            p.lane(l)[i].request.source,
        ) == l by {
            if q.next_lane(busy) == Some(l) {
                assert(p.lane(l)[i] == q.lane(l)[i + 1]);
                assert(lane_of(
                    q.lane(l)[i + 1].request.origin,
                    q.lane(l)[i + 1].request.source,
                ) == l);
            } else {
                assert(p.lane(l) == q.lane(l));
                assert(lane_of(q.lane(l)[i].request.origin, q.lane(l)[i].request.source) == l);
            }
        }
    }
}

proof fn law_push_keeps_sorted<R>(q: QueuesView<R>, env: JobEnvelope<R>)
    ensures
        q.sorted() ==> q.after_push(env).sorted(),
{
    if q.sorted() {
        let p = q.after_push(env);
        let m = lane_of(env.request.origin, env.request.source);
        assert forall|l: Lane, i: int| 0 <= i < p.lane(l).len() implies lane_of(
            #[trigger] p.lane(l)[i].request.origin,
            p.lane(l)[i].request.source,
        ) == l by {
            if l == m && i == q.lane(l).len() {
                assert(p.lane(l)[i] == env);
            } else {
                assert(p.lane(l)[i] == q.lane(l)[i]);
                assert(lane_of(q.lane(l)[i].request.origin, q.lane(l)[i].request.source) == l);
            }
        }
    }
}

// --- What holds of the queues ---

/// The job taken next is of the highest class that is waiting: no eligible queue
/// that is not empty stands above the one it is taken from.
pub proof fn law_priority<R>(q: QueuesView<R>, producers_busy: bool, taken: Lane, waiting: Lane)
    requires
        q.next_lane(producers_busy) == Some(taken),
        q.lane(waiting).len() > 0,
        waiting is Backfill ==> !producers_busy,
    ensures
        taken.tier() <= waiting.tier(),
{
}

/// History is never taken while a producer is busy, and being busy changes nothing
/// about any other class.
pub proof fn law_backfill_gate<R>(q: QueuesView<R>)
    ensures
        q.next_lane(true) != Some(Lane::Backfill),
        q.next_lane(true) is Some ==> q.next_lane(false) == q.next_lane(true),
        q.next_lane(true) is None && q.backfill.len() > 0 ==> q.next_lane(false) == Some(
            Lane::Backfill,
        ),
{
}

/// How a class stands among the others: what closes a recording, dictation, live speech,
/// history.
pub open spec fn standing(origin: JobOrigin) -> int {
    match origin {
        JobOrigin::FinalFlush => 1,
        JobOrigin::Dictation => 2,
        JobOrigin::Live => 3,
        JobOrigin::Backfill => 4,
    }
}

/// What closes a recording goes before dictation, dictation before live speech, and live
/// speech before history: the job that is taken next is the first of the first of these
/// that waits, of live speech the first of one of the streams; and history only while no
/// producer is busy.
pub proof fn law_classes_are_served_in_order<R>(q: QueuesView<R>, busy: bool)
    ensures
        ({
            let next = q.next_job(busy);
            let live = q.live_mic.len() > 0 || q.live_system.len() > 0;
            &&& q.final_flush.len() > 0 ==> next == Some(q.final_flush[0])
            &&& q.final_flush.len() == 0 && q.live_dictation.len() > 0 ==> next == Some(
                q.live_dictation[0],
            )
            &&& q.final_flush.len() == 0 && q.live_dictation.len() == 0 && live ==> (
            q.live_mic.len() > 0 && next == Some(q.live_mic[0])) || (q.live_system.len() > 0 && next
                == Some(q.live_system[0]))
            &&& q.final_flush.len() == 0 && q.live_dictation.len() == 0 && !live && q.backfill.len()
                > 0 && !busy ==> next == Some(q.backfill[0])
            &&& q.final_flush.len() == 0 && q.live_dictation.len() == 0 && !live && (
            q.backfill.len() == 0 || busy) ==> next is None
        }),
{
}

/// A job waits in the queue of its class, a live one in that of its stream, behind those
/// that are there, and no other queue changes.
pub proof fn law_job_waits_with_its_class<R>(q: QueuesView<R>, env: JobEnvelope<R>)
    ensures
        ({
            let p = q.after_push(env);
            let o = env.request.origin;
            let live_mic = o is Live && env.request.source is Mic;
            let live_system = o is Live && env.request.source is System;
            &&& p.final_flush == (if o is FinalFlush {
                q.final_flush.push(env)
            } else {
                q.final_flush
            })
            &&& p.live_dictation == (if o is Dictation {
                q.live_dictation.push(env)
            } else {
                q.live_dictation
            })
            &&& p.live_mic == (if live_mic {
                q.live_mic.push(env)
            } else {
                q.live_mic
            })
            &&& p.live_system == (if live_system {
                q.live_system.push(env)
            } else {
                q.live_system
            })
            &&& p.backfill == (if o is Backfill {
                q.backfill.push(env)
            } else {
                q.backfill
            })
        }),
{
}

/// No job of a lower class overtakes one of a higher, wherever it waits, and a job that is
/// added later overtakes none of its own class and stream.
pub proof fn law_nobody_is_overtaken<R>(
    q: QueuesView<R>,
    busy: bool,
    l: Lane,
    i: int,
    env: JobEnvelope<R>,
)
    requires
        q.sorted(),
        0 <= i < q.lane(l).len(),
        !busy || !(q.lane(l)[i].request.origin is Backfill),
    ensures
        q.next_job(busy) matches Some(next) && standing(next.request.origin) <= standing(
            q.lane(l)[i].request.origin,
        ),
        q.next_job(busy) matches Some(next) ==> (next.request.origin == env.request.origin
            && next.request.source == env.request.source ==> q.after_push(env).next_job(busy)
            == Some(next)),
{
    let waiting = q.lane(l)[i];
    assert(lane_of(waiting.request.origin, waiting.request.source) == l);
    let taken = q.next_lane(busy).unwrap();
    let next = q.lane(taken)[0];
    assert(lane_of(q.lane(taken)[0].request.origin, q.lane(taken)[0].request.source) == taken);
}

/// Once a live job of one stream was taken, the next live job is of the other stream
/// where that one has any, whatever was added meanwhile: neither can starve.
pub proof fn law_live_turns<R>(q: QueuesView<R>, later: QueuesView<R>, busy: bool, busy_later: bool)
    requires
        q.next_lane(busy) == Some(Lane::LiveMic) || q.next_lane(busy) == Some(Lane::LiveSystem),
        later.last_live_source == q.after_pick(busy).last_live_source,
        later.final_flush.len() == 0,
        later.live_dictation.len() == 0,
    ensures
        q.next_lane(busy) == Some(Lane::LiveMic) && later.live_system.len() > 0
            ==> later.next_lane(busy_later) == Some(Lane::LiveSystem),
        q.next_lane(busy) == Some(Lane::LiveSystem) && later.live_mic.len() > 0
            ==> later.next_lane(busy_later) == Some(Lane::LiveMic),
{
}

/// Adding a job leaves the turn between the live streams as it is, and the job stays
/// behind those that its queue already holds.
pub proof fn law_push_is_last<R>(q: QueuesView<R>, env: JobEnvelope<R>, l: Lane)
    ensures
        q.after_push(env).last_live_source == q.last_live_source,
        q.lane(l).is_prefix_of(q.after_push(env).lane(l)),
        l == lane_of(env.request.origin, env.request.source) ==> q.after_push(env).lane(l).last()
            == env,
{
    let l0 = lane_of(env.request.origin, env.request.source);
    assert(q.lane(l0) =~= q.lane(l0).push(env).take(q.lane(l0).len() as int));
    assert(q.lane(l) =~= q.lane(l).take(q.lane(l).len() as int));
}

proof fn lemma_all_multiset<R>(q: QueuesView<R>)
    ensures
        q.all().to_multiset() == q.final_flush.to_multiset().add(
            q.live_dictation.to_multiset(),
        ).add(q.live_mic.to_multiset()).add(q.live_system.to_multiset()).add(
            q.backfill.to_multiset(),
        ),
{
    vstd::seq_lib::lemma_multiset_commutative(q.final_flush, q.live_dictation);
    vstd::seq_lib::lemma_multiset_commutative(q.final_flush + q.live_dictation, q.live_mic);
    vstd::seq_lib::lemma_multiset_commutative(
        q.final_flush + q.live_dictation + q.live_mic,
        q.live_system,
    );
    vstd::seq_lib::lemma_multiset_commutative(
        q.final_flush + q.live_dictation + q.live_mic + q.live_system,
        q.backfill,
    );
}

/// One more job in one queue is one more job in all.
proof fn lemma_one_more<R>(q: QueuesView<R>, p: QueuesView<R>, l: Lane, job: JobEnvelope<R>)
    requires
        forall|m: Lane| m != l ==> p.lane(m) == q.lane(m),
        p.lane(l).to_multiset() == q.lane(l).to_multiset().insert(job),
    ensures
        p.all().to_multiset() == q.all().to_multiset().insert(job),
{
    lemma_all_multiset(q);
    lemma_all_multiset(p);
    assert(l != Lane::FinalFlush ==> p.lane(Lane::FinalFlush) == q.lane(Lane::FinalFlush));
    assert(l != Lane::Dictation ==> p.lane(Lane::Dictation) == q.lane(Lane::Dictation));
    assert(l != Lane::LiveMic ==> p.lane(Lane::LiveMic) == q.lane(Lane::LiveMic));
    assert(l != Lane::LiveSystem ==> p.lane(Lane::LiveSystem) == q.lane(Lane::LiveSystem));
    assert(l != Lane::Backfill ==> p.lane(Lane::Backfill) == q.lane(Lane::Backfill));
    assert(p.all().to_multiset() =~= q.all().to_multiset().insert(job));
}

/// No job is made up on the way in: adding one adds exactly it.
pub proof fn law_push_adds_one<R>(q: QueuesView<R>, env: JobEnvelope<R>)
    ensures
        q.after_push(env).all().to_multiset() == q.all().to_multiset().insert(env),
{
    let l = lane_of(env.request.origin, env.request.source);
    q.lane(l).to_multiset_ensures();
    lemma_one_more(q, q.after_push(env), l, env);
}

/// No job is lost on the way out: taking one removes exactly it, and where none is
/// taken nothing changes.
pub proof fn law_pick_removes_one<R>(q: QueuesView<R>, busy: bool)
    ensures
        q.next_job(busy) matches Some(j) ==> q.all().to_multiset() == q.after_pick(
            busy,
        ).all().to_multiset().insert(j),
        q.next_job(busy) is None ==> q.after_pick(busy) == q,
{
    if let Some(l) = q.next_lane(busy) {
        let s = q.lane(l);
        let rest = s.drop_first();
        rest.to_multiset_ensures();
        vstd::seq_lib::lemma_multiset_commutative(rest, seq![s[0]]);
        vstd::seq_lib::lemma_multiset_commutative(seq![s[0]], rest);
        assert(rest.push(s[0]) =~= rest + seq![s[0]]);
        assert(seq![s[0]] + rest =~= s);
        assert(s.to_multiset() =~= rest.to_multiset().insert(s[0]));
        lemma_one_more(q.after_pick(busy), q, l, s[0]);
    }
}

/// The jobs that `n` takes give while no producer is busy, and what is left.
pub open spec fn taken<R>(q: QueuesView<R>, n: nat) -> (Seq<JobEnvelope<R>>, QueuesView<R>)
    decreases n,
{
    if n == 0 {
        (Seq::empty(), q)
    } else {
        let (jobs, left) = taken(q, (n - 1) as nat);
        match left.next_job(false) {
            Some(job) => (jobs.push(job), left.after_pick(false)),
            None => (jobs, left),
        }
    }
}

proof fn lemma_taken<R>(q: QueuesView<R>, n: nat)
    requires
        n <= q.all().len(),
    ensures
        taken(q, n).0.len() == n,
        taken(q, n).1.all().len() == q.all().len() - n,
        taken(q, n).0.to_multiset().add(taken(q, n).1.all().to_multiset())
            == q.all().to_multiset(),
    decreases n,
{
    broadcast use vstd::seq_lib::group_to_multiset_ensures;

    if n > 0 {
        let (jobs, left) = taken(q, (n - 1) as nat);
        lemma_taken(q, (n - 1) as nat);
        law_pick_removes_one(left, false);
        let job = left.next_job(false).unwrap();
        assert(jobs.push(job).to_multiset() =~= jobs.to_multiset().insert(job));
        assert(taken(q, n).0.to_multiset().add(taken(q, n).1.all().to_multiset())
            =~= jobs.to_multiset().add(left.all().to_multiset()));
    } else {
        assert(Seq::<JobEnvelope<R>>::empty().to_multiset().add(q.all().to_multiset())
            =~= q.all().to_multiset());
    }
}

/// While no producer is busy, as many takes as there are jobs give every one of them
/// exactly once, and nothing is left waiting.
pub proof fn law_drains<R>(q: QueuesView<R>)
    ensures
        q.next_lane(false) is None <==> q.all().len() == 0,
        taken(q, q.all().len()).0.to_multiset() == q.all().to_multiset(),
        taken(q, q.all().len()).1.all().len() == 0,
{
    broadcast use vstd::seq_lib::group_to_multiset_ensures;

    lemma_taken(q, q.all().len());
    let left = taken(q, q.all().len()).1;
    assert(left.all() =~= Seq::<JobEnvelope<R>>::empty());
    assert(taken(q, q.all().len()).0.to_multiset().add(left.all().to_multiset())
        =~= taken(q, q.all().len()).0.to_multiset());
}

// --- The scheduler ---

impl BusyKind {
    /// The flag of the producer.
    pub open spec fn mask(self) -> u8 {
        match self {
            BusyKind::LiveMic => 1,
            BusyKind::LiveSystem => 2,
            BusyKind::Dictation => 4,
        }
    }

    /// The flag of the producer.
    pub fn bit(self) -> (r: u8)
        ensures
            r == self.mask(),
    {
        match self {
            BusyKind::LiveMic => 1,
            BusyKind::LiveSystem => 2,
            BusyKind::Dictation => 4,
        }
    }
}

/// Whether a producer's flag is raised.
pub open spec fn raised(bits: u8, kind: BusyKind) -> bool {
    bits & kind.mask() != 0
}

/// Life of the scheduler.
#[derive(Clone, Copy, Debug, PartialEq, Eq, Structural)]
pub enum SchedulerState {
    Running,
    ShuttingDown,
    Terminal,
}

impl SchedulerState {
    /// The state that a stored number stands for.
    pub fn from_u8(v: u8) -> (r: SchedulerState)
        ensures
            r == (if v == 0 {
                SchedulerState::Running
            } else if v == 1 {
                SchedulerState::ShuttingDown
            } else {
                SchedulerState::Terminal
            }),
    {
        match v {
            0 => SchedulerState::Running,
            1 => SchedulerState::ShuttingDown,
            _ => SchedulerState::Terminal,
        }
    }
}

/// What the worker does next.
#[derive(Debug)]
pub enum WorkerStep<R> {
    /// Run this job.
    Run(JobEnvelope<R>),
    /// Nothing is eligible: wait to be woken.
    Wait,
    /// Nothing is left and nothing more will come.
    Exit,
}

/// The scheduler in front of the engine, shared by every live runtime.
#[verifier::reject_recursive_types(R)]
pub struct TranscriptionScheduler<R> {
    queues: SchedulerQueues<R>,
    shutdown: bool,
    state: SchedulerState,
    busy_bits: u8,
    engine: EngineKind,
}

/// How long a shutdown waits for the worker, in seconds.
pub const DEFAULT_SHUTDOWN_TIMEOUT_SECS: u64 = 300;

impl<R> TranscriptionScheduler<R> {
    /// The waiting jobs.
    pub closed spec fn jobs(self) -> QueuesView<R> {
        self.queues@
    }

    /// Where the scheduler is in its life.
    pub closed spec fn life(self) -> SchedulerState {
        self.state
    }

    /// The raised flags.
    pub closed spec fn flags(self) -> u8 {
        self.busy_bits
    }

    /// Whether a producer's flag is raised.
    pub open spec fn busy(self, kind: BusyKind) -> bool {
        raised(self.flags(), kind)
    }

    /// Whether any producer's flag is raised.
    pub open spec fn any_busy(self) -> bool {
        self.busy(BusyKind::LiveMic) || self.busy(BusyKind::LiveSystem) || self.busy(
            BusyKind::Dictation,
        )
    }

    /// The engine that the scheduler was made for.
    pub closed spec fn kind(self) -> EngineKind {
        self.engine
    }

    /// What every operation keeps: jobs stand in their queues, only the three flags
    /// are used, and a shutdown that began is never forgotten.
    pub closed spec fn wf(self) -> bool {
        &&& self.queues@.sorted()
        &&& self.busy_bits < 8
        &&& self.shutdown == !(self.state is Running)
    }

    /// A running scheduler without jobs.
    pub fn new(engine: EngineKind) -> (r: Self)
        ensures
            r.wf(),
            r.jobs().all().len() == 0,
            r.jobs().last_live_source is None,
            r.life() is Running,
            !r.any_busy(),
            r.kind() == engine,
    {
        assert(0u8 & 1 == 0 && 0u8 & 2 == 0 && 0u8 & 4 == 0) by (bit_vector);
        TranscriptionScheduler {
            queues: SchedulerQueues::new(),
            shutdown: false,
            state: SchedulerState::Running,
            busy_bits: 0,
            engine,
        }
    }

    /// The engine that the scheduler was made for.
    pub fn engine(&self) -> (r: EngineKind)
        ensures
            r == self.kind(),
    {
        self.engine
    }

    /// Queues a job; refused once a shutdown began.
    pub fn submit(&mut self, request: JobRequest, respond: R) -> (r: Result<(), SchedulerError>)
        requires
            old(self).wf(),
        ensures
            final(self).wf(),
            r is Ok <==> old(self).life() is Running,
            r matches Err(e) ==> e is Shutdown && *final(self) == *old(self),
            r is Ok ==> final(self).jobs() == old(self).jobs().after_push(
                JobEnvelope { request, respond },
            ),
            final(self).life() == old(self).life(),
            final(self).flags() == old(self).flags(),
            final(self).kind() == old(self).kind(),
    {
        if self.state != SchedulerState::Running {
            return Err(SchedulerError::Shutdown);
        }
        self.queues.push(JobEnvelope { request, respond });
        Ok(())
    }

    /// Raises or lowers one producer's flag and leaves the others as they are.
    /// Returns whether the worker has to look again: whether "any producer busy"
    /// changed.
    pub fn set_busy(&mut self, kind: BusyKind, busy: bool) -> (wake: bool)
        requires
            old(self).wf(),
        ensures
            final(self).wf(),
            final(self).busy(kind) == busy,
            forall|k: BusyKind| k != kind ==> final(self).busy(k) == old(self).busy(k),
            wake == (old(self).any_busy() != final(self).any_busy()),
            final(self).jobs() == old(self).jobs(),
            final(self).life() == old(self).life(),
            final(self).kind() == old(self).kind(),
    {
        let bit: u8 = kind.bit();
        let previous: u8 = self.busy_bits;
        let now: u8 = if busy {
            previous | bit
        } else {
            previous & !bit
        };
        proof {
            lemma_flags(previous, bit);
            lemma_any_flag(previous);
            lemma_any_flag(now);
        }
        self.busy_bits = now;
        (previous != 0) != (now != 0)
    }

    /// Raises or lowers both flags of a session.
    pub fn set_live_busy(&mut self, busy: bool) -> (wake: bool)
        requires
            old(self).wf(),
        ensures
            final(self).wf(),
            final(self).busy(BusyKind::LiveMic) == busy,
            final(self).busy(BusyKind::LiveSystem) == busy,
            final(self).busy(BusyKind::Dictation) == old(self).busy(BusyKind::Dictation),
            wake == (old(self).any_busy() != final(self).any_busy()),
            final(self).jobs() == old(self).jobs(),
            final(self).life() == old(self).life(),
            final(self).kind() == old(self).kind(),
    {
        let first: bool = self.set_busy(BusyKind::LiveMic, busy);
        let second: bool = self.set_busy(BusyKind::LiveSystem, busy);
        first || second
    }

    /// Whether the worker keeps history back: some producer is busy and no shutdown
    /// has begun.
    pub open spec fn gated(self) -> bool {
        self.any_busy() && self.life() is Running
    }

    /// The worker's next step. A worker leaves only once a shutdown began and no job
    /// is left.
    pub fn worker_step(&mut self) -> (r: WorkerStep<R>)
        requires
            old(self).wf(),
        ensures
            final(self).wf(),
            final(self).jobs() == old(self).jobs().after_pick(old(self).gated()),
            match old(self).jobs().next_job(old(self).gated()) {
                Some(job) => r == WorkerStep::Run(job),
                None => if old(self).life() is Running {
                    r is Wait
                } else {
                    r is Exit && old(self).jobs().all().len() == 0
                },
            },
            ({
                let busy = old(self).busy(BusyKind::LiveMic) || old(self).busy(
                    BusyKind::LiveSystem,
                ) || old(self).busy(BusyKind::Dictation);
                let running = old(self).life() is Running;
                &&& r is Exit <==> !running && old(self).jobs().all().len() == 0
                &&& r matches WorkerStep::Run(job) ==> (job.request.origin is Backfill ==> !(busy
                    && running))
                &&& old(self).jobs().all().len() > 0 && !(busy && running) ==> r is Run
                &&& old(self).jobs().all().len() > old(self).jobs().backfill.len() ==> r is Run
            }),
            final(self).life() == old(self).life(),
            final(self).flags() == old(self).flags(),
            final(self).kind() == old(self).kind(),
    {
        proof {
            lemma_any_flag(self.busy_bits);
            law_drains(self.queues@);
        }
        let producers_busy: bool = self.busy_bits != 0 && !self.shutdown;
        proof {
            let q = self.queues@;
            law_classes_are_served_in_order(q, producers_busy);
            if let Some(l) = q.next_lane(producers_busy) {
                assert(lane_of(q.lane(l)[0].request.origin, q.lane(l)[0].request.source) == l);
            }
        }
        match self.queues.pick_next(producers_busy) {
            Some(env) => WorkerStep::Run(env),
            None => if self.shutdown {
                WorkerStep::Exit
            } else {
                WorkerStep::Wait
            },
        }
    }

    /// Begins a shutdown; false where one began before, and then nothing changes.
    pub fn begin_shutdown(&mut self) -> (first: bool)
        requires
            old(self).wf(),
        ensures
            final(self).wf(),
            first == (old(self).life() is Running),
            first ==> final(self).life() is ShuttingDown,
            !first ==> *final(self) == *old(self),
            final(self).jobs() == old(self).jobs(),
            final(self).flags() == old(self).flags(),
            final(self).kind() == old(self).kind(),
    {
        if self.shutdown {
            return false;
        }
        self.shutdown = true;
        self.state = SchedulerState::ShuttingDown;
        true
    }

    /// Ends a shutdown that began: withdraws what is still queued and hands back the
    /// answers that are owed.
    pub fn finish_shutdown(&mut self) -> (r: Vec<(R, JobOutcome)>)
        requires
            old(self).wf(),
            !(old(self).life() is Running),
        ensures
            final(self).wf(),
            final(self).life() is Terminal,
            final(self).jobs() == old(self).jobs().emptied(),
            r@.len() == old(self).jobs().all().len(),
            forall|i: int|
                0 <= i < r@.len() ==> (#[trigger] r@[i]).0 == old(self).jobs().all()[i].respond
                    && is_cancellation(r@[i].1),
            final(self).jobs().all().len() == 0,
            forall|i: int|
                0 <= i < r@.len() ==> ((#[trigger] r@[i]).1.result matches Err(e) && e is Cancelled),
            final(self).flags() == old(self).flags(),
            final(self).kind() == old(self).kind(),
    {
        let out = self.queues.cancel_all();
        self.state = SchedulerState::Terminal;
        out
    }
}

proof fn lemma_flags(bits: u8, bit: u8)
    requires
        bits < 8,
        bit == 1 || bit == 2 || bit == 4,
    ensures
        (bits | bit) < 8,
        (bits & !bit) < 8,
        (bits | bit) & bit != 0,
        (bits & !bit) & bit == 0,
        bit != 1 ==> ((bits | bit) & 1 != 0) == (bits & 1 != 0) && ((bits & !bit) & 1 != 0) == (bits
            & 1 != 0),
        bit != 2 ==> ((bits | bit) & 2 != 0) == (bits & 2 != 0) && ((bits & !bit) & 2 != 0) == (bits
            & 2 != 0),
        bit != 4 ==> ((bits | bit) & 4 != 0) == (bits & 4 != 0) && ((bits & !bit) & 4 != 0) == (bits
            & 4 != 0),
{
    assert((bits | bit) < 8 && (bits & !bit) < 8 && (bits | bit) & bit != 0 && (bits & !bit) & bit
        == 0 && (bit != 1 ==> ((bits | bit) & 1 != 0) == (bits & 1 != 0) && ((bits & !bit) & 1 != 0)
        == (bits & 1 != 0)) && (bit != 2 ==> ((bits | bit) & 2 != 0) == (bits & 2 != 0) && ((bits
        & !bit) & 2 != 0) == (bits & 2 != 0)) && (bit != 4 ==> ((bits | bit) & 4 != 0) == (bits & 4
        != 0) && ((bits & !bit) & 4 != 0) == (bits & 4 != 0))) by (bit_vector)
        requires
            bits < 8,
            bit == 1 || bit == 2 || bit == 4,
    ;
}

proof fn lemma_any_flag(bits: u8)
    requires
        bits < 8,
    ensures
        (bits != 0) == (raised(bits, BusyKind::LiveMic) || raised(bits, BusyKind::LiveSystem)
            || raised(bits, BusyKind::Dictation)),
{
    assert((bits != 0) == (bits & 1 != 0 || bits & 2 != 0 || bits & 4 != 0)) by (bit_vector)
        requires
            bits < 8,
    ;
}

/// What a shutdown does with the engine once the worker is gone.
#[derive(Clone, Copy, Debug, PartialEq, Eq, Structural)]
pub enum ClientFate {
    /// Ask it to end and report what it says.
    ShutDown,
    /// Let go of it.
    Drop,
}

/// The engine is asked to end only where the worker ended by itself and nobody else
/// holds the engine.
pub fn client_fate(worker_clean: bool, client_present: bool, sole_holder: bool) -> (r: ClientFate)
    ensures
        r == (if worker_clean && client_present && sole_holder {
            ClientFate::ShutDown
        } else {
            ClientFate::Drop
        }),
{
    if worker_clean && client_present && sole_holder {
        ClientFate::ShutDown
    } else {
        ClientFate::Drop
    }
}

/// What a shutdown reports, given what the engine said when asked to end.
pub fn shutdown_report(client_error: Option<&str>) -> (r: Result<(), String>)
    ensures
        client_error is None ==> r is Ok,
        client_error matches Some(e) ==> (r matches Err(m) && m@ == "client shutdown failed: "@
            + e@),
{
    match client_error {
        None => Ok(()),
        Some(e) => Err(text::joined("client shutdown failed: ", e)),
    }
}

// --- One job ---

/// Where one job stands.
#[derive(Clone, Copy, Debug, PartialEq, Eq, Structural)]
pub enum JobStage {
    /// The engine works on it.
    First,
    /// The engine failed; is its process alive?
    Probing,
    /// The process is dead and is being started again.
    Respawning,
    /// The engine works on it once more.
    Retrying,
    /// It has an outcome.
    Done,
}

/// What is to be done for a job.
#[derive(Debug)]
pub enum JobAction {
    Transcribe,
    ProbeSidecar,
    RespawnSidecar,
    Finish(JobOutcome),
}

/// A job in the hands of the worker: one attempt, and one more where the engine's
/// process had died and was brought back.
#[derive(Debug)]
pub struct JobRun {
    stage: JobStage,
    wall_ms: u64,
    failure: String,
}

impl JobRun {
    /// Where the job stands.
    pub closed spec fn at(self) -> JobStage {
        self.stage
    }

    /// The time that attempts took so far.
    pub closed spec fn spent(self) -> u64 {
        self.wall_ms
    }

    /// What the engine said when it failed.
    pub closed spec fn said(self) -> Seq<char> {
        self.failure@
    }

    /// A job that the engine is to work on.
    pub fn start() -> (r: JobRun)
        ensures
            r.at() is First,
            r.spent() == 0,
    {
        JobRun { stage: JobStage::First, wall_ms: 0, failure: String::new() }
    }

    /// The engine is done with an attempt.
    pub fn transcribed(
        &mut self,
        result: Result<TranscriptionResult, String>,
        elapsed_ms: u64,
    ) -> (r: JobAction)
        requires
            old(self).at() is First || old(self).at() is Retrying,
            old(self).spent() + elapsed_ms <= u64::MAX,
        ensures
            final(self).spent() == old(self).spent() + elapsed_ms,
            match result {
                Ok(t) => r == JobAction::Finish(
                    JobOutcome { result: Ok(t), wall_ms: final(self).spent() },
                ) && final(self).at() is Done,
                Err(m) => if old(self).at() is First {
                    r is ProbeSidecar && final(self).at() is Probing && final(self).said() == m@
                } else {
                    r == JobAction::Finish(
                        JobOutcome {
                            result: Err(SchedulerError::Transcription(m)),
                            wall_ms: final(self).spent(),
                        },
                    ) && final(self).at() is Done
                },
            },
    {
        self.wall_ms = self.wall_ms + elapsed_ms;
        match result {
            Ok(t) => {
                self.stage = JobStage::Done;
                JobAction::Finish(JobOutcome { result: Ok(t), wall_ms: self.wall_ms })
            },
            Err(m) => if self.stage == JobStage::First {
                self.stage = JobStage::Probing;
                self.failure = m;
                JobAction::ProbeSidecar
            } else {
                self.stage = JobStage::Done;
                JobAction::Finish(
                    JobOutcome {
                        result: Err(SchedulerError::Transcription(m)),
                        wall_ms: self.wall_ms,
                    },
                )
            },
        }
    }

    /// Whether the engine's process is alive is known: alive, the failure stands;
    /// dead, it is started again.
    pub fn probed(&mut self, running: bool) -> (r: JobAction)
        requires
            old(self).at() is Probing,
        ensures
            final(self).spent() == old(self).spent(),
            running ==> final(self).at() is Done && (r matches JobAction::Finish(o) && o.wall_ms
                == old(self).spent() && (o.result matches Err(SchedulerError::Transcription(m))
                && m@ == old(self).said())),
            !running ==> final(self).at() is Respawning && r is RespawnSidecar,
    {
        if running {
            let mut m: String = String::new();
            core::mem::swap(&mut m, &mut self.failure);
            self.stage = JobStage::Done;
            JobAction::Finish(
                JobOutcome {
                    result: Err(SchedulerError::Transcription(m)),
                    wall_ms: self.wall_ms,
                },
            )
        } else {
            self.stage = JobStage::Respawning;
            JobAction::RespawnSidecar
        }
    }

    /// The process is back, or is not: back, the job is tried once more; otherwise
    /// the engine is dead.
    pub fn respawned(&mut self, back: bool) -> (r: JobAction)
        requires
            old(self).at() is Respawning,
        ensures
            final(self).spent() == old(self).spent(),
            back ==> final(self).at() is Retrying && r is Transcribe,
            !back ==> final(self).at() is Done && (r matches JobAction::Finish(o) && o.wall_ms
                == old(self).spent() && o.result matches Err(SchedulerError::SidecarDead)),
    {
        if back {
            self.stage = JobStage::Retrying;
            JobAction::Transcribe
        } else {
            self.stage = JobStage::Done;
            JobAction::Finish(
                JobOutcome { result: Err(SchedulerError::SidecarDead), wall_ms: self.wall_ms },
            )
        }
    }
}

} // verus!
