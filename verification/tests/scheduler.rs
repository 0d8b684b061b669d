use yapstack::model::{EngineKind, TranscriptionResult};
use yapstack::scheduler::{
    client_fate, shutdown_report, BusyKind, ClientFate, JobAction, JobEnvelope, JobOrigin,
    JobRequest, JobRun, JobSource, SchedulerError, SchedulerQueues, SchedulerState,
    TranscriptionScheduler, WorkerStep,
};

fn request(origin: JobOrigin, source: JobSource) -> JobRequest {
    JobRequest {
        origin,
        source,
        wav_path: "/tmp/placeholder.wav".to_string(),
        language: None,
        initial_prompt: None,
        diarization: false,
    }
}

fn env(origin: JobOrigin, source: JobSource) -> JobEnvelope<u32> {
    JobEnvelope {
        request: request(origin, source),
        respond: 0,
    }
}

fn done() -> TranscriptionResult {
    TranscriptionResult {
        text: "hello".to_string(),
        segments: vec![],
    }
}

#[test]
fn priority_final_before_dictation_before_live_before_backfill() {
    let mut q = SchedulerQueues::new();
    q.push(env(JobOrigin::Backfill, JobSource::Mic));
    q.push(env(JobOrigin::Live, JobSource::Mic));
    q.push(env(JobOrigin::Dictation, JobSource::Mic));
    q.push(env(JobOrigin::FinalFlush, JobSource::Mic));

    let first = q.pick_next(false).unwrap();
    assert!(matches!(first.request.origin, JobOrigin::FinalFlush));
    let second = q.pick_next(false).unwrap();
    assert!(matches!(second.request.origin, JobOrigin::Dictation));
    let third = q.pick_next(false).unwrap();
    assert!(matches!(third.request.origin, JobOrigin::Live));
    let fourth = q.pick_next(false).unwrap();
    assert!(matches!(fourth.request.origin, JobOrigin::Backfill));
    assert!(q.pick_next(false).is_none());
}

#[test]
fn dictation_jumps_an_already_queued_live_job() {
    let mut q = SchedulerQueues::new();
    q.push(env(JobOrigin::Live, JobSource::Mic));
    q.push(env(JobOrigin::Dictation, JobSource::Mic));
    let first = q.pick_next(false).unwrap();
    assert!(matches!(first.request.origin, JobOrigin::Dictation));
    let second = q.pick_next(false).unwrap();
    assert!(matches!(second.request.origin, JobOrigin::Live));
}

#[test]
fn dictation_ignores_busy_gate() {
    let mut q = SchedulerQueues::new();
    q.push(env(JobOrigin::Dictation, JobSource::Mic));
    let first = q.pick_next(true).unwrap();
    assert!(matches!(first.request.origin, JobOrigin::Dictation));
}

#[test]
fn live_round_robin_alternates_sources() {
    let mut q = SchedulerQueues::new();
    for _ in 0..3 {
        q.push(env(JobOrigin::Live, JobSource::Mic));
        q.push(env(JobOrigin::Live, JobSource::System));
    }
    let mut sequence = Vec::new();
    while let Some(env) = q.pick_next(false) {
        sequence.push(env.request.source);
    }
    assert_eq!(sequence.len(), 6);
    assert_eq!(
        sequence,
        vec![
            JobSource::Mic,
            JobSource::System,
            JobSource::Mic,
            JobSource::System,
            JobSource::Mic,
            JobSource::System,
        ]
    );
}

#[test]
fn live_drains_remaining_when_one_side_empty() {
    let mut q = SchedulerQueues::new();
    for _ in 0..3 {
        q.push(env(JobOrigin::Live, JobSource::System));
    }
    let mut count = 0;
    while let Some(env) = q.pick_next(false) {
        assert_eq!(env.request.source, JobSource::System);
        count += 1;
    }
    assert_eq!(count, 3);
}

#[test]
fn final_flush_preempts_even_when_live_queued() {
    let mut q = SchedulerQueues::new();
    for _ in 0..2 {
        q.push(env(JobOrigin::Live, JobSource::Mic));
    }
    q.push(env(JobOrigin::FinalFlush, JobSource::System));
    let first = q.pick_next(false).unwrap();
    assert!(matches!(first.request.origin, JobOrigin::FinalFlush));
}

#[test]
fn backfill_drains_after_live_even_when_interleaved() {
    let mut q = SchedulerQueues::new();
    q.push(env(JobOrigin::Backfill, JobSource::Mic));
    q.push(env(JobOrigin::Live, JobSource::Mic));
    q.push(env(JobOrigin::Backfill, JobSource::Mic));
    assert!(matches!(
        q.pick_next(false).unwrap().request.origin,
        JobOrigin::Live
    ));
    assert!(matches!(
        q.pick_next(false).unwrap().request.origin,
        JobOrigin::Backfill
    ));
    assert!(matches!(
        q.pick_next(false).unwrap().request.origin,
        JobOrigin::Backfill
    ));
}

#[test]
fn backfill_waits_while_live_busy() {
    let mut q = SchedulerQueues::new();
    q.push(env(JobOrigin::Backfill, JobSource::Mic));
    assert!(q.pick_next(true).is_none());
    assert!(matches!(
        q.pick_next(false).unwrap().request.origin,
        JobOrigin::Backfill
    ));
}

#[test]
fn final_flush_and_live_ignore_live_busy_gate() {
    let mut q = SchedulerQueues::new();
    q.push(env(JobOrigin::Backfill, JobSource::Mic));
    q.push(env(JobOrigin::Live, JobSource::Mic));
    q.push(env(JobOrigin::FinalFlush, JobSource::System));
    assert!(matches!(
        q.pick_next(true).unwrap().request.origin,
        JobOrigin::FinalFlush
    ));
    assert!(matches!(
        q.pick_next(true).unwrap().request.origin,
        JobOrigin::Live
    ));
    assert!(q.pick_next(true).is_none());
    assert!(matches!(
        q.pick_next(false).unwrap().request.origin,
        JobOrigin::Backfill
    ));
}

#[test]
fn cancel_all_drains_every_bucket() {
    let mut q: SchedulerQueues<u32> = SchedulerQueues::new();
    let origins = [
        (JobOrigin::FinalFlush, JobSource::Mic),
        (JobOrigin::Dictation, JobSource::Mic),
        (JobOrigin::Live, JobSource::System),
        (JobOrigin::Backfill, JobSource::Mic),
    ];
    for (i, (origin, source)) in origins.iter().enumerate() {
        q.push(JobEnvelope {
            request: request(*origin, *source),
            respond: i as u32,
        });
    }
    let answers = q.cancel_all();
    for waiter in 0..4u32 {
        let out = answers
            .iter()
            .find(|a| a.0 == waiter)
            .expect("waiter should have a value");
        assert!(matches!(out.1.result, Err(SchedulerError::Cancelled)));
    }
    assert!(q.pick_next(false).is_none());
}

#[test]
fn busy_producers_hold_the_history_back() {
    let mut sched: TranscriptionScheduler<u32> =
        TranscriptionScheduler::new(EngineKind::Whisper);
    assert_eq!(sched.engine(), EngineKind::Whisper);
    sched
        .submit(request(JobOrigin::Backfill, JobSource::Mic), 1)
        .unwrap();
    sched.set_busy(BusyKind::Dictation, true);
    assert!(matches!(sched.worker_step(), WorkerStep::Wait));
    sched.set_live_busy(true);
    sched.set_busy(BusyKind::Dictation, false);
    assert!(matches!(sched.worker_step(), WorkerStep::Wait));
    assert!(sched.set_live_busy(false));
    assert!(matches!(sched.worker_step(), WorkerStep::Run(e) if e.respond == 1));
}

#[test]
fn shutdown_lets_queued_jobs_finish_and_refuses_new_ones() {
    let mut sched: TranscriptionScheduler<u32> =
        TranscriptionScheduler::new(EngineKind::Parakeet);
    sched
        .submit(request(JobOrigin::Live, JobSource::Mic), 1)
        .unwrap();
    assert!(sched.begin_shutdown());
    assert!(!sched.begin_shutdown());
    assert!(matches!(
        sched.submit(request(JobOrigin::Live, JobSource::Mic), 2),
        Err(SchedulerError::Shutdown)
    ));
    assert!(matches!(sched.worker_step(), WorkerStep::Run(_)));
    assert!(matches!(sched.worker_step(), WorkerStep::Exit));
    assert!(sched.finish_shutdown().is_empty());
}

#[test]
fn what_shutdown_leaves_behind_is_cancelled() {
    let mut sched: TranscriptionScheduler<u32> =
        TranscriptionScheduler::new(EngineKind::Parakeet);
    sched
        .submit(request(JobOrigin::Live, JobSource::Mic), 5)
        .unwrap();
    sched.begin_shutdown();
    let left = sched.finish_shutdown();
    assert_eq!(left.len(), 1);
    assert_eq!(left[0].0, 5);
    assert!(matches!(left[0].1.result, Err(SchedulerError::Cancelled)));
}

#[test]
fn states_and_bits() {
    assert_eq!(SchedulerState::from_u8(0), SchedulerState::Running);
    assert_eq!(SchedulerState::from_u8(1), SchedulerState::ShuttingDown);
    assert_eq!(SchedulerState::from_u8(2), SchedulerState::Terminal);
    let bits = [
        BusyKind::LiveMic.bit(),
        BusyKind::LiveSystem.bit(),
        BusyKind::Dictation.bit(),
    ];
    assert_eq!(bits[0] | bits[1] | bits[2], 0b111);
    assert_eq!(JobOrigin::FinalFlush.as_str(), "final_flush");
}

#[test]
fn a_job_that_fails_on_a_living_engine_is_not_repeated() {
    let mut run = JobRun::start();
    assert!(matches!(
        run.transcribed(Err("bad audio".to_string()), 5),
        JobAction::ProbeSidecar
    ));
    match run.probed(true) {
        JobAction::Finish(o) => {
            assert_eq!(o.wall_ms, 5);
            assert!(
                matches!(o.result, Err(SchedulerError::Transcription(m)) if m == "bad audio")
            );
        }
        other => panic!("unexpected {:?}", other),
    }
}

#[test]
fn a_job_is_repeated_once_behind_a_respawn() {
    let mut run = JobRun::start();
    run.transcribed(Err("gone".to_string()), 5);
    assert!(matches!(run.probed(false), JobAction::RespawnSidecar));
    assert!(matches!(run.respawned(true), JobAction::Transcribe));
    match run.transcribed(Ok(done()), 7) {
        JobAction::Finish(o) => {
            assert_eq!(o.wall_ms, 12);
            assert_eq!(o.result.unwrap().text, "hello");
        }
        other => panic!("unexpected {:?}", other),
    }

    let mut run = JobRun::start();
    run.transcribed(Err("gone".to_string()), 1);
    run.probed(false);
    match run.respawned(false) {
        JobAction::Finish(o) => {
            assert!(matches!(o.result, Err(SchedulerError::SidecarDead)))
        }
        other => panic!("unexpected {:?}", other),
    }
}

#[test]
fn the_engine_is_asked_to_end_only_by_its_sole_holder() {
    assert_eq!(client_fate(true, true, true), ClientFate::ShutDown);
    assert_eq!(client_fate(false, true, true), ClientFate::Drop);
    assert_eq!(client_fate(true, true, false), ClientFate::Drop);
    assert!(shutdown_report(None).is_ok());
    assert!(shutdown_report(Some("stuck")).unwrap_err().contains("stuck"));
}

#[test]
fn every_job_comes_out_once() {
    let origins = [
        JobOrigin::Live,
        JobOrigin::Backfill,
        JobOrigin::FinalFlush,
        JobOrigin::Dictation,
    ];
    let mut q = SchedulerQueues::new();
    for number in 0..24u32 {
        let source = if number % 3 == 0 {
            JobSource::System
        } else {
            JobSource::Mic
        };
        q.push(JobEnvelope {
            request: request(origins[number as usize % 4], source),
            respond: number,
        });
    }
    let mut taken: Vec<u32> = Vec::new();
    while let Some(job) = q.pick_next(false) {
        taken.push(job.respond);
    }
    assert_eq!(&taken[0..6], &[2, 6, 10, 14, 18, 22]);
    taken.sort();
    assert_eq!(taken, (0..24).collect::<Vec<u32>>());
}
