use otter::transcode::WorkerEvent;
use otter::worker::{job_step, queue_step, JobAction, JobPhase, JobRun, JobSignal, QueueNext, QueueRun};

fn started(run: &mut JobRun) {
    let actions = job_step(run, JobSignal::Spawned { pid: 42 });
    assert_eq!(actions.len(), 1);
    assert!(matches!(actions[0], JobAction::Send(WorkerEvent::Started { index: 2, pid: 42 })));
}

#[test]
fn a_successful_run_checks_the_path_then_persists_and_finishes() {
    let mut run = JobRun::new(2, "/videos/out.mp4".to_owned(), 1_000);
    started(&mut run);
    assert!(job_step(&mut run, JobSignal::Tick { now_ms: 1_500 }).is_empty());
    let actions = job_step(&mut run, JobSignal::Exited { success: true, code: Some(0) });
    assert!(matches!(actions.as_slice(), [JobAction::CheckOutput]));
    let actions = job_step(&mut run, JobSignal::OutputChecked { exists: false });
    assert!(matches!(actions.as_slice(), [JobAction::Persist]));
    let actions = job_step(&mut run, JobSignal::Persisted { result: Ok(()), now_ms: 4_250 });
    match actions.as_slice() {
        [JobAction::Send(WorkerEvent::Finished { index, output, elapsed_ms }), JobAction::RemoveTemporary, JobAction::Finish] => {
            assert_eq!(*index, 2);
            assert_eq!(output, "/videos/out.mp4");
            assert_eq!(*elapsed_ms, 3_250);
        }
        other => panic!("unexpected actions {other:?}"),
    }
    assert_eq!(run.phase, JobPhase::Done);
    assert!(!run.was_cancelled());
    assert!(job_step(&mut run, JobSignal::Tick { now_ms: 5_000 }).is_empty());
}

#[test]
fn a_cancel_interrupts_then_kills_after_the_grace_period() {
    let mut run = JobRun::new(2, "/videos/out.mp4".to_owned(), 0);
    started(&mut run);
    assert!(run.listens_for_cancel());
    let actions = job_step(&mut run, JobSignal::CancelRequested { at_ms: 10_000 });
    assert!(matches!(actions.as_slice(), [JobAction::Interrupt]));
    assert!(!run.listens_for_cancel());
    assert!(job_step(&mut run, JobSignal::CancelRequested { at_ms: 10_100 }).is_empty());
    assert!(job_step(&mut run, JobSignal::Tick { now_ms: 12_999 }).is_empty());
    let actions = job_step(&mut run, JobSignal::Tick { now_ms: 13_000 });
    assert!(matches!(actions.as_slice(), [JobAction::Kill]));
    let actions = job_step(&mut run, JobSignal::Exited { success: true, code: Some(0) });
    assert!(matches!(
        actions.as_slice(),
        [JobAction::Send(WorkerEvent::Cancelled { index: 2 }), JobAction::RemoveTemporary, JobAction::Finish]
    ));
    assert!(run.was_cancelled());
}

#[test]
fn failures_report_their_reason_and_clean_up() {
    let mut run = JobRun::new(0, "/videos/out.mp4".to_owned(), 0);
    let actions = job_step(&mut run, JobSignal::SpawnFailed("No such file or directory".to_owned()));
    match actions.as_slice() {
        [JobAction::Send(WorkerEvent::Failed { index: 0, error }), JobAction::RemoveTemporary, JobAction::Finish] => {
            assert_eq!(error, "Failed to start FFmpeg: No such file or directory");
        }
        other => panic!("unexpected actions {other:?}"),
    }

    let mut run = JobRun::new(0, "/videos/out.mp4".to_owned(), 0);
    job_step(&mut run, JobSignal::Spawned { pid: 7 });
    let actions = job_step(&mut run, JobSignal::Exited { success: false, code: Some(1) });
    match actions.as_slice() {
        [JobAction::Send(WorkerEvent::Failed { error, .. }), JobAction::RemoveTemporary, JobAction::Finish] => {
            assert_eq!(error, "FFmpeg failed with exit code 1.");
        }
        other => panic!("unexpected actions {other:?}"),
    }

    let mut run = JobRun::new(0, "/videos/out.mp4".to_owned(), 0);
    job_step(&mut run, JobSignal::Spawned { pid: 7 });
    let actions = job_step(&mut run, JobSignal::WaitFailed("interrupted".to_owned()));
    match actions.as_slice() {
        [JobAction::Kill, JobAction::Send(WorkerEvent::Failed { error, .. }), JobAction::RemoveTemporary, JobAction::Finish] => {
            assert_eq!(error, "Failed while waiting for FFmpeg: interrupted");
        }
        other => panic!("unexpected actions {other:?}"),
    }
}

#[test]
fn an_existing_output_is_never_overwritten() {
    let mut run = JobRun::new(1, "/videos/out.mp4".to_owned(), 0);
    job_step(&mut run, JobSignal::Spawned { pid: 7 });
    job_step(&mut run, JobSignal::Exited { success: true, code: Some(0) });
    let actions = job_step(&mut run, JobSignal::OutputChecked { exists: true });
    match actions.as_slice() {
        [JobAction::Send(WorkerEvent::Failed { index: 1, error }), JobAction::RemoveTemporary, JobAction::Finish] => {
            assert_eq!(error, "The output file already exists. Choose a new file name.");
        }
        other => panic!("unexpected actions {other:?}"),
    }

    let mut run = JobRun::new(1, "/videos/out.mp4".to_owned(), 0);
    job_step(&mut run, JobSignal::Spawned { pid: 7 });
    job_step(&mut run, JobSignal::Exited { success: true, code: Some(0) });
    job_step(&mut run, JobSignal::OutputChecked { exists: false });
    let actions = job_step(&mut run, JobSignal::Persisted { result: Err("cross-device link".to_owned()), now_ms: 9 });
    match actions.as_slice() {
        [JobAction::Send(WorkerEvent::Failed { error, .. }), JobAction::RemoveTemporary, JobAction::Finish] => {
            assert_eq!(error, "Failed to manage the temporary output: cross-device link");
        }
        other => panic!("unexpected actions {other:?}"),
    }
}

#[test]
fn the_queue_runs_in_order_and_stops_after_a_cancel() {
    let mut queue = QueueRun::new(3);
    assert!(matches!(queue_step(&mut queue, false, 0), QueueNext::Start { index: 0 }));
    assert!(matches!(queue_step(&mut queue, false, 10), QueueNext::Start { index: 1 }));
    match queue_step(&mut queue, true, 20) {
        QueueNext::Stop(WorkerEvent::QueueFinished { elapsed_ms, cancelled, remaining }) => {
            assert_eq!((elapsed_ms, cancelled, remaining), (20, true, 1));
        }
        other => panic!("unexpected step {other:?}"),
    }

    let mut queue = QueueRun::new(1);
    assert!(matches!(queue_step(&mut queue, false, 0), QueueNext::Start { index: 0 }));
    match queue_step(&mut queue, false, 5) {
        QueueNext::Stop(WorkerEvent::QueueFinished { cancelled, remaining, .. }) => {
            assert_eq!((cancelled, remaining), (false, 0));
        }
        other => panic!("unexpected step {other:?}"),
    }
}
