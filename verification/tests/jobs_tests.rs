use lumen_cut::jobs::{
    busy_message, finish, interrupted_message, may_start, parse_state, persist_failed, recover,
    report_progress, request_cancel, save_failed_message, start_status, state_name, JobKind,
    JobOutcome, JobState, JobStatus,
};

fn now() -> u64 {
    std::time::SystemTime::now()
        .duration_since(std::time::UNIX_EPOCH)
        .unwrap()
        .as_secs()
}

fn stored(phase: &str, progress: u8) -> JobStatus {
    JobStatus {
        state: JobState::Running,
        phase: phase.into(),
        progress,
        error: None,
        started_at: Some(10),
        updated_at: Some(20),
    }
}

fn recovered_again(status: &JobStatus) -> Option<JobStatus> {
    let copy = JobStatus {
        state: status.state,
        phase: status.phase.clone(),
        progress: status.progress,
        error: status.error.clone(),
        started_at: status.started_at,
        updated_at: status.updated_at,
    };
    recover(copy, now(), interrupted_message(JobKind::Transcription))
}

#[test]
fn interrupted_job_becomes_a_retryable_failure() {
    let recovered = recover(
        stored("transcribing", 52),
        now(),
        interrupted_message(JobKind::Transcription),
    )
    .unwrap();
    assert_eq!(state_name(recovered.state), "failed");
    assert_eq!(recovered.phase, "failed");
    assert_eq!(recovered.progress, 52);
    assert!(recovered.updated_at.unwrap() > 20);
    assert!(recovered.error.as_deref().unwrap().contains("retry"));

    // Read again, the failure stays as it is.
    assert!(recovered_again(&recovered).is_none());
    assert_eq!(state_name(recovered.state), "failed");
}

#[test]
fn interrupted_speaker_analysis_becomes_a_retryable_failure() {
    let recovered = recover(
        stored("embedding", 81),
        now(),
        interrupted_message(JobKind::SpeakerAnalysis),
    )
    .unwrap();
    assert_eq!(state_name(recovered.state), "failed");
    assert_eq!(recovered.phase, "failed");
    assert_eq!(recovered.progress, 81);
    assert!(recovered.updated_at.unwrap() > 20);
    assert!(recovered.error.as_deref().unwrap().contains("start it again"));
    assert!(recovered_again(&recovered).is_none());
}

#[test]
fn interrupted_video_export_becomes_a_retryable_failure() {
    let recovered = recover(
        stored("encoding", 47),
        now(),
        interrupted_message(JobKind::VideoExport),
    )
    .unwrap();
    assert_eq!(state_name(recovered.state), "failed");
    assert_eq!(recovered.phase, "failed");
    assert_eq!(recovered.progress, 47);
    assert!(recovered.updated_at.unwrap() > 20);
    assert!(recovered.error.unwrap().contains("start it again"));
}

#[test]
fn interrupted_setup_becomes_a_retryable_failure() {
    let recovered = recover(stored("downloading", 0), now(), interrupted_message(JobKind::Setup)).unwrap();
    assert_eq!(state_name(recovered.state), "failed");
    assert!(recovered.updated_at.unwrap() > 20);
    assert!(recovered.error.unwrap().contains("start it again"));
}

#[test]
fn interrupted_broll_preview_becomes_a_retryable_failure() {
    let recovered = recover(
        stored("encoding", 63),
        now(),
        interrupted_message(JobKind::BrollPreview),
    )
    .unwrap();
    assert_eq!(state_name(recovered.state), "failed");
    assert_eq!(recovered.progress, 63);
    assert!(recovered.updated_at.unwrap() > 20);
    assert!(recovered.error.unwrap().contains("start it again"));
}

#[test]
fn a_cancelling_job_is_also_recovered_and_an_ended_one_is_kept() {
    let mut s = stored("cancelling", 5);
    s.state = JobState::Cancelling;
    assert!(recover(s, 30, "x".into()).is_some());
    let mut done = stored("completed", 100);
    done.state = JobState::Completed;
    assert!(recover(done, 30, "x".into()).is_none());
}

#[test]
fn no_second_job_starts_while_one_runs() {
    assert!(may_start(None));
    assert!(!may_start(Some(JobState::Running)));
    assert!(!may_start(Some(JobState::Cancelling)));
    assert!(may_start(Some(JobState::Completed)));
    assert!(may_start(Some(JobState::Cancelled)));
    assert!(may_start(Some(JobState::Failed)));
    assert_eq!(busy_message(JobKind::Transcription), "this project already has a transcription in progress");
    assert_eq!(busy_message(JobKind::Setup), "another runtime or model setup task is already running");
}

#[test]
fn a_job_runs_reports_and_finishes() {
    let s = start_status(JobKind::Transcription, 7);
    assert_eq!(state_name(s.state), "running");
    assert_eq!(s.phase, "preparing");
    assert_eq!(s.progress, 0);
    assert_eq!(start_status(JobKind::Setup, 7).phase, "waiting");
    let s = report_progress(s, "transcribing", 45, 8);
    let s = report_progress(s, "transcribing", 20, 9);
    assert_eq!(s.progress, 45);
    assert_eq!(s.updated_at, Some(9));
    let s = report_progress(s, "aligning", 255, 10);
    assert_eq!(s.progress, 100);
    assert_eq!(s.phase, "aligning");

    let done = finish(stored("x", 60), JobOutcome::Done, 11);
    assert_eq!(state_name(done.state), "completed");
    assert_eq!((done.progress, done.updated_at), (100, Some(11)));
    let cancelled = finish(stored("x", 60), JobOutcome::Cancelled, 11);
    assert_eq!(state_name(cancelled.state), "cancelled");
    assert_eq!(cancelled.progress, 60);
    let failed = finish(stored("x", 60), JobOutcome::Failed("boom".into()), 11);
    assert_eq!(failed.phase, "failed");
    assert_eq!(failed.error.as_deref(), Some("boom"));
}

#[test]
fn a_final_status_that_cannot_be_saved_is_reported_as_failure() {
    let done = finish(stored("x", 60), JobOutcome::Done, 11);
    let message = save_failed_message(JobKind::Transcription, "disk unavailable");
    let reported = persist_failed(done, message);
    assert_eq!(state_name(reported.state), "failed");
    assert_eq!(reported.progress, 100);
    assert_eq!(
        reported.error.as_deref(),
        Some("transcription finished but its recovery status could not be saved: disk unavailable")
    );
}

#[test]
fn cancelling_only_touches_a_running_job() {
    let c = request_cancel(stored("x", 30), 40);
    assert_eq!(state_name(c.state), "cancelling");
    assert_eq!(c.phase, "cancelling");
    let mut done = stored("completed", 100);
    done.state = JobState::Completed;
    let same = request_cancel(done, 40);
    assert_eq!(state_name(same.state), "completed");
    assert_eq!(same.updated_at, Some(20));
    assert_eq!(parse_state("cancelling"), Some(JobState::Cancelling));
    assert_eq!(parse_state("paused"), None);
}
