//! The lifecycle of a background job (transcription, speaker analysis,
//! B-roll preview, setup, video export): when one may start, how its status
//! moves while it runs, what its outcome makes of it, and what a status left
//! behind by an interrupted run becomes. The caller runs the work, holds the
//! job table and writes the status files; every decision is made here.

use vstd::prelude::*;

use crate::advance_progress;

verus! {

/// Where a job stands.
#[derive(Debug, Clone, Copy, PartialEq, Eq, Structural)]
pub enum JobState {
    Running,
    Cancelling,
    Completed,
    Cancelled,
    Failed,
}

/// The name a state is stored under.
pub open spec fn state_name_spec(s: JobState) -> Seq<char> {
    match s {
        JobState::Running => "running"@,
        JobState::Cancelling => "cancelling"@,
        JobState::Completed => "completed"@,
        JobState::Cancelled => "cancelled"@,
        JobState::Failed => "failed"@,
    }
}

/// The name a state is stored under.
pub fn state_name(s: JobState) -> (r: &'static str)
    ensures
        r@ == state_name_spec(s),
{
    match s {
        JobState::Running => "running",
        JobState::Cancelling => "cancelling",
        JobState::Completed => "completed",
        JobState::Cancelled => "cancelled",
        JobState::Failed => "failed",
    }
}

/// The state stored under `name`, if it names one.
pub fn parse_state(name: &str) -> (r: Option<JobState>)
    ensures
        r matches Some(s) ==> state_name_spec(s) == name@,
        r is None ==> forall|s: JobState| state_name_spec(s) != name@,
{
    proof {
        reveal_strlit("running");
        reveal_strlit("cancelling");
        reveal_strlit("completed");
        reveal_strlit("cancelled");
        reveal_strlit("failed");
    }
    if crate::text::str_eq(name, "running") {
        Some(JobState::Running)
    } else if crate::text::str_eq(name, "cancelling") {
        Some(JobState::Cancelling)
    } else if crate::text::str_eq(name, "completed") {
        Some(JobState::Completed)
    } else if crate::text::str_eq(name, "cancelled") {
        Some(JobState::Cancelled)
    } else if crate::text::str_eq(name, "failed") {
        Some(JobState::Failed)
    } else {
        None
    }
}

/// Whether a job in this state still holds its project.
pub open spec fn is_active(s: JobState) -> bool {
    s == JobState::Running || s == JobState::Cancelling
}

/// How the work of a job ended.
#[derive(Debug)]
pub enum JobOutcome {
    Done,
    Cancelled,
    Failed(String),
}

/// The status a job reports and stores.
#[derive(Debug)]
pub struct JobStatus {
    pub state: JobState,
    pub phase: String,
    pub progress: u8,
    pub error: Option<String>,
    pub started_at: Option<u64>,
    pub updated_at: Option<u64>,
}

pub open spec fn opt_string_view(o: Option<String>) -> Option<Seq<char>> {
    match o {
        Some(s) => Some(s@),
        None => None,
    }
}


/// The kinds of background job.
#[derive(Debug, Clone, Copy, PartialEq, Eq, Structural)]
pub enum JobKind {
    Transcription,
    SpeakerAnalysis,
    BrollPreview,
    Setup,
    VideoExport,
}

/// The phase a job of this kind starts in.
pub open spec fn start_phase_spec(kind: JobKind) -> Seq<char> {
    if kind == JobKind::Setup {
        "waiting"@
    } else {
        "preparing"@
    }
}

/// Why a job of this kind may not start while another one is active.
pub open spec fn busy_message_spec(kind: JobKind) -> Seq<char> {
    match kind {
        JobKind::Transcription => "this project already has a transcription in progress"@,
        JobKind::SpeakerAnalysis => "this project already has a speaker analysis in progress"@,
        JobKind::BrollPreview => "this project already has a B-roll preview in progress"@,
        JobKind::Setup => "another runtime or model setup task is already running"@,
        JobKind::VideoExport => "this project already has a video export in progress"@,
    }
}

/// The error a job of this kind is given when it is found interrupted.
pub open spec fn interrupted_message_spec(kind: JobKind) -> Seq<char> {
    match kind {
        JobKind::Transcription => "the previous transcription was interrupted when lumen-cut closed; retry to start it again"@,
        JobKind::SpeakerAnalysis => "the previous speaker analysis was interrupted when lumen-cut closed; start it again"@,
        JobKind::BrollPreview => "the previous B-roll preview was interrupted when lumen-cut closed; start it again"@,
        JobKind::Setup => "the previous setup task was interrupted when lumen-cut closed; start it again"@,
        JobKind::VideoExport => "the previous video export was interrupted when lumen-cut closed; start it again"@,
    }
}

/// The start of the error a job of this kind is given when its final
/// status could not be saved; the saving error follows.
pub open spec fn save_failed_prefix_spec(kind: JobKind) -> Seq<char> {
    match kind {
        JobKind::Transcription => "transcription finished but its recovery status could not be saved: "@,
        JobKind::SpeakerAnalysis => "speaker analysis finished but its proposal could not be saved: "@,
        JobKind::BrollPreview => "B-roll preview finished but its recovery status could not be saved: "@,
        JobKind::Setup => "setup finished but its recovery status could not be saved: "@,
        JobKind::VideoExport => "video export finished but its recovery status could not be saved: "@,
    }
}

pub fn busy_message(kind: JobKind) -> (r: String)
    ensures
        r@ == busy_message_spec(kind),
{
    match kind {
        JobKind::Transcription => "this project already has a transcription in progress".to_string(),
        JobKind::SpeakerAnalysis => "this project already has a speaker analysis in progress".to_string(),
        JobKind::BrollPreview => "this project already has a B-roll preview in progress".to_string(),
        JobKind::Setup => "another runtime or model setup task is already running".to_string(),
        JobKind::VideoExport => "this project already has a video export in progress".to_string(),
    }
}

pub fn interrupted_message(kind: JobKind) -> (r: String)
    ensures
        r@ == interrupted_message_spec(kind),
{
    match kind {
        JobKind::Transcription => "the previous transcription was interrupted when lumen-cut closed; retry to start it again".to_string(),
        JobKind::SpeakerAnalysis => "the previous speaker analysis was interrupted when lumen-cut closed; start it again".to_string(),
        JobKind::BrollPreview => "the previous B-roll preview was interrupted when lumen-cut closed; start it again".to_string(),
        JobKind::Setup => "the previous setup task was interrupted when lumen-cut closed; start it again".to_string(),
        JobKind::VideoExport => "the previous video export was interrupted when lumen-cut closed; start it again".to_string(),
    }
}

/// The error of a job whose final status could not be saved.
pub fn save_failed_message(kind: JobKind, error: &str) -> (r: String)
    ensures
        r@ == save_failed_prefix_spec(kind) + error@,
{
    let mut m = match kind {
        JobKind::Transcription => "transcription finished but its recovery status could not be saved: ".to_string(),
        JobKind::SpeakerAnalysis => "speaker analysis finished but its proposal could not be saved: ".to_string(),
        JobKind::BrollPreview => "B-roll preview finished but its recovery status could not be saved: ".to_string(),
        JobKind::Setup => "setup finished but its recovery status could not be saved: ".to_string(),
        JobKind::VideoExport => "video export finished but its recovery status could not be saved: ".to_string(),
    };
    crate::text::push_str(&mut m, error);
    m
}

/// A job may start unless one for the same project is running or being
/// cancelled.
pub fn may_start(existing: Option<JobState>) -> (r: bool)
    ensures
        r == !(existing == Some(JobState::Running) || existing == Some(JobState::Cancelling)),
        r == !(existing matches Some(s) && is_active(s)),
{
    match existing {
        Some(JobState::Running) => false,
        Some(JobState::Cancelling) => false,
        _ => true,
    }
}

/// The status of a job of `kind` that starts at `now`: running, in its
/// first phase, nothing done yet.
pub fn start_status(kind: JobKind, now: u64) -> (r: JobStatus)
    ensures
        r.state == JobState::Running,
        r.phase@ == start_phase_spec(kind),
        r.progress == 0,
        r.error is None,
        r.started_at == Some(now),
        r.updated_at == Some(now),
{
    let phase = if kind == JobKind::Setup {
        "waiting".to_string()
    } else {
        "preparing".to_string()
    };
    JobStatus {
        state: JobState::Running,
        phase,
        progress: 0,
        error: None,
        started_at: Some(now),
        updated_at: Some(now),
    }
}

/// A progress report of the running work: the phase is taken as given and
/// the progress only moves forward, up to 100.
pub fn report_progress(status: JobStatus, phase: &str, progress: u8, now: u64) -> (r: JobStatus)
    ensures
        r.state == status.state,
        r.phase@ == phase@,
        r.progress == crate::advanced(status.progress, progress),
        r.progress >= status.progress,
        r.progress <= 100 || r.progress == status.progress,
        r.error == status.error,
        r.started_at == status.started_at,
        r.updated_at == Some(now),
{
    JobStatus {
        state: status.state,
        phase: phase.to_string(),
        progress: advance_progress(status.progress, progress),
        error: status.error,
        started_at: status.started_at,
        updated_at: Some(now),
    }
}

/// A cancel request: a running job becomes cancelling; any other status is
/// left as it is.
pub fn request_cancel(status: JobStatus, now: u64) -> (r: JobStatus)
    ensures
        status.state == JobState::Running ==> r.state == JobState::Cancelling && r.phase@
            == "cancelling"@ && r.progress == status.progress && r.error == status.error
            && r.started_at == status.started_at && r.updated_at == Some(now),
        status.state != JobState::Running ==> r == status,
{
    if status.state == JobState::Running {
        JobStatus {
            state: JobState::Cancelling,
            phase: "cancelling".to_string(),
            progress: status.progress,
            error: status.error,
            started_at: status.started_at,
            updated_at: Some(now),
        }
    } else {
        status
    }
}

/// The status after the work ended: completed with full progress, cancelled,
/// or failed with the error, stamped `now`.
pub fn finish(status: JobStatus, outcome: JobOutcome, now: u64) -> (r: JobStatus)
    ensures
        r.updated_at == Some(now),
        r.started_at == status.started_at,
        r.state == finished_state(outcome),
        match outcome {
            JobOutcome::Done => r.state == JobState::Completed && r.phase@ == "completed"@
                && r.progress == 100 && r.error is None,
            JobOutcome::Cancelled => r.state == JobState::Cancelled && r.phase@ == "cancelled"@
                && r.progress == status.progress && r.error is None,
            JobOutcome::Failed(m) => r.state == JobState::Failed && r.phase@ == "failed"@
                && r.progress == status.progress && opt_string_view(r.error) == Some(m@),
        },
{
    match outcome {
        JobOutcome::Done => JobStatus {
            state: JobState::Completed,
            phase: "completed".to_string(),
            progress: 100,
            error: None,
            started_at: status.started_at,
            updated_at: Some(now),
        },
        JobOutcome::Cancelled => JobStatus {
            state: JobState::Cancelled,
            phase: "cancelled".to_string(),
            progress: status.progress,
            error: None,
            started_at: status.started_at,
            updated_at: Some(now),
        },
        JobOutcome::Failed(m) => JobStatus {
            state: JobState::Failed,
            phase: "failed".to_string(),
            progress: status.progress,
            error: Some(m),
            started_at: status.started_at,
            updated_at: Some(now),
        },
    }
}

/// The final status could not be saved: whatever the outcome was, the job
/// is reported failed with `message`.
pub fn persist_failed(status: JobStatus, message: String) -> (r: JobStatus)
    ensures
        r.state == JobState::Failed,
        r.phase@ == "failed"@,
        r.progress == status.progress,
        opt_string_view(r.error) == Some(message@),
        r.started_at == status.started_at,
        r.updated_at == status.updated_at,
{
    JobStatus {
        state: JobState::Failed,
        phase: "failed".to_string(),
        progress: status.progress,
        error: Some(message),
        started_at: status.started_at,
        updated_at: status.updated_at,
    }
}

/// A stored status read when the application starts. A job recorded as
/// running or cancelling was interrupted: it becomes a failure with
/// `message`, stamped `now`, which the user can retry. Any other status is
/// kept (`None`: nothing to rewrite).
pub fn recover(status: JobStatus, now: u64, message: String) -> (r: Option<JobStatus>)
    ensures
        is_active(status.state) <==> r is Some,
        r matches Some(s) ==> s.state == JobState::Failed && s.phase@ == "failed"@ && s.progress
            == status.progress && opt_string_view(s.error) == Some(message@) && s.updated_at
            == Some(now) && s.started_at == status.started_at,
{
    if status.state == JobState::Running || status.state == JobState::Cancelling {
        Some(
            JobStatus {
                state: JobState::Failed,
                phase: "failed".to_string(),
                progress: status.progress,
                error: Some(message),
                started_at: status.started_at,
                updated_at: Some(now),
            },
        )
    } else {
        None
    }
}

/// The state a job ends in, by its outcome.
pub open spec fn finished_state(o: JobOutcome) -> JobState {
    match o {
        JobOutcome::Done => JobState::Completed,
        JobOutcome::Cancelled => JobState::Cancelled,
        JobOutcome::Failed(_) => JobState::Failed,
    }
}

/// A job that ended, however it ended, or whose final status could not be
/// saved, or that was found interrupted, no longer holds its project: a new
/// job may start, and recovering its stored status again changes nothing.
pub proof fn law_an_ended_job_releases_its_project(o: JobOutcome)
    ensures
        !is_active(finished_state(o)),
        !is_active(JobState::Failed),
        finished_state(o) == JobState::Completed <==> o is Done,
{
}

} // verus!
