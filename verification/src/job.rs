//! A transcription job: its description, its cancellation token, and the
//! order in which its steps are taken.
//!
//! The steps themselves (reading files, running the transcoder, running the
//! recognizer) are the caller's. The `Pipeline` decides which step comes
//! next from how the last one ended, so that every way out of a job removes
//! the temporary file, and so that a cancelled job never opens its output.

use vstd::prelude::*;
use crate::error::JobError;
use crate::progress_reporter::{ProgressStatus, SrtProgress};
use crate::srt_serializer::DuplicateMode;
use crate::text::{chars_of, string_of};

verus! {

/// The description of a job. It is made by the caller and not changed
/// afterwards.
#[derive(Clone, Debug, PartialEq, Eq)]
pub struct TranscriptionJob {
    pub input_path: String,
    pub output_path: String,
    pub model_id: String,
    pub translate: bool,
    pub duplicate_mode: DuplicateMode,
}

impl TranscriptionJob {
    /// The job of a request. The duplicate policy is given by name.
    pub fn from_request(
        input_path: &str,
        model_id: &str,
        output_path: &str,
        translate: bool,
        duplicate_mode: &str,
    ) -> (job: TranscriptionJob)
        ensures
            job.input_path@ == input_path@,
            job.model_id@ == model_id@,
            job.output_path@ == output_path@,
            job.translate == translate,
            job.duplicate_mode == if duplicate_mode@ == "rename"@ {
                DuplicateMode::Rename
            } else {
                DuplicateMode::Overwrite
            },
    {
        TranscriptionJob {
            input_path: string_of(&chars_of(input_path)),
            output_path: string_of(&chars_of(output_path)),
            model_id: string_of(&chars_of(model_id)),
            translate,
            duplicate_mode: DuplicateMode::from_name(duplicate_mode),
        }
    }
}

/// The flag by which the caller asks one job to stop. Each job has its own.
#[derive(Clone, Copy, Debug, PartialEq, Eq, Structural)]
pub struct CancellationToken {
    pub cancelled: bool,
}

impl CancellationToken {
    /// A token that is not set.
    pub fn new() -> (token: CancellationToken)
        ensures
            !token.cancelled,
    {
        CancellationToken { cancelled: false }
    }

    /// Asks the job to stop.
    pub fn cancel(&mut self)
        ensures
            final(self).cancelled,
    {
        self.cancelled = true;
    }

    /// Whether the job was asked to stop.
    pub fn is_cancelled(&self) -> (r: bool)
        ensures
            r == self.cancelled,
    {
        self.cancelled
    }
}

/// What a job produces.
#[derive(Clone, Copy, Debug, PartialEq, Eq, Structural)]
pub enum JobKind {
    /// A subtitle file, written while the recognizer runs.
    Subtitles,
    /// The text of a dictation; no file is written.
    Dictation,
}

/// A step of a job, taken by the caller.
#[derive(Clone, Copy, Debug, PartialEq, Eq, Structural)]
pub enum Action {
    /// Look at the cancellation token before anything is done.
    CheckCancelled,
    /// See whether the model is where it is expected.
    CheckModel,
    /// Load the model.
    LoadModel,
    /// See whether the input has to be transcoded.
    ProbeInput,
    /// Transcode the input into the temporary file.
    Transcode,
    /// Read and normalize the audio.
    LoadAudio,
    /// Look at the cancellation token before the recognizer is run.
    PollCancel,
    /// Choose the output name, make its directory and open the file.
    OpenOutput,
    /// Run the recognizer.
    Transcribe,
    /// Remove the temporary file.
    RemoveTemp,
    /// Report the result; the job is over.
    Finish,
}

impl Action {
    /// The place of the step in the order of a job.
    pub open spec fn rank(self) -> nat {
        match self {
            Action::CheckCancelled => 0,
            Action::CheckModel => 1,
            Action::LoadModel => 2,
            Action::ProbeInput => 3,
            Action::Transcode => 4,
            Action::LoadAudio => 5,
            Action::PollCancel => 6,
            Action::OpenOutput => 7,
            Action::Transcribe => 8,
            Action::RemoveTemp => 9,
            Action::Finish => 10,
        }
    }
}

/// How a step ended.
#[derive(Clone, Debug, PartialEq, Eq)]
pub enum Reply {
    /// The answer to a question is yes: the token is set, the model is
    /// there, the input has to be transcoded.
    Yes,
    /// The answer to a question is no.
    No,
    /// The step was taken.
    Done,
    /// The audio was loaded; carries its length in milliseconds.
    Audio(u64),
    /// The step failed.
    Failed(JobError),
}

/// What the pipeline makes of the end of a step.
pub enum Verdict {
    /// Go on with the step given.
    Go(Action),
    /// The job has failed.
    Fail(JobError),
    /// The job has succeeded.
    Succeed,
    /// The temporary file is gone.
    Cleaned,
}

/// Whether `reply` is a way in which the step `action` can end.
pub open spec fn answers(action: Action, reply: Reply) -> bool {
    match action {
        Action::CheckCancelled | Action::CheckModel | Action::ProbeInput | Action::PollCancel => reply
            is Yes || reply is No,
        Action::LoadModel | Action::Transcode | Action::OpenOutput | Action::Transcribe
        | Action::RemoveTemp => reply is Done || reply is Failed,
        Action::LoadAudio => reply is Audio || reply is Failed,
        Action::Finish => false,
    }
}

/// What follows when the step `action` of a job of the given kind ends with
/// `reply`.
pub open spec fn verdict_of(kind: JobKind, action: Action, reply: Reply) -> Verdict {
    match (action, reply) {
        (Action::CheckCancelled, Reply::Yes) => Verdict::Fail(JobError::Cancelled),
        (Action::CheckCancelled, _) => Verdict::Go(Action::CheckModel),
        (Action::CheckModel, Reply::Yes) => Verdict::Go(Action::LoadModel),
        (Action::CheckModel, _) => Verdict::Fail(JobError::ModelNotFound),
        (Action::LoadModel, Reply::Failed(e)) => Verdict::Fail(e),
        (Action::LoadModel, _) => Verdict::Go(Action::ProbeInput),
        (Action::ProbeInput, Reply::Yes) => Verdict::Go(Action::Transcode),
        (Action::ProbeInput, _) => Verdict::Go(Action::LoadAudio),
        (Action::Transcode, Reply::Failed(e)) => Verdict::Fail(e),
        (Action::Transcode, _) => Verdict::Go(Action::LoadAudio),
        (Action::LoadAudio, Reply::Failed(e)) => Verdict::Fail(e),
        (Action::LoadAudio, _) => Verdict::Go(Action::PollCancel),
        (Action::PollCancel, Reply::Yes) => Verdict::Fail(JobError::Cancelled),
        (Action::PollCancel, _) => match kind {
            JobKind::Subtitles => Verdict::Go(Action::OpenOutput),
            JobKind::Dictation => Verdict::Go(Action::Transcribe),
        },
        (Action::OpenOutput, Reply::Failed(e)) => Verdict::Fail(e),
        (Action::OpenOutput, _) => Verdict::Go(Action::Transcribe),
        (Action::Transcribe, Reply::Failed(e)) => Verdict::Fail(e),
        (Action::Transcribe, _) => Verdict::Succeed,
        (Action::RemoveTemp, _) => Verdict::Cleaned,
        (Action::Finish, _) => Verdict::Cleaned,
    }
}

/// The status that a job enters with the step `action`, if it enters one.
pub open spec fn status_entered(action: Action, before: Action) -> Option<ProgressStatus> {
    match action {
        Action::CheckModel => Some(ProgressStatus::LoadingModel),
        Action::ProbeInput => Some(ProgressStatus::Converting),
        Action::LoadAudio => Some(ProgressStatus::LoadingAudio),
        Action::PollCancel => Some(ProgressStatus::Preprocessing),
        Action::OpenOutput => Some(ProgressStatus::Transcribing),
        Action::Transcribe => if before == Action::PollCancel {
            Some(ProgressStatus::Transcribing)
        } else {
            None
        },
        _ => None,
    }
}

/// The next step of a job, and the progress event to emit before it is
/// taken.
#[derive(Clone, Copy, Debug, PartialEq, Eq, Structural)]
pub struct Step {
    pub action: Action,
    pub progress: Option<SrtProgress>,
}

/// The course of one job.
#[derive(Clone, Debug, PartialEq, Eq)]
pub struct Pipeline {
    /// What the job produces.
    pub kind: JobKind,
    /// The step that is being taken; `Finish` when the job is over.
    pub waiting_for: Action,
    /// Whether a temporary file may exist: the transcoder was started and
    /// the file has not been removed since.
    pub temp_file: bool,
    /// Whether the output file was opened.
    pub output_opened: bool,
    /// The length of the audio in milliseconds, once it is known.
    pub total_ms: u64,
    /// Why the job failed, if it has.
    pub failure: Option<JobError>,
}

impl Pipeline {
    /// The state of a job before its first step.
    pub open spec fn spec_new(kind: JobKind) -> Pipeline {
        Pipeline {
            kind,
            waiting_for: Action::CheckCancelled,
            temp_file: false,
            output_opened: false,
            total_ms: 0,
            failure: None,
        }
    }

    /// The state after the step under way ended with `reply`.
    pub open spec fn spec_advance(self, reply: Reply) -> Pipeline {
        let total_ms = match reply {
            Reply::Audio(ms) => ms,
            _ => self.total_ms,
        };
        match verdict_of(self.kind, self.waiting_for, reply) {
            Verdict::Go(action) => Pipeline {
                waiting_for: action,
                temp_file: self.temp_file || action == Action::Transcode,
                output_opened: self.output_opened || action == Action::OpenOutput,
                total_ms,
                ..self
            },
            Verdict::Fail(e) => Pipeline {
                waiting_for: if self.temp_file {
                    Action::RemoveTemp
                } else {
                    Action::Finish
                },
                failure: Some(e),
                ..self
            },
            Verdict::Succeed => Pipeline {
                waiting_for: if self.temp_file {
                    Action::RemoveTemp
                } else {
                    Action::Finish
                },
                failure: None,
                ..self
            },
            Verdict::Cleaned => Pipeline { waiting_for: Action::Finish, temp_file: false, ..self },
        }
    }

    /// The progress event emitted when the step under way ends with `reply`.
    pub open spec fn spec_progress(self, reply: Reply) -> Option<SrtProgress> {
        let next = self.spec_advance(reply);
        let status = if next.waiting_for == Action::Finish {
            if next.failure is None {
                Some(ProgressStatus::Complete)
            } else {
                None
            }
        } else {
            status_entered(next.waiting_for, self.waiting_for)
        };
        match status {
            Some(s) => Some(
                SrtProgress {
                    percentage: s.spec_percentage() as u32,
                    processed_ms: if s == ProgressStatus::Complete {
                        next.total_ms
                    } else {
                        0
                    },
                    total_ms: next.total_ms,
                    status: s,
                },
            ),
            None => None,
        }
    }

    /// What holds of every job at every moment. A temporary file exists only
    /// between the start of the transcoder and the cleanup; the output is
    /// opened only after both looks at the cancellation token; a job that is
    /// over has left no temporary file.
    pub open spec fn consistent(self) -> bool {
        &&& self.temp_file ==> Action::Transcode.rank() <= self.waiting_for.rank()
            <= Action::RemoveTemp.rank()
        &&& self.output_opened ==> Action::OpenOutput.rank() <= self.waiting_for.rank()
        &&& self.output_opened ==> self.kind == JobKind::Subtitles
        &&& self.failure is Some ==> Action::RemoveTemp.rank() <= self.waiting_for.rank()
    }

    /// A job before its first step, which is to look at the cancellation
    /// token.
    pub fn new(kind: JobKind) -> (r: (Pipeline, Step))
        ensures
            r.0 == Pipeline::spec_new(kind),
            r.0.consistent(),
            r.1 == (Step { action: Action::CheckCancelled, progress: None }),
    {
        (
            Pipeline {
                kind,
                waiting_for: Action::CheckCancelled,
                temp_file: false,
                output_opened: false,
                total_ms: 0,
                failure: None,
            },
            Step { action: Action::CheckCancelled, progress: None },
        )
    }

    /// Whether `reply` is a way in which the step under way can end.
    pub fn expects(&self, reply: &Reply) -> (r: bool)
        ensures
            r == answers(self.waiting_for, *reply),
    {
        match self.waiting_for {
            Action::CheckCancelled | Action::CheckModel | Action::ProbeInput | Action::PollCancel => {
                match reply {
                    Reply::Yes | Reply::No => true,
                    _ => false,
                }
            },
            Action::LoadModel
            | Action::Transcode
            | Action::OpenOutput
            | Action::Transcribe
            | Action::RemoveTemp => {
                match reply {
                    Reply::Done | Reply::Failed(_) => true,
                    _ => false,
                }
            },
            Action::LoadAudio => {
                match reply {
                    Reply::Audio(_) | Reply::Failed(_) => true,
                    _ => false,
                }
            },
            Action::Finish => false,
        }
    }

    /// Whether the job is over.
    pub fn is_finished(&self) -> (r: bool)
        ensures
            r == (self.waiting_for == Action::Finish),
    {
        match self.waiting_for {
            Action::Finish => true,
            _ => false,
        }
    }

    /// The result of the job: its failure, if it failed.
    pub fn result(&self) -> (r: Result<(), JobError>)
        ensures
            match r {
                Ok(_) => self.failure is None,
                Err(e) => self.failure == Some(e),
            },
    {
        match &self.failure {
            Some(e) => Err(e.clone_error()),
            None => Ok(()),
        }
    }

    fn verdict(&self, reply: Reply) -> (v: Verdict)
        ensures
            v == verdict_of(self.kind, self.waiting_for, reply),
    {
        match self.waiting_for {
            Action::CheckCancelled => match reply {
                Reply::Yes => Verdict::Fail(JobError::Cancelled),
                _ => Verdict::Go(Action::CheckModel),
            },
            Action::CheckModel => match reply {
                Reply::Yes => Verdict::Go(Action::LoadModel),
                _ => Verdict::Fail(JobError::ModelNotFound),
            },
            Action::LoadModel => match reply {
                Reply::Failed(e) => Verdict::Fail(e),
                _ => Verdict::Go(Action::ProbeInput),
            },
            Action::ProbeInput => match reply {
                Reply::Yes => Verdict::Go(Action::Transcode),
                _ => Verdict::Go(Action::LoadAudio),
            },
            Action::Transcode => match reply {
                Reply::Failed(e) => Verdict::Fail(e),
                _ => Verdict::Go(Action::LoadAudio),
            },
            Action::LoadAudio => match reply {
                Reply::Failed(e) => Verdict::Fail(e),
                _ => Verdict::Go(Action::PollCancel),
            },
            Action::PollCancel => match reply {
                Reply::Yes => Verdict::Fail(JobError::Cancelled),
                _ => match self.kind {
                    JobKind::Subtitles => Verdict::Go(Action::OpenOutput),
                    JobKind::Dictation => Verdict::Go(Action::Transcribe),
                },
            },
            Action::OpenOutput => match reply {
                Reply::Failed(e) => Verdict::Fail(e),
                _ => Verdict::Go(Action::Transcribe),
            },
            Action::Transcribe => match reply {
                Reply::Failed(e) => Verdict::Fail(e),
                _ => Verdict::Succeed,
            },
            Action::RemoveTemp => Verdict::Cleaned,
            Action::Finish => Verdict::Cleaned,
        }
    }

    /// Takes note of how the step under way ended, and gives the next step.
    ///
    /// A failure ends the job; nothing is retried. Whenever the job ends
    /// while a temporary file may exist, the next step is to remove it, and
    /// only then to finish.
    pub fn advance(&mut self, reply: Reply) -> (step: Step)
        requires
            answers(old(self).waiting_for, reply),
        ensures
            *final(self) == old(self).spec_advance(reply),
            step.action == final(self).waiting_for,
            step.progress == old(self).spec_progress(reply),
            step.action == Action::Finish ==> !final(self).temp_file,
            step.action.rank() > old(self).waiting_for.rank(),
    {
        let before = self.waiting_for;
        match &reply {
            Reply::Audio(ms) => {
                self.total_ms = *ms;
            },
            _ => {},
        }
        let cleanup = if self.temp_file {
            Action::RemoveTemp
        } else {
            Action::Finish
        };
        match self.verdict(reply) {
            Verdict::Go(action) => {
                self.waiting_for = action;
                match action {
                    Action::Transcode => {
                        self.temp_file = true;
                    },
                    Action::OpenOutput => {
                        self.output_opened = true;
                    },
                    _ => {},
                }
            },
            Verdict::Fail(e) => {
                self.waiting_for = cleanup;
                self.failure = Some(e);
            },
            Verdict::Succeed => {
                self.waiting_for = cleanup;
                self.failure = None;
            },
            Verdict::Cleaned => {
                self.waiting_for = Action::Finish;
                self.temp_file = false;
            },
        }
        let status = match self.waiting_for {
            Action::CheckModel => Some(ProgressStatus::LoadingModel),
            Action::ProbeInput => Some(ProgressStatus::Converting),
            Action::LoadAudio => Some(ProgressStatus::LoadingAudio),
            Action::PollCancel => Some(ProgressStatus::Preprocessing),
            Action::OpenOutput => Some(ProgressStatus::Transcribing),
            Action::Transcribe => match before {
                Action::PollCancel => Some(ProgressStatus::Transcribing),
                _ => None,
            },
            Action::Finish => match &self.failure {
                None => Some(ProgressStatus::Complete),
                Some(_) => None,
            },
            _ => None,
        };
        let progress = match status {
            Some(s) => Some(SrtProgress::entering(s, self.total_ms)),
            None => None,
        };
        Step { action: self.waiting_for, progress }
    }
}

/// What holds of every job holds before its first step and is kept by every
/// step.
pub proof fn lemma_consistency_kept(p: Pipeline, reply: Reply)
    requires
        p.consistent(),
        answers(p.waiting_for, reply),
    ensures
        Pipeline::spec_new(p.kind).consistent(),
        p.spec_advance(reply).consistent(),
{
}

/// A job never goes back: each step comes later in the order of steps than
/// the one before, so a job is over after at most ten steps.
pub proof fn lemma_steps_go_forward(p: Pipeline, reply: Reply)
    requires
        answers(p.waiting_for, reply),
    ensures
        p.spec_advance(reply).waiting_for.rank() > p.waiting_for.rank(),
        p.spec_advance(reply).waiting_for.rank() <= Action::Finish.rank(),
{
}

/// A token that is set before the job starts ends the job at once: the
/// first step's answer leads straight to the end, with the failure
/// `Cancelled`, no output opened and no temporary file made.
pub proof fn lemma_cancelled_before_start(kind: JobKind)
    ensures
        ({
            let end = Pipeline::spec_new(kind).spec_advance(Reply::Yes);
            &&& end.waiting_for == Action::Finish
            &&& end.failure == Some(JobError::Cancelled)
            &&& !end.output_opened
            &&& !end.temp_file
        }),
{
}

/// A token found set at either look ends the job with the failure
/// `Cancelled` before the output is opened; what is left to do is at most
/// the removal of the temporary file.
pub proof fn lemma_cancel_opens_no_output(p: Pipeline)
    requires
        p.consistent(),
        p.waiting_for == Action::CheckCancelled || p.waiting_for == Action::PollCancel,
    ensures
        ({
            let next = p.spec_advance(Reply::Yes);
            &&& next.failure == Some(JobError::Cancelled)
            &&& !next.output_opened
            &&& next.waiting_for == if p.temp_file {
                Action::RemoveTemp
            } else {
                Action::Finish
            }
        }),
{
}

/// No way out of a job leaves the temporary file behind: a job that is over
/// has none, and the step before the end of a job that had one is its
/// removal.
pub proof fn lemma_temp_file_removed(p: Pipeline, reply: Reply)
    requires
        p.consistent(),
        answers(p.waiting_for, reply),
    ensures
        p.spec_advance(reply).waiting_for == Action::Finish ==> !p.spec_advance(reply).temp_file,
        p.temp_file && p.spec_advance(reply).waiting_for == Action::Finish ==> p.waiting_for
            == Action::RemoveTemp,
{
}

} // verus!
