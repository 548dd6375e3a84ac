use whisper_plus::error::JobError;
use whisper_plus::job::{
    Action, CancellationToken, JobKind, Pipeline, Reply, Step, TranscriptionJob,
};
use whisper_plus::progress_reporter::{ProgressStatus, SrtProgress};
use whisper_plus::srt_serializer::DuplicateMode;

fn run(kind: JobKind, replies: Vec<Reply>) -> (Pipeline, Vec<Step>) {
    let (mut p, first) = Pipeline::new(kind);
    let mut steps = vec![first];
    for reply in replies {
        assert!(p.expects(&reply), "{:?} does not answer {:?}", reply, p.waiting_for);
        steps.push(p.advance(reply));
    }
    (p, steps)
}

fn actions(steps: &[Step]) -> Vec<Action> {
    steps.iter().map(|s| s.action).collect()
}

fn statuses(steps: &[Step]) -> Vec<(ProgressStatus, u32)> {
    steps.iter().filter_map(|s| s.progress).map(|p| (p.status, p.percentage)).collect()
}

#[test]
fn token_set_before_start_cancels_at_once() {
    let mut token = CancellationToken::new();
    assert!(!token.is_cancelled());
    token.cancel();
    assert!(token.is_cancelled());
    let (mut p, first) = Pipeline::new(JobKind::Subtitles);
    assert_eq!(first, Step { action: Action::CheckCancelled, progress: None });
    let reply = if token.is_cancelled() { Reply::Yes } else { Reply::No };
    let step = p.advance(reply);
    assert_eq!(step, Step { action: Action::Finish, progress: None });
    assert_eq!(p.result(), Err(JobError::Cancelled));
    assert!(p.is_finished());
    assert!(!p.output_opened);
    assert!(!p.temp_file);
}

#[test]
fn subtitle_job_with_transcoding() {
    let (p, steps) = run(
        JobKind::Subtitles,
        vec![
            Reply::No,
            Reply::Yes,
            Reply::Done,
            Reply::Yes,
            Reply::Done,
            Reply::Audio(90_000),
            Reply::No,
            Reply::Done,
            Reply::Done,
            Reply::Done,
        ],
    );
    assert_eq!(
        actions(&steps),
        vec![
            Action::CheckCancelled,
            Action::CheckModel,
            Action::LoadModel,
            Action::ProbeInput,
            Action::Transcode,
            Action::LoadAudio,
            Action::PollCancel,
            Action::OpenOutput,
            Action::Transcribe,
            Action::RemoveTemp,
            Action::Finish,
        ]
    );
    assert_eq!(
        statuses(&steps),
        vec![
            (ProgressStatus::LoadingModel, 0),
            (ProgressStatus::Converting, 5),
            (ProgressStatus::LoadingAudio, 10),
            (ProgressStatus::Preprocessing, 10),
            (ProgressStatus::Transcribing, 20),
            (ProgressStatus::Complete, 100),
        ]
    );
    assert_eq!(
        steps.last().unwrap().progress,
        Some(SrtProgress {
            percentage: 100,
            processed_ms: 90_000,
            total_ms: 90_000,
            status: ProgressStatus::Complete
        })
    );
    assert_eq!(steps[6].progress.unwrap().total_ms, 90_000);
    assert_eq!(p.result(), Ok(()));
    assert!(p.is_finished() && !p.temp_file && p.output_opened);
}

#[test]
fn canonical_input_is_not_transcoded() {
    let (p, steps) = run(
        JobKind::Subtitles,
        vec![
            Reply::No,
            Reply::Yes,
            Reply::Done,
            Reply::No,
            Reply::Audio(1000),
            Reply::No,
            Reply::Done,
            Reply::Done,
        ],
    );
    assert_eq!(
        actions(&steps)[3..].to_vec(),
        vec![
            Action::ProbeInput,
            Action::LoadAudio,
            Action::PollCancel,
            Action::OpenOutput,
            Action::Transcribe,
            Action::Finish
        ]
    );
    assert_eq!(p.result(), Ok(()));
}

#[test]
fn dictation_opens_no_output() {
    let (p, steps) = run(
        JobKind::Dictation,
        vec![
            Reply::No,
            Reply::Yes,
            Reply::Done,
            Reply::No,
            Reply::Audio(1000),
            Reply::No,
            Reply::Done,
        ],
    );
    assert!(!actions(&steps).contains(&Action::OpenOutput));
    assert_eq!(steps[6].action, Action::Transcribe);
    assert_eq!(steps[6].progress.map(|p| p.status), Some(ProgressStatus::Transcribing));
    assert_eq!(steps.last().unwrap().action, Action::Finish);
    assert!(!p.output_opened);
    assert_eq!(p.result(), Ok(()));
}

#[test]
fn missing_model_fails_the_job() {
    let (p, steps) = run(JobKind::Subtitles, vec![Reply::No, Reply::No]);
    assert_eq!(steps.last().unwrap(), &Step { action: Action::Finish, progress: None });
    assert_eq!(p.result(), Err(JobError::ModelNotFound));
}

#[test]
fn model_that_does_not_load_fails_the_job() {
    let why = JobError::ModelLoad("bad magic".to_string());
    let (p, steps) =
        run(JobKind::Subtitles, vec![Reply::No, Reply::Yes, Reply::Failed(why.clone())]);
    assert_eq!(steps.last().unwrap().action, Action::Finish);
    assert_eq!(p.result(), Err(why));
}

#[test]
fn every_failure_after_transcoding_removes_the_temporary_file() {
    let head = vec![Reply::No, Reply::Yes, Reply::Done, Reply::Yes];
    let tails: Vec<(Vec<Reply>, JobError)> = vec![
        (vec![Reply::Failed(JobError::ToolNoOutput)], JobError::ToolNoOutput),
        (
            vec![Reply::Done, Reply::Failed(JobError::UnsupportedChannels)],
            JobError::UnsupportedChannels,
        ),
        (vec![Reply::Done, Reply::Audio(5), Reply::Yes], JobError::Cancelled),
        (
            vec![Reply::Done, Reply::Audio(5), Reply::No, Reply::Failed(JobError::TooManyDuplicates)],
            JobError::TooManyDuplicates,
        ),
        (
            vec![
                Reply::Done,
                Reply::Audio(5),
                Reply::No,
                Reply::Done,
                Reply::Failed(JobError::Inference("boom".to_string())),
            ],
            JobError::Inference("boom".to_string()),
        ),
    ];
    for (tail, error) in tails {
        let mut replies = head.clone();
        replies.extend(tail);
        let (mut p, steps) = run(JobKind::Subtitles, replies);
        assert_eq!(steps.last().unwrap(), &Step { action: Action::RemoveTemp, progress: None });
        assert!(p.temp_file && !p.is_finished());
        let end = p.advance(Reply::Done);
        assert_eq!(end, Step { action: Action::Finish, progress: None });
        assert!(!p.temp_file);
        assert_eq!(p.result(), Err(error));
    }
}

#[test]
fn cancel_before_inference_opens_no_output() {
    let (p, steps) = run(
        JobKind::Subtitles,
        vec![Reply::No, Reply::Yes, Reply::Done, Reply::No, Reply::Audio(5), Reply::Yes],
    );
    assert_eq!(steps.last().unwrap().action, Action::Finish);
    assert_eq!(p.result(), Err(JobError::Cancelled));
    assert!(!p.output_opened && !p.temp_file);
}

#[test]
fn failed_removal_still_finishes() {
    let (mut p, _) = run(
        JobKind::Subtitles,
        vec![Reply::No, Reply::Yes, Reply::Done, Reply::Yes, Reply::Failed(JobError::ToolNoOutput)],
    );
    let end = p.advance(Reply::Failed(JobError::CreateOutput("busy".to_string())));
    assert_eq!(end.action, Action::Finish);
    assert_eq!(p.result(), Err(JobError::ToolNoOutput));
}

#[test]
fn replies_must_answer_the_step() {
    let (p, _) = Pipeline::new(JobKind::Subtitles);
    assert!(p.expects(&Reply::Yes) && p.expects(&Reply::No));
    assert!(!p.expects(&Reply::Done) && !p.expects(&Reply::Audio(1)));
    assert!(!p.expects(&Reply::Failed(JobError::Cancelled)));
    let (p, _) = run(JobKind::Subtitles, vec![Reply::No, Reply::Yes]);
    assert_eq!(p.waiting_for, Action::LoadModel);
    assert!(p.expects(&Reply::Done) && p.expects(&Reply::Failed(JobError::Cancelled)));
    assert!(!p.expects(&Reply::Yes) && !p.expects(&Reply::Audio(1)));
    let (p, _) = run(JobKind::Subtitles, vec![Reply::No, Reply::Yes, Reply::Done, Reply::No]);
    assert_eq!(p.waiting_for, Action::LoadAudio);
    assert!(p.expects(&Reply::Audio(1)) && p.expects(&Reply::Failed(JobError::Cancelled)));
    assert!(!p.expects(&Reply::Done) && !p.expects(&Reply::No));
    let (p, _) = run(JobKind::Subtitles, vec![Reply::Yes]);
    assert!(p.is_finished());
    for reply in [Reply::Yes, Reply::No, Reply::Done, Reply::Audio(1)] {
        assert!(!p.expects(&reply));
    }
}

#[test]
fn job_is_built_from_a_request() {
    let job = TranscriptionJob::from_request("in.mp4", "Base", "out.srt", true, "rename");
    assert_eq!(
        job,
        TranscriptionJob {
            input_path: "in.mp4".to_string(),
            output_path: "out.srt".to_string(),
            model_id: "Base".to_string(),
            translate: true,
            duplicate_mode: DuplicateMode::Rename,
        }
    );
    let job = TranscriptionJob::from_request("a", "b", "c", false, "anything");
    assert_eq!(job.duplicate_mode, DuplicateMode::Overwrite);
}
