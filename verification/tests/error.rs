use whisper_plus::error::{ErrorKind, JobError};
use whisper_plus::recording::{RecordingError, RecordingSession};
use whisper_plus::system::{Backend, SystemStats};
use whisper_plus::web_session::session_cookie;

#[test]
fn every_failure_has_one_message_and_one_kind() {
    let table = vec![
        (JobError::InputNotFound("/x/a.mp4".to_string()), ErrorKind::Input, "Input file not found: /x/a.mp4"),
        (JobError::UnsupportedChannels, ErrorKind::Input, "Unsupported channel count"),
        (JobError::ZeroSampleRate, ErrorKind::Input, "Unsupported sample rate"),
        (JobError::AudioTooLong, ErrorKind::Input, "Audio is too long"),
        (JobError::Decode("no RIFF tag found".to_string()), ErrorKind::Input, "Failed to open wav file: no RIFF tag found"),
        (JobError::ToolUnavailable("not found".to_string()), ErrorKind::Tool, "Failed to run ffmpeg: not found. Is ffmpeg installed?"),
        (JobError::ToolFailed("line 1\nline 2".to_string()), ErrorKind::Tool, "ffmpeg conversion failed: line 1\nline 2"),
        (JobError::ToolNoOutput, ErrorKind::Tool, "ffmpeg completed but output file was not created"),
        (JobError::ModelNotFound, ErrorKind::Model, "Model not found. Please download it first."),
        (JobError::ModelLoad("bad file".to_string()), ErrorKind::Model, "Failed to load model: bad file"),
        (JobError::Inference("oom".to_string()), ErrorKind::Inference, "Failed to run model: oom"),
        (JobError::ModelState("no memory".to_string()), ErrorKind::Model, "Failed to create state: no memory"),
        (JobError::CreateDirectory("denied".to_string()), ErrorKind::Io, "Failed to create directory: denied"),
        (JobError::CreateOutput("denied".to_string()), ErrorKind::Io, "Failed to create output file: denied"),
        (JobError::TooManyDuplicates, ErrorKind::Io, "Too many duplicate files"),
        (JobError::Cancelled, ErrorKind::Cancelled, "Cancelled by user"),
    ];
    for (error, kind, message) in table {
        assert_eq!(error.kind(), kind);
        assert_eq!(error.message(), message);
        assert_eq!(error.clone_error(), error);
    }
}

#[test]
fn second_recording_is_refused() {
    let mut session = RecordingSession::new();
    assert_eq!(session.begin(), Ok(()));
    session.started();
    assert!(session.is_recording);
    assert_eq!(session.begin(), Err(RecordingError::AlreadyRecording));
    assert_eq!(session.stop(false), Ok(()));
    assert!(!session.is_recording);
    assert_eq!(session.begin(), Ok(()));
}

#[test]
fn stopping_without_a_recording_is_refused() {
    let mut session = RecordingSession::new();
    assert_eq!(session.stop(false), Err(RecordingError::NotRecording));
    assert_eq!(session.stop(true), Err(RecordingError::NotRecording));
}

#[test]
fn silent_recording_is_stopped_and_reported() {
    let mut session = RecordingSession::new();
    session.started();
    assert_eq!(session.stop(true), Err(RecordingError::SilenceDetected));
    assert!(!session.is_recording);
}

#[test]
fn recording_failures_have_messages() {
    assert_eq!(RecordingError::AlreadyRecording.message(), "Already recording");
    assert_eq!(RecordingError::NotRecording.message(), "Not recording");
    assert_eq!(RecordingError::SilenceDetected.message(), "SILENCE_DETECTED");
}

#[test]
fn bare_token_is_sent_under_the_session_name() {
    assert_eq!(
        session_cookie("  abc123 \n"),
        Some("__Secure-next-auth.session-token=abc123".to_string())
    );
}

#[test]
fn cookie_is_sent_as_it_is() {
    assert_eq!(session_cookie(" a=b; c=d "), Some("a=b; c=d".to_string()));
}

#[test]
fn empty_token_gives_no_cookie() {
    assert_eq!(session_cookie(""), None);
    assert_eq!(session_cookie("  \t "), None);
}

#[test]
fn system_report_names_the_backend() {
    assert_eq!(Backend::Cuda.label(), "CUDA (NVIDIA)");
    assert_eq!(Backend::Vulkan.label(), "Vulkan");
    assert_eq!(Backend::Rocm.label(), "ROCm (AMD)");
    assert_eq!(Backend::Cpu.label(), "CPU");
    let stats = SystemStats::new(16, 8, 4, true, false, Backend::Cpu);
    assert_eq!(
        stats,
        SystemStats {
            total_memory: 16,
            free_memory: 8,
            cpu_cores: 4,
            has_nvidia: true,
            has_amd: false,
            backend: "CPU".to_string(),
        }
    );
}
