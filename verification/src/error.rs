//! The ways in which a job fails, and what the user is told.

use vstd::prelude::*;
use crate::text::{push_str, string_of};

verus! {

/// The classes of failure. Each ends the job; nothing is retried.
#[derive(Clone, Copy, Debug, PartialEq, Eq, Structural)]
pub enum ErrorKind {
    /// The input is missing, corrupt or of an unsupported layout.
    Input,
    /// The transcoder failed.
    Tool,
    /// The model is missing or could not be loaded.
    Model,
    /// The recognizer reported a failure.
    Inference,
    /// A file or directory could not be made, or no free output name was
    /// found.
    Io,
    /// The job was cancelled.
    Cancelled,
}

/// Why a job failed. Where the tool or the recognizer said why, its words
/// are kept.
#[derive(Clone, Debug, PartialEq, Eq)]
pub enum JobError {
    /// No file at the input path, which is carried.
    InputNotFound(String),
    /// The audio has more than two channels.
    UnsupportedChannels,
    /// The audio claims a sample rate of zero.
    ZeroSampleRate,
    /// The audio holds more samples than this machine can address.
    AudioTooLong,
    /// The audio data could not be decoded; carries the decoder's words.
    Decode(String),
    /// The transcoder could not be started; carries the system's words.
    ToolUnavailable(String),
    /// The transcoder failed; carries its diagnostic output.
    ToolFailed(String),
    /// The transcoder reported success and left no output.
    ToolNoOutput,
    /// No model at the expected path.
    ModelNotFound,
    /// The model could not be loaded; carries the recognizer's words.
    ModelLoad(String),
    /// The recognizer could not be set up for the model; carries its words.
    ModelState(String),
    /// The recognizer failed; carries its words.
    Inference(String),
    /// The directory of the output could not be made; carries the system's
    /// words.
    CreateDirectory(String),
    /// The output file could not be made; carries the system's words.
    CreateOutput(String),
    /// Every candidate name for the output is in use.
    TooManyDuplicates,
    /// The job was cancelled.
    Cancelled,
}

impl JobError {
    /// The class of this failure.
    pub open spec fn spec_kind(self) -> ErrorKind {
        match self {
            JobError::InputNotFound(_) => ErrorKind::Input,
            JobError::UnsupportedChannels => ErrorKind::Input,
            JobError::ZeroSampleRate => ErrorKind::Input,
            JobError::AudioTooLong => ErrorKind::Input,
            JobError::Decode(_) => ErrorKind::Input,
            JobError::ToolUnavailable(_) => ErrorKind::Tool,
            JobError::ToolFailed(_) => ErrorKind::Tool,
            JobError::ToolNoOutput => ErrorKind::Tool,
            JobError::ModelNotFound => ErrorKind::Model,
            JobError::ModelLoad(_) => ErrorKind::Model,
            JobError::ModelState(_) => ErrorKind::Model,
            JobError::Inference(_) => ErrorKind::Inference,
            JobError::CreateDirectory(_) => ErrorKind::Io,
            JobError::CreateOutput(_) => ErrorKind::Io,
            JobError::TooManyDuplicates => ErrorKind::Io,
            JobError::Cancelled => ErrorKind::Cancelled,
        }
    }

    /// The message shown for this failure.
    pub open spec fn spec_message(self) -> Seq<char> {
        match self {
            JobError::InputNotFound(path) => "Input file not found: "@ + path@,
            JobError::UnsupportedChannels => "Unsupported channel count"@,
            JobError::ZeroSampleRate => "Unsupported sample rate"@,
            JobError::AudioTooLong => "Audio is too long"@,
            JobError::Decode(why) => "Failed to open wav file: "@ + why@,
            JobError::ToolUnavailable(why) => "Failed to run ffmpeg: "@ + why@
                + ". Is ffmpeg installed?"@,
            JobError::ToolFailed(why) => "ffmpeg conversion failed: "@ + why@,
            JobError::ToolNoOutput => "ffmpeg completed but output file was not created"@,
            JobError::ModelNotFound => "Model not found. Please download it first."@,
            JobError::ModelLoad(why) => "Failed to load model: "@ + why@,
            JobError::ModelState(why) => "Failed to create state: "@ + why@,
            JobError::Inference(why) => "Failed to run model: "@ + why@,
            JobError::CreateDirectory(why) => "Failed to create directory: "@ + why@,
            JobError::CreateOutput(why) => "Failed to create output file: "@ + why@,
            JobError::TooManyDuplicates => "Too many duplicate files"@,
            JobError::Cancelled => "Cancelled by user"@,
        }
    }

    /// The class of this failure.
    pub fn kind(&self) -> (k: ErrorKind)
        ensures
            k == self.spec_kind(),
    {
        match self {
            JobError::InputNotFound(_) => ErrorKind::Input,
            JobError::UnsupportedChannels => ErrorKind::Input,
            JobError::ZeroSampleRate => ErrorKind::Input,
            JobError::AudioTooLong => ErrorKind::Input,
            JobError::Decode(_) => ErrorKind::Input,
            JobError::ToolUnavailable(_) => ErrorKind::Tool,
            JobError::ToolFailed(_) => ErrorKind::Tool,
            JobError::ToolNoOutput => ErrorKind::Tool,
            JobError::ModelNotFound => ErrorKind::Model,
            JobError::ModelLoad(_) => ErrorKind::Model,
            JobError::ModelState(_) => ErrorKind::Model,
            JobError::Inference(_) => ErrorKind::Inference,
            JobError::CreateDirectory(_) => ErrorKind::Io,
            JobError::CreateOutput(_) => ErrorKind::Io,
            JobError::TooManyDuplicates => ErrorKind::Io,
            JobError::Cancelled => ErrorKind::Cancelled,
        }
    }

    /// A copy of this failure.
    pub fn clone_error(&self) -> (copy: JobError)
        ensures
            copy == *self,
    {
        match self {
            JobError::InputNotFound(path) => JobError::InputNotFound(path.clone()),
            JobError::UnsupportedChannels => JobError::UnsupportedChannels,
            JobError::ZeroSampleRate => JobError::ZeroSampleRate,
            JobError::AudioTooLong => JobError::AudioTooLong,
            JobError::Decode(why) => JobError::Decode(why.clone()),
            JobError::ToolUnavailable(why) => JobError::ToolUnavailable(why.clone()),
            JobError::ToolFailed(why) => JobError::ToolFailed(why.clone()),
            JobError::ToolNoOutput => JobError::ToolNoOutput,
            JobError::ModelNotFound => JobError::ModelNotFound,
            JobError::ModelLoad(why) => JobError::ModelLoad(why.clone()),
            JobError::ModelState(why) => JobError::ModelState(why.clone()),
            JobError::Inference(why) => JobError::Inference(why.clone()),
            JobError::CreateDirectory(why) => JobError::CreateDirectory(why.clone()),
            JobError::CreateOutput(why) => JobError::CreateOutput(why.clone()),
            JobError::TooManyDuplicates => JobError::TooManyDuplicates,
            JobError::Cancelled => JobError::Cancelled,
        }
    }

    /// The one message shown to the user for this failure.
    pub fn message(&self) -> (m: String)
        ensures
            m@ == self.spec_message(),
    {
        let mut out: Vec<char> = Vec::new();
        match self {
            JobError::InputNotFound(path) => {
                push_str(&mut out, "Input file not found: ");
                push_str(&mut out, path.as_str());
            },
            JobError::UnsupportedChannels => {
                push_str(&mut out, "Unsupported channel count");
            },
            JobError::ZeroSampleRate => {
                push_str(&mut out, "Unsupported sample rate");
            },
            JobError::AudioTooLong => {
                push_str(&mut out, "Audio is too long");
            },
            JobError::Decode(why) => {
                push_str(&mut out, "Failed to open wav file: ");
                push_str(&mut out, why.as_str());
            },
            JobError::ToolUnavailable(why) => {
                push_str(&mut out, "Failed to run ffmpeg: ");
                push_str(&mut out, why.as_str());
                push_str(&mut out, ". Is ffmpeg installed?");
            },
            JobError::ToolFailed(why) => {
                push_str(&mut out, "ffmpeg conversion failed: ");
                push_str(&mut out, why.as_str());
            },
            JobError::ToolNoOutput => {
                push_str(&mut out, "ffmpeg completed but output file was not created");
            },
            JobError::ModelNotFound => {
                push_str(&mut out, "Model not found. Please download it first.");
            },
            JobError::ModelLoad(why) => {
                push_str(&mut out, "Failed to load model: ");
                push_str(&mut out, why.as_str());
            },
            JobError::ModelState(why) => {
                push_str(&mut out, "Failed to create state: ");
                push_str(&mut out, why.as_str());
            },
            JobError::Inference(why) => {
                push_str(&mut out, "Failed to run model: ");
                push_str(&mut out, why.as_str());
            },
            JobError::CreateDirectory(why) => {
                push_str(&mut out, "Failed to create directory: ");
                push_str(&mut out, why.as_str());
            },
            JobError::CreateOutput(why) => {
                push_str(&mut out, "Failed to create output file: ");
                push_str(&mut out, why.as_str());
            },
            JobError::TooManyDuplicates => {
                push_str(&mut out, "Too many duplicate files");
            },
            JobError::Cancelled => {
                push_str(&mut out, "Cancelled by user");
            },
        }
        assert(out@ =~= self.spec_message());
        string_of(&out)
    }
}

} // verus!
