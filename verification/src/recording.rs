//! One recording at a time: the state that admits or refuses a recording.

use vstd::prelude::*;
use crate::text::{chars_of, string_of};

verus! {

/// Why a recording could not be started or stopped.
#[derive(Clone, Copy, Debug, PartialEq, Eq, Structural)]
pub enum RecordingError {
    /// A recording is under way; a second one is refused, not queued.
    AlreadyRecording,
    /// No recording is under way.
    NotRecording,
    /// The recording was stopped and holds nothing but silence.
    SilenceDetected,
}

impl RecordingError {
    /// The message shown for this failure.
    pub open spec fn spec_message(self) -> Seq<char> {
        match self {
            RecordingError::AlreadyRecording => "Already recording"@,
            RecordingError::NotRecording => "Not recording"@,
            RecordingError::SilenceDetected => "SILENCE_DETECTED"@,
        }
    }

    /// The message shown for this failure.
    pub fn message(&self) -> (m: String)
        ensures
            m@ == self.spec_message(),
    {
        let text = match self {
            RecordingError::AlreadyRecording => "Already recording",
            RecordingError::NotRecording => "Not recording",
            RecordingError::SilenceDetected => "SILENCE_DETECTED",
        };
        string_of(&chars_of(text))
    }
}

/// Whether a recording is under way.
#[derive(Clone, Copy, Debug, PartialEq, Eq, Structural)]
pub struct RecordingSession {
    pub is_recording: bool,
}

impl RecordingSession {
    /// A session in which nothing is recorded.
    pub fn new() -> (session: RecordingSession)
        ensures
            !session.is_recording,
    {
        RecordingSession { is_recording: false }
    }

    /// Asks for leave to start a recording. It is refused while one is under
    /// way.
    pub fn begin(&self) -> (r: Result<(), RecordingError>)
        ensures
            r == if self.is_recording {
                Err::<(), RecordingError>(RecordingError::AlreadyRecording)
            } else {
                Ok::<(), RecordingError>(())
            },
    {
        if self.is_recording {
            Err(RecordingError::AlreadyRecording)
        } else {
            Ok(())
        }
    }

    /// Takes note that the recording has started.
    pub fn started(&mut self)
        ensures
            final(self).is_recording,
    {
        self.is_recording = true;
    }

    /// Stops the recording. `silent` says whether nothing above the noise
    /// floor was heard; such a recording is stopped all the same, and
    /// reported as silence.
    pub fn stop(&mut self, silent: bool) -> (r: Result<(), RecordingError>)
        ensures
            !final(self).is_recording,
            r == if !old(self).is_recording {
                Err::<(), RecordingError>(RecordingError::NotRecording)
            } else if silent {
                Err::<(), RecordingError>(RecordingError::SilenceDetected)
            } else {
                Ok::<(), RecordingError>(())
            },
    {
        if !self.is_recording {
            return Err(RecordingError::NotRecording);
        }
        self.is_recording = false;
        if silent {
            Err(RecordingError::SilenceDetected)
        } else {
            Ok(())
        }
    }
}

} // verus!
