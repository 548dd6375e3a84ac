//! Speech to subtitles: the rules of an offline transcription pipeline.
//!
//! Audio is normalized to one channel at 16 kHz (`audio_normalizer`), scanned
//! for speech (`voice_activity`) and handed to a recognizer that is
//! configured here (`inference`). What the recognizer returns is cleaned of
//! artifacts (`hallucination_filter`), composed into readable entries
//! (`subtitle_composer`, `wrap`) and written as SRT (`srt_serializer`).
//! `job` orders the steps of one job and `progress_reporter` tells how far
//! it is. Reading files, running the transcoder and running the recognizer
//! are left to the caller.

pub mod audio_normalizer;
pub mod download;
pub mod error;
pub mod hallucination_filter;
pub mod inference;
pub mod job;
pub mod progress_reporter;
pub mod recording;
pub mod segment;
pub mod srt_serializer;
pub mod subtitle_composer;
pub mod system;
pub mod text;
pub mod timestamp;
pub mod voice_activity;
pub mod web_session;
pub mod wrap;
