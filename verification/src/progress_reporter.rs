//! Progress events, and the estimate that is reported while the recognizer
//! runs.
//!
//! The recognizer gives no sign of life during its one long call, so the
//! progress shown for that time is an estimate from the clock: the call is
//! expected to take half the length of the audio, and at least five seconds.

use vstd::prelude::*;
use crate::text::{chars_of, string_of};

verus! {

/// What a job is doing.
#[derive(Clone, Copy, Debug, PartialEq, Eq, Structural)]
pub enum ProgressStatus {
    LoadingModel,
    Converting,
    LoadingAudio,
    Preprocessing,
    Transcribing,
    ProcessingSegments,
    GeneratingSrt,
    SavingFile,
    Complete,
}

impl ProgressStatus {
    /// The name of the status as subscribers see it.
    pub open spec fn spec_label(self) -> Seq<char> {
        match self {
            ProgressStatus::LoadingModel => "loading_model"@,
            ProgressStatus::Converting => "converting"@,
            ProgressStatus::LoadingAudio => "loading_audio"@,
            ProgressStatus::Preprocessing => "preprocessing"@,
            ProgressStatus::Transcribing => "transcribing"@,
            ProgressStatus::ProcessingSegments => "processing_segments"@,
            ProgressStatus::GeneratingSrt => "generating_srt"@,
            ProgressStatus::SavingFile => "saving_file"@,
            ProgressStatus::Complete => "complete"@,
        }
    }

    /// The place of the status in the course of a job.
    pub open spec fn spec_rank(self) -> nat {
        match self {
            ProgressStatus::LoadingModel => 0,
            ProgressStatus::Converting => 1,
            ProgressStatus::LoadingAudio => 2,
            ProgressStatus::Preprocessing => 3,
            ProgressStatus::Transcribing => 4,
            ProgressStatus::ProcessingSegments => 5,
            ProgressStatus::GeneratingSrt => 6,
            ProgressStatus::SavingFile => 7,
            ProgressStatus::Complete => 8,
        }
    }

    /// The percentage reported when a job enters the status.
    pub open spec fn spec_percentage(self) -> nat {
        match self {
            ProgressStatus::LoadingModel => 0,
            ProgressStatus::Converting => 5,
            ProgressStatus::LoadingAudio => 10,
            ProgressStatus::Preprocessing => 10,
            ProgressStatus::Transcribing => 20,
            ProgressStatus::ProcessingSegments => 80,
            ProgressStatus::GeneratingSrt => 90,
            ProgressStatus::SavingFile => 95,
            ProgressStatus::Complete => 100,
        }
    }

    /// The name of the status as subscribers see it.
    pub fn label(&self) -> (name: String)
        ensures
            name@ == self.spec_label(),
    {
        let name = match self {
            ProgressStatus::LoadingModel => "loading_model",
            ProgressStatus::Converting => "converting",
            ProgressStatus::LoadingAudio => "loading_audio",
            ProgressStatus::Preprocessing => "preprocessing",
            ProgressStatus::Transcribing => "transcribing",
            ProgressStatus::ProcessingSegments => "processing_segments",
            ProgressStatus::GeneratingSrt => "generating_srt",
            ProgressStatus::SavingFile => "saving_file",
            ProgressStatus::Complete => "complete",
        };
        string_of(&chars_of(name))
    }

    /// The percentage reported when a job enters the status.
    pub fn percentage(&self) -> (p: u32)
        ensures
            p == self.spec_percentage(),
            p <= 100,
    {
        match self {
            ProgressStatus::LoadingModel => 0,
            ProgressStatus::Converting => 5,
            ProgressStatus::LoadingAudio => 10,
            ProgressStatus::Preprocessing => 10,
            ProgressStatus::Transcribing => 20,
            ProgressStatus::ProcessingSegments => 80,
            ProgressStatus::GeneratingSrt => 90,
            ProgressStatus::SavingFile => 95,
            ProgressStatus::Complete => 100,
        }
    }
}

/// The percentage never falls as a job moves on.
pub proof fn lemma_percentage_grows(earlier: ProgressStatus, later: ProgressStatus)
    requires
        earlier.spec_rank() <= later.spec_rank(),
    ensures
        earlier.spec_percentage() <= later.spec_percentage(),
{
}

/// A progress event of a subtitle job.
#[derive(Clone, Copy, Debug, PartialEq, Eq, Structural)]
pub struct SrtProgress {
    pub percentage: u32,
    pub processed_ms: u64,
    pub total_ms: u64,
    pub status: ProgressStatus,
}

/// A progress event of a dictation job.
#[derive(Clone, Copy, Debug, PartialEq, Eq, Structural)]
pub struct TranscribeProgress {
    pub percentage: u32,
    pub processed_ms: u64,
    pub total_ms: u64,
    pub status: ProgressStatus,
}

/// The first percentage of the range reserved for the recognizer's run.
pub const TRANSCRIBING_FROM: u32 = 20;

/// The last percentage of the range reserved for the recognizer's run.
pub const TRANSCRIBING_TO: u32 = 80;

/// The recognizer is expected to take at least this long, in milliseconds.
pub const MIN_ESTIMATE_MS: u64 = 5000;

/// The time between two progress events while the recognizer runs.
pub const REPORT_INTERVAL_MS: u64 = 200;

/// Twice the expected running time of the recognizer on `total_ms` of
/// audio, in milliseconds: the expected time is half the length of the
/// audio, and at least `MIN_ESTIMATE_MS`.
pub open spec fn doubled_estimate(total_ms: nat) -> nat {
    if total_ms > 2 * MIN_ESTIMATE_MS {
        total_ms
    } else {
        (2 * MIN_ESTIMATE_MS) as nat
    }
}

/// Twice the time that counts as elapsed: the elapsed time, but no more than
/// the estimate.
pub open spec fn doubled_elapsed(elapsed_ms: nat, total_ms: nat) -> nat {
    if 2 * elapsed_ms < doubled_estimate(total_ms) {
        2 * elapsed_ms
    } else {
        doubled_estimate(total_ms)
    }
}

/// The percentage shown after `elapsed_ms` of the recognizer's run: the
/// share of the estimate that has elapsed, mapped onto the reserved range and
/// rounded down.
pub open spec fn estimated_percentage(elapsed_ms: nat, total_ms: nat) -> nat {
    TRANSCRIBING_FROM as nat + ((TRANSCRIBING_TO - TRANSCRIBING_FROM) * doubled_elapsed(
        elapsed_ms,
        total_ms,
    )) as nat / doubled_estimate(total_ms)
}

/// The length of audio taken as processed after `elapsed_ms` of the
/// recognizer's run: the same share of the audio, rounded down.
pub open spec fn estimated_processed(elapsed_ms: nat, total_ms: nat) -> nat {
    (doubled_elapsed(elapsed_ms, total_ms) * total_ms) / doubled_estimate(total_ms)
}

impl SrtProgress {
    /// Whether the event is one that a job can emit.
    pub open spec fn well_formed(self) -> bool {
        self.percentage <= 100 && self.processed_ms <= self.total_ms
    }

    /// The event for entering `status` in a job on `total_ms` of audio.
    /// Nothing counts as processed before the recognizer has run, and
    /// everything after.
    pub fn entering(status: ProgressStatus, total_ms: u64) -> (event: SrtProgress)
        ensures
            event.status == status,
            event.percentage == status.spec_percentage(),
            event.total_ms == total_ms,
            event.processed_ms == if status.spec_rank() > ProgressStatus::Transcribing.spec_rank() {
                total_ms
            } else {
                0
            },
            event.well_formed(),
    {
        let processed_ms = match status {
            ProgressStatus::ProcessingSegments
            | ProgressStatus::GeneratingSrt
            | ProgressStatus::SavingFile
            | ProgressStatus::Complete => total_ms,
            _ => 0,
        };
        SrtProgress { percentage: status.percentage(), processed_ms, total_ms, status }
    }
}

impl TranscribeProgress {
    /// The same event, for a dictation job.
    pub fn of(event: &SrtProgress) -> (copy: TranscribeProgress)
        ensures
            copy.percentage == event.percentage,
            copy.processed_ms == event.processed_ms,
            copy.total_ms == event.total_ms,
            copy.status == event.status,
    {
        TranscribeProgress {
            percentage: event.percentage,
            processed_ms: event.processed_ms,
            total_ms: event.total_ms,
            status: event.status,
        }
    }
}

proof fn lemma_estimate_bounds(elapsed_ms: nat, total_ms: nat)
    ensures
        doubled_estimate(total_ms) >= 10000,
        doubled_elapsed(elapsed_ms, total_ms) <= doubled_estimate(total_ms),
        TRANSCRIBING_FROM <= estimated_percentage(elapsed_ms, total_ms) <= TRANSCRIBING_TO,
        estimated_processed(elapsed_ms, total_ms) <= total_ms,
{
    let m = doubled_estimate(total_ms) as int;
    let e = doubled_elapsed(elapsed_ms, total_ms) as int;
    assert(0 <= (60 * e) / m <= 60) by (nonlinear_arith)
        requires
            0 <= e <= m,
            m > 0,
    ;
    assert(0 <= (e * total_ms) / m <= total_ms) by (nonlinear_arith)
        requires
            0 <= e <= m,
            m > 0,
            total_ms >= 0,
    ;
}

/// The reported estimate never falls as time passes.
pub proof fn lemma_estimate_grows(earlier_ms: nat, later_ms: nat, total_ms: nat)
    requires
        earlier_ms <= later_ms,
    ensures
        estimated_percentage(earlier_ms, total_ms) <= estimated_percentage(later_ms, total_ms),
        estimated_processed(earlier_ms, total_ms) <= estimated_processed(later_ms, total_ms),
{
    let m = doubled_estimate(total_ms) as int;
    let a = doubled_elapsed(earlier_ms, total_ms) as int;
    let b = doubled_elapsed(later_ms, total_ms) as int;
    assert((60 * a) / m <= (60 * b) / m) by (nonlinear_arith)
        requires
            0 <= a <= b,
            m > 0,
    ;
    assert((a * total_ms) / m <= (b * total_ms) / m) by (nonlinear_arith)
        requires
            0 <= a <= b,
            m > 0,
            total_ms >= 0,
    ;
}

/// The estimate stays within the range reserved for the recognizer's run:
/// it begins at `TRANSCRIBING_FROM`, is capped at `TRANSCRIBING_TO`, and
/// reaches the cap when the expected time has passed.
pub proof fn lemma_estimate_range(elapsed_ms: nat, total_ms: nat)
    ensures
        TRANSCRIBING_FROM <= estimated_percentage(elapsed_ms, total_ms) <= TRANSCRIBING_TO,
        estimated_percentage(0, total_ms) == TRANSCRIBING_FROM,
        2 * elapsed_ms >= doubled_estimate(total_ms) ==> estimated_percentage(elapsed_ms, total_ms)
            == TRANSCRIBING_TO,
        estimated_processed(elapsed_ms, total_ms) <= total_ms,
{
    lemma_estimate_bounds(elapsed_ms, total_ms);
    let m = doubled_estimate(total_ms) as int;
    assert((60 * 0int) / m == 0) by (nonlinear_arith)
        requires
            m > 0,
    ;
    assert((60 * m) / m == 60) by (nonlinear_arith)
        requires
            m > 0,
    ;
}

/// Reports estimated progress while the recognizer runs on `total_ms` of
/// audio.
#[derive(Clone, Copy, Debug, PartialEq, Eq, Structural)]
pub struct ProgressReporter {
    pub total_ms: u64,
}

impl ProgressReporter {
    /// A reporter for a job on `total_ms` of audio.
    pub fn new(total_ms: u64) -> (reporter: ProgressReporter)
        ensures
            reporter.total_ms == total_ms,
    {
        ProgressReporter { total_ms }
    }

    /// The event for the moment `elapsed_ms` after the recognizer started.
    pub fn estimate(&self, elapsed_ms: u64) -> (event: SrtProgress)
        ensures
            event.status == ProgressStatus::Transcribing,
            event.total_ms == self.total_ms,
            event.percentage == estimated_percentage(elapsed_ms as nat, self.total_ms as nat),
            event.processed_ms == estimated_processed(elapsed_ms as nat, self.total_ms as nat),
            TRANSCRIBING_FROM <= event.percentage <= TRANSCRIBING_TO,
            event.well_formed(),
    {
        let total = self.total_ms;
        let estimate: u128 = if total > 2 * MIN_ESTIMATE_MS {
            total as u128
        } else {
            (2 * MIN_ESTIMATE_MS) as u128
        };
        let elapsed: u128 = if 2 * (elapsed_ms as u128) < estimate {
            2 * (elapsed_ms as u128)
        } else {
            estimate
        };
        proof {
            lemma_estimate_bounds(elapsed_ms as nat, total as nat);
            assert(elapsed * total <= 0xffff_ffff_ffff_ffff * 0xffff_ffff_ffff_ffff)
                by (nonlinear_arith)
                requires
                    0 <= elapsed <= 0xffff_ffff_ffff_ffff,
                    0 <= total <= 0xffff_ffff_ffff_ffff,
            ;
        }
        let share: u128 = (60 * elapsed) / estimate;
        let processed: u128 = (elapsed * (total as u128)) / estimate;
        SrtProgress {
            percentage: TRANSCRIBING_FROM + (share as u32),
            processed_ms: processed as u64,
            total_ms: total,
            status: ProgressStatus::Transcribing,
        }
    }

    /// What to do at a tick of the reporter's clock: stop, because the
    /// recognizer has finished or the job was cancelled, or emit the
    /// estimate for the elapsed time and wait for the next tick.
    pub fn tick(&self, elapsed_ms: u64, finished: bool, cancelled: bool) -> (event: Option<
        SrtProgress,
    >)
        ensures
            event is None <==> (finished || cancelled),
            event matches Some(e) ==> {
                &&& e.status == ProgressStatus::Transcribing
                &&& e.total_ms == self.total_ms
                &&& e.percentage == estimated_percentage(elapsed_ms as nat, self.total_ms as nat)
                &&& e.processed_ms == estimated_processed(elapsed_ms as nat, self.total_ms as nat)
            },
    {
        if finished || cancelled {
            None
        } else {
            Some(self.estimate(elapsed_ms))
        }
    }
}

} // verus!
