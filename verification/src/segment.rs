//! The timed units of text that flow through the pipeline: fragments as the
//! recognizer emits them, and entries as they are written to a subtitle file.

use vstd::prelude::*;

verus! {

/// What a timed unit of text is: a span in milliseconds and its characters.
pub struct Timed {
    pub start: nat,
    pub end: nat,
    pub text: Seq<char>,
}

impl Timed {
    /// The length of the span; zero if the span is reversed.
    pub open spec fn duration(self) -> nat {
        if self.end >= self.start {
            (self.end - self.start) as nat
        } else {
            0
        }
    }

    /// A span never ends before it starts.
    pub open spec fn well_formed(self) -> bool {
        self.start <= self.end
    }
}

/// One timed unit of text as the recognizer emits it.
#[derive(Clone, Debug, PartialEq, Eq)]
pub struct RawSegment {
    pub start_ms: u64,
    pub end_ms: u64,
    pub text: String,
}

/// One entry of a subtitle file.
#[derive(Clone, Debug, PartialEq, Eq)]
pub struct SubtitleEntry {
    pub start_ms: u64,
    pub end_ms: u64,
    pub text: String,
}

impl View for RawSegment {
    type V = Timed;

    open spec fn view(&self) -> Timed {
        Timed { start: self.start_ms as nat, end: self.end_ms as nat, text: self.text@ }
    }
}

impl View for SubtitleEntry {
    type V = Timed;

    open spec fn view(&self) -> Timed {
        Timed { start: self.start_ms as nat, end: self.end_ms as nat, text: self.text@ }
    }
}

/// What a list of fragments holds.
pub open spec fn segment_views(list: Seq<RawSegment>) -> Seq<Timed> {
    Seq::new(list.len(), |i: int| list[i]@)
}

/// What a list of entries holds.
pub open spec fn entry_views(list: Seq<SubtitleEntry>) -> Seq<Timed> {
    Seq::new(list.len(), |i: int| list[i]@)
}

/// The largest recognizer timestamp, in hundredths of a second, whose value in
/// milliseconds still fits the segment's fields.
pub const MAX_CENTISECONDS: i64 = 922_337_203_685_477_580;

/// Whether a pair of recognizer timestamps, in hundredths of a second,
/// describes a span: not negative, not reversed, and small enough to be
/// expressed in milliseconds.
pub open spec fn valid_centiseconds(start_cs: int, end_cs: int) -> bool {
    0 <= start_cs <= end_cs <= MAX_CENTISECONDS
}

impl RawSegment {
    /// The fragment for a span given in hundredths of a second, the unit of
    /// the recognizer: each bound is multiplied by ten. Timestamps that do not
    /// describe a span give `None`.
    pub fn from_centiseconds(start_cs: i64, end_cs: i64, text: String) -> (r: Option<RawSegment>)
        ensures
            r is Some <==> valid_centiseconds(start_cs as int, end_cs as int),
            r matches Some(seg) ==> seg@ == (Timed {
                start: (start_cs * 10) as nat,
                end: (end_cs * 10) as nat,
                text: text@,
            }) && seg@.well_formed(),
    {
        if 0 <= start_cs && start_cs <= end_cs && end_cs <= MAX_CENTISECONDS {
            let start_ms: u64 = (start_cs as u64) * 10;
            let end_ms: u64 = (end_cs as u64) * 10;
            Some(RawSegment { start_ms, end_ms, text })
        } else {
            None
        }
    }

    /// The length of the span in milliseconds; zero if the span is reversed.
    pub fn duration_ms(&self) -> (d: u64)
        ensures
            d == self@.duration(),
    {
        if self.end_ms >= self.start_ms {
            self.end_ms - self.start_ms
        } else {
            0
        }
    }
}

impl SubtitleEntry {
    /// The length of the span in milliseconds; zero if the span is reversed.
    pub fn duration_ms(&self) -> (d: u64)
        ensures
            d == self@.duration(),
    {
        if self.end_ms >= self.start_ms {
            self.end_ms - self.start_ms
        } else {
            0
        }
    }
}

} // verus!
