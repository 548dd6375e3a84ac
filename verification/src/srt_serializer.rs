//! Subtitle entries as SRT text, and the choice of the output file's name.

use vstd::prelude::*;
use crate::error::JobError;
use crate::hallucination_filter::{filter, filter_all, kept_entries, kept_entry};
use crate::segment::{entry_views, segment_views, RawSegment, SubtitleEntry, Timed};
use crate::subtitle_composer::{compose, composed};
use crate::text::{chars_of, push_all, same_chars, spells, string_of};
use crate::timestamp::{decimal, push_decimal, push_timestamp, timestamp_text};
use crate::wrap::{push_wrapped, wrapped};

verus! {

/// The timestamp `HH:MM:SS,mmm` of `ms` milliseconds: zero-padded, nothing
/// rounded.
pub fn format_timestamp(ms: i64) -> (out: String)
    ensures
        out@ == timestamp_text(ms as int),
{
    let mut chars: Vec<char> = Vec::new();
    if ms < 0 {
        let magnitude: u64 = if ms == i64::MIN {
            0x8000_0000_0000_0000u64
        } else {
            (-ms) as u64
        };
        push_timestamp(&mut chars, true, magnitude);
    } else {
        push_timestamp(&mut chars, false, ms as u64);
    }
    assert(chars@ =~= timestamp_text(ms as int));
    string_of(&chars)
}

/// The arrow between the two timestamps of a block.
pub open spec fn arrow() -> Seq<char> {
    seq![' ', '-', '-', '>', ' ']
}

/// The block of the entry `e` with the sequence number `index`: the number,
/// the time range, the text as displayed, and an empty line.
pub open spec fn block_text(index: nat, e: Timed) -> Seq<char> {
    decimal(index) + seq!['\n'] + timestamp_text(e.start as int) + arrow() + timestamp_text(
        e.end as int,
    ) + seq!['\n'] + wrapped(e.text) + seq!['\n', '\n']
}

/// The SRT text of `entries`: their blocks in order, numbered from one.
pub open spec fn srt_text(entries: Seq<Timed>) -> Seq<char>
    decreases entries.len(),
{
    if entries.len() == 0 {
        Seq::empty()
    } else {
        srt_text(entries.drop_last()) + block_text(entries.len(), entries.last())
    }
}

fn push_block(out: &mut Vec<char>, index: u64, start_ms: u64, end_ms: u64, text: &str)
    ensures
        final(out)@ == old(out)@ + block_text(
            index as nat,
            Timed { start: start_ms as nat, end: end_ms as nat, text: text@ },
        ),
{
    let ghost e = Timed { start: start_ms as nat, end: end_ms as nat, text: text@ };
    push_decimal(out, index);
    out.push('\n');
    push_timestamp(out, false, start_ms);
    out.push(' ');
    out.push('-');
    out.push('-');
    out.push('>');
    out.push(' ');
    push_timestamp(out, false, end_ms);
    out.push('\n');
    let chars = chars_of(text);
    push_wrapped(out, &chars);
    out.push('\n');
    out.push('\n');
    assert(out@ =~= old(out)@ + block_text(index as nat, e));
}

/// The block of `entry` with the sequence number `index`.
pub fn render_block(index: u64, entry: &SubtitleEntry) -> (out: String)
    ensures
        out@ == block_text(index as nat, entry@),
{
    let mut chars: Vec<char> = Vec::new();
    push_block(&mut chars, index, entry.start_ms, entry.end_ms, entry.text.as_str());
    assert(chars@ =~= block_text(index as nat, entry@));
    string_of(&chars)
}

/// The SRT text of `entries`.
pub fn render(entries: &Vec<SubtitleEntry>) -> (out: String)
    ensures
        out@ == srt_text(entry_views(entries@)),
{
    let ghost all = entry_views(entries@);
    let mut chars: Vec<char> = Vec::new();
    let n = entries.len();
    let mut i: usize = 0;
    proof {
        assert(all.take(0) =~= Seq::<Timed>::empty());
    }
    while i < n
        invariant
            i <= n == entries.len(),
            all == entry_views(entries@),
            chars@ == srt_text(all.take(i as int)),
        decreases n - i,
    {
        let e = &entries[i];
        proof {
            let next = all.take(i + 1);
            assert(next.drop_last() =~= all.take(i as int));
            assert(next.last() == e@);
        }
        push_block(&mut chars, (i as u64) + 1, e.start_ms, e.end_ms, e.text.as_str());
        i += 1;
    }
    proof {
        assert(all.take(n as int) =~= all);
    }
    string_of(&chars)
}

/// The SRT text of what the recognizer returned, written at once: the
/// fragments are filtered, the kept ones composed into entries, and the
/// entries rendered.
pub fn render_fragments(fragments: &Vec<RawSegment>) -> (out: String)
    ensures
        out@ == srt_text(composed(kept_entries(segment_views(fragments@)))),
{
    let kept = filter_all(fragments);
    let entries = compose(&kept);
    render(&entries)
}

/// An SRT file that is written block by block, as fragments arrive.
#[derive(Clone, Copy, Debug, PartialEq, Eq, Structural)]
pub struct SrtStream {
    /// How many blocks have been handed out.
    pub written: u64,
}

impl SrtStream {
    /// A stream that has handed out nothing.
    pub fn new() -> (s: SrtStream)
        ensures
            s.written == 0,
    {
        SrtStream { written: 0 }
    }

    /// Takes the next fragment from the recognizer. A fragment that survives
    /// the filter gives the block to append to the file, numbered after the
    /// blocks handed out so far; an artifact gives nothing and uses up no
    /// number.
    pub fn accept(&mut self, segment: RawSegment) -> (block: Option<String>)
        requires
            old(self).written < u64::MAX,
        ensures
            block is Some <==> kept_entry(segment@) is Some,
            block matches Some(b) ==> b@ == block_text(
                (old(self).written + 1) as nat,
                kept_entry(segment@).unwrap(),
            ) && final(self).written == old(self).written + 1,
            block is None ==> final(self).written == old(self).written,
    {
        match filter(segment) {
            Some(kept) => {
                let mut chars: Vec<char> = Vec::new();
                self.written = self.written + 1;
                push_block(&mut chars, self.written, kept.start_ms, kept.end_ms, kept.text.as_str());
                assert(chars@ =~= block_text(self.written as nat, kept@));
                Some(string_of(&chars))
            },
            None => None,
        }
    }
}

/// What a stream that starts empty has written once it has accepted
/// `fragments` in order: the text of the file, and the number of blocks.
pub open spec fn streamed(fragments: Seq<Timed>) -> (Seq<char>, nat)
    decreases fragments.len(),
{
    if fragments.len() == 0 {
        (Seq::empty(), 0)
    } else {
        let (text, written) = streamed(fragments.drop_last());
        match kept_entry(fragments.last()) {
            Some(e) => (text + block_text(written + 1, e), written + 1),
            None => (text, written),
        }
    }
}

/// Writing block by block gives the same file as writing at once: the text
/// that a stream has written after accepting the fragments in order is the
/// SRT text of the entries kept of them.
pub proof fn lemma_stream_writes_render(fragments: Seq<Timed>)
    ensures
        streamed(fragments).0 == srt_text(kept_entries(fragments)),
        streamed(fragments).1 == kept_entries(fragments).len(),
    decreases fragments.len(),
{
    if fragments.len() > 0 {
        lemma_stream_writes_render(fragments.drop_last());
        let before = kept_entries(fragments.drop_last());
        match kept_entry(fragments.last()) {
            Some(e) => {
                assert(before.push(e).drop_last() =~= before);
            },
            None => {},
        }
    }
}

/// What to do when the output file exists already.
#[derive(Clone, Copy, Debug, PartialEq, Eq, Structural)]
pub enum DuplicateMode {
    /// Write over it.
    Overwrite,
    /// Write beside it, under a numbered name.
    Rename,
}

impl DuplicateMode {
    /// The mode named by a job request: `rename` asks for a new name,
    /// anything else for overwriting.
    pub fn from_name(name: &str) -> (mode: DuplicateMode)
        ensures
            mode == if name@ == "rename"@ {
                DuplicateMode::Rename
            } else {
                DuplicateMode::Overwrite
            },
    {
        let chars = chars_of(name);
        if spells(&chars, "rename") {
            DuplicateMode::Rename
        } else {
            DuplicateMode::Overwrite
        }
    }
}

/// The most numbered names that are tried.
pub const MAX_RENAME_ATTEMPTS: u32 = 1000;

/// The index of the last dot of `name`, or -1 if it has none.
pub open spec fn last_dot(name: Seq<char>) -> int
    decreases name.len(),
{
    if name.len() == 0 {
        -1
    } else if name.last() == '.' {
        name.len() - 1
    } else {
        last_dot(name.drop_last())
    }
}

/// The stem of a file name: the name up to its last dot. A name without a
/// dot, or whose only dot comes first, is its own stem; the names that
/// denote no file (the empty name, `.` and `..`) have the stem `output`.
pub open spec fn stem_of(name: Seq<char>) -> Seq<char> {
    if name.len() == 0 || name == seq!['.'] || name == seq!['.', '.'] {
        "output"@
    } else if last_dot(name) > 0 {
        name.subrange(0, last_dot(name))
    } else {
        name
    }
}

/// The `n`-th numbered name beside a file with the stem `stem`.
pub open spec fn candidate(stem: Seq<char>, n: nat) -> Seq<char> {
    stem + seq!['_'] + decimal(n) + seq!['.', 's', 'r', 't']
}

/// Whether `name` is one of `existing`.
pub open spec fn in_use(existing: Seq<String>, name: Seq<char>) -> bool {
    exists|i: int| 0 <= i < existing.len() && (#[trigger] existing[i])@ == name
}

/// Whether the `n`-th numbered name is the first free one.
pub open spec fn is_first_free(existing: Seq<String>, stem: Seq<char>, n: nat) -> bool {
    &&& 1 <= n <= MAX_RENAME_ATTEMPTS
    &&& !in_use(existing, candidate(stem, n))
    &&& forall|k: nat| 1 <= k < n ==> in_use(existing, #[trigger] candidate(stem, k))
}

/// Whether every numbered name that is tried is in use.
pub open spec fn all_in_use(existing: Seq<String>, stem: Seq<char>) -> bool {
    forall|k: nat|
        1 <= k <= MAX_RENAME_ATTEMPTS ==> in_use(existing, #[trigger] candidate(stem, k))
}

fn find_last_dot(name: &Vec<char>) -> (r: Option<usize>)
    ensures
        match r {
            Some(i) => i == last_dot(name@) && i < name.len(),
            None => last_dot(name@) == -1,
        },
{
    let mut k: usize = name.len();
    proof {
        assert(name@.take(k as int) =~= name@);
    }
    while k > 0
        invariant
            k <= name.len(),
            last_dot(name@) == last_dot(name@.take(k as int)),
        decreases k,
    {
        proof {
            let t = name@.take(k as int);
            assert(t.last() == name@[k - 1]);
            assert(t.drop_last() =~= name@.take(k - 1));
        }
        if name[k - 1] == '.' {
            return Some(k - 1);
        }
        k -= 1;
    }
    None
}

/// The stem of a file name.
pub fn file_stem(name: &str) -> (stem: String)
    ensures
        stem@ == stem_of(name@),
{
    let chars = chars_of(name);
    let out = stem_chars(&chars);
    string_of(&out)
}

fn stem_chars(name: &Vec<char>) -> (stem: Vec<char>)
    ensures
        stem@ == stem_of(name@),
{
    let n = name.len();
    let only_dots = (n == 1 && name[0] == '.') || (n == 2 && name[0] == '.' && name[1] == '.');
    proof {
        if n == 1 {
            assert((name@ == seq!['.']) == (name@[0] == '.')) by {
                if name@[0] == '.' {
                    assert(name@ =~= seq!['.']);
                }
            }
        }
        if n == 2 {
            assert((name@ == seq!['.', '.']) == (name@[0] == '.' && name@[1] == '.')) by {
                if name@[0] == '.' && name@[1] == '.' {
                    assert(name@ =~= seq!['.', '.']);
                }
            }
        }
    }
    if n == 0 || only_dots {
        return chars_of("output");
    }
    match find_last_dot(name) {
        Some(i) => {
            if i > 0 {
                crate::text::slice_of(name, 0, i)
            } else {
                let out = crate::text::slice_of(name, 0, n);
                assert(out@ =~= name@);
                out
            }
        },
        None => {
            let out = crate::text::slice_of(name, 0, n);
            assert(out@ =~= name@);
            out
        },
    }
}

fn candidate_chars(stem: &Vec<char>, n: u32) -> (out: Vec<char>)
    ensures
        out@ == candidate(stem@, n as nat),
{
    let mut out: Vec<char> = Vec::new();
    push_all(&mut out, stem);
    out.push('_');
    push_decimal(&mut out, n as u64);
    out.push('.');
    out.push('s');
    out.push('r');
    out.push('t');
    assert(out@ =~= candidate(stem@, n as nat));
    out
}

fn is_in_use(existing: &Vec<String>, name: &Vec<char>) -> (r: bool)
    ensures
        r == in_use(existing@, name@),
{
    let mut i: usize = 0;
    while i < existing.len()
        invariant
            i <= existing.len(),
            forall|j: int| 0 <= j < i ==> (#[trigger] existing@[j])@ != name@,
        decreases existing.len() - i,
    {
        let other = chars_of(existing[i].as_str());
        if same_chars(&other, name) {
            return true;
        }
        i += 1;
    }
    false
}

/// Chooses the name under which the output is written.
///
/// `name` is the requested file name and `existing` holds the names in use
/// in its directory. With `Overwrite` the requested name is chosen whatever
/// exists. With `Rename` the requested name is chosen if it is free;
/// otherwise the numbered names `{stem}_1.srt`, `{stem}_2.srt`, ... are tried
/// in order and the first free one is chosen; if the first
/// `MAX_RENAME_ATTEMPTS` are all in use, the choice fails.
pub fn resolve_output_path(name: &str, mode: DuplicateMode, existing: &Vec<String>) -> (r: Result<
    String,
    JobError,
>)
    ensures
        mode == DuplicateMode::Overwrite || !in_use(existing@, name@) ==> r is Ok && r.unwrap()@
            == name@,
        mode == DuplicateMode::Rename && in_use(existing@, name@) ==> match r {
            Ok(chosen) => exists|n: nat|
                is_first_free(existing@, stem_of(name@), n) && chosen@ == candidate(
                    stem_of(name@),
                    n,
                ),
            Err(e) => e == JobError::TooManyDuplicates && all_in_use(existing@, stem_of(name@)),
        },
{
    let chars = chars_of(name);
    let taken = match mode {
        DuplicateMode::Overwrite => false,
        DuplicateMode::Rename => is_in_use(existing, &chars),
    };
    if !taken {
        return Ok(string_of(&chars));
    }
    let stem = stem_chars(&chars);
    let mut n: u32 = 1;
    while n <= MAX_RENAME_ATTEMPTS
        invariant
            1 <= n <= MAX_RENAME_ATTEMPTS + 1,
            stem@ == stem_of(name@),
            mode == DuplicateMode::Rename,
            in_use(existing@, name@),
            forall|k: nat| 1 <= k < n ==> in_use(existing@, #[trigger] candidate(stem@, k)),
        decreases MAX_RENAME_ATTEMPTS + 1 - n,
    {
        let chosen = candidate_chars(&stem, n);
        if !is_in_use(existing, &chosen) {
            assert(is_first_free(existing@, stem@, n as nat));
            return Ok(string_of(&chosen));
        }
        n += 1;
    }
    Err(JobError::TooManyDuplicates)
}

} // verus!
