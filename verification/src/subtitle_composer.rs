//! Composition of subtitle entries from filtered fragments: fragments too
//! short to read are merged with what follows, fragments too long to read are
//! split at sentence ends, and the rest pass unchanged.

use vstd::prelude::*;
use crate::segment::{entry_views, segment_views, RawSegment, SubtitleEntry, Timed};
use crate::text::{
    char_is_space, chars_of, flat, is_space, lemma_flat_concat, lemma_flat_one,
    lemma_squeezed_concat, lemma_squeezed_space, lemma_squeezed_trimmed, lemma_trimmed_padded,
    push_all, slice_of, squeezed, string_of, trim, trimmed, views,
};

verus! {

/// An entry shown for less than this many milliseconds is too short to read.
pub const MIN_DURATION_MS: u64 = 1000;

/// An entry is shown for at most this many milliseconds.
pub const MAX_DURATION_MS: u64 = 7000;

/// An entry holds at most this many characters: two lines of 42.
pub const MAX_CHARS: usize = 84;

/// A short fragment is held back for merging only if its text is shorter than
/// this many characters.
pub const HOLD_BELOW_CHARS: usize = 30;

/// How a long text is cut into pieces.
#[derive(Clone, Copy, Debug, PartialEq, Eq)]
pub enum SplitRule {
    /// After each mark that ends a sentence.
    Sentence,
    /// After each comma.
    Comma,
}

/// Whether `c` is a mark that can end a sentence.
pub open spec fn is_terminal(c: char) -> bool {
    c == '.' || c == '!' || c == '?'
}

/// Whether `c` belongs to a word: it is neither white space nor a mark that
/// can end a sentence.
pub open spec fn is_word_char(c: char) -> bool {
    !is_space(c) && !is_terminal(c)
}

/// Where the run of terminal marks that ends just before index `i` begins;
/// `i` itself if no mark stands before it.
pub open spec fn marks_start(s: Seq<char>, i: int) -> int
    decreases i,
{
    if 0 < i <= s.len() && is_terminal(s[i - 1]) {
        marks_start(s, i - 1)
    } else {
        i
    }
}

/// Whether the word that the mark at index `i` follows has more than two
/// characters. The word is what stands before the run of marks that the mark
/// belongs to, as `what` in `what?!`. A mark after a shorter word, as in
/// `Dr.` or `p.m.`, is taken for an abbreviation and ends no sentence.
pub open spec fn long_token_before(s: Seq<char>, i: int) -> bool {
    let j = marks_start(s, i);
    j >= 3 && is_word_char(s[j - 1]) && is_word_char(s[j - 2]) && is_word_char(s[j - 3])
}

/// Whether a piece of `s` ends with the character at index `i`. A sentence
/// ends at a terminal mark that closes its token (white space or the end of
/// the text follows) and that no abbreviation explains.
pub open spec fn breaks_at(rule: SplitRule, s: Seq<char>, i: int) -> bool {
    0 <= i < s.len() && match rule {
        SplitRule::Sentence => is_terminal(s[i]) && (i + 1 == s.len() || is_space(s[i + 1]))
            && long_token_before(s, i),
        SplitRule::Comma => s[i] == ',',
    }
}

/// The piece `p` as it is kept: trimmed, and dropped if nothing is left.
pub open spec fn kept_piece(p: Seq<char>) -> Seq<Seq<char>> {
    let t = trimmed(p);
    if t.len() > 0 {
        seq![t]
    } else {
        Seq::empty()
    }
}

/// The pieces of `s` from index `from` on, where the characters before `i`
/// are known to hold no break of the running piece.
pub open spec fn cut(rule: SplitRule, s: Seq<char>, from: int, i: int) -> Seq<Seq<char>>
    decreases s.len() - i,
{
    if i < from || from < 0 {
        Seq::empty()
    } else if i >= s.len() {
        if from <= s.len() {
            kept_piece(s.subrange(from, s.len() as int))
        } else {
            Seq::empty()
        }
    } else if breaks_at(rule, s, i) {
        kept_piece(s.subrange(from, i + 1)) + cut(rule, s, i + 1, i + 1)
    } else {
        cut(rule, s, from, i + 1)
    }
}

/// The pieces of `s` under `rule`: `s` is cut after each break, every piece
/// is trimmed, and empty pieces are dropped.
pub open spec fn pieces_by(rule: SplitRule, s: Seq<char>) -> Seq<Seq<char>> {
    cut(rule, s, 0, 0)
}

/// The pieces into which a long text is split: its sentences if there are at
/// least two, else its comma-separated parts if there are at least two, else
/// the text as it is.
pub open spec fn split_text(s: Seq<char>) -> Seq<Seq<char>> {
    let sentences = pieces_by(SplitRule::Sentence, s);
    let parts = pieces_by(SplitRule::Comma, s);
    if sentences.len() >= 2 {
        sentences
    } else if parts.len() >= 2 {
        parts
    } else {
        seq![s]
    }
}

/// Where the `k`-th of `n` equal shares of a span begins.
pub open spec fn share_bound(start: nat, duration: nat, n: nat, k: nat) -> nat {
    if n == 0 {
        start
    } else {
        start + (k * duration) / n
    }
}

/// The entries that share a span evenly among `pieces`, in order: the `k`-th
/// piece is shown from the `k`-th bound to the next.
pub open spec fn spread(start: nat, duration: nat, pieces: Seq<Seq<char>>) -> Seq<Timed> {
    Seq::new(
        pieces.len(),
        |k: int|
            Timed {
                start: share_bound(start, duration, pieces.len(), k as nat),
                end: share_bound(start, duration, pieces.len(), (k + 1) as nat),
                text: pieces[k],
            },
    )
}

/// The entries into which a long fragment is split.
pub open spec fn split_entry(whole: Timed) -> Seq<Timed> {
    spread(whole.start, whole.duration(), split_text(whole.text))
}

/// Whether the fragment `next` is merged into the pending entry: the pending
/// entry is too short to read, and the merged entry stays within the bounds
/// on duration and length.
pub open spec fn can_merge(pending: Timed, next: Timed) -> bool {
    &&& pending.duration() < MIN_DURATION_MS
    &&& pending.start <= next.end
    &&& next.end - pending.start <= MAX_DURATION_MS
    &&& pending.text.len() + 1 + next.text.len() <= MAX_CHARS
}

/// The pending entry extended by the fragment `next`.
pub open spec fn merged(pending: Timed, next: Timed) -> Timed {
    Timed { start: pending.start, end: next.end, text: pending.text + seq![' '] + next.text }
}

/// Whether a fragment is held back to be merged with the next one.
pub open spec fn is_short(f: Timed) -> bool {
    f.duration() < MIN_DURATION_MS && f.text.len() < HOLD_BELOW_CHARS
}

/// Whether a fragment is split.
pub open spec fn is_long(f: Timed) -> bool {
    f.duration() > MAX_DURATION_MS || f.text.len() > MAX_CHARS
}

/// The entries that a pending entry, if any, contributes when it is flushed.
pub open spec fn flushed(pending: Option<Timed>) -> Seq<Timed> {
    match pending {
        Some(p) => seq![p],
        None => Seq::empty(),
    }
}

/// The entries composed from `fragments` when `pending` is held back.
pub open spec fn composed_from(fragments: Seq<Timed>, pending: Option<Timed>) -> Seq<Timed>
    decreases fragments.len(),
{
    if fragments.len() == 0 {
        flushed(pending)
    } else {
        let f = fragments[0];
        let rest = fragments.drop_first();
        if pending is Some && can_merge(pending.unwrap(), f) {
            composed_from(rest, Some(merged(pending.unwrap(), f)))
        } else if is_short(f) {
            flushed(pending) + composed_from(rest, Some(f))
        } else if is_long(f) {
            flushed(pending) + split_entry(f) + composed_from(rest, None)
        } else {
            flushed(pending) + seq![f] + composed_from(rest, None)
        }
    }
}

/// The entries composed from `fragments`.
pub open spec fn composed(fragments: Seq<Timed>) -> Seq<Timed> {
    composed_from(fragments, None)
}

fn is_mark(c: char) -> (r: bool)
    ensures
        r == is_terminal(c),
{
    c == '.' || c == '!' || c == '?'
}

fn is_in_word(c: char) -> (r: bool)
    ensures
        r == is_word_char(c),
{
    !char_is_space(c) && !is_mark(c)
}

fn follows_long_token(s: &Vec<char>, i: usize) -> (r: bool)
    requires
        i <= s.len(),
    ensures
        r == long_token_before(s@, i as int),
{
    let mut j: usize = i;
    while j > 0 && is_mark(s[j - 1])
        invariant
            j <= i <= s.len(),
            marks_start(s@, i as int) == marks_start(s@, j as int),
        decreases j,
    {
        j -= 1;
    }
    j >= 3 && is_in_word(s[j - 1]) && is_in_word(s[j - 2]) && is_in_word(s[j - 3])
}

fn is_break(rule: SplitRule, s: &Vec<char>, i: usize) -> (r: bool)
    requires
        i < s.len(),
    ensures
        r == breaks_at(rule, s@, i as int),
{
    let c = s[i];
    match rule {
        SplitRule::Sentence => {
            is_mark(c) && (i + 1 == s.len() || char_is_space(s[i + 1])) && follows_long_token(s, i)
        },
        SplitRule::Comma => c == ',',
    }
}

fn push_piece(out: &mut Vec<Vec<char>>, s: &Vec<char>, from: usize, to: usize)
    requires
        from <= to <= s.len(),
    ensures
        views(final(out)@) == views(old(out)@) + kept_piece(s@.subrange(from as int, to as int)),
{
    let raw = slice_of(s, from, to);
    let piece = trim(&raw);
    if piece.len() > 0 {
        out.push(piece);
        assert(views(out@) =~= views(old(out)@) + seq![piece@]);
    } else {
        assert(views(out@) =~= views(old(out)@) + Seq::<Seq<char>>::empty());
    }
}

/// Cuts `s` into pieces under `rule`.
pub fn split_by(rule: SplitRule, s: &Vec<char>) -> (out: Vec<Vec<char>>)
    ensures
        views(out@) == pieces_by(rule, s@),
{
    let mut out: Vec<Vec<char>> = Vec::new();
    let n = s.len();
    let mut from: usize = 0;
    let mut i: usize = 0;
    proof {
        assert(views(out@) + cut(rule, s@, 0, 0) =~= cut(rule, s@, 0, 0));
    }
    while i < n
        invariant
            from <= i <= n == s.len(),
            pieces_by(rule, s@) == views(out@) + cut(rule, s@, from as int, i as int),
        decreases n - i,
    {
        if is_break(rule, s, i) {
            let ghost before = views(out@);
            push_piece(&mut out, s, from, i + 1);
            proof {
                let piece = kept_piece(s@.subrange(from as int, i + 1));
                assert(before + (piece + cut(rule, s@, i + 1, i + 1)) =~= views(out@) + cut(
                    rule,
                    s@,
                    i + 1,
                    i + 1,
                ));
            }
            from = i + 1;
        }
        i += 1;
    }
    push_piece(&mut out, s, from, n);
    out
}

/// Splits a long text into pieces.
pub fn split_chars(s: &Vec<char>) -> (out: Vec<Vec<char>>)
    ensures
        views(out@) == split_text(s@),
        out.len() >= 1,
{
    let sentences = split_by(SplitRule::Sentence, s);
    assert(sentences.len() == views(sentences@).len());
    if sentences.len() >= 2 {
        return sentences;
    }
    let parts = split_by(SplitRule::Comma, s);
    assert(parts.len() == views(parts@).len());
    if parts.len() >= 2 {
        return parts;
    }
    let mut out: Vec<Vec<char>> = Vec::new();
    let whole = slice_of(s, 0, s.len());
    assert(whole@ =~= s@);
    out.push(whole);
    assert(views(out@) =~= seq![s@]);
    out
}

proof fn lemma_share_le(duration: nat, n: nat, k: nat)
    requires
        0 < n,
        k <= n,
    ensures
        (k * duration) / n <= duration,
        k * duration <= n * duration,
{
    assert(k * duration <= n * duration) by (nonlinear_arith)
        requires
            k <= n,
    ;
    assert((k * duration) / n <= duration) by (nonlinear_arith)
        requires
            k * duration <= n * duration,
            0 < n,
    ;
}

proof fn lemma_share_monotone(duration: nat, n: nat, k: nat)
    requires
        0 < n,
    ensures
        (k * duration) / n <= ((k + 1) * duration) / n,
{
    assert(k * duration <= (k + 1) * duration) by (nonlinear_arith);
    assert((k * duration) / n <= ((k + 1) * duration) / n) by (nonlinear_arith)
        requires
            k * duration <= (k + 1) * duration,
            0 < n,
    ;
}

/// The shares of a span partition it: the first share begins where the span
/// begins, each share ends where the next begins, the last ends where the
/// span ends, and no share is reversed.
pub proof fn lemma_spread_partitions(start: nat, duration: nat, pieces: Seq<Seq<char>>)
    requires
        pieces.len() >= 1,
    ensures
        spread(start, duration, pieces).len() == pieces.len(),
        spread(start, duration, pieces)[0].start == start,
        spread(start, duration, pieces).last().end == start + duration,
        forall|k: int|
            0 <= k < pieces.len() - 1 ==> (#[trigger] spread(start, duration, pieces)[k]).end
                == spread(start, duration, pieces)[k + 1].start,
        forall|k: int|
            0 <= k < pieces.len() ==> (#[trigger] spread(start, duration, pieces)[k]).well_formed(),
        forall|k: int|
            0 <= k < pieces.len() ==> (#[trigger] spread(start, duration, pieces)[k]).text
                == pieces[k],
{
    let n = pieces.len();
    let all = spread(start, duration, pieces);
    assert((0 * duration) / n == 0) by (nonlinear_arith)
        requires
            n > 0,
    ;
    assert((n * duration) / n == duration) by (nonlinear_arith)
        requires
            n > 0,
    ;
    assert(all.last().end == share_bound(start, duration, n, n));
    assert forall|k: int| 0 <= k < n implies (#[trigger] all[k]).well_formed() by {
        lemma_share_monotone(duration, n, k as nat);
    }
}

/// Equal shares: the lengths of the shares of a span differ by at most one
/// millisecond, and are all equal where the number of pieces divides the
/// length of the span.
pub proof fn lemma_spread_even(start: nat, duration: nat, pieces: Seq<Seq<char>>, k: int)
    requires
        0 <= k < pieces.len(),
    ensures
        duration / pieces.len() <= spread(start, duration, pieces)[k].duration() <= duration
            / pieces.len() + 1,
        duration % pieces.len() == 0 ==> spread(start, duration, pieces)[k].duration() == duration
            / pieces.len(),
{
    let n = pieces.len() as int;
    let d = duration as int;
    let a = k * d;
    let b = (k + 1) * d;
    assert(b == a + d) by (nonlinear_arith)
        requires
            b == (k + 1) * d,
            a == k * d,
    ;
    lemma_share_monotone(duration, n as nat, k as nat);
    vstd::arithmetic::div_mod::lemma_fundamental_div_mod(a, n);
    vstd::arithmetic::div_mod::lemma_fundamental_div_mod(b, n);
    vstd::arithmetic::div_mod::lemma_fundamental_div_mod(d, n);
    let qa = a / n;
    let qb = b / n;
    let qd = d / n;
    assert(0 <= a % n < n && 0 <= b % n < n && 0 <= d % n < n);
    assert(n * qb + b % n == n * qa + a % n + n * qd + d % n);
    assert(qd <= qb - qa <= qd + 1) by (nonlinear_arith)
        requires
            n * qb + b % n == n * qa + a % n + n * qd + d % n,
            0 <= a % n < n,
            0 <= b % n < n,
            0 <= d % n < n,
            n > 0,
    ;
    if d % n == 0 {
        assert(qb - qa == qd) by (nonlinear_arith)
            requires
                n * qb + b % n == n * qa + a % n + n * qd,
                0 <= a % n < n,
                0 <= b % n < n,
                n > 0,
        ;
    }
}

fn share(start: u64, duration: u64, n: usize, k: usize) -> (r: u64)
    requires
        0 < n,
        k <= n,
        start + duration <= u64::MAX,
    ensures
        r == share_bound(start as nat, duration as nat, n as nat, k as nat),
{
    proof {
        lemma_share_le(duration as nat, n as nat, k as nat);
        assert(k * duration <= 0xffff_ffff_ffff_ffff * 0xffff_ffff_ffff_ffff) by (nonlinear_arith)
            requires
                k <= 0xffff_ffff_ffff_ffff,
                duration <= 0xffff_ffff_ffff_ffff,
        ;
    }
    let product: u128 = (k as u128) * (duration as u128);
    let offset: u128 = product / (n as u128);
    start + (offset as u64)
}

fn push_spread(out: &mut Vec<SubtitleEntry>, start: u64, duration: u64, pieces: &Vec<Vec<char>>)
    requires
        start + duration <= u64::MAX,
    ensures
        entry_views(final(out)@) == entry_views(old(out)@) + spread(
            start as nat,
            duration as nat,
            views(pieces@),
        ),
{
    let n = pieces.len();
    let ghost all = spread(start as nat, duration as nat, views(pieces@));
    let mut k: usize = 0;
    proof {
        assert(entry_views(out@) =~= entry_views(old(out)@) + all.take(0));
    }
    while k < n
        invariant
            k <= n == pieces.len(),
            start + duration <= u64::MAX,
            all == spread(start as nat, duration as nat, views(pieces@)),
            entry_views(out@) == entry_views(old(out)@) + all.take(k as int),
        decreases n - k,
    {
        let from = share(start, duration, n, k);
        let to = share(start, duration, n, k + 1);
        let text = string_of(&pieces[k]);
        let ghost before = entry_views(out@);
        out.push(SubtitleEntry { start_ms: from, end_ms: to, text });
        proof {
            assert(out@.last()@ == all[k as int]);
            assert(entry_views(out@) =~= before + seq![all[k as int]]);
            assert(all.take(k + 1) =~= all.take(k as int) + seq![all[k as int]]);
        }
        k += 1;
    }
    proof {
        assert(all.take(n as int) =~= all);
    }
}

/// Whether every span in `list` is well-formed.
pub open spec fn all_well_formed(list: Seq<Timed>) -> bool {
    forall|i: int| 0 <= i < list.len() ==> (#[trigger] list[i]).well_formed()
}

/// Whether every entry in `list` is within the bounds on duration and length.
pub open spec fn all_within_bounds(list: Seq<Timed>) -> bool {
    forall|i: int| 0 <= i < list.len() ==> !is_long(#[trigger] list[i])
}

proof fn lemma_concat_all<A>(a: Seq<A>, b: Seq<A>, p: spec_fn(A) -> bool)
    requires
        forall|i: int| 0 <= i < a.len() ==> p(#[trigger] a[i]),
        forall|i: int| 0 <= i < b.len() ==> p(#[trigger] b[i]),
    ensures
        forall|i: int| 0 <= i < (a + b).len() ==> p(#[trigger] (a + b)[i]),
{
    assert forall|i: int| 0 <= i < (a + b).len() implies p(#[trigger] (a + b)[i]) by {
        if i < a.len() {
            assert((a + b)[i] == a[i]);
        } else {
            assert((a + b)[i] == b[i - a.len()]);
        }
    }
}

proof fn lemma_composed_from_well_formed(fragments: Seq<Timed>, pending: Option<Timed>)
    requires
        all_well_formed(fragments),
        pending matches Some(p) ==> p.well_formed(),
    ensures
        all_well_formed(composed_from(fragments, pending)),
    decreases fragments.len(),
{
    let wf = |t: Timed| t.well_formed();
    if fragments.len() > 0 {
        let f = fragments[0];
        let rest = fragments.drop_first();
        assert(f.well_formed());
        assert(all_well_formed(rest)) by {
            assert forall|i: int| 0 <= i < rest.len() implies (#[trigger] rest[i]).well_formed() by {
                assert(rest[i] == fragments[i + 1]);
            }
        }
        if pending is Some && can_merge(pending.unwrap(), f) {
            lemma_composed_from_well_formed(rest, Some(merged(pending.unwrap(), f)));
        } else if is_short(f) {
            lemma_composed_from_well_formed(rest, Some(f));
            lemma_concat_all(flushed(pending), composed_from(rest, Some(f)), wf);
        } else if is_long(f) {
            lemma_composed_from_well_formed(rest, None);
            lemma_spread_partitions(f.start, f.duration(), split_text(f.text));
            lemma_concat_all(flushed(pending), split_entry(f), wf);
            lemma_concat_all(flushed(pending) + split_entry(f), composed_from(rest, None), wf);
        } else {
            lemma_composed_from_well_formed(rest, None);
            lemma_concat_all(flushed(pending), seq![f], wf);
            lemma_concat_all(flushed(pending) + seq![f], composed_from(rest, None), wf);
        }
    }
}

/// Composition keeps spans in order: if no fragment ends before it starts,
/// no composed entry does.
pub proof fn lemma_composed_well_formed(fragments: Seq<Timed>)
    requires
        all_well_formed(fragments),
    ensures
        all_well_formed(composed(fragments)),
{
    lemma_composed_from_well_formed(fragments, None);
}

proof fn lemma_composed_from_within_bounds(fragments: Seq<Timed>, pending: Option<Timed>)
    requires
        all_within_bounds(fragments),
        pending matches Some(p) ==> !is_long(p),
    ensures
        all_within_bounds(composed_from(fragments, pending)),
    decreases fragments.len(),
{
    let ok = |t: Timed| !is_long(t);
    if fragments.len() > 0 {
        let f = fragments[0];
        let rest = fragments.drop_first();
        assert(!is_long(f));
        assert(all_within_bounds(rest)) by {
            assert forall|i: int| 0 <= i < rest.len() implies !is_long(#[trigger] rest[i]) by {
                assert(rest[i] == fragments[i + 1]);
            }
        }
        if pending is Some && can_merge(pending.unwrap(), f) {
            let m = merged(pending.unwrap(), f);
            assert(m.text.len() == pending.unwrap().text.len() + 1 + f.text.len());
            lemma_composed_from_within_bounds(rest, Some(m));
        } else if is_short(f) {
            lemma_composed_from_within_bounds(rest, Some(f));
            lemma_concat_all(flushed(pending), composed_from(rest, Some(f)), ok);
        } else {
            lemma_composed_from_within_bounds(rest, None);
            lemma_concat_all(flushed(pending), seq![f], ok);
            lemma_concat_all(flushed(pending) + seq![f], composed_from(rest, None), ok);
        }
    }
}

/// Merging never oversteps the bounds: if every fragment lasts at most
/// `MAX_DURATION_MS` and holds at most `MAX_CHARS` characters, so does every
/// composed entry.
pub proof fn lemma_composed_within_bounds(fragments: Seq<Timed>)
    requires
        all_within_bounds(fragments),
    ensures
        all_within_bounds(composed(fragments)),
{
    lemma_composed_from_within_bounds(fragments, None);
}

/// The texts of `list`, in order.
pub open spec fn texts(list: Seq<Timed>) -> Seq<Seq<char>> {
    Seq::new(list.len(), |i: int| list[i].text)
}

/// What `list` says: its texts one after the other, without white space.
pub open spec fn said(list: Seq<Timed>) -> Seq<char> {
    squeezed(flat(texts(list)))
}

proof fn lemma_said_concat(a: Seq<Timed>, b: Seq<Timed>)
    ensures
        said(a + b) == said(a) + said(b),
{
    assert(texts(a + b) =~= texts(a) + texts(b));
    lemma_flat_concat(texts(a), texts(b));
    lemma_squeezed_concat(flat(texts(a)), flat(texts(b)));
}

proof fn lemma_said_one(t: Timed)
    ensures
        said(seq![t]) == squeezed(t.text),
{
    assert(texts(seq![t]) =~= seq![t.text]);
    lemma_flat_one(t.text);
}

proof fn lemma_kept_piece_keeps_text(p: Seq<char>)
    ensures
        squeezed(flat(kept_piece(p))) == squeezed(p),
{
    lemma_squeezed_trimmed(p);
    let t = trimmed(p);
    if t.len() > 0 {
        lemma_flat_one(t);
    } else {
        assert(flat(kept_piece(p)) =~= Seq::<char>::empty());
    }
}

proof fn lemma_cut_keeps_text(rule: SplitRule, s: Seq<char>, from: int, i: int)
    requires
        0 <= from <= i <= s.len(),
    ensures
        squeezed(flat(cut(rule, s, from, i))) == squeezed(s.subrange(from, s.len() as int)),
    decreases s.len() - i,
{
    let len = s.len() as int;
    if i >= len {
        lemma_kept_piece_keeps_text(s.subrange(from, len));
    } else if breaks_at(rule, s, i) {
        let head = s.subrange(from, i + 1);
        let tail = s.subrange(i + 1, len);
        lemma_cut_keeps_text(rule, s, i + 1, i + 1);
        lemma_kept_piece_keeps_text(head);
        lemma_flat_concat(kept_piece(head), cut(rule, s, i + 1, i + 1));
        lemma_squeezed_concat(flat(kept_piece(head)), flat(cut(rule, s, i + 1, i + 1)));
        assert(s.subrange(from, len) =~= head + tail);
        lemma_squeezed_concat(head, tail);
    } else {
        lemma_cut_keeps_text(rule, s, from, i + 1);
    }
}

/// Splitting a text takes away nothing but white space.
pub proof fn lemma_split_keeps_text(s: Seq<char>)
    ensures
        squeezed(flat(split_text(s))) == squeezed(s),
        split_text(s).len() >= 1,
{
    assert(s.subrange(0, s.len() as int) =~= s);
    lemma_cut_keeps_text(SplitRule::Sentence, s, 0, 0);
    lemma_cut_keeps_text(SplitRule::Comma, s, 0, 0);
    lemma_flat_one(s);
}

proof fn lemma_split_entry_keeps_text(f: Timed)
    ensures
        said(split_entry(f)) == squeezed(f.text),
{
    lemma_split_keeps_text(f.text);
    assert(texts(split_entry(f)) =~= split_text(f.text));
}

proof fn lemma_composed_from_keeps_text(fragments: Seq<Timed>, pending: Option<Timed>)
    ensures
        said(composed_from(fragments, pending)) == said(flushed(pending)) + said(fragments),
    decreases fragments.len(),
{
    if fragments.len() == 0 {
        assert(texts(fragments) =~= Seq::<Seq<char>>::empty());
        assert(said(fragments) =~= Seq::<char>::empty());
        assert(said(flushed(pending)) + said(fragments) =~= said(flushed(pending)));
    } else {
        let f = fragments[0];
        let rest = fragments.drop_first();
        assert(fragments =~= seq![f] + rest);
        lemma_said_concat(seq![f], rest);
        lemma_said_one(f);
        if pending is Some && can_merge(pending.unwrap(), f) {
            let p = pending.unwrap();
            let m = merged(p, f);
            lemma_composed_from_keeps_text(rest, Some(m));
            lemma_said_one(m);
            lemma_said_one(p);
            lemma_squeezed_concat(p.text + seq![' '], f.text);
            lemma_squeezed_concat(p.text, seq![' ']);
            lemma_squeezed_space(' ');
            assert(squeezed(m.text) =~= squeezed(p.text) + squeezed(f.text));
            assert(said(seq![m]) + said(rest) =~= said(seq![p]) + (squeezed(f.text) + said(rest)));
        } else if is_short(f) {
            lemma_composed_from_keeps_text(rest, Some(f));
            lemma_said_concat(flushed(pending), composed_from(rest, Some(f)));
        } else if is_long(f) {
            lemma_composed_from_keeps_text(rest, None);
            lemma_split_entry_keeps_text(f);
            lemma_said_concat(flushed(pending), split_entry(f));
            lemma_said_concat(flushed(pending) + split_entry(f), composed_from(rest, None));
            assert(texts(flushed(None::<Timed>)) =~= Seq::<Seq<char>>::empty());
            assert(said(flushed(None::<Timed>)) =~= Seq::<char>::empty());
            assert((said(flushed(pending)) + squeezed(f.text)) + (said(flushed(None::<Timed>))
                + said(rest)) =~= said(flushed(pending)) + (squeezed(f.text) + said(rest)));
        } else {
            lemma_composed_from_keeps_text(rest, None);
            lemma_said_concat(flushed(pending), seq![f]);
            lemma_said_concat(flushed(pending) + seq![f], composed_from(rest, None));
            assert(texts(flushed(None::<Timed>)) =~= Seq::<Seq<char>>::empty());
            assert(said(flushed(None::<Timed>)) =~= Seq::<char>::empty());
            assert((said(flushed(pending)) + squeezed(f.text)) + (said(flushed(None::<Timed>))
                + said(rest)) =~= said(flushed(pending)) + (squeezed(f.text) + said(rest)));
        }
    }
}

/// Composition loses no speech: the entries say what the fragments say, in
/// the same order. Merging and splitting add and take away white space
/// only.
pub proof fn lemma_composed_keeps_text(fragments: Seq<Timed>)
    ensures
        said(composed(fragments)) == said(fragments),
{
    lemma_composed_from_keeps_text(fragments, None);
    assert(texts(flushed(None::<Timed>)) =~= Seq::<Seq<char>>::empty());
    assert(said(flushed(None::<Timed>)) =~= Seq::<char>::empty());
    assert(said(flushed(None::<Timed>)) + said(fragments) =~= said(fragments));
}

/// Whether `s` is a plain sentence: it begins with a character that is not
/// white space, its last character is its only terminal mark, and the mark
/// follows a word of more than two characters.
pub open spec fn is_plain_sentence(s: Seq<char>) -> bool {
    &&& s.len() >= 4
    &&& !is_space(s[0])
    &&& is_terminal(s.last())
    &&& forall|i: int| 0 <= i < s.len() - 1 ==> !is_terminal(#[trigger] s[i])
    &&& !is_space(s[s.len() - 2])
    &&& !is_space(s[s.len() - 3])
    &&& !is_space(s[s.len() - 4])
}

/// Whether `g` is a gap between sentences: white space, and not empty.
pub open spec fn is_gap(g: Seq<char>) -> bool {
    g.len() >= 1 && forall|i: int| 0 <= i < g.len() ==> is_space(#[trigger] g[i])
}

proof fn lemma_cut_skips(rule: SplitRule, s: Seq<char>, from: int, i: int, j: int)
    requires
        0 <= from <= i <= j <= s.len(),
        forall|k: int| i <= k < j ==> !breaks_at(rule, s, k),
    ensures
        cut(rule, s, from, i) == cut(rule, s, from, j),
    decreases j - i,
{
    if i < j {
        lemma_cut_skips(rule, s, from, i + 1, j);
    }
}

proof fn lemma_sentence_ends_piece(s: Seq<char>, from: int, head: Seq<char>, gap: Seq<char>)
    requires
        is_plain_sentence(head),
        forall|i: int| 0 <= i < gap.len() ==> is_space(#[trigger] gap[i]),
        0 <= from,
        from + gap.len() + head.len() <= s.len(),
        s.subrange(from, from + gap.len() + head.len()) == gap + head,
        from + gap.len() + head.len() == s.len() || is_space(s[from + gap.len() + head.len()]),
    ensures
        cut(SplitRule::Sentence, s, from, from) == seq![head] + cut(
            SplitRule::Sentence,
            s,
            from + gap.len() + head.len(),
            from + gap.len() + head.len(),
        ),
{
    let rule = SplitRule::Sentence;
    let begin = from + gap.len();
    let end = begin + head.len();
    let mark = end - 1;
    let part = gap + head;
    assert forall|k: int| from <= k < end implies s[k] == #[trigger] part[k - from] by {
        assert(s.subrange(from, end)[k - from] == s[k]);
    }
    assert forall|k: int| from <= k < mark implies !breaks_at(rule, s, k) by {
        assert(s[k] == part[k - from]);
        if k < begin {
            assert(part[k - from] == gap[k - from]);
        } else {
            assert(part[k - from] == head[k - begin]);
        }
    }
    lemma_cut_skips(rule, s, from, from, mark);
    assert(breaks_at(rule, s, mark)) by {
        assert(s[mark] == part[mark - from]);
        assert(part[mark - from] == head[head.len() - 1]);
        assert(s[mark - 1] == part[mark - 1 - from]);
        assert(part[mark - 1 - from] == head[head.len() - 2]);
        assert(s[mark - 2] == part[mark - 2 - from]);
        assert(part[mark - 2 - from] == head[head.len() - 3]);
        assert(s[mark - 3] == part[mark - 3 - from]);
        assert(part[mark - 3 - from] == head[head.len() - 4]);
        assert(!is_terminal(s[mark - 1]));
        assert(marks_start(s, mark) == mark);
    }
    lemma_trimmed_padded(gap, head);
}

/// Three plain sentences with white space between them are split into just
/// these three.
pub proof fn lemma_three_sentences_split(
    a: Seq<char>,
    g1: Seq<char>,
    b: Seq<char>,
    g2: Seq<char>,
    c: Seq<char>,
)
    requires
        is_plain_sentence(a),
        is_gap(g1),
        is_plain_sentence(b),
        is_gap(g2),
        is_plain_sentence(c),
    ensures
        split_text(a + g1 + b + g2 + c) == seq![a, b, c],
{
    let rule = SplitRule::Sentence;
    let s = a + g1 + b + g2 + c;
    let none = Seq::<char>::empty();
    let n1 = a.len() as int;
    let n2 = n1 + g1.len() + b.len();
    let n3 = n2 + g2.len() + c.len();
    assert(s.subrange(0, n1) =~= none + a);
    assert(s[n1] == g1[0]);
    lemma_sentence_ends_piece(s, 0, a, none);
    assert(s.subrange(n1, n2) =~= g1 + b);
    assert(s[n2] == g2[0]);
    lemma_sentence_ends_piece(s, n1, b, g1);
    assert(s.subrange(n2, n3) =~= g2 + c);
    lemma_sentence_ends_piece(s, n2, c, g2);
    assert(s.subrange(n3, n3) =~= none);
    assert(cut(rule, s, n3, n3) =~= Seq::<Seq<char>>::empty());
    assert(pieces_by(rule, s) =~= seq![a, b, c]);
}

/// A fragment of nine seconds that says three plain sentences is composed
/// into three entries of three seconds each, one sentence to an entry, in
/// the order of the sentences.
pub proof fn lemma_three_sentences_compose(
    start: nat,
    a: Seq<char>,
    g1: Seq<char>,
    b: Seq<char>,
    g2: Seq<char>,
    c: Seq<char>,
)
    requires
        is_plain_sentence(a),
        is_gap(g1),
        is_plain_sentence(b),
        is_gap(g2),
        is_plain_sentence(c),
    ensures
        composed(seq![Timed { start, end: start + 9000, text: a + g1 + b + g2 + c }]) == seq![
            Timed { start, end: start + 3000, text: a },
            Timed { start: start + 3000, end: start + 6000, text: b },
            Timed { start: start + 6000, end: start + 9000, text: c },
        ],
{
    let f = Timed { start, end: start + 9000, text: a + g1 + b + g2 + c };
    let fragments = seq![f];
    lemma_three_sentences_split(a, g1, b, g2, c);
    let rest = fragments.drop_first();
    assert(rest =~= Seq::<Timed>::empty());
    assert(composed_from(rest, None) =~= Seq::<Timed>::empty());
    assert(f.duration() == 9000);
    let parts = split_entry(f);
    assert(parts.len() == 3);
    assert(parts[0] == Timed { start, end: start + 3000, text: a });
    assert(parts[1] == Timed { start: start + 3000, end: start + 6000, text: b });
    assert(parts[2] == Timed { start: start + 6000, end: start + 9000, text: c });
    assert(composed(fragments) =~= parts);
}

/// What a pending entry holds, if there is one.
pub open spec fn pending_view(pending: Option<SubtitleEntry>) -> Option<Timed> {
    match pending {
        Some(p) => Some(p@),
        None => None,
    }
}

fn try_merge(pending: SubtitleEntry, next: &RawSegment) -> (r: Result<SubtitleEntry, SubtitleEntry>)
    ensures
        r is Ok <==> can_merge(pending@, next@),
        r matches Ok(m) ==> m@ == merged(pending@, next@),
        r matches Err(p) ==> p@ == pending@,
{
    let short = pending.duration_ms() < MIN_DURATION_MS;
    let in_time = pending.start_ms <= next.end_ms && next.end_ms - pending.start_ms
        <= MAX_DURATION_MS;
    if !short || !in_time {
        return Err(pending);
    }
    let head = chars_of(pending.text.as_str());
    let tail = chars_of(next.text.as_str());
    if head.len() > MAX_CHARS || tail.len() > MAX_CHARS || head.len() + 1 + tail.len()
        > MAX_CHARS {
        return Err(pending);
    }
    let mut text = head;
    text.push(' ');
    push_all(&mut text, &tail);
    assert(text@ =~= pending@.text + seq![' '] + next@.text);
    Ok(SubtitleEntry { start_ms: pending.start_ms, end_ms: next.end_ms, text: string_of(&text) })
}

/// The entries that the fragment `f` contributes when nothing is pending, and
/// what is pending after it.
pub open spec fn placed(f: Timed) -> (Seq<Timed>, Option<Timed>) {
    if is_short(f) {
        (Seq::empty(), Some(f))
    } else if is_long(f) {
        (split_entry(f), None)
    } else {
        (seq![f], None)
    }
}

fn place(out: &mut Vec<SubtitleEntry>, f: &RawSegment) -> (pending: Option<SubtitleEntry>)
    ensures
        entry_views(final(out)@) == entry_views(old(out)@) + placed(f@).0,
        pending_view(pending) == placed(f@).1,
{
    let duration = f.duration_ms();
    let chars = chars_of(f.text.as_str());
    let len = chars.len();
    if duration < MIN_DURATION_MS && len < HOLD_BELOW_CHARS {
        assert(entry_views(out@) =~= entry_views(old(out)@) + Seq::<Timed>::empty());
        Some(SubtitleEntry { start_ms: f.start_ms, end_ms: f.end_ms, text: f.text.clone() })
    } else if duration > MAX_DURATION_MS || len > MAX_CHARS {
        let pieces = split_chars(&chars);
        push_spread(out, f.start_ms, duration, &pieces);
        None
    } else {
        let ghost before = entry_views(out@);
        out.push(SubtitleEntry { start_ms: f.start_ms, end_ms: f.end_ms, text: f.text.clone() });
        assert(entry_views(out@) =~= before + seq![f@]);
        None
    }
}

fn flush(out: &mut Vec<SubtitleEntry>, pending: Option<SubtitleEntry>)
    ensures
        entry_views(final(out)@) == entry_views(old(out)@) + flushed(pending_view(pending)),
{
    match pending {
        Some(p) => {
            let ghost before = entry_views(out@);
            let ghost held = p@;
            out.push(p);
            assert(entry_views(out@) =~= before + seq![held]);
        },
        None => {
            assert(entry_views(out@) =~= entry_views(old(out)@) + Seq::<Timed>::empty());
        },
    }
}

/// Composes subtitle entries from `fragments`, in order.
///
/// One entry may be pending across fragments. A fragment is merged into a
/// pending entry that is too short to read if the merged entry stays within
/// `MAX_DURATION_MS` and `MAX_CHARS`: its span is extended to the fragment's
/// end and the texts are joined by one space. Otherwise the pending entry is
/// emitted and the fragment is held back if it is short, split if it is
/// long, and emitted as it is in every other case. What is pending at the
/// end is emitted.
pub fn compose(fragments: &Vec<RawSegment>) -> (out: Vec<SubtitleEntry>)
    ensures
        entry_views(out@) == composed(segment_views(fragments@)),
{
    let ghost all = segment_views(fragments@);
    let mut out: Vec<SubtitleEntry> = Vec::new();
    let mut pending: Option<SubtitleEntry> = None;
    let n = fragments.len();
    let mut i: usize = 0;
    proof {
        assert(all.skip(0) =~= all);
        assert(entry_views(out@) + composed_from(all, None) =~= composed(all));
    }
    while i < n
        invariant
            i <= n == fragments.len(),
            all == segment_views(fragments@),
            composed(all) == entry_views(out@) + composed_from(
                all.skip(i as int),
                pending_view(pending),
            ),
        decreases n - i,
    {
        let f = &fragments[i];
        let ghost before = entry_views(out@);
        let ghost held = pending_view(pending);
        let ghost rest = all.skip(i + 1);
        proof {
            let tail = all.skip(i as int);
            assert(tail[0] == f@);
            assert(tail.drop_first() =~= rest);
        }
        match pending {
            Some(p) => {
                match try_merge(p, f) {
                    Ok(m) => {
                        pending = Some(m);
                    },
                    Err(p) => {
                        flush(&mut out, Some(p));
                        pending = place(&mut out, f);
                        proof {
                            assert(before + (flushed(held) + placed(f@).0 + composed_from(
                                rest,
                                placed(f@).1,
                            )) =~= entry_views(out@) + composed_from(rest, placed(f@).1));
                        }
                    },
                }
            },
            None => {
                pending = place(&mut out, f);
                proof {
                    assert(before + (flushed(held) + placed(f@).0 + composed_from(
                        rest,
                        placed(f@).1,
                    )) =~= entry_views(out@) + composed_from(rest, placed(f@).1));
                }
            },
        }
        i += 1;
    }
    proof {
        assert(all.skip(n as int) =~= Seq::<Timed>::empty());
    }
    flush(&mut out, pending);
    out
}

} // verus!
