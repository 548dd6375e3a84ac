//! Removal of recognizer artifacts from fragments.
//!
//! A recognizer that hears no speech tends to emit captioning credits, stock
//! phrases and sound annotations. The policy here is conservative:
//!
//! - a *spam marker* (`amara.org`, `subtitles by`, ...) never occurs in real
//!   speech, so a fragment that contains one anywhere is dropped;
//! - a *filler phrase* (`subscribe`, `thank you for watching`, ...) is made of
//!   ordinary words, so a fragment is dropped only if the phrase is all it
//!   says; a sentence that merely uses such a word is kept;
//! - a fragment that is nothing but one annotation such as `[Music]` or
//!   `(silence)` is dropped;
//! - inline annotations in square brackets are cut out of a fragment that
//!   says something else as well.
//!
//! Matching ignores the case of letters: a fragment is compared in lower
//! case, as `str::to_lowercase` gives it.

use vstd::prelude::*;
use crate::segment::{segment_views, RawSegment, Timed};
use crate::text::{
    all_ascii, chars_of, contains, has_char, has_space, has_substring, is_space, lower,
    lowercase, lowercase_of, same_chars, slice_of, string_of, trim, trim_bounds, trim_end,
    trim_start, trimmed,
};

verus! {

/// Phrases that mark a fragment as an artifact wherever they occur in it.
pub open spec fn spam_markers() -> Seq<Seq<char>> {
    seq!["amara.org"@, "subtitles by"@, "transcribed by"@, "(speaking"@]
}

/// Phrases that mark a fragment as an artifact if they are all it says.
pub open spec fn filler_phrases() -> Seq<Seq<char>> {
    seq![
        "subscribe"@,
        "subscribe to my channel"@,
        "thank you for watching"@,
        "this is a clear english text"@,
        "hello, welcome to the transcription"@,
    ]
}

/// Words that describe what is heard rather than what is said.
pub open spec fn annotation_keywords() -> Seq<Seq<char>> {
    seq!["speaking"@, "foreign"@, "silence"@, "music"@, "applause"@]
}

/// Whether one of `patterns` occurs in `s`.
pub open spec fn contains_any(s: Seq<char>, patterns: Seq<Seq<char>>) -> bool {
    exists|k: int| 0 <= k < patterns.len() && contains(s, #[trigger] patterns[k])
}

/// Whether `s` is one of `phrases`.
pub open spec fn equals_any(s: Seq<char>, phrases: Seq<Seq<char>>) -> bool {
    exists|k: int| 0 <= k < phrases.len() && s == #[trigger] phrases[k]
}

/// Whether `s` holds a white-space character.
pub open spec fn holds_space(s: Seq<char>) -> bool {
    exists|j: int| 0 <= j < s.len() && is_space(#[trigger] s[j])
}

/// Whether `t` is enclosed in one pair of square brackets or parentheses.
pub open spec fn is_enclosed(t: Seq<char>) -> bool {
    t.len() >= 2 && ((t[0] == '[' && t.last() == ']') || (t[0] == '(' && t.last() == ')'))
}

/// Whether the trimmed text `t`, which reads `low_t` in lower case, is
/// nothing but a single annotation: enclosed in brackets, without white
/// space, and naming a kind of sound.
pub open spec fn is_pure_annotation(t: Seq<char>, low_t: Seq<char>) -> bool {
    is_enclosed(t) && !holds_space(t) && contains_any(low_t, annotation_keywords())
}

/// `s` without its square brackets and without what stands between an opening
/// bracket and the next closing one; `inside` says whether `s` starts within
/// brackets.
pub open spec fn strip_brackets(s: Seq<char>, inside: bool) -> Seq<char>
    decreases s.len(),
{
    if s.len() == 0 {
        Seq::empty()
    } else {
        let c = s[0];
        let rest = s.drop_first();
        if c == '[' {
            strip_brackets(rest, true)
        } else if c == ']' {
            strip_brackets(rest, false)
        } else if inside {
            strip_brackets(rest, true)
        } else {
            seq![c] + strip_brackets(rest, false)
        }
    }
}

/// The trimmed text `t` with its inline annotations cut out. Only a text that
/// holds both an opening and a closing square bracket is changed.
pub open spec fn cleaned(t: Seq<char>) -> Seq<char> {
    if t.contains('[') && t.contains(']') {
        trimmed(strip_brackets(t, false))
    } else {
        t
    }
}

/// Whether a fragment that says `text` is an artifact as a whole, where
/// `low` is the text in lower case and `low_t` the trimmed text in lower
/// case.
pub open spec fn is_artifact(text: Seq<char>, low: Seq<char>, low_t: Seq<char>) -> bool {
    ||| contains_any(low, spam_markers())
    ||| equals_any(low_t, filler_phrases())
    ||| is_pure_annotation(trimmed(text), low_t)
}

/// What is kept of a fragment that says `text`, where `low` is the text in
/// lower case and `low_t` the trimmed text in lower case: nothing if the
/// fragment is an artifact or says nothing once its annotations are cut
/// out, else the cleaned text.
pub open spec fn filtered_given(text: Seq<char>, low: Seq<char>, low_t: Seq<char>) -> Option<
    Seq<char>,
> {
    if is_artifact(text, low, low_t) {
        None
    } else {
        let kept = cleaned(trimmed(text));
        if kept.len() == 0 {
            None
        } else {
            Some(kept)
        }
    }
}

/// What is kept of a fragment that says `text`.
pub open spec fn filtered_text(text: Seq<char>) -> Option<Seq<char>> {
    filtered_given(text, lowercase_of(text), lowercase_of(trimmed(text)))
}

/// What is kept of a fragment that says `text`, where only the letters `A`
/// to `Z` are lower-cased. For a text of ASCII characters this is what is
/// kept of it.
pub open spec fn filtered_ascii(text: Seq<char>) -> Option<Seq<char>> {
    filtered_given(text, lower(text), lower(trimmed(text)))
}

proof fn lemma_strip_leaves_no_bracket(s: Seq<char>, inside: bool)
    ensures
        !strip_brackets(s, inside).contains('['),
        !strip_brackets(s, inside).contains(']'),
    decreases s.len(),
{
    if s.len() > 0 {
        let c = s[0];
        let rest = s.drop_first();
        if c == '[' {
            lemma_strip_leaves_no_bracket(rest, true);
        } else if c == ']' {
            lemma_strip_leaves_no_bracket(rest, false);
        } else if inside {
            lemma_strip_leaves_no_bracket(rest, true);
        } else {
            lemma_strip_leaves_no_bracket(rest, false);
            let tail = strip_brackets(rest, false);
            let all = seq![c] + tail;
            assert forall|i: int| 0 <= i < all.len() implies all[i] != '[' && all[i] != ']' by {
                if i > 0 {
                    assert(all[i] == tail[i - 1]);
                    assert(tail.contains(tail[i - 1]));
                }
            }
        }
    }
}

proof fn lemma_trim_start_shape(s: Seq<char>)
    ensures
        trim_start(s).len() > 0 ==> !is_space(trim_start(s)[0]),
        forall|c: char| trim_start(s).contains(c) ==> s.contains(c),
    decreases s.len(),
{
    if s.len() > 0 && is_space(s[0]) {
        lemma_trim_start_shape(s.drop_first());
        let rest = s.drop_first();
        assert forall|c: char| trim_start(s).contains(c) implies s.contains(c) by {
            assert(rest.contains(c));
            let i = choose|i: int| 0 <= i < rest.len() && rest[i] == c;
            assert(s[i + 1] == c);
        }
    }
}

proof fn lemma_trim_end_shape(s: Seq<char>)
    ensures
        trim_end(s).len() > 0 ==> !is_space(trim_end(s).last()),
        trim_end(s).len() > 0 ==> trim_end(s)[0] == s[0],
        forall|c: char| trim_end(s).contains(c) ==> s.contains(c),
    decreases s.len(),
{
    if s.len() > 0 && is_space(s.last()) {
        lemma_trim_end_shape(s.drop_last());
        let rest = s.drop_last();
        assert forall|c: char| trim_end(s).contains(c) implies s.contains(c) by {
            assert(rest.contains(c));
            let i = choose|i: int| 0 <= i < rest.len() && rest[i] == c;
            assert(s[i] == c);
        }
    }
}

proof fn lemma_trimmed_shape(s: Seq<char>)
    ensures
        trimmed(s).len() > 0 ==> !is_space(trimmed(s)[0]) && !is_space(trimmed(s).last()),
        forall|c: char| trimmed(s).contains(c) ==> s.contains(c),
{
    lemma_trim_start_shape(s);
    lemma_trim_end_shape(trim_start(s));
}

/// What is kept of a fragment is never empty, begins and ends with a
/// character that is not white space, and holds no square bracket if the
/// fragment held a pair of them.
pub proof fn lemma_kept_text_is_clean(text: Seq<char>)
    requires
        filtered_text(text) is Some,
    ensures
        ({
            let kept = filtered_text(text).unwrap();
            &&& kept.len() > 0
            &&& !is_space(kept[0])
            &&& !is_space(kept.last())
            &&& text.contains('[') && text.contains(']') ==> !kept.contains('[') && !kept.contains(
                ']',
            )
        }),
{
    let t = trimmed(text);
    let kept = filtered_text(text).unwrap();
    lemma_trimmed_shape(text);
    if t.contains('[') && t.contains(']') {
        let stripped = strip_brackets(t, false);
        lemma_strip_leaves_no_bracket(t, false);
        lemma_trimmed_shape(stripped);
    } else {
        if text.contains('[') && text.contains(']') {
            lemma_trim_keeps_marks(text, '[');
            lemma_trim_keeps_marks(text, ']');
        }
    }
}

proof fn lemma_trim_keeps_marks(s: Seq<char>, c: char)
    requires
        s.contains(c),
        !is_space(c),
    ensures
        trimmed(s).contains(c),
{
    lemma_trim_start_keeps(s, c);
    lemma_trim_end_keeps(trim_start(s), c);
}

proof fn lemma_trim_start_keeps(s: Seq<char>, c: char)
    requires
        s.contains(c),
        !is_space(c),
    ensures
        trim_start(s).contains(c),
    decreases s.len(),
{
    if s.len() > 0 && is_space(s[0]) {
        let i = choose|i: int| 0 <= i < s.len() && s[i] == c;
        assert(i > 0);
        assert(s.drop_first()[i - 1] == c);
        lemma_trim_start_keeps(s.drop_first(), c);
    }
}

proof fn lemma_trim_end_keeps(s: Seq<char>, c: char)
    requires
        s.contains(c),
        !is_space(c),
    ensures
        trim_end(s).contains(c),
    decreases s.len(),
{
    if s.len() > 0 && is_space(s.last()) {
        let i = choose|i: int| 0 <= i < s.len() && s[i] == c;
        assert(i < s.len() - 1);
        assert(s.drop_last()[i] == c);
        lemma_trim_end_keeps(s.drop_last(), c);
    }
}

fn matches_any_of(s: &Vec<char>, patterns: &Vec<Vec<char>>) -> (r: bool)
    ensures
        r == contains_any(s@, crate::text::views(patterns@)),
{
    let ghost all = crate::text::views(patterns@);
    let mut k: usize = 0;
    while k < patterns.len()
        invariant
            k <= patterns.len(),
            all == crate::text::views(patterns@),
            forall|j: int| 0 <= j < k ==> !contains(s@, #[trigger] all[j]),
        decreases patterns.len() - k,
    {
        if has_substring(s, &patterns[k]) {
            assert(contains(s@, all[k as int]));
            return true;
        }
        k += 1;
    }
    false
}

fn is_any_of(s: &Vec<char>, phrases: &Vec<Vec<char>>) -> (r: bool)
    ensures
        r == equals_any(s@, crate::text::views(phrases@)),
{
    let ghost all = crate::text::views(phrases@);
    let mut k: usize = 0;
    while k < phrases.len()
        invariant
            k <= phrases.len(),
            all == crate::text::views(phrases@),
            forall|j: int| 0 <= j < k ==> s@ != #[trigger] all[j],
        decreases phrases.len() - k,
    {
        if same_chars(s, &phrases[k]) {
            assert(s@ == all[k as int]);
            return true;
        }
        k += 1;
    }
    false
}

fn spam_marker_list() -> (list: Vec<Vec<char>>)
    ensures
        crate::text::views(list@) == spam_markers(),
{
    let mut list: Vec<Vec<char>> = Vec::new();
    list.push(chars_of("amara.org"));
    list.push(chars_of("subtitles by"));
    list.push(chars_of("transcribed by"));
    list.push(chars_of("(speaking"));
    assert(crate::text::views(list@) =~= spam_markers());
    list
}

fn filler_phrase_list() -> (list: Vec<Vec<char>>)
    ensures
        crate::text::views(list@) == filler_phrases(),
{
    let mut list: Vec<Vec<char>> = Vec::new();
    list.push(chars_of("subscribe"));
    list.push(chars_of("subscribe to my channel"));
    list.push(chars_of("thank you for watching"));
    list.push(chars_of("this is a clear english text"));
    list.push(chars_of("hello, welcome to the transcription"));
    assert(crate::text::views(list@) =~= filler_phrases());
    list
}

fn annotation_keyword_list() -> (list: Vec<Vec<char>>)
    ensures
        crate::text::views(list@) == annotation_keywords(),
{
    let mut list: Vec<Vec<char>> = Vec::new();
    list.push(chars_of("speaking"));
    list.push(chars_of("foreign"));
    list.push(chars_of("silence"));
    list.push(chars_of("music"));
    list.push(chars_of("applause"));
    assert(crate::text::views(list@) =~= annotation_keywords());
    list
}

fn check_pure_annotation(t: &Vec<char>, low_t: &Vec<char>) -> (r: bool)
    ensures
        r == is_pure_annotation(t@, low_t@),
{
    let n = t.len();
    if n < 2 {
        return false;
    }
    let first = t[0];
    let last = t[n - 1];
    let enclosed = (first == '[' && last == ']') || (first == '(' && last == ')');
    if !enclosed || has_space(t) {
        return false;
    }
    let keywords = annotation_keyword_list();
    matches_any_of(low_t, &keywords)
}

/// Cuts the square brackets and what they enclose out of `s`.
pub fn strip_annotations(s: &Vec<char>) -> (out: Vec<char>)
    ensures
        out@ == strip_brackets(s@, false),
{
    let mut out: Vec<char> = Vec::new();
    let mut inside = false;
    let mut i: usize = 0;
    proof {
        assert(s@.skip(0) =~= s@);
        assert(out@ + strip_brackets(s@, false) =~= strip_brackets(s@, false));
    }
    while i < s.len()
        invariant
            i <= s.len(),
            strip_brackets(s@, false) == out@ + strip_brackets(s@.skip(i as int), inside),
        decreases s.len() - i,
    {
        let c = s[i];
        proof {
            let rest = s@.skip(i as int);
            assert(rest[0] == c);
            assert(rest.drop_first() =~= s@.skip(i + 1));
        }
        if c == '[' {
            inside = true;
        } else if c == ']' {
            inside = false;
        } else if !inside {
            let ghost before = out@;
            out.push(c);
            assert(before + (seq![c] + strip_brackets(s@.skip(i + 1), false)) =~= out@
                + strip_brackets(s@.skip(i + 1), false));
        }
        i += 1;
    }
    proof {
        assert(s@.skip(i as int) =~= Seq::<char>::empty());
        assert(out@ + Seq::<char>::empty() =~= out@);
    }
    out
}

fn clean(t: Vec<char>) -> (out: Vec<char>)
    ensures
        out@ == cleaned(t@),
{
    if has_char(&t, '[') && has_char(&t, ']') {
        let stripped = strip_annotations(&t);
        trim(&stripped)
    } else {
        t
    }
}

/// What is kept of a fragment that says `text`, if anything, given the text
/// in lower case and the trimmed text in lower case.
pub fn filter_text_given(text: &str, low: &str, low_trimmed: &str) -> (r: Option<String>)
    ensures
        r is Some <==> filtered_given(text@, low@, low_trimmed@) is Some,
        r matches Some(kept) ==> Some(kept@) == filtered_given(text@, low@, low_trimmed@),
{
    let markers = spam_marker_list();
    if matches_any_of(&chars_of(low), &markers) {
        return None;
    }
    let low_t = chars_of(low_trimmed);
    let fillers = filler_phrase_list();
    if is_any_of(&low_t, &fillers) {
        return None;
    }
    let t = trim(&chars_of(text));
    if check_pure_annotation(&t, &low_t) {
        return None;
    }
    let kept = clean(t);
    if kept.len() == 0 {
        None
    } else {
        Some(string_of(&kept))
    }
}

/// What is kept of a fragment that says `text`, if anything. The text is
/// compared in lower case, every letter lower-cased; for a text of ASCII
/// characters these are the letters `A` to `Z`.
pub fn filter_text(text: &str) -> (r: Option<String>)
    ensures
        r is Some <==> filtered_text(text@) is Some,
        r matches Some(kept) ==> Some(kept@) == filtered_text(text@),
        all_ascii(text@) ==> (r is Some <==> filtered_ascii(text@) is Some),
        all_ascii(text@) ==> (r matches Some(kept) ==> Some(kept@) == filtered_ascii(text@)),
{
    let low = lowercase(text);
    let chars = chars_of(text);
    let (a, b) = trim_bounds(&chars);
    let t = string_of(&slice_of(&chars, a, b));
    proof {
        if all_ascii(text@) {
            assert forall|i: int| 0 <= i < t@.len() implies (#[trigger] t@[i]) as u32 <= 0x7F by {
                assert(t@[i] == text@[a + i]);
            }
        }
    }
    let low_t = lowercase(t.as_str());
    filter_text_given(text, low.as_str(), low_t.as_str())
}

/// What is kept of `segment`: nothing if it is an artifact, else the same
/// span with the cleaned text.
pub fn filter(segment: RawSegment) -> (r: Option<RawSegment>)
    ensures
        r is Some <==> kept_entry(segment@) is Some,
        r matches Some(kept) ==> Some(kept@) == kept_entry(segment@),
        all_ascii(segment@.text) ==> (r is Some <==> filtered_ascii(segment@.text) is Some),
        all_ascii(segment@.text) ==> (r matches Some(kept) ==> Some(kept@.text) == filtered_ascii(
            segment@.text,
        )),
{
    match filter_text(segment.text.as_str()) {
        Some(text) => Some(RawSegment { start_ms: segment.start_ms, end_ms: segment.end_ms, text }),
        None => None,
    }
}

/// What is kept of the fragment `f`, as an entry, if anything is.
pub open spec fn kept_entry(f: Timed) -> Option<Timed> {
    match filtered_text(f.text) {
        Some(text) => Some(Timed { start: f.start, end: f.end, text }),
        None => None,
    }
}

/// The entries kept of `fragments`, in order.
pub open spec fn kept_entries(fragments: Seq<Timed>) -> Seq<Timed>
    decreases fragments.len(),
{
    if fragments.len() == 0 {
        Seq::empty()
    } else {
        let before = kept_entries(fragments.drop_last());
        match kept_entry(fragments.last()) {
            Some(e) => before.push(e),
            None => before,
        }
    }
}

/// What is kept of `fragments`, in order.
pub fn filter_all(fragments: &Vec<RawSegment>) -> (kept: Vec<RawSegment>)
    ensures
        segment_views(kept@) == kept_entries(segment_views(fragments@)),
{
    let ghost all = segment_views(fragments@);
    let mut kept: Vec<RawSegment> = Vec::new();
    let mut i: usize = 0;
    proof {
        assert(all.take(0) =~= Seq::<Timed>::empty());
        assert(segment_views(kept@) =~= Seq::<Timed>::empty());
    }
    while i < fragments.len()
        invariant
            i <= fragments.len(),
            all == segment_views(fragments@),
            segment_views(kept@) == kept_entries(all.take(i as int)),
        decreases fragments.len() - i,
    {
        let f = &fragments[i];
        proof {
            let next = all.take(i + 1);
            assert(next.drop_last() =~= all.take(i as int));
            assert(next.last() == f@);
        }
        match filter_text(f.text.as_str()) {
            Some(text) => {
                let ghost before = segment_views(kept@);
                kept.push(RawSegment { start_ms: f.start_ms, end_ms: f.end_ms, text });
                assert(segment_views(kept@) =~= before.push(kept_entry(f@).unwrap()));
            },
            None => {},
        }
        i += 1;
    }
    proof {
        assert(all.take(i as int) =~= all);
    }
    kept
}

} // verus!
