//! Canonical audio for the recognizer: one channel, 16 000 samples a second.
//!
//! Samples are kept in fixed point. A normalized sample `n` stands for the
//! amplitude `n / SAMPLE_SCALE`, which lies between -1 and 1. The scale is
//! chosen so that decoding (a division by 32 768), the average of two
//! channels (by 2) and the weights of linear interpolation (by 16 000) are
//! all exact: nothing is rounded before a sample is handed to the recognizer.

use vstd::prelude::*;
use crate::error::JobError;
use crate::text::{
    all_ascii, chars_of, lower, lowercase, lowercase_of, push_str, slice_of, spells, string_of,
};
use crate::timestamp::{decimal, push_decimal};

verus! {

/// The sample rate of canonical audio.
pub const TARGET_RATE: u32 = 16_000;

/// The number that stands for the amplitude 1.
pub const SAMPLE_SCALE: i32 = 1_048_576_000;

/// The layout of the audio in a WAV file.
#[derive(Clone, Copy, Debug, PartialEq, Eq, Structural)]
pub struct WavFormat {
    pub channels: u16,
    pub sample_rate: u32,
    pub bits_per_sample: u16,
}

impl WavFormat {
    /// Whether audio of this layout is canonical already: one channel,
    /// 16 000 samples a second, 16 bits a sample.
    pub open spec fn spec_is_canonical(self) -> bool {
        self.channels == 1 && self.sample_rate == TARGET_RATE && self.bits_per_sample == 16
    }

    /// Whether audio of this layout is canonical already.
    pub fn is_canonical(&self) -> (r: bool)
        ensures
            r == self.spec_is_canonical(),
    {
        self.channels == 1 && self.sample_rate == TARGET_RATE && self.bits_per_sample == 16
    }
}

/// Canonical audio: its samples in fixed point and its length in
/// milliseconds.
#[derive(Clone, Debug, PartialEq, Eq)]
pub struct NormalizedAudio {
    pub samples: Vec<i32>,
    pub total_duration_ms: u64,
}

/// What the WAV decoder makes of the header of a file with these contents:
/// channels, sample rate and bits per sample, or nothing if it rejects the
/// file.
pub uninterp spec fn wav_format_of(bytes: Seq<u8>) -> Option<(u16, u32, u16)>;

/// What the WAV decoder reads from a file with these contents as 16-bit
/// samples, channels interleaved; a sample that it cannot read is absent.
/// Nothing if it rejects the file.
pub uninterp spec fn wav_samples_of(bytes: Seq<u8>) -> Option<Seq<Option<i16>>>;

/// Reads the header of a WAV file held in memory with
/// `hound::WavReader::new` and `WavReader::spec`. The layout is a function of
/// the contents alone; an error carries the decoder's message.
#[verifier::external_body]
fn read_format(bytes: &Vec<u8>) -> (r: Result<WavFormat, String>)
    ensures
        match r {
            Ok(f) => wav_format_of(bytes@) == Some((f.channels, f.sample_rate, f.bits_per_sample)),
            Err(_) => wav_format_of(bytes@) is None,
        },
{
    match hound::WavReader::new(std::io::Cursor::new(bytes.as_slice())) {
        Ok(reader) => {
            let spec = reader.spec();
            Ok(
                WavFormat {
                    channels: spec.channels,
                    sample_rate: spec.sample_rate,
                    bits_per_sample: spec.bits_per_sample,
                },
            )
        },
        Err(e) => Err(e.to_string()),
    }
}

/// Reads the samples of a WAV file held in memory with
/// `hound::WavReader::new` and `WavReader::samples::<i16>`. The samples are a
/// function of the contents alone; an error carries the decoder's message.
#[verifier::external_body]
fn read_samples(bytes: &Vec<u8>) -> (r: Result<Vec<Option<i16>>, String>)
    ensures
        match r {
            Ok(samples) => wav_samples_of(bytes@) == Some(samples@),
            Err(_) => wav_samples_of(bytes@) is None,
        },
{
    match hound::WavReader::new(std::io::Cursor::new(bytes.as_slice())) {
        Ok(mut reader) => Ok(reader.samples::<i16>().map(|s| s.ok()).collect()),
        Err(e) => Err(e.to_string()),
    }
}

/// Whether `c` separates the components of a path.
pub open spec fn is_separator(c: char) -> bool {
    c == '/' || c == '\\'
}

/// Where the extension of `path` begins, looking at the characters before
/// index `k`: after the last dot of the last component, unless that dot is
/// the component's first character. -1 if there is no extension.
pub open spec fn extension_from(path: Seq<char>, k: int) -> int
    decreases k,
{
    if k <= 0 || k > path.len() {
        -1
    } else if is_separator(path[k - 1]) {
        -1
    } else if path[k - 1] == '.' {
        if k >= 2 && !is_separator(path[k - 2]) {
            k
        } else {
            -1
        }
    } else {
        extension_from(path, k - 1)
    }
}

/// The extension of `path`: what follows the last dot of its last
/// component, if that dot is not the component's first character.
pub open spec fn extension_of(path: Seq<char>) -> Option<Seq<char>> {
    let start = extension_from(path, path.len() as int);
    if start >= 0 {
        Some(path.subrange(start, path.len() as int))
    } else {
        None
    }
}

/// Whether `path` names a WAV file: its extension is `wav`, in any case of
/// the letters.
pub open spec fn is_wav_path(path: Seq<char>) -> bool {
    extension_of(path) matches Some(ext) && lowercase_of(ext) == "wav"@
}

/// Whether `path` names a WAV file, where only the letters `A` to `Z` are
/// lower-cased. For a path of ASCII characters this is whether it names one.
pub open spec fn is_wav_path_ascii(path: Seq<char>) -> bool {
    extension_of(path) matches Some(ext) && lower(ext) == "wav"@
}

proof fn lemma_extension_within(path: Seq<char>, k: int)
    requires
        k <= path.len(),
    ensures
        extension_from(path, k) == -1 || 2 <= extension_from(path, k) <= k,
    decreases k,
{
    if k > 0 && !is_separator(path[k - 1]) && path[k - 1] != '.' {
        lemma_extension_within(path, k - 1);
    }
}

/// The extension of `path`, if it has one.
pub fn file_extension(path: &str) -> (ext: Option<String>)
    ensures
        ext is Some <==> extension_of(path@) is Some,
        ext matches Some(e) ==> Some(e@) == extension_of(path@),
{
    let chars = chars_of(path);
    let n = chars.len();
    let mut k: usize = n;
    while k > 0
        invariant
            k <= n == chars.len(),
            chars@ == path@,
            extension_from(chars@, n as int) == extension_from(chars@, k as int),
        decreases k,
    {
        let c = chars[k - 1];
        if c == '/' || c == '\\' {
            return None;
        }
        if c == '.' {
            if k >= 2 && chars[k - 2] != '/' && chars[k - 2] != '\\' {
                return Some(string_of(&slice_of(&chars, k, n)));
            }
            return None;
        }
        k -= 1;
    }
    None
}

/// Whether an extension that reads `lower_extension` in lower case is that
/// of a WAV file.
pub fn names_wav(lower_extension: &str) -> (r: bool)
    ensures
        r == (lower_extension@ == "wav"@),
{
    spells(&chars_of(lower_extension), "wav")
}

/// Whether `path` names a WAV file.
pub fn has_wav_extension(path: &str) -> (r: bool)
    ensures
        r == is_wav_path(path@),
        all_ascii(path@) ==> r == is_wav_path_ascii(path@),
{
    match file_extension(path) {
        Some(ext) => {
            proof {
                if all_ascii(path@) {
                    let start = extension_from(path@, path@.len() as int);
                    lemma_extension_within(path@, path@.len() as int);
                    assert forall|i: int| 0 <= i < ext@.len() implies (#[trigger] ext@[i]) as u32
                        <= 0x7F by {
                        assert(ext@[i] == path@[start + i]);
                    }
                }
            }
            let low = lowercase(ext.as_str());
            names_wav(low.as_str())
        },
        None => false,
    }
}

/// Whether an input has to be transcoded, given whether its path names a
/// WAV file and the layout that the decoder found in it, if it was asked and
/// found one: everything but a WAV file that is canonical already.
pub open spec fn must_convert(names_wav: bool, format: Option<WavFormat>) -> bool {
    !(names_wav && format is Some && format.unwrap().spec_is_canonical())
}

/// Whether an input has to be transcoded, given whether its path names a
/// WAV file and the layout that the decoder found in it.
pub fn conversion_needed(names_wav: bool, format: Option<WavFormat>) -> (r: bool)
    ensures
        r == must_convert(names_wav, format),
{
    if !names_wav {
        return true;
    }
    match format {
        Some(f) => !f.is_canonical(),
        None => true,
    }
}

/// Whether the input at `path` has to be transcoded, given the layout that
/// the decoder found in it.
pub fn needs_conversion_given(path: &str, format: Option<WavFormat>) -> (r: bool)
    ensures
        r == must_convert(is_wav_path(path@), format),
        all_ascii(path@) ==> r == must_convert(is_wav_path_ascii(path@), format),
{
    conversion_needed(has_wav_extension(path), format)
}

/// The layout that the decoder finds in a file with these contents.
pub open spec fn format_in(bytes: Seq<u8>) -> Option<WavFormat> {
    match wav_format_of(bytes) {
        Some((channels, sample_rate, bits_per_sample)) => Some(
            WavFormat { channels, sample_rate, bits_per_sample },
        ),
        None => None,
    }
}

/// The layout that the decoder finds in the contents given, if any are
/// given.
pub open spec fn format_found(contents: Option<&Vec<u8>>) -> Option<WavFormat> {
    match contents {
        Some(bytes) => format_in(bytes@),
        None => None,
    }
}

/// Whether the input at `path` has to be transcoded. `contents` holds the
/// file's bytes if it could be read; they are looked at only if the path
/// names a WAV file.
pub fn needs_conversion(path: &str, contents: Option<&Vec<u8>>) -> (r: bool)
    ensures
        r == must_convert(is_wav_path(path@), format_found(contents)),
        all_ascii(path@) ==> r == must_convert(is_wav_path_ascii(path@), format_found(contents)),
{
    let names_wav = has_wav_extension(path);
    if !names_wav {
        return true;
    }
    let format = match contents {
        Some(bytes) => match read_format(bytes) {
            Ok(f) => Some(f),
            Err(_) => None,
        },
        None => None,
    };
    conversion_needed(names_wav, format)
}

/// The arguments with which the transcoder turns `input` into a canonical
/// WAV file at `output`.
pub open spec fn transcoder_args(input: Seq<char>, output: Seq<char>) -> Seq<Seq<char>> {
    seq![
        "-y"@,
        "-i"@,
        input,
        "-vn"@,
        "-ac"@,
        "1"@,
        "-ar"@,
        "16000"@,
        "-acodec"@,
        "pcm_s16le"@,
        "-f"@,
        "wav"@,
        output,
    ]
}

/// What a list of strings holds.
pub open spec fn string_views(list: Seq<String>) -> Seq<Seq<char>> {
    Seq::new(list.len(), |i: int| list[i]@)
}

/// The arguments with which the transcoder turns `input` into a canonical
/// WAV file at `output`: overwrite, no video, one channel, 16 000 samples a
/// second, 16-bit PCM.
pub fn transcoder_arguments(input: &str, output: &str) -> (args: Vec<String>)
    ensures
        string_views(args@) == transcoder_args(input@, output@),
{
    let mut args: Vec<String> = Vec::new();
    args.push(string_of(&chars_of("-y")));
    args.push(string_of(&chars_of("-i")));
    args.push(string_of(&chars_of(input)));
    args.push(string_of(&chars_of("-vn")));
    args.push(string_of(&chars_of("-ac")));
    args.push(string_of(&chars_of("1")));
    args.push(string_of(&chars_of("-ar")));
    args.push(string_of(&chars_of("16000")));
    args.push(string_of(&chars_of("-acodec")));
    args.push(string_of(&chars_of("pcm_s16le")));
    args.push(string_of(&chars_of("-f")));
    args.push(string_of(&chars_of("wav")));
    args.push(string_of(&chars_of(output)));
    assert(string_views(args@) =~= transcoder_args(input@, output@));
    args
}

/// The name of the temporary file into which the process `process_id`
/// transcodes for a dictation. It differs from the name used for a subtitle
/// job, so that one job of each kind can run in a process at a time.
pub fn dictation_temp_file_name(process_id: u32) -> (name: String)
    ensures
        name@ == "whisper_temp_"@ + decimal(process_id as nat) + ".wav"@,
{
    let mut out: Vec<char> = Vec::new();
    push_str(&mut out, "whisper_temp_");
    push_decimal(&mut out, process_id as u64);
    push_str(&mut out, ".wav");
    assert(out@ =~= "whisper_temp_"@ + decimal(process_id as nat) + ".wav"@);
    string_of(&out)
}

/// The name of the temporary file into which the process `process_id`
/// transcodes for a subtitle job.
pub fn temp_file_name(process_id: u32) -> (name: String)
    ensures
        name@ == "whisper_srt_"@ + decimal(process_id as nat) + ".wav"@,
{
    let mut out: Vec<char> = Vec::new();
    push_str(&mut out, "whisper_srt_");
    push_decimal(&mut out, process_id as u64);
    push_str(&mut out, ".wav");
    assert(out@ =~= "whisper_srt_"@ + decimal(process_id as nat) + ".wav"@);
    string_of(&out)
}

/// How a run of the transcoder ended.
#[derive(Clone, Debug, PartialEq, Eq)]
pub enum ToolRun {
    /// It could not be started; carries the system's words.
    NotStarted(String),
    /// It ran and exited; carries whether it reported success, and what it
    /// wrote to its diagnostic output.
    Exited { success: bool, diagnostics: String },
}

/// Whether a run of the transcoder produced the file: it must have started,
/// reported success and left its output.
pub open spec fn transcode_failure(run: ToolRun, output_exists: bool) -> Option<JobError> {
    match run {
        ToolRun::NotStarted(why) => Some(JobError::ToolUnavailable(why)),
        ToolRun::Exited { success, diagnostics } => if !success {
            Some(JobError::ToolFailed(diagnostics))
        } else if !output_exists {
            Some(JobError::ToolNoOutput)
        } else {
            None
        },
    }
}

/// Judges a run of the transcoder. The tool's diagnostic text is carried
/// word for word.
pub fn check_transcode(run: ToolRun, output_exists: bool) -> (r: Result<(), JobError>)
    ensures
        match r {
            Ok(_) => transcode_failure(run, output_exists) is None,
            Err(e) => transcode_failure(run, output_exists) == Some(e),
        },
{
    match run {
        ToolRun::NotStarted(why) => Err(JobError::ToolUnavailable(why)),
        ToolRun::Exited { success, diagnostics } => {
            if !success {
                Err(JobError::ToolFailed(diagnostics))
            } else if !output_exists {
                Err(JobError::ToolNoOutput)
            } else {
                Ok(())
            }
        },
    }
}

/// Whether there is an input to work on.
pub fn check_input(path: &str, exists: bool) -> (r: Result<(), JobError>)
    ensures
        exists ==> r is Ok,
        !exists ==> (r matches Err(JobError::InputNotFound(p)) && p@ == path@),
{
    if exists {
        Ok(())
    } else {
        Err(JobError::InputNotFound(string_of(&chars_of(path))))
    }
}

/// The value of a decoded sample; a sample that could not be read counts as
/// silence.
pub open spec fn pcm_value(s: Option<i16>) -> int {
    match s {
        Some(v) => v as int,
        None => 0,
    }
}

/// The one-channel signal of decoded audio, in units of 1/65 536: a sample of
/// one-channel audio doubled, or the sum of a pair of two-channel audio, so
/// that the average of the pair is exact. A sample without its partner is
/// left out.
pub open spec fn downmixed(channels: u16, pcm: Seq<Option<i16>>) -> Seq<int> {
    if channels == 2 {
        Seq::new(pcm.len() / 2, |i: int| pcm_value(pcm[2 * i]) + pcm_value(pcm[2 * i + 1]))
    } else {
        Seq::new(pcm.len(), |i: int| 2 * pcm_value(pcm[i]))
    }
}

/// How many samples `n` samples at `rate` become at the target rate.
pub open spec fn resampled_len(n: nat, rate: nat) -> nat {
    ((n * TARGET_RATE) / (rate as int)) as nat
}

/// The `i`-th sample at the target rate, in units of `1 / SAMPLE_SCALE`. It
/// lies at the source position `i * rate / 16 000`, between the source
/// sample below that position and the one after it (the last one where there
/// is none after it), and is their mean weighted by the distance to each.
pub open spec fn interpolated(mono: Seq<int>, rate: nat, i: int) -> int {
    let position = i * rate;
    let below = position / (TARGET_RATE as int);
    let rest = position % (TARGET_RATE as int);
    let above = if below + 1 < mono.len() {
        below + 1
    } else {
        mono.len() - 1
    };
    mono[below] * (TARGET_RATE - rest) + mono[above] * rest
}

/// The signal `mono`, sampled at `rate`, resampled to the target rate by
/// linear interpolation.
pub open spec fn resampled(mono: Seq<int>, rate: nat) -> Seq<int> {
    Seq::new(resampled_len(mono.len(), rate), |i: int| interpolated(mono, rate, i))
}

/// The canonical samples of decoded audio.
pub open spec fn normalized(format: WavFormat, pcm: Seq<Option<i16>>) -> Seq<int> {
    resampled(downmixed(format.channels, pcm), format.sample_rate as nat)
}

/// The length in milliseconds of `samples` samples at the target rate.
pub open spec fn duration_of(samples: nat) -> nat {
    (samples * 1000) / (TARGET_RATE as nat)
}

/// The numbers that a list of samples holds.
pub open spec fn sample_values(samples: Seq<i32>) -> Seq<int> {
    Seq::new(samples.len(), |i: int| samples[i] as int)
}

/// Why decoded audio cannot be normalized, if it cannot.
pub open spec fn normalize_failure(format: WavFormat, pcm: Seq<Option<i16>>) -> Option<JobError> {
    if format.channels > 2 {
        Some(JobError::UnsupportedChannels)
    } else if format.sample_rate == 0 {
        Some(JobError::ZeroSampleRate)
    } else if resampled_len(downmixed(format.channels, pcm).len(), format.sample_rate as nat)
        > usize::MAX {
        Some(JobError::AudioTooLong)
    } else {
        None
    }
}

fn pcm_of(s: Option<i16>) -> (v: i32)
    ensures
        v == pcm_value(s),
{
    match s {
        Some(v) => v as i32,
        None => 0,
    }
}

fn downmix(channels: u16, pcm: &Vec<Option<i16>>) -> (mono: Vec<i32>)
    ensures
        sample_values(mono@) == downmixed(channels, pcm@),
        forall|i: int| 0 <= i < mono.len() ==> -65536 <= #[trigger] mono[i] <= 65536,
{
    let mut mono: Vec<i32> = Vec::new();
    if channels == 2 {
        let pairs = pcm.len() / 2;
        let mut i: usize = 0;
        while i < pairs
            invariant
                i <= pairs == pcm.len() / 2,
                mono.len() == i,
                forall|k: int|
                    0 <= k < i ==> #[trigger] mono[k] == pcm_value(pcm[2 * k]) + pcm_value(
                        pcm[2 * k + 1],
                    ),
                forall|k: int| 0 <= k < i ==> -65536 <= #[trigger] mono[k] <= 65536,
            decreases pairs - i,
        {
            mono.push(pcm_of(pcm[2 * i]) + pcm_of(pcm[2 * i + 1]));
            i += 1;
        }
    } else {
        let mut i: usize = 0;
        while i < pcm.len()
            invariant
                i <= pcm.len(),
                mono.len() == i,
                forall|k: int| 0 <= k < i ==> #[trigger] mono[k] == 2 * pcm_value(pcm[k]),
                forall|k: int| 0 <= k < i ==> -65536 <= #[trigger] mono[k] <= 65536,
            decreases pcm.len() - i,
        {
            mono.push(2 * pcm_of(pcm[i]));
            i += 1;
        }
    }
    assert(sample_values(mono@) =~= downmixed(channels, pcm@));
    mono
}

proof fn lemma_source_index(n: nat, rate: nat, i: nat)
    requires
        rate >= 1,
        i < resampled_len(n, rate),
    ensures
        (i * rate) / 16000 < n,
        i * rate < n * 16000,
{
    let total = n * 16000;
    let count = total / rate;
    assert(count * rate <= total) by (nonlinear_arith)
        requires
            count == total / rate,
            rate >= 1,
            total >= 0,
    ;
    assert((i + 1) * rate <= count * rate) by (nonlinear_arith)
        requires
            i + 1 <= count,
            rate >= 1,
    ;
    assert((i + 1) * rate == i * rate + rate) by (nonlinear_arith);
    assert(i * rate < n * 16000);
    assert((i * rate) / 16000 < n) by (nonlinear_arith)
        requires
            i * rate < n * 16000,
    ;
}

proof fn lemma_weighted_bound(x: int, y: int, rest: int)
    requires
        -65536 <= x <= 65536,
        -65536 <= y <= 65536,
        0 <= rest < 16000,
    ensures
        -1_048_576_000 <= x * (16000 - rest) + y * rest <= 1_048_576_000,
{
    assert(-65536 * (16000 - rest) <= x * (16000 - rest) <= 65536 * (16000 - rest))
        by (nonlinear_arith)
        requires
            -65536 <= x <= 65536,
            0 < 16000 - rest,
    ;
    assert(-65536 * rest <= y * rest <= 65536 * rest) by (nonlinear_arith)
        requires
            -65536 <= y <= 65536,
            0 <= rest,
    ;
}

fn resample(mono: &Vec<i32>, rate: u32, count: usize) -> (out: Vec<i32>)
    requires
        rate >= 1,
        count == resampled_len(mono.len() as nat, rate as nat),
        forall|i: int| 0 <= i < mono.len() ==> -65536 <= #[trigger] mono[i] <= 65536,
    ensures
        sample_values(out@) == resampled(sample_values(mono@), rate as nat),
{
    let ghost source = sample_values(mono@);
    let n = mono.len();
    let mut out: Vec<i32> = Vec::new();
    let mut i: usize = 0;
    while i < count
        invariant
            i <= count,
            n == mono.len(),
            rate >= 1,
            count == resampled_len(n as nat, rate as nat),
            source == sample_values(mono@),
            out.len() == i,
            forall|k: int| 0 <= k < mono.len() ==> -65536 <= #[trigger] mono[k] <= 65536,
            forall|k: int| 0 <= k < i ==> #[trigger] out[k] == interpolated(source, rate as nat, k),
        decreases count - i,
    {
        proof {
            lemma_source_index(n as nat, rate as nat, i as nat);
            assert(i * rate <= 0xffff_ffff_ffff_ffff * 0xffff_ffff) by (nonlinear_arith)
                requires
                    i <= 0xffff_ffff_ffff_ffff,
                    rate <= 0xffff_ffff,
            ;
        }
        let position: u128 = (i as u128) * (rate as u128);
        let below: usize = (position / 16000) as usize;
        let rest: i64 = (position % 16000) as i64;
        let above: usize = if below + 1 < n {
            below + 1
        } else {
            n - 1
        };
        let x: i64 = mono[below] as i64;
        let y: i64 = mono[above] as i64;
        proof {
            lemma_weighted_bound(x as int, y as int, rest as int);
            assert(-65536 * 16000 <= x * (16000 - rest) <= 65536 * 16000) by (nonlinear_arith)
                requires
                    -65536 <= x <= 65536,
                    0 <= rest < 16000,
            ;
            assert(-65536 * 16000 <= y * rest <= 65536 * 16000) by (nonlinear_arith)
                requires
                    -65536 <= y <= 65536,
                    0 <= rest < 16000,
            ;
        }
        let value: i64 = x * (16000 - rest) + y * rest;
        out.push(value as i32);
        i += 1;
    }
    assert(sample_values(out@) =~= resampled(source, rate as nat));
    out
}

/// Makes canonical audio of decoded audio: the channels are mixed down to
/// one, and the signal is resampled to the target rate by linear
/// interpolation. Audio with more than two channels, or with a sample rate of
/// zero, is rejected.
pub fn normalize_decoded(format: WavFormat, pcm: &Vec<Option<i16>>) -> (r: Result<
    NormalizedAudio,
    JobError,
>)
    ensures
        match r {
            Ok(audio) => {
                &&& normalize_failure(format, pcm@) is None
                &&& sample_values(audio.samples@) == normalized(format, pcm@)
                &&& audio.total_duration_ms == duration_of(audio.samples@.len())
            },
            Err(e) => normalize_failure(format, pcm@) == Some(e),
        },
{
    if format.channels > 2 {
        return Err(JobError::UnsupportedChannels);
    }
    if format.sample_rate == 0 {
        return Err(JobError::ZeroSampleRate);
    }
    let mono = downmix(format.channels, pcm);
    assert(mono.len() == downmixed(format.channels, pcm@).len()) by {
        assert(sample_values(mono@).len() == mono.len());
    }
    proof {
        assert(mono.len() * 16000 <= 0xffff_ffff_ffff_ffff * 16000) by (nonlinear_arith)
            requires
                mono.len() <= 0xffff_ffff_ffff_ffff,
        ;
    }
    let wanted: u128 = (mono.len() as u128) * 16000 / (format.sample_rate as u128);
    if wanted > (usize::MAX as u128) {
        return Err(JobError::AudioTooLong);
    }
    let samples = resample(&mono, format.sample_rate, wanted as usize);
    assert(samples.len() == sample_values(samples@).len());
    proof {
        assert(samples.len() * 1000 <= 0xffff_ffff_ffff_ffff * 1000) by (nonlinear_arith)
            requires
                samples.len() <= 0xffff_ffff_ffff_ffff,
        ;
    }
    let total: u128 = (samples.len() as u128) * 1000 / 16000;
    Ok(NormalizedAudio { samples, total_duration_ms: total as u64 })
}

/// What normalizing a file with these contents gives, where the decoder
/// accepts the file.
pub open spec fn decoded(bytes: Seq<u8>) -> Option<(WavFormat, Seq<Option<i16>>)> {
    match (format_in(bytes), wav_samples_of(bytes)) {
        (Some(format), Some(pcm)) => Some((format, pcm)),
        _ => None,
    }
}

/// Makes canonical audio of the WAV file with the given contents. A file
/// that the decoder rejects gives a decoding error with the decoder's words;
/// every other file is handled as `normalize_decoded` handles what was
/// decoded from it.
pub fn normalize(contents: &Vec<u8>) -> (r: Result<NormalizedAudio, JobError>)
    ensures
        decoded(contents@) is None ==> (r matches Err(JobError::Decode(_))),
        decoded(contents@) matches Some((format, pcm)) ==> match r {
            Ok(audio) => {
                &&& normalize_failure(format, pcm) is None
                &&& sample_values(audio.samples@) == normalized(format, pcm)
                &&& audio.total_duration_ms == duration_of(audio.samples@.len())
            },
            Err(e) => normalize_failure(format, pcm) == Some(e),
        },
{
    let format = match read_format(contents) {
        Ok(f) => f,
        Err(why) => {
            return Err(JobError::Decode(why));
        },
    };
    let pcm = match read_samples(contents) {
        Ok(s) => s,
        Err(why) => {
            return Err(JobError::Decode(why));
        },
    };
    normalize_decoded(format, &pcm)
}

/// Audio that is canonical already passes unchanged: none of its samples is
/// added or left out, and each is the decoded sample at the scale of
/// normalized audio, that is, the sample divided by 32 768.
pub proof fn lemma_canonical_audio_unchanged(format: WavFormat, pcm: Seq<Option<i16>>)
    requires
        format.spec_is_canonical(),
    ensures
        normalized(format, pcm).len() == pcm.len(),
        forall|i: int|
            0 <= i < pcm.len() ==> (#[trigger] normalized(format, pcm)[i]) * 32768 == pcm_value(
                pcm[i],
            ) * SAMPLE_SCALE,
{
    let mono = downmixed(format.channels, pcm);
    lemma_same_rate_unchanged(mono);
    assert forall|i: int| 0 <= i < pcm.len() implies (#[trigger] normalized(format, pcm)[i])
        * 32768 == pcm_value(pcm[i]) * SAMPLE_SCALE by {
        assert(normalized(format, pcm)[i] == mono[i] * 16000);
        assert(mono[i] == 2 * pcm_value(pcm[i]));
    }
}

/// Resampling from the target rate to the target rate changes nothing: the
/// count of samples stays, and each sample keeps its value (at the scale of
/// normalized audio).
pub proof fn lemma_same_rate_unchanged(mono: Seq<int>)
    ensures
        resampled(mono, TARGET_RATE as nat).len() == mono.len(),
        forall|i: int|
            0 <= i < mono.len() ==> #[trigger] resampled(mono, TARGET_RATE as nat)[i] == mono[i]
                * TARGET_RATE,
{
    let n = mono.len();
    assert((n * 16000) / 16000 == n) by (nonlinear_arith);
    assert forall|i: int| 0 <= i < mono.len() implies #[trigger] resampled(
        mono,
        TARGET_RATE as nat,
    )[i] == mono[i] * TARGET_RATE by {
        assert((i * 16000) / 16000 == i) by (nonlinear_arith);
        assert((i * 16000) % 16000 == 0) by (nonlinear_arith);
    }
}

} // verus!
