//! The boundary to the recognizer: how it is configured for a job, and what
//! is made of the text it returns.
//!
//! The recognizer works on floating-point numbers; its thresholds are kept
//! here in hundredths, as whole numbers.

use vstd::prelude::*;
use crate::hallucination_filter::{filter_text, filtered_text};
use crate::text::{
    all_ascii, chars_of, lower, lowercase, lowercase_of, push_all, spells, string_of,
};

verus! {

/// The models for which the recognizer can align tokens with the audio.
#[derive(Clone, Copy, Debug, PartialEq, Eq, Structural)]
pub enum ModelPreset {
    TinyEn,
    Tiny,
    BaseEn,
    Base,
    SmallEn,
    Small,
    MediumEn,
    Medium,
    LargeV1,
    LargeV2,
    LargeV3,
}

/// The memory that the recognizer may use for alignment, in bytes.
pub const ALIGNMENT_MEMORY_BYTES: usize = 134_217_728;

/// The text with which a dictation that is not translated is primed.
pub open spec fn dictation_prompt() -> Seq<char> {
    "Hello, welcome to the transcription. This is a clear English text."@
}

/// The alignment preset of the model whose name in lower case is `name`,
/// if it has one.
pub open spec fn preset_named(name: Seq<char>) -> Option<ModelPreset> {
    if name == "tiny.en"@ {
        Some(ModelPreset::TinyEn)
    } else if name == "tiny"@ {
        Some(ModelPreset::Tiny)
    } else if name == "base.en"@ {
        Some(ModelPreset::BaseEn)
    } else if name == "base"@ {
        Some(ModelPreset::Base)
    } else if name == "small.en"@ {
        Some(ModelPreset::SmallEn)
    } else if name == "small"@ {
        Some(ModelPreset::Small)
    } else if name == "medium.en"@ {
        Some(ModelPreset::MediumEn)
    } else if name == "medium"@ {
        Some(ModelPreset::Medium)
    } else if name == "large"@ || name == "large-v1"@ {
        Some(ModelPreset::LargeV1)
    } else if name == "large-v2"@ {
        Some(ModelPreset::LargeV2)
    } else if name == "large-v3"@ {
        Some(ModelPreset::LargeV3)
    } else {
        None
    }
}

/// The alignment preset of the model called `model_id`, if it has one.
/// Names are matched without regard to the case of their letters.
pub open spec fn preset_of(model_id: Seq<char>) -> Option<ModelPreset> {
    preset_named(lowercase_of(model_id))
}

/// The alignment preset of the model whose name in lower case is
/// `lower_name`, if it has one.
pub fn preset_for(lower_name: &str) -> (preset: Option<ModelPreset>)
    ensures
        preset == preset_named(lower_name@),
{
    let name = chars_of(lower_name);
    if spells(&name, "tiny.en") {
        Some(ModelPreset::TinyEn)
    } else if spells(&name, "tiny") {
        Some(ModelPreset::Tiny)
    } else if spells(&name, "base.en") {
        Some(ModelPreset::BaseEn)
    } else if spells(&name, "base") {
        Some(ModelPreset::Base)
    } else if spells(&name, "small.en") {
        Some(ModelPreset::SmallEn)
    } else if spells(&name, "small") {
        Some(ModelPreset::Small)
    } else if spells(&name, "medium.en") {
        Some(ModelPreset::MediumEn)
    } else if spells(&name, "medium") {
        Some(ModelPreset::Medium)
    } else if spells(&name, "large") || spells(&name, "large-v1") {
        Some(ModelPreset::LargeV1)
    } else if spells(&name, "large-v2") {
        Some(ModelPreset::LargeV2)
    } else if spells(&name, "large-v3") {
        Some(ModelPreset::LargeV3)
    } else {
        None
    }
}

/// The alignment preset of the model called `model_id`, if it has one. For
/// a name of ASCII characters the preset goes by the name with `A` to `Z`
/// in lower case.
pub fn alignment_preset(model_id: &str) -> (preset: Option<ModelPreset>)
    ensures
        preset == preset_of(model_id@),
        all_ascii(model_id@) ==> preset == preset_named(lower(model_id@)),
{
    let name = lowercase(model_id);
    preset_for(name.as_str())
}

/// How the recognizer decodes. The language is always detected from the
/// audio.
#[derive(Clone, Debug, PartialEq, Eq)]
pub struct DecodingConfig {
    /// Translate to English instead of transcribing.
    pub translate: bool,
    /// Do not emit blank tokens at the start of a fragment.
    pub suppress_blank: bool,
    /// Do not emit tokens that stand for sounds other than speech.
    pub suppress_non_speech: bool,
    /// The probability of silence above which a fragment is dropped, in
    /// hundredths.
    pub no_speech_threshold: u32,
    /// The mean log probability below which a fragment counts as failed, in
    /// hundredths.
    pub log_probability_threshold: i32,
    /// Text that primes the recognizer, if any.
    pub initial_prompt: Option<String>,
    /// Time every token, for fragments timed to the millisecond.
    pub token_level_timestamps: bool,
    /// Align tokens with the audio, for the model given.
    pub alignment_precision_mode: Option<ModelPreset>,
}

impl DecodingConfig {
    /// Whether the thresholds lie where they are recommended to lie. A
    /// translation is lenient (speech in another language is more often
    /// taken for silence): silence above 0.10 to 0.20, log probability
    /// -2.00. A transcription: silence above 0.30 to 0.60, log probability
    /// -1.50 to -1.00. Only a transcription is primed.
    pub open spec fn recommended(self) -> bool {
        &&& self.suppress_blank
        &&& self.suppress_non_speech
        &&& if self.translate {
            &&& 10 <= self.no_speech_threshold <= 20
            &&& self.log_probability_threshold == -200
            &&& self.initial_prompt is None
        } else {
            &&& 30 <= self.no_speech_threshold <= 60
            &&& -150 <= self.log_probability_threshold <= -100
        }
    }

    /// The configuration of a subtitle job: sensitive to quiet speech, every
    /// token timed, aligned where the model allows it, never primed.
    pub fn for_subtitles(translate: bool, model_id: &str) -> (config: DecodingConfig)
        ensures
            config.translate == translate,
            config.suppress_blank && config.suppress_non_speech,
            config.no_speech_threshold == if translate { 10u32 } else { 30u32 },
            config.log_probability_threshold == if translate { -200i32 } else { -150i32 },
            config.initial_prompt is None,
            config.token_level_timestamps,
            config.alignment_precision_mode == preset_of(model_id@),
            all_ascii(model_id@) ==> config.alignment_precision_mode == preset_named(
                lower(model_id@),
            ),
            config.recommended(),
    {
        DecodingConfig {
            translate,
            suppress_blank: true,
            suppress_non_speech: true,
            no_speech_threshold: if translate { 10 } else { 30 },
            log_probability_threshold: if translate { -200 } else { -150 },
            initial_prompt: None,
            token_level_timestamps: true,
            alignment_precision_mode: alignment_preset(model_id),
        }
    }

    /// The configuration of a dictation: strict about silence, primed with a
    /// short English text unless it translates, no timing of tokens.
    pub fn for_dictation(translate: bool) -> (config: DecodingConfig)
        ensures
            config.translate == translate,
            config.suppress_blank && config.suppress_non_speech,
            config.no_speech_threshold == if translate { 20u32 } else { 60u32 },
            config.log_probability_threshold == if translate { -200i32 } else { -100i32 },
            translate ==> config.initial_prompt is None,
            !translate ==> (config.initial_prompt matches Some(p) && p@ == dictation_prompt()),
            !config.token_level_timestamps,
            config.alignment_precision_mode is None,
            config.recommended(),
    {
        let initial_prompt = if translate {
            None
        } else {
            Some(
                string_of(
                    &chars_of("Hello, welcome to the transcription. This is a clear English text."),
                ),
            )
        };
        DecodingConfig {
            translate,
            suppress_blank: true,
            suppress_non_speech: true,
            no_speech_threshold: if translate { 20 } else { 60 },
            log_probability_threshold: if translate { -200 } else { -100 },
            initial_prompt,
            token_level_timestamps: false,
            alignment_precision_mode: None,
        }
    }
}

/// What a list of strings holds, each followed by one space.
pub open spec fn spaced(fragments: Seq<String>) -> Seq<char>
    decreases fragments.len(),
{
    if fragments.len() == 0 {
        Seq::empty()
    } else {
        spaced(fragments.drop_last()) + fragments.last()@ + seq![' ']
    }
}

/// The text of a dictation: the fragments in order, separated by spaces,
/// passed through the hallucination filter as one text. A dictation that
/// is an artifact as a whole is empty.
pub open spec fn dictated(fragments: Seq<String>) -> Seq<char> {
    match filtered_text(spaced(fragments)) {
        Some(kept) => kept,
        None => Seq::empty(),
    }
}

/// The text of a dictation, from the fragments that the recognizer
/// returned.
pub fn dictation_text(fragments: &Vec<String>) -> (text: String)
    ensures
        text@ == dictated(fragments@),
{
    let mut all: Vec<char> = Vec::new();
    let mut i: usize = 0;
    proof {
        assert(fragments@.take(0) =~= Seq::<String>::empty());
    }
    while i < fragments.len()
        invariant
            i <= fragments.len(),
            all@ == spaced(fragments@.take(i as int)),
        decreases fragments.len() - i,
    {
        proof {
            let next = fragments@.take(i + 1);
            assert(next.drop_last() =~= fragments@.take(i as int));
            assert(next.last() == fragments@[i as int]);
        }
        let chars = chars_of(fragments[i].as_str());
        push_all(&mut all, &chars);
        all.push(' ');
        i += 1;
    }
    proof {
        assert(fragments@.take(i as int) =~= fragments@);
    }
    let joined = string_of(&all);
    match filter_text(joined.as_str()) {
        Some(kept) => kept,
        None => String::new(),
    }
}

} // verus!
