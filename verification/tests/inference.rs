use whisper_plus::inference::{
    alignment_preset, dictation_text, preset_for, DecodingConfig, ModelPreset,
    ALIGNMENT_MEMORY_BYTES,
};

fn strings(list: &[&str]) -> Vec<String> {
    list.iter().map(|s| s.to_string()).collect()
}

#[test]
fn presets_go_by_model_name() {
    let table = [
        ("tiny.en", ModelPreset::TinyEn),
        ("tiny", ModelPreset::Tiny),
        ("base.en", ModelPreset::BaseEn),
        ("base", ModelPreset::Base),
        ("small.en", ModelPreset::SmallEn),
        ("small", ModelPreset::Small),
        ("medium.en", ModelPreset::MediumEn),
        ("medium", ModelPreset::Medium),
        ("large", ModelPreset::LargeV1),
        ("large-v1", ModelPreset::LargeV1),
        ("large-v2", ModelPreset::LargeV2),
        ("large-v3", ModelPreset::LargeV3),
    ];
    for (name, preset) in table {
        assert_eq!(alignment_preset(name), Some(preset));
        assert_eq!(alignment_preset(&name.to_uppercase()), Some(preset));
    }
    assert_eq!(alignment_preset("Tiny"), Some(ModelPreset::Tiny));
    assert_eq!(alignment_preset("huge"), None);
    assert_eq!(alignment_preset(""), None);
    assert_eq!(alignment_preset(" tiny"), None);
}

#[test]
fn presets_go_by_the_lower_case_of_every_letter() {
    // U+212A, the Kelvin sign, is a capital letter whose lower case is `k`
    assert_eq!(alignment_preset("tiny.en"), preset_for("tiny.en"));
    assert_eq!(preset_for("Tiny"), None);
    assert_eq!(preset_for("large-v2"), Some(ModelPreset::LargeV2));
    for name in ["Tiny", "LARGE-V3", "\u{212a}", "Größe", "small.EN"] {
        assert_eq!(alignment_preset(name), preset_for(&name.to_lowercase()));
    }
}

#[test]
fn alignment_memory_is_128_mebibytes() {
    assert_eq!(ALIGNMENT_MEMORY_BYTES, 1024 * 1024 * 128);
}

#[test]
fn subtitle_configuration() {
    let c = DecodingConfig::for_subtitles(false, "Base");
    assert_eq!(
        c,
        DecodingConfig {
            translate: false,
            suppress_blank: true,
            suppress_non_speech: true,
            no_speech_threshold: 30,
            log_probability_threshold: -150,
            initial_prompt: None,
            token_level_timestamps: true,
            alignment_precision_mode: Some(ModelPreset::Base),
        }
    );
    let c = DecodingConfig::for_subtitles(true, "custom");
    assert_eq!((c.no_speech_threshold, c.log_probability_threshold), (10, -200));
    assert!(c.translate && c.token_level_timestamps);
    assert_eq!(c.alignment_precision_mode, None);
    assert_eq!(c.initial_prompt, None);
}

#[test]
fn dictation_configuration() {
    let c = DecodingConfig::for_dictation(false);
    assert_eq!((c.no_speech_threshold, c.log_probability_threshold), (60, -100));
    assert_eq!(
        c.initial_prompt.as_deref(),
        Some("Hello, welcome to the transcription. This is a clear English text.")
    );
    assert!(!c.token_level_timestamps && c.suppress_blank && c.suppress_non_speech);
    let c = DecodingConfig::for_dictation(true);
    assert_eq!((c.no_speech_threshold, c.log_probability_threshold), (20, -200));
    assert_eq!(c.initial_prompt, None);
    assert_eq!(c.alignment_precision_mode, None);
}

#[test]
fn thresholds_lie_in_the_recommended_ranges() {
    for translate in [false, true] {
        for c in [DecodingConfig::for_subtitles(translate, "tiny"), DecodingConfig::for_dictation(translate)] {
            if translate {
                assert!((10..=20).contains(&c.no_speech_threshold));
                assert_eq!(c.log_probability_threshold, -200);
                assert!(c.initial_prompt.is_none());
            } else {
                assert!((30..=60).contains(&c.no_speech_threshold));
                assert!((-150..=-100).contains(&c.log_probability_threshold));
            }
        }
    }
}

#[test]
fn dictation_joins_and_filters() {
    assert_eq!(dictation_text(&strings(&[" Hello", " world."])), "Hello  world.");
    assert_eq!(dictation_text(&strings(&["Take [Music] five"])), "Take  five");
    assert_eq!(dictation_text(&Vec::new()), "");
    assert_eq!(dictation_text(&strings(&["[Music]"])), "");
    assert_eq!(dictation_text(&strings(&[" Thank you", "for watching"])), "");
    assert_eq!(dictation_text(&strings(&["(silence)"])), "");
    assert_eq!(dictation_text(&strings(&["Subtitles by the Amara.org community"])), "");
}
