use whisper_plus::download::{model_file_for, model_file_name, model_url, DownloadState};

#[test]
fn nothing_is_cancelled_at_first() {
    let state = DownloadState::new();
    assert!(!state.is_cancelled("Base"));
    assert!(!state.is_cancelled(""));
}

#[test]
fn cancel_marks_one_model() {
    let mut state = DownloadState::new();
    state.cancel("Base");
    assert!(state.is_cancelled("Base"));
    assert!(!state.is_cancelled("base"));
    assert!(!state.is_cancelled("Tiny"));
}

#[test]
fn clear_forgets_the_mark() {
    let mut state = DownloadState::new();
    state.cancel("Base");
    state.cancel("Tiny");
    state.cancel("Base");
    state.clear("Base");
    assert!(!state.is_cancelled("Base"));
    assert!(state.is_cancelled("Tiny"));
    state.clear("Small");
    assert!(state.is_cancelled("Tiny"));
    state.clear("Tiny");
    assert!(!state.is_cancelled("Tiny"));
}

#[test]
fn cancel_after_clear_marks_again() {
    let mut state = DownloadState::new();
    state.cancel("Large");
    state.clear("Large");
    state.cancel("Large");
    assert!(state.is_cancelled("Large"));
}

#[test]
fn model_file_is_named_in_lower_case() {
    assert_eq!(model_file_name("Base"), "ggml-base.bin");
    assert_eq!(model_file_name("large-v3"), "ggml-large-v3.bin");
    assert_eq!(model_file_name("TINY.EN"), "ggml-tiny.en.bin");
    assert_eq!(model_file_name(""), "ggml-.bin");
}

#[test]
fn model_file_lower_cases_every_letter() {
    assert_eq!(model_file_name("\u{c9}"), "ggml-\u{e9}.bin");
    assert_eq!(model_file_name("ÄÖÜ-Large"), "ggml-äöü-large.bin");
    assert_eq!(model_file_name("\u{212a}"), "ggml-k.bin");
    for name in ["Tiny", "TINY.EN", "Grün", "ΣΟΦΙΑ", "İx", "large-V3"] {
        assert_eq!(model_file_name(name), format!("ggml-{}.bin", name.to_lowercase()));
        assert_eq!(model_file_name(name), model_file_for(&name.to_lowercase()));
    }
    assert_eq!(model_file_name("Tiny"), model_file_name("tiny"));
}

#[test]
fn model_addresses_ignore_the_case_of_a_to_z_only() {
    assert!(model_url("TINY").is_some());
    assert_eq!(model_url("tin\u{212a}"), None);
    assert_eq!(model_url("\u{212a}"), None);
}

#[test]
fn known_models_have_addresses() {
    let prefix = "https://huggingface.co/ggerganov/whisper.cpp/resolve/main/";
    assert_eq!(model_url("Tiny"), Some(format!("{}ggml-tiny.bin", prefix)));
    assert_eq!(model_url("base"), Some(format!("{}ggml-base.bin", prefix)));
    assert_eq!(model_url("SMALL"), Some(format!("{}ggml-small.bin", prefix)));
    assert_eq!(model_url("Medium"), Some(format!("{}ggml-medium.bin", prefix)));
    assert_eq!(model_url("Large"), Some(format!("{}ggml-large-v3.bin", prefix)));
    assert_eq!(model_url("large-v3"), None);
    assert_eq!(model_url(""), None);
}
