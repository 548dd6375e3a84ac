use whisper_plus::wrap::{wrap_lines, wrap_text, LINE_WIDTH, MAX_LINES};

fn lines(text: &str) -> Vec<String> {
    let chars: Vec<char> = text.chars().collect();
    wrap_lines(&chars).iter().map(|l| l.iter().collect()).collect()
}

#[test]
fn short_text_is_one_line() {
    assert_eq!(wrap_text("Hello there"), "Hello there");
}

#[test]
fn empty_text_has_no_lines() {
    assert_eq!(wrap_text(""), "");
    assert_eq!(wrap_text("   "), "");
    assert_eq!(lines(""), Vec::<String>::new());
}

#[test]
fn white_space_is_collapsed_between_words() {
    assert_eq!(wrap_text("  a \t b\n\nc  "), "a b c");
}

#[test]
fn line_of_exactly_the_width_is_kept() {
    let text = format!("{} {}", "a".repeat(20), "b".repeat(21));
    assert_eq!(text.chars().count(), 42);
    assert_eq!(lines(&text), vec![text.clone()]);
    let over = format!("{} {}", "a".repeat(20), "b".repeat(22));
    assert_eq!(lines(&over), vec!["a".repeat(20), "b".repeat(22)]);
}

#[test]
fn words_beyond_two_lines_are_not_shown() {
    let text = "one two three four five six seven eight nine ten eleven twelve thirteen fourteen fifteen sixteen seventeen eighteen";
    let out = lines(text);
    assert_eq!(
        out,
        vec![
            "one two three four five six seven eight".to_string(),
            "nine ten eleven twelve thirteen fourteen".to_string(),
        ]
    );
}

#[test]
fn a_word_longer_than_a_line_is_cut() {
    let word = "x".repeat(50);
    assert_eq!(lines(&word), vec!["x".repeat(42), "x".repeat(8)]);
    let text = format!("ab {} cd", "y".repeat(45));
    assert_eq!(lines(&text), vec![format!("ab"), "y".repeat(42)]);
}

#[test]
fn every_line_fits_and_there_are_at_most_two() {
    let samples = [
        "The quick brown fox jumps over the lazy dog and keeps running far away from here",
        "a",
        "supercalifragilisticexpialidocious-supercalifragilisticexpialidocious again",
        "ünïcödé wörds äre cöunted by chäracter nöt by byte, whatever they are made of",
    ];
    for text in samples {
        let out = lines(text);
        assert!(out.len() <= MAX_LINES);
        for line in &out {
            assert!(line.chars().count() <= LINE_WIDTH);
            assert!(!line.is_empty());
        }
        assert_eq!(wrap_text(text), out.join("\n"));
    }
}
