use whisper_plus::error::JobError;
use whisper_plus::segment::{RawSegment, SubtitleEntry};
use whisper_plus::srt_serializer::{
    file_stem, format_timestamp, render, render_block, resolve_output_path, DuplicateMode,
    SrtStream,
};

fn entry(start_ms: u64, end_ms: u64, text: &str) -> SubtitleEntry {
    SubtitleEntry { start_ms, end_ms, text: text.to_string() }
}

fn names(list: &[&str]) -> Vec<String> {
    list.iter().map(|s| s.to_string()).collect()
}

#[test]
fn timestamp_of_zero() {
    assert_eq!(format_timestamp(0), "00:00:00,000");
}

#[test]
fn timestamp_of_one_hour_two_minutes_three_seconds() {
    assert_eq!(format_timestamp(3723004), "01:02:03,004");
}

#[test]
fn timestamp_is_not_rounded() {
    assert_eq!(format_timestamp(999), "00:00:00,999");
    assert_eq!(format_timestamp(1000), "00:00:01,000");
    assert_eq!(format_timestamp(59_999), "00:00:59,999");
    assert_eq!(format_timestamp(3_599_999), "00:59:59,999");
}

#[test]
fn timestamp_hours_grow_beyond_two_digits() {
    assert_eq!(format_timestamp(360_000_000), "100:00:00,000");
    assert_eq!(format_timestamp(i64::MAX), "2562047788015:12:55,807");
}

#[test]
fn timestamp_before_zero_carries_signs() {
    assert_eq!(format_timestamp(-4), "00:00:00,-04");
    assert_eq!(format_timestamp(-3723004), "-1:-2:-3,-04");
    assert_eq!(format_timestamp(i64::MIN), "-2562047788015:-12:-55,-808");
}

#[test]
fn timestamp_agrees_with_std_formatting() {
    for ms in [0i64, 1, 12, 123, 1234, 61_001, 86_399_999, 123_456_789, -1, -59_000, -7_200_000] {
        let expected = format!(
            "{:02}:{:02}:{:02},{:03}",
            ms / 3600000,
            (ms % 3600000) / 60000,
            (ms % 60000) / 1000,
            ms % 1000
        );
        assert_eq!(format_timestamp(ms), expected);
    }
}

#[test]
fn render_numbers_blocks_from_one() {
    let entries = vec![entry(0, 1200, "Hi there"), entry(1200, 4000, "How are you?")];
    assert_eq!(
        render(&entries),
        "1\n00:00:00,000 --> 00:00:01,200\nHi there\n\n2\n00:00:01,200 --> 00:00:04,000\nHow are you?\n\n"
    );
}

#[test]
fn render_of_nothing_is_empty() {
    assert_eq!(render(&Vec::new()), "");
}

#[test]
fn render_wraps_long_text() {
    let entries =
        vec![entry(0, 5000, "The quick brown fox jumps over the lazy dog and keeps running far")];
    assert_eq!(
        render(&entries),
        "1\n00:00:00,000 --> 00:00:05,000\nThe quick brown fox jumps over the lazy\ndog and keeps running far\n\n"
    );
}

#[test]
fn render_block_uses_the_given_number() {
    assert_eq!(
        render_block(17, &entry(61_000, 62_500, "Later")),
        "17\n00:01:01,000 --> 00:01:02,500\nLater\n\n"
    );
}

#[test]
fn stream_skips_artifacts_without_using_a_number() {
    let mut stream = SrtStream::new();
    let first = stream.accept(RawSegment { start_ms: 0, end_ms: 900, text: " Hello ".to_string() });
    assert_eq!(first, Some("1\n00:00:00,000 --> 00:00:00,900\nHello\n\n".to_string()));
    let dropped =
        stream.accept(RawSegment { start_ms: 900, end_ms: 1500, text: "[Music]".to_string() });
    assert_eq!(dropped, None);
    assert_eq!(stream.written, 1);
    let second =
        stream.accept(RawSegment { start_ms: 1500, end_ms: 2500, text: "World".to_string() });
    assert_eq!(second, Some("2\n00:00:01,500 --> 00:00:02,500\nWorld\n\n".to_string()));
    assert_eq!(stream.written, 2);
}

#[test]
fn stream_agrees_with_render() {
    let texts = ["One.", "[Applause]", "Two [noise] more", "subtitles by someone", "Three"];
    let mut stream = SrtStream::new();
    let mut streamed = String::new();
    let mut kept = Vec::new();
    for (i, text) in texts.iter().enumerate() {
        let start = i as u64 * 1000;
        let segment = RawSegment { start_ms: start, end_ms: start + 1000, text: text.to_string() };
        if let Some(seg) = whisper_plus::hallucination_filter::filter(segment.clone()) {
            kept.push(SubtitleEntry { start_ms: seg.start_ms, end_ms: seg.end_ms, text: seg.text });
        }
        if let Some(block) = stream.accept(segment) {
            streamed.push_str(&block);
        }
    }
    assert_eq!(kept.len(), 3);
    assert_eq!(streamed, render(&kept));
}

#[test]
fn duplicate_mode_from_name() {
    assert_eq!(DuplicateMode::from_name("rename"), DuplicateMode::Rename);
    assert_eq!(DuplicateMode::from_name("overwrite"), DuplicateMode::Overwrite);
    assert_eq!(DuplicateMode::from_name("Rename"), DuplicateMode::Overwrite);
    assert_eq!(DuplicateMode::from_name(""), DuplicateMode::Overwrite);
}

#[test]
fn stem_follows_the_last_dot() {
    assert_eq!(file_stem("out.srt"), "out");
    assert_eq!(file_stem("talk.final.srt"), "talk.final");
    assert_eq!(file_stem("notes"), "notes");
    assert_eq!(file_stem(".hidden"), ".hidden");
    assert_eq!(file_stem(""), "output");
    assert_eq!(file_stem("."), "output");
    assert_eq!(file_stem(".."), "output");
}

#[test]
fn resolve_overwrite_keeps_the_name() {
    let existing = names(&["out.srt", "out_1.srt"]);
    assert_eq!(
        resolve_output_path("out.srt", DuplicateMode::Overwrite, &existing),
        Ok("out.srt".to_string())
    );
}

#[test]
fn resolve_rename_keeps_a_free_name() {
    let existing = names(&["other.srt"]);
    assert_eq!(
        resolve_output_path("out.srt", DuplicateMode::Rename, &existing),
        Ok("out.srt".to_string())
    );
    assert_eq!(
        resolve_output_path("out.srt", DuplicateMode::Rename, &Vec::new()),
        Ok("out.srt".to_string())
    );
}

#[test]
fn resolve_rename_takes_the_first_free_number() {
    assert_eq!(
        resolve_output_path("out.srt", DuplicateMode::Rename, &names(&["out.srt"])),
        Ok("out_1.srt".to_string())
    );
    assert_eq!(
        resolve_output_path(
            "out.srt",
            DuplicateMode::Rename,
            &names(&["out.srt", "out_1.srt", "out_2.srt", "out_4.srt"])
        ),
        Ok("out_3.srt".to_string())
    );
}

#[test]
fn resolve_rename_always_ends_in_srt() {
    assert_eq!(
        resolve_output_path("clip.txt", DuplicateMode::Rename, &names(&["clip.txt"])),
        Ok("clip_1.srt".to_string())
    );
}

#[test]
fn resolve_rename_gives_up_after_a_thousand() {
    let mut existing = vec!["out.srt".to_string()];
    for n in 1..=1000 {
        existing.push(format!("out_{}.srt", n));
    }
    assert_eq!(
        resolve_output_path("out.srt", DuplicateMode::Rename, &existing),
        Err(JobError::TooManyDuplicates)
    );
    existing.remove(1000);
    assert_eq!(
        resolve_output_path("out.srt", DuplicateMode::Rename, &existing),
        Ok("out_1000.srt".to_string())
    );
}

#[test]
fn fragments_are_filtered_composed_and_rendered() {
    let fragments = vec![
        RawSegment { start_ms: 0, end_ms: 500, text: " Hi".to_string() },
        RawSegment { start_ms: 500, end_ms: 1200, text: " there".to_string() },
        RawSegment { start_ms: 1200, end_ms: 3000, text: "[Music]".to_string() },
        RawSegment { start_ms: 3000, end_ms: 6000, text: " How are [noise] you?".to_string() },
    ];
    assert_eq!(
        whisper_plus::srt_serializer::render_fragments(&fragments),
        "1\n00:00:00,000 --> 00:00:01,200\nHi there\n\n2\n00:00:03,000 --> 00:00:06,000\nHow are you?\n\n"
    );
    assert_eq!(whisper_plus::srt_serializer::render_fragments(&Vec::new()), "");
}
