use whisper_plus::audio_normalizer::{
    check_input, check_transcode, conversion_needed, dictation_temp_file_name, file_extension,
    names_wav, has_wav_extension, needs_conversion, needs_conversion_given,
    normalize, normalize_decoded, temp_file_name, transcoder_arguments, NormalizedAudio, ToolRun,
    WavFormat, SAMPLE_SCALE, TARGET_RATE,
};
use whisper_plus::error::JobError;

fn wav(channels: u16, sample_rate: u32, samples: &[i16]) -> Vec<u8> {
    let spec = hound::WavSpec {
        channels,
        sample_rate,
        bits_per_sample: 16,
        sample_format: hound::SampleFormat::Int,
    };
    let mut cursor = std::io::Cursor::new(Vec::new());
    {
        let mut writer = hound::WavWriter::new(&mut cursor, spec).unwrap();
        for s in samples {
            writer.write_sample(*s).unwrap();
        }
        writer.finalize().unwrap();
    }
    cursor.into_inner()
}

fn format(channels: u16, sample_rate: u32) -> WavFormat {
    WavFormat { channels, sample_rate, bits_per_sample: 16 }
}

fn some(samples: &[i16]) -> Vec<Option<i16>> {
    samples.iter().map(|s| Some(*s)).collect()
}

fn as_float(sample: i32) -> f32 {
    (sample as f64 / SAMPLE_SCALE as f64) as f32
}

#[test]
fn canonical_wav_passes_unchanged() {
    let pcm: Vec<i16> = vec![0, 1, -1, 1000, -1000, i16::MAX, i16::MIN, 12345];
    let audio = normalize(&wav(1, 16000, &pcm)).unwrap();
    assert_eq!(audio.samples.len(), pcm.len());
    for (n, s) in audio.samples.iter().zip(pcm.iter()) {
        assert_eq!(*n, *s as i32 * 32000);
        assert_eq!(as_float(*n), *s as f32 / 32768.0);
    }
}

#[test]
fn resampling_at_the_target_rate_changes_nothing() {
    let pcm: Vec<i16> = (0..100).map(|i| (i * 37 - 1500) as i16).collect();
    let audio = normalize_decoded(format(1, TARGET_RATE), &some(&pcm)).unwrap();
    let expected: Vec<i32> = pcm.iter().map(|s| *s as i32 * 32000).collect();
    assert_eq!(audio.samples, expected);
}

#[test]
fn scale_is_the_product_of_the_three_divisors() {
    assert_eq!(SAMPLE_SCALE as i64, 32768 * 2 * 16000);
    assert_eq!(TARGET_RATE, 16000);
}

#[test]
fn stereo_is_averaged() {
    let audio = normalize(&wav(2, 16000, &[100, 200, -50, 50, i16::MAX, i16::MAX])).unwrap();
    assert_eq!(audio.samples, vec![300 * 16000, 0, 2 * 32767 * 16000]);
    assert_eq!(as_float(audio.samples[0]), 150.0 / 32768.0);
}

#[test]
fn stereo_sample_without_partner_is_left_out() {
    let audio = normalize_decoded(format(2, 16000), &some(&[10, 20, 30])).unwrap();
    assert_eq!(audio.samples, vec![30 * 16000]);
}

#[test]
fn upsampling_interpolates_between_neighbours() {
    let audio = normalize(&wav(1, 8000, &[0, 1000, 2000, 3000])).unwrap();
    assert_eq!(
        audio.samples,
        vec![
            0, 16_000_000, 32_000_000, 48_000_000, 64_000_000, 80_000_000, 96_000_000,
            96_000_000
        ]
    );
    assert_eq!(as_float(audio.samples[1]), 500.0 / 32768.0);
}

#[test]
fn downsampling_picks_every_other_sample() {
    let audio = normalize(&wav(1, 32000, &[10, 20, 30, 40, 50, 60])).unwrap();
    assert_eq!(audio.samples, vec![320_000, 960_000, 1_600_000]);
}

#[test]
fn fractional_positions_are_weighted() {
    let audio = normalize_decoded(format(1, 24000), &some(&[0, 300, 600])).unwrap();
    // positions 0, 1.5: between samples 1 and 2, half and half
    assert_eq!(audio.samples, vec![0, 600 * 8000 + 1200 * 8000]);
}

#[test]
fn length_after_resampling_is_rounded_down() {
    let pcm = vec![0i16; 441];
    let audio = normalize(&wav(1, 44100, &pcm)).unwrap();
    assert_eq!(audio.samples.len(), 160);
    let pcm = vec![0i16; 100];
    let audio = normalize(&wav(1, 44100, &pcm)).unwrap();
    assert_eq!(audio.samples.len(), 36);
}

#[test]
fn duration_counts_sixteen_samples_a_millisecond() {
    assert_eq!(normalize(&wav(1, 16000, &vec![0i16; 16000])).unwrap().total_duration_ms, 1000);
    assert_eq!(normalize(&wav(1, 16000, &vec![0i16; 15])).unwrap().total_duration_ms, 0);
    assert_eq!(normalize(&wav(1, 16000, &vec![0i16; 16])).unwrap().total_duration_ms, 1);
    assert_eq!(normalize(&wav(1, 16000, &vec![0i16; 24001])).unwrap().total_duration_ms, 1500);
    assert_eq!(normalize(&wav(1, 8000, &vec![0i16; 8000])).unwrap().total_duration_ms, 1000);
}

#[test]
fn empty_audio_is_empty() {
    let audio = normalize(&wav(1, 44100, &[])).unwrap();
    assert_eq!(audio, NormalizedAudio { samples: Vec::new(), total_duration_ms: 0 });
}

#[test]
fn more_than_two_channels_are_refused() {
    assert_eq!(normalize(&wav(3, 16000, &[1, 2, 3])), Err(JobError::UnsupportedChannels));
    assert_eq!(
        normalize_decoded(format(6, 48000), &some(&[0; 12])),
        Err(JobError::UnsupportedChannels)
    );
}

#[test]
fn zero_sample_rate_is_refused() {
    assert_eq!(normalize_decoded(format(1, 0), &some(&[1, 2])), Err(JobError::ZeroSampleRate));
    let mut bytes = wav(1, 16000, &[1, 2]);
    for b in &mut bytes[24..32] {
        *b = 0;
    }
    assert_eq!(normalize(&bytes), Err(JobError::ZeroSampleRate));
}

#[test]
fn unreadable_sample_counts_as_silence() {
    let audio = normalize_decoded(format(1, 16000), &vec![Some(5), None, Some(-5)]).unwrap();
    assert_eq!(audio.samples, vec![160_000, 0, -160_000]);
}

#[test]
fn samples_stay_within_the_scale() {
    let audio = normalize_decoded(format(2, 11025), &some(&[i16::MIN; 64])).unwrap();
    for s in &audio.samples {
        assert_eq!(*s, -SAMPLE_SCALE);
    }
    let audio = normalize_decoded(format(1, 48000), &some(&[i16::MAX; 64])).unwrap();
    for s in &audio.samples {
        assert!(*s < SAMPLE_SCALE && *s == 32767 * 32000);
    }
}

#[test]
fn garbage_is_a_decoding_error() {
    match normalize(&b"this is not a wav file at all".to_vec()) {
        Err(JobError::Decode(why)) => assert!(!why.is_empty()),
        other => panic!("unexpected: {:?}", other),
    }
    assert!(matches!(normalize(&Vec::new()), Err(JobError::Decode(_))));
}

#[test]
fn wav_extension_is_matched_in_any_case() {
    assert!(has_wav_extension("a.wav"));
    assert!(has_wav_extension("/tmp/dir/Talk.WAV"));
    assert!(has_wav_extension("C:\\audio\\x.Wav"));
    assert!(!has_wav_extension(".wav"));
    assert!(!has_wav_extension("dir/.wav"));
    assert!(!has_wav_extension("dir\\.wav"));
    assert!(!has_wav_extension("a.wave"));
    assert!(!has_wav_extension("a.mp3"));
    assert!(!has_wav_extension("wav"));
    assert!(!has_wav_extension(""));
}

#[test]
fn extension_follows_the_last_dot_of_the_last_component() {
    assert_eq!(file_extension("a.wav"), Some("wav".to_string()));
    assert_eq!(file_extension("a.b.WAV"), Some("WAV".to_string()));
    assert_eq!(file_extension("dir.d/file"), None);
    assert_eq!(file_extension("dir.d/file.mp4"), Some("mp4".to_string()));
    assert_eq!(file_extension(".hidden"), None);
    assert_eq!(file_extension("dir/.hidden"), None);
    assert_eq!(file_extension("dir\\.hidden"), None);
    assert_eq!(file_extension("dir/..wav"), Some("wav".to_string()));
    assert_eq!(file_extension("a."), Some(String::new()));
    assert_eq!(file_extension("a.wav/"), None);
    assert_eq!(file_extension(""), None);
    assert_eq!(file_extension("."), None);
    for path in ["a.wav", "x/y.tar.gz", "x.y/z", ".profile", "a/b/.c", "a/b/c.D", "été.É", "a."] {
        let std_ext = std::path::Path::new(path).extension().map(|e| e.to_string_lossy().to_string());
        assert_eq!(file_extension(path), std_ext, "{}", path);
    }
}

#[test]
fn wav_is_named_in_lower_case() {
    assert!(names_wav("wav"));
    assert!(!names_wav("WAV"));
    assert!(!names_wav("wave"));
    assert!(!names_wav(""));
    assert!(has_wav_extension("a.b.wAv"));
    assert!(!has_wav_extension("a.wav/"));
    assert!(!has_wav_extension("a.wav.bak"));
}

#[test]
fn conversion_goes_by_name_and_layout() {
    let canonical = WavFormat { channels: 1, sample_rate: 16000, bits_per_sample: 16 };
    let stereo = WavFormat { channels: 2, sample_rate: 16000, bits_per_sample: 16 };
    assert!(!conversion_needed(true, Some(canonical)));
    assert!(conversion_needed(false, Some(canonical)));
    assert!(conversion_needed(true, Some(stereo)));
    assert!(conversion_needed(true, None));
    assert!(conversion_needed(false, None));
}

#[test]
fn only_canonical_wav_skips_conversion() {
    let canonical = wav(1, 16000, &[1, 2, 3]);
    assert!(!needs_conversion("in.wav", Some(&canonical)));
    assert!(needs_conversion("in.mp4", Some(&canonical)));
    assert!(needs_conversion("in.wav", None));
    assert!(needs_conversion("in.wav", Some(&wav(2, 16000, &[1, 2]))));
    assert!(needs_conversion("in.wav", Some(&wav(1, 44100, &[1, 2]))));
    assert!(needs_conversion("in.wav", Some(&b"RIFFxxxx".to_vec())));
    for name in ["a.mp3", "a.mkv", "a.flac", "a.ogg", "a", "a.txt"] {
        assert!(needs_conversion(name, None));
    }
}

#[test]
fn conversion_goes_by_the_layout_given() {
    let canonical = WavFormat { channels: 1, sample_rate: 16000, bits_per_sample: 16 };
    assert!(canonical.is_canonical());
    assert!(!needs_conversion_given("x.wav", Some(canonical)));
    assert!(needs_conversion_given("x.ogg", Some(canonical)));
    assert!(needs_conversion_given("x.wav", None));
    let eight = WavFormat { channels: 1, sample_rate: 16000, bits_per_sample: 8 };
    assert!(!eight.is_canonical());
    assert!(needs_conversion_given("x.wav", Some(eight)));
}

#[test]
fn transcoder_is_asked_for_canonical_wav() {
    assert_eq!(
        transcoder_arguments("my input.mp4", "/tmp/out.wav"),
        vec![
            "-y", "-i", "my input.mp4", "-vn", "-ac", "1", "-ar", "16000", "-acodec",
            "pcm_s16le", "-f", "wav", "/tmp/out.wav"
        ]
    );
}

#[test]
fn temp_file_is_named_after_the_process() {
    assert_eq!(temp_file_name(4711), "whisper_srt_4711.wav");
    assert_eq!(temp_file_name(0), "whisper_srt_0.wav");
    assert_eq!(dictation_temp_file_name(4711), "whisper_temp_4711.wav");
    assert_eq!(dictation_temp_file_name(u32::MAX), "whisper_temp_4294967295.wav");
    assert_ne!(temp_file_name(7), dictation_temp_file_name(7));
}

#[test]
fn transcoder_runs_are_judged() {
    let ok = ToolRun::Exited { success: true, diagnostics: "noise".to_string() };
    assert_eq!(check_transcode(ok.clone(), true), Ok(()));
    assert_eq!(check_transcode(ok, false), Err(JobError::ToolNoOutput));
    let failed = ToolRun::Exited { success: false, diagnostics: "bad codec".to_string() };
    assert_eq!(
        check_transcode(failed.clone(), true),
        Err(JobError::ToolFailed("bad codec".to_string()))
    );
    assert_eq!(check_transcode(failed, false), Err(JobError::ToolFailed("bad codec".to_string())));
    assert_eq!(
        check_transcode(ToolRun::NotStarted("no such file".to_string()), false),
        Err(JobError::ToolUnavailable("no such file".to_string()))
    );
}

#[test]
fn missing_input_is_reported_with_its_path() {
    assert_eq!(check_input("a.mp4", true), Ok(()));
    assert_eq!(check_input("a.mp4", false), Err(JobError::InputNotFound("a.mp4".to_string())));
}
