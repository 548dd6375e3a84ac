use whisper_plus::progress_reporter::{
    ProgressReporter, ProgressStatus, SrtProgress, TranscribeProgress, MIN_ESTIMATE_MS,
    REPORT_INTERVAL_MS, TRANSCRIBING_FROM, TRANSCRIBING_TO,
};

const ALL: [ProgressStatus; 9] = [
    ProgressStatus::LoadingModel,
    ProgressStatus::Converting,
    ProgressStatus::LoadingAudio,
    ProgressStatus::Preprocessing,
    ProgressStatus::Transcribing,
    ProgressStatus::ProcessingSegments,
    ProgressStatus::GeneratingSrt,
    ProgressStatus::SavingFile,
    ProgressStatus::Complete,
];

#[test]
fn statuses_have_their_wire_names() {
    let names: Vec<String> = ALL.iter().map(|s| s.label()).collect();
    assert_eq!(
        names,
        vec![
            "loading_model",
            "converting",
            "loading_audio",
            "preprocessing",
            "transcribing",
            "processing_segments",
            "generating_srt",
            "saving_file",
            "complete"
        ]
    );
}

#[test]
fn percentages_never_fall() {
    let values: Vec<u32> = ALL.iter().map(|s| s.percentage()).collect();
    assert_eq!(values, vec![0, 5, 10, 10, 20, 80, 90, 95, 100]);
    assert!(values.windows(2).all(|w| w[0] <= w[1]));
}

#[test]
fn entering_a_status_gives_its_event() {
    assert_eq!(
        SrtProgress::entering(ProgressStatus::Preprocessing, 42_000),
        SrtProgress {
            percentage: 10,
            processed_ms: 0,
            total_ms: 42_000,
            status: ProgressStatus::Preprocessing
        }
    );
    assert_eq!(
        SrtProgress::entering(ProgressStatus::Complete, 42_000),
        SrtProgress {
            percentage: 100,
            processed_ms: 42_000,
            total_ms: 42_000,
            status: ProgressStatus::Complete
        }
    );
}

#[test]
fn dictation_event_copies_the_fields() {
    let e = SrtProgress::entering(ProgressStatus::Transcribing, 7);
    let t = TranscribeProgress::of(&e);
    assert_eq!(
        t,
        TranscribeProgress {
            percentage: 20,
            processed_ms: 0,
            total_ms: 7,
            status: ProgressStatus::Transcribing
        }
    );
}

#[test]
fn estimate_is_half_the_audio() {
    let r = ProgressReporter::new(60_000);
    let e = r.estimate(15_000);
    assert_eq!((e.percentage, e.processed_ms, e.total_ms), (50, 30_000, 60_000));
    assert_eq!(e.status, ProgressStatus::Transcribing);
    let e = r.estimate(0);
    assert_eq!((e.percentage, e.processed_ms), (20, 0));
    let e = r.estimate(30_000);
    assert_eq!((e.percentage, e.processed_ms), (80, 60_000));
    let e = r.estimate(29_999);
    assert_eq!((e.percentage, e.processed_ms), (79, 59_998));
}

#[test]
fn estimate_is_at_least_five_seconds() {
    let r = ProgressReporter::new(4000);
    let e = r.estimate(2500);
    assert_eq!((e.percentage, e.processed_ms), (50, 2000));
    let e = r.estimate(5000);
    assert_eq!((e.percentage, e.processed_ms), (80, 4000));
    let r = ProgressReporter::new(10_000);
    assert_eq!(r.estimate(4999).percentage, 79);
    assert_eq!(r.estimate(5000).percentage, 80);
    let r = ProgressReporter::new(10_001);
    assert_eq!(r.estimate(5000).percentage, 79);
    assert_eq!(r.estimate(5001).percentage, 80);
    assert_eq!(MIN_ESTIMATE_MS, 5000);
}

#[test]
fn estimate_is_capped() {
    let r = ProgressReporter::new(60_000);
    for elapsed in [30_000, 30_001, 1_000_000, u64::MAX] {
        let e = r.estimate(elapsed);
        assert_eq!((e.percentage, e.processed_ms), (TRANSCRIBING_TO, 60_000));
    }
    let r = ProgressReporter::new(u64::MAX);
    let e = r.estimate(u64::MAX);
    assert_eq!((e.percentage, e.processed_ms), (80, u64::MAX));
    let r = ProgressReporter::new(0);
    let e = r.estimate(123);
    assert_eq!((e.percentage, e.processed_ms, e.total_ms), (21, 0, 0));
}

#[test]
fn estimate_never_falls() {
    let r = ProgressReporter::new(123_457);
    let mut last = (TRANSCRIBING_FROM, 0);
    let mut elapsed = 0;
    while elapsed < 70_000 {
        let e = r.estimate(elapsed);
        assert!(e.percentage >= last.0 && e.processed_ms >= last.1);
        assert!(e.percentage <= TRANSCRIBING_TO && e.processed_ms <= e.total_ms);
        last = (e.percentage, e.processed_ms);
        elapsed += REPORT_INTERVAL_MS;
    }
    assert_eq!(last.0, TRANSCRIBING_TO);
}

#[test]
fn reporter_stops_when_finished_or_cancelled() {
    let r = ProgressReporter::new(60_000);
    assert_eq!(r.tick(15_000, true, false), None);
    assert_eq!(r.tick(15_000, false, true), None);
    assert_eq!(r.tick(15_000, true, true), None);
    assert_eq!(r.tick(15_000, false, false), Some(r.estimate(15_000)));
}
