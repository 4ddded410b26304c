use alass_util::result_codes::{
    save_error_code, sink_error_code, sync_error_code, ALASS_FILE_DOES_NOT_EXIST,
    ALASS_INTERNAL_ERROR, ALASS_INVALID_PARAMS, ALASS_LOG_ALREADY_CONFIGURED, ALASS_PARSE_ERROR,
    ALASS_PERMISSION_DENIED, ALASS_READ_ERROR, ALASS_SERIALIZE_ERROR, ALASS_SINK_CLOSED,
    ALASS_SUCCESS, ALASS_UNSUPPORTED_FORMAT, ALASS_WRITE_ERROR,
};
use alass_util::sync::{
    best_candidate, corrected_spans, uniform_deltas, ReadFailure, SubtitleFailure, SubtitleFormat,
    SyncEvent, SyncPlan, SyncStep,
};
use alass_util::timespans::TimeSpan;
use alass_util::voice::chunk_size;
use alass_util::{is_format_supported, AudioSinkError, SyncError, TimeSpans, TimeSpansSaveError};

const FRAMERATES: [f64; 8] =
    [23.976023976024, 24.0, 25.0, 29.97002997003, 30.0, 50.0, 59.9400599400599, 60.0];

fn span(start: i64, end: i64) -> TimeSpan {
    TimeSpan { start, end }
}

fn engine_spans(spans: &[TimeSpan]) -> Vec<alass_core::TimeSpan> {
    spans
        .iter()
        .map(|s| {
            alass_core::TimeSpan::new(
                alass_core::TimePoint::from(s.start),
                alass_core::TimePoint::from(s.end),
            )
        })
        .collect()
}

fn overlap_key(reference: &[alass_core::TimeSpan], incoming: &[alass_core::TimeSpan], ratio: f64) -> i64 {
    let scaled: Vec<alass_core::TimeSpan> = incoming.iter().map(|s| s.scaled(ratio)).collect();
    let (_, score) = alass_core::align_nosplit(
        reference,
        &scaled,
        alass_core::overlap_scoring,
        alass_core::NoProgressHandler,
    );
    (score * 1_000_000_000.0) as i64
}

#[test]
fn first_of_the_best_candidates_wins() {
    assert_eq!(best_candidate(&[3, 7, 7, 1]), Some(1));
    assert_eq!(best_candidate(&[7, 7, 7]), Some(0));
    assert_eq!(best_candidate(&[1, 2, 3]), Some(2));
    assert_eq!(best_candidate(&[-5]), Some(0));
    assert_eq!(best_candidate(&[i64::MIN, i64::MIN, i64::MAX, i64::MAX]), Some(2));
    assert_eq!(best_candidate(&[-3, -1, -2, -1]), Some(1));
    assert_eq!(best_candidate(&[]), None);
}

#[test]
fn framerate_that_fits_is_guessed() {
    // The incoming intervals fit the reference once they are scaled by 25 / 24.
    let reference: Vec<TimeSpan> = (0i64..40)
        .map(|i| span(i * 2500 + (i % 7) * 100, i * 2500 + 1200 + (i % 5) * 125))
        .collect();
    let incoming: Vec<TimeSpan> =
        reference.iter().map(|s| span(s.start * 24 / 25, s.end * 24 / 25)).collect();
    let interval = 1;
    let reference = engine_spans(&TimeSpans(reference).to_alass_timespans(interval));
    let incoming = engine_spans(&TimeSpans(incoming).to_alass_timespans(interval));

    let mut plan = SyncPlan::new(incoming.len(), FRAMERATES.len(), false, true);
    let mut scores = vec![];
    loop {
        match plan.next_step() {
            SyncStep::ScoreFramerate { candidate } => {
                let score = overlap_key(&reference, &incoming, FRAMERATES[candidate] / 24.0);
                scores.push(score);
                assert!(plan.advance(SyncEvent::Scored { score }));
            }
            step => {
                assert_eq!(step, SyncStep::AlignNoSplit { framerate: Some(2) });
                break;
            }
        }
    }
    assert_eq!(scores.len(), 8);
    assert_eq!(best_candidate(&scores), Some(2));
    assert_eq!(FRAMERATES[2], 25.0);
}

#[test]
fn plan_without_framerate_correction_aligns_at_once() {
    let mut plan = SyncPlan::new(3, 8, true, false);
    assert_eq!(plan.next_step(), SyncStep::AlignSplit { framerate: None });
    assert_eq!(plan.corrected(&[span(0, 10)], 60), None);
    // Reports that were not asked for are not taken.
    assert!(!plan.advance(SyncEvent::Scored { score: 5 }));
    assert!(!plan.advance(SyncEvent::AlignedNoSplit { delta: 5 }));
    assert_eq!(plan.next_step(), SyncStep::AlignSplit { framerate: None });
    assert!(plan.advance(SyncEvent::Aligned { deltas: vec![1, -2, 3] }));
    assert_eq!(plan.next_step(), SyncStep::Correct { framerate: None });
    assert!(!plan.advance(SyncEvent::Aligned { deltas: vec![9, 9, 9] }));
    assert_eq!(
        plan.corrected(&[span(0, 10), span(100, 200), span(-5, 5)], 60),
        Some(vec![span(60, 70), span(-20, 80), span(175, 185)])
    );
}

#[test]
fn plan_without_splits_shifts_every_entry_alike() {
    let mut plan = SyncPlan::new(4, 8, false, false);
    assert_eq!(plan.next_step(), SyncStep::AlignNoSplit { framerate: None });
    assert!(!plan.advance(SyncEvent::Aligned { deltas: vec![1, 2, 3, 4] }));
    assert!(plan.advance(SyncEvent::AlignedNoSplit { delta: -3 }));
    assert_eq!(plan.next_step(), SyncStep::Correct { framerate: None });
    assert_eq!(
        plan.corrected(&[span(0, 10), span(100, 200), span(300, 400), span(1, 2)], 10),
        Some(vec![span(-30, -20), span(70, 170), span(270, 370), span(-29, -28)])
    );
}

#[test]
fn plan_scores_every_candidate_in_order() {
    let mut plan = SyncPlan::new(2, 3, true, true);
    assert_eq!(plan.next_step(), SyncStep::ScoreFramerate { candidate: 0 });
    assert!(!plan.advance(SyncEvent::Aligned { deltas: vec![0, 0] }));
    assert!(plan.advance(SyncEvent::Scored { score: 10 }));
    assert_eq!(plan.next_step(), SyncStep::ScoreFramerate { candidate: 1 });
    assert!(plan.advance(SyncEvent::Scored { score: 30 }));
    assert_eq!(plan.next_step(), SyncStep::ScoreFramerate { candidate: 2 });
    assert_eq!(plan.corrected(&[], 60), None);
    assert!(plan.advance(SyncEvent::Scored { score: 30 }));
    // Candidates 1 and 2 share the highest score: the first of them is taken.
    assert_eq!(plan.next_step(), SyncStep::AlignSplit { framerate: Some(1) });
    assert!(!plan.advance(SyncEvent::Scored { score: 99 }));
    assert!(plan.advance(SyncEvent::Aligned { deltas: vec![2, 4] }));
    assert_eq!(plan.next_step(), SyncStep::Correct { framerate: Some(1) });
    assert_eq!(plan.corrected(&[span(5, 6), span(7, 8)], 100), Some(vec![span(205, 206), span(407, 408)]));
}

#[test]
fn plan_without_candidates_scales_nothing() {
    let mut plan = SyncPlan::new(1, 0, false, true);
    assert_eq!(plan.next_step(), SyncStep::AlignNoSplit { framerate: None });
    assert!(plan.advance(SyncEvent::AlignedNoSplit { delta: 1 }));
    assert_eq!(plan.corrected(&[span(0, 1)], 60), Some(vec![span(60, 61)]));
}

#[test]
fn entries_are_shifted_as_far_as_shifts_reach() {
    assert_eq!(
        corrected_spans(&[span(0, 10), span(20, 30), span(40, 50)], &[1, -1], 60),
        vec![span(60, 70), span(-40, -30)]
    );
    assert_eq!(corrected_spans(&[span(0, 10)], &[1, 2, 3], 60), vec![span(60, 70)]);
    assert_eq!(corrected_spans(&[], &[1, 2, 3], 60), vec![]);
    assert_eq!(corrected_spans(&[span(500, 100)], &[0], 60), vec![span(500, 100)]);
    assert_eq!(uniform_deltas(-4, 3), vec![-4, -4, -4]);
    assert_eq!(uniform_deltas(9, 0), Vec::<i64>::new());
}

#[test]
fn binary_sub_files_cannot_be_synced() {
    assert!(is_format_supported("a.srt", SubtitleFormat::SubRip, true).is_ok());
    assert!(is_format_supported("a.ass", SubtitleFormat::SubStationAlpha, true).is_ok());
    assert!(is_format_supported("a.idx", SubtitleFormat::VobSubIdx, true).is_ok());
    assert!(is_format_supported("a.sub", SubtitleFormat::MicroDVD, true).is_ok());
    match is_format_supported("a.sub", SubtitleFormat::VobSubSub, true) {
        Err(SyncError::UnsupportedFormat { path, format }) => {
            assert_eq!(path, "a.sub");
            assert_eq!(format, Some(SubtitleFormat::VobSubSub));
        }
        _ => panic!("binary .sub file taken"),
    }
    match is_format_supported("a.txt", SubtitleFormat::SubRip, false) {
        Err(SyncError::UnsupportedFormat { path, format }) => {
            assert_eq!(path, "a.txt");
            assert_eq!(format, Some(SubtitleFormat::SubRip));
        }
        _ => panic!("extension that does not fit taken"),
    }
}

#[test]
fn formats_have_names() {
    assert_eq!(SubtitleFormat::SubRip.get_name(), ".srt (SubRip)");
    assert_eq!(SubtitleFormat::SubStationAlpha.get_name(), ".ssa (SubStation Alpha)");
    assert_eq!(SubtitleFormat::VobSubIdx.get_name(), ".idx (VobSub)");
    assert_eq!(SubtitleFormat::VobSubSub.get_name(), ".sub (VobSub)");
    assert_eq!(SubtitleFormat::MicroDVD.get_name(), ".sub (MicroDVD)");
}

#[test]
fn sync_errors_have_messages() {
    let path = || String::from("movie.srt");
    assert_eq!(
        SyncError::UnsupportedFormat { path: path(), format: Some(SubtitleFormat::VobSubSub) }.message(),
        "Subtitle format not supported (path='movie.srt', format='.sub (VobSub)')"
    );
    assert_eq!(
        SyncError::UnsupportedFormat { path: path(), format: None }.message(),
        "Subtitle format not supported (path='movie.srt', format='N/A')"
    );
    assert_eq!(
        SyncError::ReadError { path: path(), cause: String::from("broken pipe") }.message(),
        "Error reading subtitle file from disk (msg='broken pipe' path='movie.srt')"
    );
    assert_eq!(
        SyncError::DoesNotExist { path: path() }.message(),
        "Subtitle file does not exist (path='movie.srt')"
    );
    assert_eq!(
        SyncError::PermissionDenied { path: path() }.message(),
        "Insufficient privileges to open subtitle file (path='movie.srt')"
    );
    assert_eq!(
        SyncError::ParseError { path: path() }.message(),
        "Error parsing subtitle file (path='movie.srt')"
    );
    assert_eq!(
        SyncError::WriteError { path: path(), cause: String::from("disk full") }.message(),
        "Error writing subtitle data to disk (msg='disk full' path='movie.srt')"
    );
    assert_eq!(
        SyncError::SerializeError { path: path(), cause: String::from("bad entry") }.message(),
        "Error serializing subtitle data (msg='bad entry', path='movie.srt')"
    );
    assert_eq!(
        SyncError::InternalError { msg: String::from("oops") }.message(),
        "Unknown sync error occurred (msg='oops')"
    );
}

#[test]
fn read_failures_are_told_apart() {
    let made = |failure| SyncError::unreadable(failure, String::from("why"), String::from("p"));
    match made(ReadFailure::NotFound) {
        SyncError::DoesNotExist { path } => assert_eq!(path, "p"),
        other => panic!("another error: {}", other.message()),
    }
    match made(ReadFailure::PermissionDenied) {
        SyncError::PermissionDenied { path } => assert_eq!(path, "p"),
        other => panic!("another error: {}", other.message()),
    }
    match made(ReadFailure::Other) {
        SyncError::ReadError { path, cause } => {
            assert_eq!(path, "p");
            assert_eq!(cause, "why");
        }
        other => panic!("another error: {}", other.message()),
    }
}

#[test]
fn writer_failures_become_unsupported_format_or_internal_error() {
    let unsupported = SubtitleFailure::UpdatingEntriesNotSupported { format: SubtitleFormat::VobSubIdx };
    match SyncError::from_failure(unsupported, "Error while updating subtitle entries", String::from("a.idx")) {
        SyncError::UnsupportedFormat { path, format } => {
            assert_eq!(path, "a.idx");
            assert_eq!(format, Some(SubtitleFormat::VobSubIdx));
        }
        other => panic!("another error: {}", other.message()),
    }
    let other = SubtitleFailure::Other { detail: String::from("parsing the subtitle data failed") };
    match SyncError::from_failure(other, "Error while updating subtitle entries", String::from("a.srt")) {
        SyncError::InternalError { msg } => assert_eq!(
            msg,
            "Error while updating subtitle entries (parsing the subtitle data failed)"
        ),
        other => panic!("another error: {}", other.message()),
    }
}

#[test]
fn every_kind_of_error_has_its_code() {
    let path = || String::from("p");
    let cause = || String::from("c");
    assert_eq!(sync_error_code(&SyncError::UnsupportedFormat { path: path(), format: None }), 4);
    assert_eq!(sync_error_code(&SyncError::ReadError { path: path(), cause: cause() }), 5);
    assert_eq!(sync_error_code(&SyncError::DoesNotExist { path: path() }), 6);
    assert_eq!(sync_error_code(&SyncError::PermissionDenied { path: path() }), 7);
    assert_eq!(sync_error_code(&SyncError::ParseError { path: path() }), 8);
    assert_eq!(sync_error_code(&SyncError::WriteError { path: path(), cause: cause() }), 9);
    assert_eq!(sync_error_code(&SyncError::SerializeError { path: path(), cause: cause() }), 10);
    assert_eq!(sync_error_code(&SyncError::InternalError { msg: cause() }), 1);
    assert_eq!(sink_error_code(&AudioSinkError::SinkClosed), 3);
    assert_eq!(sink_error_code(&AudioSinkError::SinkOpen), 1);
    assert_eq!(sink_error_code(&AudioSinkError::VoiceDetectionError), 1);
    assert_eq!(save_error_code(&TimeSpansSaveError::SerializeError { cause: cause() }), 10);
    assert_eq!(save_error_code(&TimeSpansSaveError::WriteError { cause: cause() }), 9);
    assert_eq!(
        [
            ALASS_SUCCESS,
            ALASS_INTERNAL_ERROR,
            ALASS_INVALID_PARAMS,
            ALASS_SINK_CLOSED,
            ALASS_UNSUPPORTED_FORMAT,
            ALASS_READ_ERROR,
            ALASS_FILE_DOES_NOT_EXIST,
            ALASS_PERMISSION_DENIED,
            ALASS_PARSE_ERROR,
            ALASS_WRITE_ERROR,
            ALASS_SERIALIZE_ERROR,
            ALASS_LOG_ALREADY_CONFIGURED,
        ],
        [0, 1, 2, 3, 4, 5, 6, 7, 8, 9, 10, 11]
    );
}

#[test]
fn frames_hold_the_rounded_number_of_samples() {
    assert_eq!(chunk_size(30, 8000), Some(240));
    assert_eq!(chunk_size(96, 16000), Some(1536));
    assert_eq!(chunk_size(10, 44100), Some(441));
    // 0.499 samples round down, 0.5 samples round up, as do 1.5.
    assert_eq!(chunk_size(1, 499), Some(0));
    assert_eq!(chunk_size(1, 500), Some(1));
    assert_eq!(chunk_size(1, 1499), Some(1));
    assert_eq!(chunk_size(1, 1500), Some(2));
    assert_eq!(chunk_size(0, 8000), Some(0));
    assert_eq!(chunk_size(30, 0), Some(0));
    assert_eq!(chunk_size(1000, usize::MAX), Some(usize::MAX));
    assert_eq!(chunk_size(1001, usize::MAX), None);
    assert_eq!(chunk_size(usize::MAX, usize::MAX), None);
}
