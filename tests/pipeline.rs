use yt_shortmaker::chunks::calculate_chunks;
use yt_shortmaker::pipeline::{Directive, Pipeline, Progress, RunOutcome};
use yt_shortmaker::pool::CredentialPool;
use yt_shortmaker::provider::{
    classify_failure, strip_code_fence, AttemptOutcome, ChunkAttempt, FailureKind, FileState,
    Step,
};
use yt_shortmaker::rebase::{rebase_moments, rebase_timestamp};
use yt_shortmaker::types::{DialoguePhrase, VideoMoment};

fn keys(n: usize) -> Vec<(String, String)> {
    (1..=n).map(|i| (format!("Key {}", i), format!("secret-{}", i))).collect()
}

fn moment(start: &str, end: &str, category: &str) -> VideoMoment {
    VideoMoment {
        start_time: start.to_string(),
        end_time: end.to_string(),
        category: category.to_string(),
        description: format!("{} moment", category),
        dialogue: vec![DialoguePhrase {
            start_time: start.to_string(),
            end_time: end.to_string(),
            phrase: "Hello world".to_string(),
        }],
    }
}

#[test]
fn pool_scans_from_cursor_and_wraps() {
    let mut pool = CredentialPool::new(keys(3));
    assert_eq!(pool.active_index(), Some(0));
    pool.rotate();
    assert_eq!(pool.active_index(), Some(1));
    pool.disable("secret-2");
    assert_eq!(pool.active_index(), Some(2));
    pool.rotate();
    assert_eq!(pool.active_index(), Some(0));
    pool.rotate();
    assert_eq!(pool.active_index(), Some(2));
    assert_eq!(pool.get_active().unwrap().name, "Key 3");
}

#[test]
fn disabled_credential_never_returns() {
    let mut pool = CredentialPool::new(keys(2));
    pool.disable("secret-1");
    for _ in 0..5 {
        let c = pool.get_active().unwrap();
        assert_ne!(c.secret, "secret-1");
        pool.rotate();
    }
}

#[test]
fn all_disabled_pool_has_none() {
    let mut pool = CredentialPool::new(keys(2));
    pool.disable("secret-1");
    pool.disable("secret-2");
    assert!(pool.get_active().is_none());
    assert!(CredentialPool::new(Vec::new()).get_active().is_none());
}

#[test]
fn rebase_by_zero_is_identity() {
    let ms = vec![moment("02:33", "garbage", "Cinematic")];
    let out = rebase_moments(&ms, 0);
    assert_eq!(out[0].start_time, "02:33");
    assert_eq!(out[0].end_time, "garbage");
}

#[test]
fn rebase_adds_offset_and_composes() {
    let ms = vec![moment("00:05:20", "00:06:10", "Funny")];
    let once = rebase_moments(&ms, 1800);
    assert_eq!(once[0].start_time, "00:35:20");
    assert_eq!(once[0].end_time, "00:36:10");
    assert_eq!(once[0].dialogue[0].start_time, "00:35:20");
    assert_eq!(once[0].dialogue[0].phrase, "Hello world");
    let twice = rebase_moments(&once, 1800);
    let direct = rebase_moments(&ms, 3600);
    assert_eq!(twice[0].start_time, direct[0].start_time);
    assert_eq!(twice[0].start_time, "01:05:20");
    assert_eq!(rebase_timestamp(&"bad".to_string(), 61), "00:01:01");
    assert_eq!(rebase_timestamp(&"18446744073709551615:0:0".to_string(), 1), "00:00:01");
}

#[test]
fn code_fence_is_removed() {
    assert_eq!(strip_code_fence("  ```json\n{\"moments\": []}\n```  "), "{\"moments\": []}");
    assert_eq!(strip_code_fence("```\n[]\n```"), "[]");
    assert_eq!(strip_code_fence("[1]"), "[1]");
}

#[test]
fn failures_are_classified() {
    assert_eq!(classify_failure(Some(429), ""), FailureKind::Quota);
    assert_eq!(classify_failure(None, "Gemini API error: quota exceeded"), FailureKind::Quota);
    assert_eq!(classify_failure(None, "Status: Some(\"RESOURCE_EXHAUSTED\")"), FailureKind::Quota);
    assert_eq!(classify_failure(Some(500), "internal"), FailureKind::Transient);
    assert_eq!(classify_failure(None, "connection reset"), FailureKind::Transient);
}

#[test]
fn attempt_polls_until_active() {
    let (mut a, step) = ChunkAttempt::new(0, 1800, true);
    assert_eq!(step, Step::Upload);
    assert_eq!(a.on_upload(Ok(())), Step::Poll { delay_seconds: 0 });
    assert_eq!(a.on_file_state(FileState::Processing, false), Step::Poll { delay_seconds: 2 });
    assert_eq!(a.on_file_state(FileState::Active, false), Step::Analyze);
    assert_eq!(a.on_analysis(Ok(vec![moment("00:00:10", "00:00:40", "Funny")])), Step::Finish);
    match a.into_outcome() {
        AttemptOutcome::Moments(ms) => assert_eq!(ms[0].start_time, "00:30:10"),
        other => panic!("unexpected {:?}", other),
    }
}

#[test]
fn attempt_times_out_after_poll_limit() {
    let (mut a, _) = ChunkAttempt::new(0, 0, true);
    a.on_upload(Ok(()));
    for _ in 0..59 {
        assert_eq!(a.on_file_state(FileState::Processing, false), Step::Poll { delay_seconds: 2 });
    }
    assert_eq!(a.on_file_state(FileState::Processing, false), Step::Finish);
    assert!(matches!(a.into_outcome(), AttemptOutcome::Failed(FailureKind::Transient)));
}

#[test]
fn attempt_failed_file_is_transient() {
    let (mut a, _) = ChunkAttempt::new(0, 0, true);
    a.on_upload(Ok(()));
    assert_eq!(a.on_file_state(FileState::Failed, false), Step::Finish);
    assert!(matches!(a.into_outcome(), AttemptOutcome::Failed(FailureKind::Transient)));
}

#[test]
fn inline_attempt_goes_straight_to_analysis() {
    let (mut a, step) = ChunkAttempt::new(1, 0, false);
    assert_eq!(step, Step::Analyze);
    a.on_analysis(Err(FailureKind::Quota));
    assert!(matches!(a.into_outcome(), AttemptOutcome::Failed(FailureKind::Quota)));
}

#[test]
fn quota_on_second_chunk_switches_credential() {
    // 5000 s plans to three chunks: 1800 + 1800 + 1400
    let starts: Vec<u64> = calculate_chunks(5000).iter().map(|c| c.0).collect();
    assert_eq!(starts, vec![0, 1800, 3600]);
    let mut p = Pipeline::new(starts, 0, Vec::new(), CredentialPool::new(keys(2)));

    // chunk 1 on credential 1
    assert_eq!(p.next_directive(false), Directive::Analyze { chunk: 0, credential: 0 });
    let first = rebase_moments(&vec![moment("00:01:00", "00:01:30", "Funny")], p.chunk_start(0));
    assert_eq!(p.record(0, AttemptOutcome::Moments(first)), Progress::Checkpoint);

    // chunk 2: after the rotation on success the cursor is on credential 2;
    // a transient failure there brings it back to credential 1
    assert_eq!(p.next_directive(false), Directive::Analyze { chunk: 1, credential: 1 });
    assert_eq!(p.record(1, AttemptOutcome::Failed(FailureKind::Transient)), Progress::Retry);
    assert_eq!(p.next_directive(false), Directive::Analyze { chunk: 1, credential: 0 });
    assert_eq!(
        p.record(0, AttemptOutcome::Failed(FailureKind::Quota)),
        Progress::CredentialDisabled
    );
    assert!(!p.pool().is_enabled(0));

    // the same chunk is retried on credential 2 and succeeds
    assert_eq!(p.next_directive(false), Directive::Analyze { chunk: 1, credential: 1 });
    let second = rebase_moments(&vec![moment("00:02:00", "00:02:45", "Cinematic")], p.chunk_start(1));
    assert_eq!(p.record(1, AttemptOutcome::Moments(second)), Progress::Checkpoint);

    // credential 1 stays out for the rest of the run
    assert_eq!(p.next_directive(false), Directive::Analyze { chunk: 2, credential: 1 });
    let third = rebase_moments(&vec![moment("00:00:10", "00:00:50", "Other")], p.chunk_start(2));
    assert_eq!(p.record(1, AttemptOutcome::Moments(third)), Progress::Checkpoint);
    assert_eq!(p.next_directive(false), Directive::Stop(RunOutcome::Completed));

    let ms = p.moments();
    assert_eq!(ms.len(), 3);
    assert_eq!(ms[0].category, "Funny");
    assert_eq!(ms[0].start_time, "00:01:00");
    assert_eq!(ms[1].category, "Cinematic");
    assert_eq!(ms[1].start_time, "00:32:00");
    assert_eq!(ms[1].end_time, "00:32:45");
    assert_eq!(ms[2].start_time, "01:00:10");
    assert!(!p.needs_fallback());
}

#[test]
fn cancel_while_polling_keeps_first_chunk() {
    let starts: Vec<u64> = calculate_chunks(5400).iter().map(|c| c.0).collect();
    assert_eq!(starts.len(), 3);
    let mut p = Pipeline::new(starts, 0, Vec::new(), CredentialPool::new(keys(1)));
    let url = "https://youtu.be/abc".to_string();
    let dir = "/tmp/work".to_string();

    assert_eq!(p.next_directive(false), Directive::Analyze { chunk: 0, credential: 0 });
    let first = rebase_moments(&vec![moment("00:00:05", "00:00:25", "Funny")], 0);
    assert_eq!(p.record(0, AttemptOutcome::Moments(first)), Progress::Checkpoint);
    let saved = p.session(&url, &dir);

    assert_eq!(p.next_directive(false), Directive::Analyze { chunk: 1, credential: 0 });
    let (mut a, _) = ChunkAttempt::new(0, p.chunk_start(1), true);
    a.on_upload(Ok(()));
    assert_eq!(a.on_file_state(FileState::Processing, false), Step::Poll { delay_seconds: 2 });
    // the flag is raised during the wait: the next poll ends the attempt
    assert_eq!(a.on_file_state(FileState::Processing, true), Step::Finish);
    assert_eq!(p.record(0, a.into_outcome()), Progress::Stopped);
    assert_eq!(p.next_directive(false), Directive::Stop(RunOutcome::Cancelled));

    assert_eq!(p.moments().len(), 1);
    assert_eq!(p.moments()[0].category, "Funny");
    assert_eq!(saved.moments.len(), 1);
    assert_eq!(saved.youtube_url, url);
    assert!(!p.needs_fallback());
}

#[test]
fn cancel_before_chunk_stops() {
    let mut p = Pipeline::new(vec![0, 1800], 0, Vec::new(), CredentialPool::new(keys(1)));
    assert_eq!(p.next_directive(true), Directive::Stop(RunOutcome::Cancelled));
    assert_eq!(p.next_directive(false), Directive::Stop(RunOutcome::Cancelled));
}

#[test]
fn exhausted_pool_stops_and_falls_back_once() {
    let mut p = Pipeline::new(vec![0, 1800], 0, Vec::new(), CredentialPool::new(keys(2)));
    let mut fallbacks = 0;
    loop {
        match p.next_directive(false) {
            Directive::Analyze { credential, .. } => {
                p.record(credential, AttemptOutcome::Failed(FailureKind::Quota));
            }
            Directive::Stop(outcome) => {
                assert_eq!(outcome, RunOutcome::PoolExhausted);
                if p.needs_fallback() {
                    fallbacks += 1;
                }
                break;
            }
        }
    }
    assert_eq!(fallbacks, 1);
    assert_eq!(p.chunks_succeeded(), 0);
    assert!(p.moments().is_empty());
}

#[test]
fn transient_failures_abandon_chunk_after_limit() {
    let mut p = Pipeline::new(vec![0, 1800], 0, Vec::new(), CredentialPool::new(keys(1)));
    for _ in 0..2 {
        assert_eq!(p.next_directive(false), Directive::Analyze { chunk: 0, credential: 0 });
        assert_eq!(p.record(0, AttemptOutcome::Failed(FailureKind::Transient)), Progress::Retry);
    }
    assert_eq!(
        p.record(0, AttemptOutcome::Failed(FailureKind::Transient)),
        Progress::ChunkAbandoned
    );
    assert_eq!(p.next_directive(false), Directive::Analyze { chunk: 1, credential: 0 });
}
