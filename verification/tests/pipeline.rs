use catbox_cli::authentication::{fetch_text_outcome, login_form, login_outcome, AuthenticationError};
use catbox_cli::cache::{CacheStep, UserHashCache};
use catbox_cli::upload::{UploadBatch, UploadOutcome};
use catbox_cli::user::{plan_upload, upload_response, Progress, UserError};

#[test]
fn fifty_concurrent_getters_cause_one_fetch() {
    let mut cache = UserHashCache::new();
    let mut fetchers = 0;
    // Fifty callers arrive before the single fetch resolves.
    for _ in 0..50 {
        match cache.step() {
            CacheStep::MustFetch => fetchers += 1,
            CacheStep::Wait => {}
            CacheStep::Ready => panic!("nothing resolved yet"),
        }
    }
    assert_eq!(fetchers, 1);
    cache.resolve(Ok("abc123".to_string()));
    // All fifty observe the same stored value, with no further fetch.
    for _ in 0..50 {
        assert!(matches!(cache.step(), CacheStep::Ready));
        assert_eq!(cache.peek(), &Ok("abc123".to_string()));
    }
    assert_eq!(cache.fetches_started, 1);
}

#[test]
fn all_getters_share_the_same_failure() {
    let mut cache = UserHashCache::new();
    assert!(matches!(cache.step(), CacheStep::MustFetch));
    cache.resolve(Err(UserError::ErrorCode { code: 503 }));
    for _ in 0..50 {
        assert!(matches!(cache.step(), CacheStep::Ready));
        assert_eq!(cache.peek(), &Err(UserError::ErrorCode { code: 503 }));
    }
    assert_eq!(cache.fetches_started, 1);
}

fn paths(n: usize) -> Vec<String> {
    (0..n).map(|i| format!("file{}.bin", i)).collect()
}

#[test]
fn window_never_exceeds_the_limit_and_all_resolve() {
    let mut batch = UploadBatch::new(paths(12), 5);
    let mut max_in_flight = 0;
    let mut started = 0;
    while !batch.is_done() {
        while let Some(path) = batch.start_next() {
            started += 1;
            assert!(path.starts_with("file"));
            if batch.in_flight.len() > max_in_flight {
                max_in_flight = batch.in_flight.len();
            }
        }
        assert!(batch.in_flight.len() <= 5);
        // Whichever upload finishes first completes first; take the last
        // started to make completion order differ from input order.
        let done = batch.in_flight.last().unwrap().clone();
        let url = format!("https://files.catbox.moe/{}", done);
        batch.complete(done, Ok(url));
    }
    assert_eq!(started, 12);
    assert_eq!(max_in_flight, 5);
    assert_eq!(batch.outcomes.len(), 12);
    assert!(batch.aggregate().is_ok());
}

#[test]
fn completion_order_is_not_input_order() {
    let mut batch = UploadBatch::new(paths(3), 3);
    while batch.start_next().is_some() {}
    batch.complete("file2.bin".to_string(), Ok("u2".to_string()));
    batch.complete("file0.bin".to_string(), Ok("u0".to_string()));
    batch.complete("file1.bin".to_string(), Ok("u1".to_string()));
    let order: Vec<String> = batch.outcomes.iter().map(|o| o.path.clone()).collect();
    assert_eq!(order, vec!["file2.bin".to_string(), "file0.bin".to_string(), "file1.bin".to_string()]);
    assert_eq!(batch.aggregate(), Ok(vec!["u2".to_string(), "u0".to_string(), "u1".to_string()]));
}

#[test]
fn one_failure_keeps_the_other_outcomes_and_wins_the_aggregate() {
    let mut batch = UploadBatch::new(paths(3), 5);
    while batch.start_next().is_some() {}
    batch.complete("file0.bin".to_string(), Ok("u0".to_string()));
    batch.complete("file1.bin".to_string(), Err(UserError::ErrorCode { code: 500 }));
    batch.complete("file2.bin".to_string(), Ok("u2".to_string()));

    // Per-item visibility: every outcome stays reported.
    let seen: Vec<(String, bool)> =
        batch.outcomes.iter().map(|o| (o.path.clone(), o.result.is_ok())).collect();
    assert_eq!(
        seen,
        vec![
            ("file0.bin".to_string(), true),
            ("file1.bin".to_string(), false),
            ("file2.bin".to_string(), true),
        ]
    );
    // First-error-wins aggregate.
    assert_eq!(batch.aggregate(), Err(UserError::ErrorCode { code: 500 }));
}

#[test]
fn the_window_refills_as_uploads_complete() {
    let mut batch = UploadBatch::new(paths(2), 1);
    let first = batch.start_next().unwrap();
    assert_eq!(first, "file0.bin".to_string());
    assert!(batch.start_next().is_none());
    batch.complete(first, Ok("u0".to_string()));
    let second = batch.start_next().unwrap();
    assert_eq!(second, "file1.bin".to_string());
}

#[test]
fn upload_plan_carries_the_fixed_fields() {
    let plan = plan_upload("hash", "clip.mp4");
    assert_eq!(plan.reqtype, "fileupload".to_string());
    assert_eq!(plan.userhash, "hash".to_string());
    assert_eq!(plan.file_name, "clip.mp4".to_string());
}

#[test]
fn upload_response_returns_the_body_verbatim_on_success() {
    assert_eq!(
        upload_response(200, "https://files.catbox.moe/ok.png".to_string()),
        Ok("https://files.catbox.moe/ok.png".to_string())
    );
    assert_eq!(
        upload_response(299, "edge".to_string()),
        Ok("edge".to_string())
    );
    assert_eq!(
        upload_response(404, "body".to_string()),
        Err(UserError::ErrorCode { code: 404 })
    );
    assert_eq!(
        upload_response(302, "redirect".to_string()),
        Err(UserError::ErrorCode { code: 302 })
    );
}

#[test]
fn login_uses_the_exact_field_names_and_status_rule() {
    let form = login_form("kyle", "some_password");
    assert_eq!(
        form,
        vec![
            ("username".to_string(), "kyle".to_string()),
            ("password".to_string(), "some_password".to_string()),
        ]
    );
    assert!(login_outcome(204).is_ok());
    assert_eq!(login_outcome(401).err(), Some(AuthenticationError::ErrorCode { code: 401 }));
}

#[test]
fn fetch_text_outcome_follows_the_status() {
    assert_eq!(fetch_text_outcome(200, "<html>".to_string()), Ok("<html>".to_string()));
    assert_eq!(
        fetch_text_outcome(500, "<html>".to_string()).err(),
        Some(AuthenticationError::ErrorCode { code: 500 })
    );
}

#[test]
fn progress_counts_chunks_and_saturates() {
    let mut p = Progress::new(10);
    p.record_chunk(4);
    p.record_chunk(3);
    assert_eq!(p.transferred, 7);
    assert_eq!(p.total, 10);
    let mut q = Progress::new(u64::MAX);
    q.record_chunk(u64::MAX - 1);
    q.record_chunk(5);
    assert_eq!(q.transferred, u64::MAX);
}

#[test]
fn outcomes_correlate_by_path_not_position() {
    let mut batch = UploadBatch::new(paths(2), 2);
    while batch.start_next().is_some() {}
    batch.complete("file1.bin".to_string(), Err(UserError::ErrorCode { code: 500 }));
    batch.complete("file0.bin".to_string(), Ok("u0".to_string()));
    let failed: Vec<String> = batch
        .outcomes
        .iter()
        .filter(|o| o.result.is_err())
        .map(|o: &UploadOutcome| o.path.clone())
        .collect();
    assert_eq!(failed, vec!["file1.bin".to_string()]);
}

#[test]
fn a_finished_batch_accounts_for_every_input_path() {
    let mut batch = UploadBatch::new(paths(6), 2);
    while !batch.is_done() {
        while batch.start_next().is_some() {}
        let done = batch.in_flight.last().unwrap().clone();
        batch.complete(done, Ok("u".to_string()));
    }
    let mut seen: Vec<String> = batch.outcomes.iter().map(|o| o.path.clone()).collect();
    seen.sort();
    let mut expected = paths(6);
    expected.sort();
    assert_eq!(seen, expected);
}
