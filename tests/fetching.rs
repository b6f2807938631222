use samogon::fetch::{
    bottle_for, cache_file_name, check_cached, download_total, entry_is_intact, fmt_digest,
    incomplete_name, range_header, request_offset, verify_download, FetchAction, FetchError,
    FetchEvent, FetchPhase, FetchTask,
};
use samogon::pool::{FetchPool, PoolAction};
use samogon::repo::{Bottle, FormulaStable};

const ABC_DIGEST: &str = "ba7816bf8f01cfea414140de5dae2223b00361a396177a9cb410ff61f20015ad";

fn wget() -> FormulaStable {
    FormulaStable {
        name: "wget".to_string(),
        description: "Internet file retriever".to_string(),
        version: "1.21.4".to_string(),
        revision: 2,
        bottles: vec![(
            "sonoma".to_string(),
            Bottle {
                cellar: "/opt/homebrew/Cellar".to_string(),
                url: "abc".to_string(),
                sha256: ABC_DIGEST.to_string(),
            },
        )],
        deps: vec!["openssl@3".to_string()],
        opt_deps: Vec::new(),
        rec_deps: Vec::new(),
    }
}

#[test]
fn version_joins_revision() {
    assert_eq!(wget().version_fmt(), "1.21.4_2");
    let mut f = wget();
    f.revision = -3;
    assert_eq!(f.version_fmt(), "1.21.4_-3");
}

#[test]
fn missing_platform_is_unavailable() {
    match bottle_for(&wget(), &"ventura".to_string()) {
        Err(FetchError::UnavailableForPlatform { name, platform }) => {
            assert_eq!(name, "wget");
            assert_eq!(platform, "ventura");
        }
        other => panic!("unexpected {:?}", other.map(|b| b.url.clone())),
    }
}

#[test]
fn present_platform_gives_bottle() {
    let f = wget();
    let b = bottle_for(&f, &"sonoma".to_string()).unwrap();
    assert_eq!(b.url, "abc");
}

#[test]
fn cache_name_combines_url_digest_and_identity() {
    let f = wget();
    let name = cache_file_name(&f, &f.bottles[0].1, "sonoma");
    assert_eq!(name, format!("{}--wget--1.21.4_2.sonoma.bottle.tar.gz", ABC_DIGEST));
    assert_eq!(incomplete_name(&name), format!("{}.incomplete", name));
}

#[test]
fn digest_text_is_lowercase_hex() {
    assert_eq!(fmt_digest(&[0x01, 0xab, 0xff]), "01abff");
    assert_eq!(fmt_digest(&[]), "");
    assert!(check_cached(&[0x0f], &"0f".to_string()));
    assert!(!check_cached(&[0x0f], &"0e".to_string()));
}

#[test]
fn integrity_check_is_repeatable() {
    let c = ABC_DIGEST.to_string();
    let first = entry_is_intact(b"abc", &c);
    let second = entry_is_intact(b"abc", &c);
    assert!(first);
    assert_eq!(first, second);
}

#[test]
fn corrupted_byte_is_detected_and_refetched() {
    let c = ABC_DIGEST.to_string();
    assert!(!entry_is_intact(b"abd", &c));
    let mut t = FetchTask::new(3);
    assert_eq!(t.step(FetchEvent::Begin), FetchAction::CheckCache);
    assert_eq!(t.step(FetchEvent::CacheStale), FetchAction::RemoveStale);
    assert_eq!(t.step(FetchEvent::StaleRemoved), FetchAction::Download { resume: true });
    assert_eq!(t.step(FetchEvent::AttemptOk), FetchAction::Promote);
    assert_eq!(t.step(FetchEvent::Promoted), FetchAction::Finish);
    assert_eq!(t.phase, FetchPhase::Done);
}

#[test]
fn cache_hit_needs_no_download() {
    let mut t = FetchTask::new(3);
    t.step(FetchEvent::Begin);
    assert_eq!(t.step(FetchEvent::CacheHit), FetchAction::Finish);
    assert_eq!(t.attempts, 0);
}

#[test]
fn resume_requests_from_partial_size() {
    assert_eq!(request_offset(true, 4096), 4096);
    assert_eq!(request_offset(false, 4096), 0);
    assert_eq!(range_header(4096), "bytes=4096-");
    assert_eq!(range_header(0), "bytes=0-");
}

#[test]
fn missing_content_length_fails() {
    assert!(matches!(download_total(None), Err(FetchError::ContentLengthMissing)));
    assert_eq!(download_total(Some(10)).unwrap(), 10);
}

#[test]
fn wrong_digest_is_corrupted() {
    let c = "00".to_string();
    assert!(matches!(verify_download(&[0x01], &c), Err(FetchError::DownloadCorrupted)));
    assert!(verify_download(&[0x00], &c).is_ok());
}

#[test]
fn all_failing_attempts_count_one_plus_retries() {
    let retries = 3;
    let mut t = FetchTask::new(retries);
    t.step(FetchEvent::Begin);
    let mut action = t.step(FetchEvent::CacheAbsent);
    assert_eq!(action, FetchAction::Download { resume: true });
    let mut downloads = 1;
    loop {
        action = t.step(FetchEvent::AttemptFailed);
        match action {
            FetchAction::Download { resume } => {
                assert!(!resume);
                downloads += 1;
            }
            FetchAction::GiveUp => break,
            other => panic!("unexpected {:?}", other),
        }
    }
    assert_eq!(downloads, 1 + retries);
    assert_eq!(t.phase, FetchPhase::Failed);
}

#[test]
fn pool_never_exceeds_bound() {
    let mut p = FetchPool::new(5, 2);
    assert_eq!(p.start(), 2);
    assert_eq!(p.on_finish(0, true), PoolAction::Launch(2));
    assert!(p.running <= 2);
    assert_eq!(p.on_finish(1, true), PoolAction::Launch(3));
    assert_eq!(p.on_finish(2, true), PoolAction::Launch(4));
    assert_eq!(p.on_finish(3, true), PoolAction::Wait);
    assert_eq!(p.on_finish(4, true), PoolAction::Finished);
    assert_eq!(p.completed, 5);
    assert_eq!(p.first_error, None);
}

#[test]
fn pool_stops_launching_after_failure() {
    let mut p = FetchPool::new(10, 3);
    assert_eq!(p.start(), 3);
    assert_eq!(p.on_finish(1, false), PoolAction::AbortAll);
    assert_eq!(p.on_finish(0, true), PoolAction::Wait);
    assert_eq!(p.on_finish(2, false), PoolAction::Finished);
    assert_eq!(p.launched, 3);
    assert_eq!(p.first_error, Some(1));
}

#[test]
fn pool_smaller_than_bound() {
    let mut p = FetchPool::new(1, 16);
    assert_eq!(p.start(), 1);
    assert_eq!(p.on_finish(0, true), PoolAction::Finished);
}
