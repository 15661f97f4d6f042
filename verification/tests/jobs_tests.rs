use kiwi_downloader::jobs::{PendingJob, PendingJobs, JOB_TTL_MS};
use kiwi_downloader::media::MediaInfo;
use kiwi_downloader::models::VideoQuality;
use kiwi_downloader::source::Source;

fn job(url: &str, user: u64) -> PendingJob {
    PendingJob {
        url: url.to_string(),
        info: MediaInfo {
            source: Source::YouTube,
            webpage_url: url.to_string(),
            title: Some("t".to_string()),
            uploader: None,
            duration_seconds: None,
            qualities: vec![VideoQuality::Best],
            entries_count: 0,
            has_audio: true,
        },
        language_code: "en".to_string(),
        user_id: user,
    }
}

#[test]
fn inserted_job_is_found_until_it_expires() {
    let mut jobs = PendingJobs::new();
    let token = jobs.insert(job("https://youtu.be/a", 7), 1_000);
    assert_eq!(token.len(), 32);
    assert!(token.chars().all(|c| c.is_ascii_hexdigit()));
    assert_eq!(jobs.get(&token, 1_000).map(|j| j.url.clone()), Some("https://youtu.be/a".to_string()));
    assert_eq!(jobs.get(&token, 1_000 + JOB_TTL_MS - 1).map(|j| j.user_id), Some(7));
    assert!(jobs.get(&token, 1_000 + JOB_TTL_MS).is_none());
    assert!(jobs.get(&token, 0).is_some());
}

#[test]
fn unknown_token_is_not_found() {
    let mut jobs = PendingJobs::new();
    jobs.insert(job("a", 1), 0);
    assert!(jobs.get("nope", 0).is_none());
    assert!(jobs.take("nope", 0).is_none());
}

#[test]
fn take_is_one_shot() {
    let mut jobs = PendingJobs::new();
    let token = jobs.insert(job("u", 3), 10);
    let taken = jobs.take(&token, 20).unwrap();
    assert_eq!(taken.url, "u");
    assert!(jobs.take(&token, 20).is_none());
    assert!(jobs.get(&token, 20).is_none());
}

#[test]
fn expired_take_removes_and_returns_nothing() {
    let mut jobs = PendingJobs::new();
    let token = jobs.insert(job("u", 3), 0);
    assert!(jobs.take(&token, JOB_TTL_MS).is_none());
    assert!(jobs.get(&token, 0).is_none());
}

#[test]
fn insert_evicts_expired_and_keeps_live() {
    let mut jobs = PendingJobs::new();
    let old = jobs.insert(job("old", 1), 0);
    let live = jobs.insert(job("live", 2), 500_000);
    let fresh = jobs.insert(job("fresh", 3), JOB_TTL_MS + 1);
    assert!(jobs.get(&old, 0).is_none());
    assert_eq!(jobs.get(&live, JOB_TTL_MS + 1).map(|j| j.url.clone()), Some("live".to_string()));
    assert_eq!(jobs.get(&fresh, JOB_TTL_MS + 1).map(|j| j.url.clone()), Some("fresh".to_string()));
    assert_ne!(live, fresh);
}

#[test]
fn tokens_are_v4_uuids_in_lower_hex() {
    let mut jobs = PendingJobs::new();
    let token: Vec<char> = jobs.insert(job("u", 1), 0).chars().collect();
    assert_eq!(token.len(), 32);
    assert!(token.iter().all(|c| c.is_ascii_digit() || ('a'..='f').contains(c)));
    assert_eq!(token[12], '4');
    assert!(['8', '9', 'a', 'b'].contains(&token[16]));
    assert!(!token.contains(&':'));
}
