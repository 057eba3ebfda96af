use rom_downloader::backend::{
    bucket_prefix, cancelled, create_backend, games_from_listing, head_size, listing_status, listing_url,
    on_download_status, plan_download, range_header, redirect_step, resume_offset, retries_exhausted,
    too_many_redirects, AttemptResult, BackendError, DownloadStart, IABackend, ListedFile, RedirectStep,
    MAX_ATTEMPTS, MAX_REDIRECT_HOPS, RETRY_DELAY_SECS,
};
use rom_downloader::config::{Bucket, Config, Credentials, Source, SourceType};

fn backend() -> IABackend {
    IABackend::new("AK".to_string(), "SK".to_string())
}

fn failed_message(e: &BackendError) -> String {
    e.message()
}

#[test]
fn download_url_encodes_each_segment() {
    let b = backend();
    assert_eq!(
        b.make_download_url("psx-chd", "CHD-PSX/Crash Bandicoot (USA).chd"),
        "https://archive.org/download/psx-chd/CHD-PSX/Crash%20Bandicoot%20%28USA%29.chd"
    );
    assert_eq!(b.make_download_url("b", "a-b_c.d~e"), "https://archive.org/download/b/a-b_c.d~e");
    assert_eq!(b.make_download_url("b", "Pokémon & Co+1"), "https://archive.org/download/b/Pok%C3%A9mon%20%26%20Co%2B1");
    assert_eq!(b.make_download_url("b", "/x//y/"), "https://archive.org/download/b//x//y/");
}

#[test]
fn auth_and_listing_urls() {
    assert_eq!(backend().auth_header(), "LOW AK:SK");
    assert_eq!(listing_url("psx_redump_part1"), "https://archive.org/metadata/psx_redump_part1/files");
}

#[test]
fn create_backend_uses_named_credentials() {
    let config = Config {
        sources: vec![],
        credentials: vec![("my_archive".to_string(), Credentials { access_key: "A".to_string(), secret_key: "S".to_string() })],
    };
    let mut source = Source {
        name: "S".to_string(),
        source_type: SourceType::S3Archive,
        credentials: "my_archive".to_string(),
        platform: "PS".to_string(),
        buckets: vec![],
        extract: false,
    };
    let b = create_backend(&source, &config).unwrap();
    assert_eq!(b.access_key, "A");
    assert_eq!(b.secret_key, "S");
    source.credentials = "other".to_string();
    match create_backend(&source, &config) {
        Err(BackendError::ListFailed(m)) => assert_eq!(m, "Credentials 'other' not found"),
        _ => panic!("expected a missing-credentials error"),
    }
}

#[test]
fn listing_keeps_sized_files_under_the_path() {
    let files = vec![
        ListedFile { name: "CHD-PSX/Game A.chd".to_string(), size: Some("1024".to_string()) },
        ListedFile { name: "CHD-PSX/meta.xml".to_string(), size: None },
        ListedFile { name: "Other/Game B.chd".to_string(), size: Some("5".to_string()) },
        ListedFile { name: "CHD-PSXX/Game C.chd".to_string(), size: Some("5".to_string()) },
        ListedFile { name: "CHD-PSX/Game D.chd".to_string(), size: Some("12x".to_string()) },
        ListedFile { name: "CHD-PSX/Game E.chd".to_string(), size: Some("7".to_string()) },
    ];
    let bucket = Bucket { name: "item".to_string(), path: "CHD-PSX".to_string() };
    assert_eq!(bucket_prefix(&bucket), "CHD-PSX/");
    let games = games_from_listing(&files, &bucket);
    let got: Vec<(&str, u64, &str)> = games.iter().map(|g| (g.key.as_str(), g.file_size, g.bucket_name.as_str())).collect();
    assert_eq!(got, vec![("CHD-PSX/Game A.chd", 1024, "item"), ("CHD-PSX/Game E.chd", 7, "item")]);

    let all = Bucket { name: "item2".to_string(), path: String::new() };
    assert_eq!(bucket_prefix(&all), "");
    assert_eq!(games_from_listing(&files, &all).len(), 4);
}

#[test]
fn download_planning() {
    match plan_download("k", 0, 0) {
        DownloadStart::Fail(e) => assert_eq!(failed_message(&e), "Download failed: File size is 0 for key 'k'"),
        _ => panic!("expected a failure"),
    }
    assert!(matches!(plan_download("k", 10, 10), DownloadStart::AlreadyComplete));
    assert!(matches!(plan_download("k", 11, 10), DownloadStart::AlreadyComplete));
    assert!(matches!(plan_download("k", 9, 10), DownloadStart::Fetch));
    assert_eq!(range_header(0), None);
    assert_eq!(range_header(1234), Some("bytes=1234-".to_string()));
}

#[test]
fn download_status_decisions() {
    assert!(matches!(on_download_status(200, "k"), AttemptResult::Accept));
    assert!(matches!(on_download_status(206, "k"), AttemptResult::Accept));
    for s in [500, 502, 503] {
        assert!(matches!(on_download_status(s, "k"), AttemptResult::Retry));
    }
    match on_download_status(404, "Game.chd") {
        AttemptResult::Fail(BackendError::DownloadFailed(m)) => assert_eq!(m, "Download returned status 404 for 'Game.chd'"),
        _ => panic!("expected a failure"),
    }
    match retries_exhausted(503, "Game.chd") {
        BackendError::DownloadFailed(m) => assert_eq!(m, "Download failed after 5 retries (last status=503) for 'Game.chd'"),
        _ => panic!("expected a download failure"),
    }
    assert_eq!(resume_offset(100, 206), 100);
    assert_eq!(resume_offset(100, 200), 0);
    assert_eq!(resume_offset(0, 200), 0);
    assert_eq!(MAX_ATTEMPTS, 5);
    assert_eq!(RETRY_DELAY_SECS, 5);
}

#[test]
fn redirects() {
    assert!(matches!(redirect_step(200, None), RedirectStep::Done));
    assert!(matches!(redirect_step(404, Some("x".to_string())), RedirectStep::Done));
    for s in [301, 302, 307, 308] {
        match redirect_step(s, Some("https://ia800.us.archive.org/x".to_string())) {
            RedirectStep::Follow(l) => assert_eq!(l, "https://ia800.us.archive.org/x"),
            _ => panic!("expected to follow"),
        }
    }
    match redirect_step(302, None) {
        RedirectStep::Fail(BackendError::DownloadFailed(m)) => assert_eq!(m, "Redirect 302 without Location header"),
        _ => panic!("expected a failure"),
    }
    assert_eq!(failed_message(&too_many_redirects()), "Download failed: Too many redirects");
    assert_eq!(MAX_REDIRECT_HOPS, 10);
}

#[test]
fn head_and_listing_status() {
    assert_eq!(head_size(200, Some("4096".to_string())).unwrap(), 4096);
    assert_eq!(head_size(200, Some("abc".to_string())).unwrap(), 0);
    assert_eq!(head_size(200, None).unwrap(), 0);
    match head_size(404, Some("1".to_string())) {
        Err(BackendError::ListFailed(m)) => assert_eq!(m, "HEAD returned status 404"),
        _ => panic!("expected an error"),
    }
    assert!(listing_status(200).is_none());
    match listing_status(503) {
        Some(BackendError::ListFailed(m)) => assert_eq!(m, "Metadata API returned status 503"),
        _ => panic!("expected an error"),
    }
    assert_eq!(failed_message(&cancelled(true)), "List failed: Cancelled");
    assert_eq!(failed_message(&cancelled(false)), "Download failed: Cancelled");
}
