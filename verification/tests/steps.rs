use rom_downloader::backend::{
    extraction_failed, next_attempt, next_hop, source_missing, AttemptResult, BackendError, IABackend, RedirectStep,
    MAX_ATTEMPTS, MAX_REDIRECT_HOPS,
};
use rom_downloader::download::{DownloadQueue, DownloadState, WorkerOutcome, WorkerSlots, MAX_ACTIVE};
use rom_downloader::mygames::{MyGamesState, Row};
use rom_downloader::text::normalize_path;

fn download_message(e: BackendError) -> String {
    match e {
        BackendError::DownloadFailed(m) => m,
        BackendError::ListFailed(m) => panic!("unexpected listing error {m}"),
    }
}

/// Runs the attempt steps over the given statuses; gives how many attempts were made and the outcome.
fn run_attempts(statuses: &[u16]) -> (usize, Result<(), String>) {
    let mut attempt: u32 = 0;
    loop {
        let status = statuses[attempt as usize];
        match next_attempt(attempt, status, "Game.chd") {
            AttemptResult::Accept => return (attempt as usize + 1, Ok(())),
            AttemptResult::Retry => attempt += 1,
            AttemptResult::Fail(e) => return (attempt as usize + 1, Err(download_message(e))),
        }
    }
}

#[test]
fn five_attempts_at_most() {
    assert_eq!(MAX_ATTEMPTS, 5);
    assert_eq!(run_attempts(&[200]), (1, Ok(())));
    assert_eq!(run_attempts(&[503, 502, 206]), (3, Ok(())));
    assert_eq!(
        run_attempts(&[500, 404]),
        (2, Err("Download returned status 404 for 'Game.chd'".to_string()))
    );
    assert_eq!(
        run_attempts(&[500, 502, 503, 500, 502, 200, 200]),
        (5, Err("Download failed after 5 retries (last status=502) for 'Game.chd'".to_string()))
    );
    assert!(matches!(next_attempt(4, 200, "k"), AttemptResult::Accept));
}

/// Runs the redirect steps over the answers (status, location); gives how many requests were sent and the outcome.
fn run_hops(answers: &[(u16, Option<&str>)]) -> (usize, Result<String, String>) {
    let mut hop: u32 = 0;
    let mut url = "start".to_string();
    loop {
        let (status, location) = answers[hop as usize];
        match next_hop(hop, status, location.map(|l| l.to_string())) {
            RedirectStep::Done => return (hop as usize + 1, Ok(url)),
            RedirectStep::Follow(next) => {
                url = next;
                hop += 1;
            }
            RedirectStep::Fail(e) => return (hop as usize + 1, Err(download_message(e))),
        }
    }
}

#[test]
fn ten_requests_at_most() {
    assert_eq!(MAX_REDIRECT_HOPS, 10);
    assert_eq!(run_hops(&[(200, None)]), (1, Ok("start".to_string())));
    assert_eq!(run_hops(&[(302, Some("a")), (301, Some("b")), (206, None)]), (3, Ok("b".to_string())));
    assert_eq!(
        run_hops(&[(307, Some("a")), (308, None)]),
        (2, Err("Redirect 308 without Location header".to_string()))
    );
    let all: Vec<(u16, Option<&str>)> = (0..12).map(|_| (302, Some("again"))).collect();
    assert_eq!(run_hops(&all), (10, Err("Too many redirects".to_string())));
}

#[test]
fn every_request_is_authorized() {
    let b = IABackend::new("AK".to_string(), "SK".to_string());
    assert_eq!(b.request_headers(0), vec![("Authorization".to_string(), "LOW AK:SK".to_string())]);
    assert_eq!(
        b.request_headers(4096),
        vec![
            ("Authorization".to_string(), "LOW AK:SK".to_string()),
            ("Range".to_string(), "bytes=4096-".to_string())
        ]
    );
}

#[test]
fn worker_errors() {
    assert_eq!(source_missing().message(), "Download failed: Source not found in config");
    assert_eq!(extraction_failed("bad zip").message(), "Download failed: Extraction failed: bad zip");
}

fn enqueue(q: &mut DownloadQueue, key: &str) -> u64 {
    q.enqueue(
        "S".to_string(),
        "PS".to_string(),
        format!("{key}.zip"),
        "b".to_string(),
        format!("{key}.zip"),
        key.to_string(),
        format!("/roms/{key}.zip"),
        100,
    )
    .unwrap()
}

#[test]
fn worker_slots_never_exceed_two() {
    let mut q = DownloadQueue::new();
    let ids: Vec<u64> = ["a", "b", "c", "d"].iter().map(|k| enqueue(&mut q, k)).collect();
    let mut slots = WorkerSlots::new();
    assert_eq!(slots.start(&mut q), vec![ids[0], ids[1]]);
    assert_eq!(slots.count(), MAX_ACTIVE);
    assert!(slots.start(&mut q).is_empty());
    assert_eq!(slots.release(0), ids[0]);
    assert_eq!(slots.id_at(0), ids[1]);
    q.finish(ids[0], WorkerOutcome::Succeeded);
    assert_eq!(slots.start(&mut q), vec![ids[2]]);
    assert_eq!(slots.count(), 2);
    assert_eq!(q.get(ids[3]).unwrap().state, DownloadState::Queued);
}

#[test]
fn an_unpacking_game_is_not_queued_again() {
    let mut q = DownloadQueue::new();
    let a = enqueue(&mut q, "a");
    q.start_downloads(0);
    assert!(q.set_unpacking(a));
    assert!(q.is_queued_or_active("S", "PS", "a"));
    assert!(q.enqueue("S".to_string(), "PS".to_string(), "a.zip".to_string(), "b".to_string(), "a.zip".to_string(), "a".to_string(), "/roms/a.zip".to_string(), 100).is_none());
}

#[test]
fn refresh_moves_the_cursor_off_the_separator() {
    let mut q = DownloadQueue::new();
    let a = enqueue(&mut q, "a");
    let b = enqueue(&mut q, "b");
    let installed = vec![rom_downloader::library::GameEntry { key: "x".to_string(), source: "S".to_string(), platform: "PS".to_string() }];
    let mut s = MyGamesState::new(&q.snapshot(), &installed);
    s.handle_input(rom_downloader::input::InputAction::Down);
    assert_eq!(s.selected(), 1);
    q.cancel(b);
    s.refresh(&q.snapshot(), &installed);
    assert!(!matches!(s.rows_ref()[s.selected()], Row::Separator));
    assert_eq!(s.selected(), 2);
    let _ = a;
}

#[test]
fn normalized_paths_are_clean() {
    for p in ["//a///b//", "/x/", "a", "", "///"] {
        let r = normalize_path(p);
        assert!(!r.starts_with('/') && !r.ends_with('/') && !r.contains("//"), "{r:?}");
        let segs: Vec<&str> = r.split('/').filter(|s| !s.is_empty()).collect();
        let orig: Vec<&str> = p.split('/').filter(|s| !s.is_empty()).collect();
        assert_eq!(segs, orig);
    }
}
