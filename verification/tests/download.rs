use rom_downloader::config::{Bucket, Source, SourceType};
use rom_downloader::download::{
    derive_dest_path, derive_file_name, derive_game_key, find_bucket_name, plan_extraction, should_extract,
    ArchiveEntry, DownloadEvent, DownloadQueue, DownloadState, PersistedEntry, PersistedState, WorkerOutcome,
    FALLBACK_ROM_DIR, MAX_ACTIVE,
};
use rom_downloader::install_dir::{DirListingEntry, InstallDirResolver};

fn resolver() -> InstallDirResolver {
    let listing = vec![DirListingEntry { name: "Sony PlayStation (PS)".to_string(), is_dir: true, is_file: false }];
    InstallDirResolver::from_listing("/roms".to_string(), &listing)
}

fn enqueue(q: &mut DownloadQueue, platform: &str, key: &str) -> Option<u64> {
    let file_name = derive_file_name(key);
    let game_key = derive_game_key(&file_name);
    let dest = derive_dest_path(&resolver(), platform, &file_name);
    q.enqueue(
        "Internet Archive".to_string(),
        platform.to_string(),
        key.to_string(),
        "bucket".to_string(),
        file_name,
        game_key,
        dest,
        100,
    )
}

fn state(q: &DownloadQueue, id: u64) -> DownloadState {
    q.get(id).unwrap().state
}

#[test]
fn derived_names_and_paths() {
    assert_eq!(derive_file_name("CHD-PSX/Crash Bandicoot (USA).chd"), "Crash Bandicoot (USA).chd");
    assert_eq!(derive_game_key("Crash Bandicoot (USA).chd"), "Crash Bandicoot (USA)");
    assert_eq!(derive_dest_path(&resolver(), "PS", "Game.chd"), "/roms/Sony PlayStation (PS)/Game.chd");
    assert_eq!(derive_dest_path(&resolver(), "GBA", "Game.gba"), "/mnt/SDCARD/Roms/GBA/Game.gba");
    assert_eq!(FALLBACK_ROM_DIR, "/mnt/SDCARD/Roms");
}

#[test]
fn bucket_of_a_key() {
    let source = Source {
        name: "S".to_string(),
        source_type: SourceType::S3Archive,
        credentials: "c".to_string(),
        platform: "PS".to_string(),
        buckets: vec![
            Bucket { name: "eur".to_string(), path: "CHD-PSX-EUR".to_string() },
            Bucket { name: "usa".to_string(), path: "CHD-PSX-USA".to_string() },
        ],
        extract: false,
    };
    assert_eq!(find_bucket_name(&source, "CHD-PSX-USA/Game.chd"), "usa");
    assert_eq!(find_bucket_name(&source, "CHD-PSX-EUR/Game.chd"), "eur");
    assert_eq!(find_bucket_name(&source, "CHD-PSX-EURO/Game.chd"), "eur");
    let mut all = source.clone();
    all.buckets.insert(1, Bucket { name: "any".to_string(), path: String::new() });
    assert_eq!(find_bucket_name(&all, "CHD-PSX-USA/Game.chd"), "any");
    let mut none = source.clone();
    none.buckets.clear();
    assert_eq!(find_bucket_name(&none, "x"), "");
}

#[test]
fn extraction_is_for_zip_files_of_extracting_sources() {
    assert!(should_extract(true, "Game.zip"));
    assert!(should_extract(true, "Game.ZIP"));
    assert!(!should_extract(false, "Game.zip"));
    assert!(!should_extract(true, "Game.chd"));
    assert!(!should_extract(true, "zip"));
}

#[test]
fn enqueue_refuses_a_live_duplicate() {
    let mut q = DownloadQueue::new();
    let a = enqueue(&mut q, "PS", "CHD/Game.chd").unwrap();
    assert_eq!(a, 1);
    assert!(enqueue(&mut q, "PS", "CHD/Game.chd").is_none());
    assert!(q.is_queued_or_active("Internet Archive", "PS", "Game"));
    let b = enqueue(&mut q, "PS", "CHD/Other.chd").unwrap();
    assert_eq!(b, 2);
    assert_eq!(q.next_id(), 3);
    let entry = q.get(a).unwrap();
    assert_eq!(entry.state, DownloadState::Queued);
    assert_eq!(entry.dest_path, "/roms/Sony PlayStation (PS)/Game.chd");
    assert_eq!(entry.game_key, "Game");
}

#[test]
fn failed_download_can_be_queued_again() {
    let mut q = DownloadQueue::new();
    let a = enqueue(&mut q, "PS", "Game.chd").unwrap();
    q.start_downloads(0);
    let ev = q.finish(a, WorkerOutcome::Failed("network down".to_string()));
    assert!(matches!(ev, Some(DownloadEvent::Failed { id, ref error }) if id == a && error == "network down"));
    assert!(q.is_failed("Internet Archive", "PS", "Game"));
    assert!(!q.is_queued_or_active("Internet Archive", "PS", "Game"));
    let b = enqueue(&mut q, "PS", "Game.chd").unwrap();
    assert_ne!(a, b);
}

#[test]
fn at_most_two_downloads_start() {
    let mut q = DownloadQueue::new();
    let ids: Vec<u64> = (0..4).map(|i| enqueue(&mut q, "PS", &format!("G{i}.chd")).unwrap()).collect();
    assert_eq!(MAX_ACTIVE, 2);
    let started = q.start_downloads(0);
    assert_eq!(started, vec![ids[0], ids[1]]);
    assert_eq!(state(&q, ids[2]), DownloadState::Queued);
    assert!(q.start_downloads(2).is_empty());
    assert_eq!(q.start_downloads(1), vec![ids[2]]);
    assert_eq!(q.start_downloads(5), Vec::<u64>::new());
}

#[test]
fn pause_resume_cancel() {
    let mut q = DownloadQueue::new();
    let a = enqueue(&mut q, "PS", "A.chd").unwrap();
    assert!(!q.pause(a));
    q.start_downloads(0);
    assert!(q.record_progress(a, 40, 10));
    assert!(q.pause(a));
    assert_eq!(state(&q, a), DownloadState::Paused);
    assert!(!q.pause(a));
    assert!(q.resume(a));
    let e = q.get(a).unwrap();
    assert_eq!(e.state, DownloadState::Queued);
    assert_eq!(e.downloaded_bytes, 40);
    assert!(e.error.is_none());
    assert!(!q.resume(a));
    let removed = q.cancel(a).unwrap();
    assert_eq!(removed.id, a);
    assert!(q.get(a).is_none());
    assert!(q.cancel(a).is_none());
    assert!(!q.pause(99));
}

#[test]
fn finishing_a_download() {
    let mut q = DownloadQueue::new();
    let a = enqueue(&mut q, "PS", "A.zip").unwrap();
    assert!(q.finish(a, WorkerOutcome::Succeeded).is_none());
    q.start_downloads(0);
    assert!(q.set_total(a, 500));
    assert!(q.set_unpacking(a));
    assert_eq!(state(&q, a), DownloadState::Unpacking);
    assert!(matches!(q.finish(a, WorkerOutcome::Succeeded), Some(DownloadEvent::Completed { id }) if id == a));
    let e = q.get(a).unwrap();
    assert_eq!(e.state, DownloadState::Completed);
    assert_eq!(e.downloaded_bytes, 500);
    assert!(q.finish(99, WorkerOutcome::Succeeded).is_none());
}

#[test]
fn cancelled_or_paused_failures_are_not_reported() {
    let mut q = DownloadQueue::new();
    let a = enqueue(&mut q, "PS", "A.chd").unwrap();
    q.start_downloads(0);
    assert!(q.finish(a, WorkerOutcome::Failed("List failed: Cancelled".to_string())).is_none());
    assert_eq!(state(&q, a), DownloadState::Active);
    q.pause(a);
    assert!(q.finish(a, WorkerOutcome::Failed("boom".to_string())).is_none());
    assert_eq!(state(&q, a), DownloadState::Paused);
    let ev = q.finish(a, WorkerOutcome::Panicked);
    assert!(matches!(ev, Some(DownloadEvent::Failed { ref error, .. }) if error == "Thread panicked"));
    assert_eq!(q.get(a).unwrap().error.as_deref(), Some("Thread panicked"));
}

#[test]
fn persisted_queue_is_sorted_by_key_and_restores() {
    let mut q = DownloadQueue::new();
    let b = enqueue(&mut q, "PS", "b.chd").unwrap();
    let a = enqueue(&mut q, "PS", "A.chd").unwrap();
    let c = enqueue(&mut q, "PS", "C.chd").unwrap();
    q.start_downloads(0);
    q.pause(b);
    q.finish(a, WorkerOutcome::Succeeded);
    let _ = c;
    let saved = q.persisted();
    let keys: Vec<&str> = saved.iter().map(|p| p.key.as_str()).collect();
    assert_eq!(keys, vec!["A.chd", "b.chd", "C.chd"]);
    let states: Vec<PersistedState> = saved.iter().map(|p| p.state).collect();
    assert_eq!(states, vec![PersistedState::Done, PersistedState::Paused, PersistedState::Downloading]);

    let mut restored = DownloadQueue::new();
    for pe in saved {
        restored.restore(pe, &resolver());
    }
    let snap = restored.snapshot();
    assert_eq!(snap.len(), 3);
    assert_eq!(snap[0].state, DownloadState::Completed);
    assert_eq!(snap[1].state, DownloadState::Paused);
    assert_eq!(snap[2].state, DownloadState::Queued);
    assert_eq!(snap[2].file_name, "C.chd");
    assert_eq!(snap[2].game_key, "C");
    assert_eq!(snap[2].dest_path, "/roms/Sony PlayStation (PS)/C.chd");
    assert_eq!(snap[2].total_bytes, 0);
    let missing = restored.missing_sizes();
    assert_eq!(missing.len(), 2);
}

#[test]
fn restore_of_a_persisted_entry() {
    let mut q = DownloadQueue::new();
    let pe = PersistedEntry {
        source_name: "S".to_string(),
        platform: "GBA".to_string(),
        key: "roms/Game.gba".to_string(),
        bucket_name: "b".to_string(),
        state: PersistedState::Failed,
    };
    let id = q.restore(pe, &resolver());
    let e = q.get(id).unwrap();
    assert_eq!(e.state, DownloadState::Failed);
    assert_eq!(e.dest_path, "/mnt/SDCARD/Roms/GBA/Game.gba");
    assert_eq!(e.bucket_name, "b");
}

#[test]
fn state_labels() {
    assert_eq!(DownloadState::Queued.label(), "Queued");
    assert_eq!(DownloadState::Active.label(), "Active");
    assert_eq!(DownloadState::Paused.label(), "Paused");
    assert_eq!(DownloadState::Unpacking.label(), "Unpacking");
    assert_eq!(DownloadState::Completed.label(), "Completed");
    assert_eq!(DownloadState::Failed.label(), "Failed");
}

fn archive(names: &[(&str, bool)]) -> Vec<ArchiveEntry> {
    names.iter().map(|(n, d)| ArchiveEntry { name: n.to_string(), is_dir: *d }).collect()
}

#[test]
fn bin_cue_archive_goes_into_game_directory() {
    let entries = archive(&[("Game/", true), ("Game/Game.bin", false), ("Game/Game.CUE", false)]);
    let plan = plan_extraction("/roms/PS/Game.zip", "Game", &entries).unwrap();
    assert_eq!(plan.dest_dir, "/roms/PS/Game");
    assert_eq!(
        plan.outputs,
        vec![None, Some("/roms/PS/Game/Game.bin".to_string()), Some("/roms/PS/Game/Game.CUE".to_string())]
    );
}

#[test]
fn other_archives_are_flattened_next_to_the_archive() {
    let entries = archive(&[("inner/dir/rom.nes", false), ("inner/", true), ("readme.txt", false)]);
    let plan = plan_extraction("/roms/FC/Game.zip", "Game", &entries).unwrap();
    assert_eq!(plan.dest_dir, "/roms/FC");
    assert_eq!(
        plan.outputs,
        vec![Some("/roms/FC/rom.nes".to_string()), None, Some("/roms/FC/readme.txt".to_string())]
    );
    assert!(plan_extraction("", "Game", &entries).is_none());
    assert!(plan_extraction("/", "Game", &entries).is_none());
    assert_eq!(plan_extraction("/Game.zip", "Game", &entries).unwrap().dest_dir, "/");
}
