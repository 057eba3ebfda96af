use rom_downloader::backend::RemoteGame;
use rom_downloader::browser::truncate_name;
use rom_downloader::download::download_bucket;
use rom_downloader::mygames::{platform_display, truncate};
use rom_downloader::browser::{has_games_for_letter, letter, letter_entries, BrowserOutcome, BrowserState, LETTER_COUNT, MAX_VISIBLE};
use rom_downloader::cache::{is_stale_age, CacheError, CatalogCache, STALE_THRESHOLD_SECS};
use rom_downloader::config::{Bucket, Config, Credentials, Source, SourceType};
use rom_downloader::download::{DownloadCommand, DownloadEntry, DownloadQueue, DownloadState};
use rom_downloader::input::{trigger_action, InputAction, InputState, Key, PadButton, Trigger, REPEAT_DELAY_MS, REPEAT_INTERVAL_MS};
use rom_downloader::install_dir::{DirListingEntry, InstallDirResolver};
use rom_downloader::library::{GameEntry, MyGames};
use rom_downloader::loading::{cancels, finished_outcome, log_window_start, merge_games, LoadingOutcome, LoadingResult};
use rom_downloader::menu::{format_age, legend, main_items, source_items, youngest_age, MenuOutcome, MenuPage, MenuState};
use rom_downloader::mygames::{build_rows, completed_game, flat_files_of, MyGamesOutcome, MyGamesState, Row};
use rom_downloader::scene::{intro_update, SceneResult, INTRO_END_MS};

fn game(key: &str) -> RemoteGame {
    RemoteGame { key: key.to_string(), file_size: 10, bucket_name: "b".to_string() }
}

fn source() -> Source {
    Source {
        name: "Internet Archive".to_string(),
        source_type: SourceType::S3Archive,
        credentials: "c".to_string(),
        platform: "PS".to_string(),
        buckets: vec![Bucket { name: "b".to_string(), path: String::new() }],
        extract: false,
    }
}

fn library(keys: &[&str]) -> MyGames {
    let entries = keys
        .iter()
        .map(|k| GameEntry { key: k.to_string(), source: "Internet Archive".to_string(), platform: "PS".to_string() })
        .collect();
    MyGames::from_path("/data/mygames.yaml".to_string(), entries)
}

fn resolver() -> InstallDirResolver {
    let listing = vec![DirListingEntry { name: "Sony PlayStation (PS)".to_string(), is_dir: true, is_file: false }];
    InstallDirResolver::from_listing("/roms".to_string(), &listing)
}

#[test]
fn key_and_button_mapping() {
    let mut s = InputState::new(0);
    assert_eq!(s.key_down(Key::Escape, false, 0), InputAction::Quit);
    assert_eq!(s.key_down(Key::Return, false, 0), InputAction::Confirm);
    assert_eq!(s.key_down(Key::Backspace, false, 0), InputAction::Back);
    assert_eq!(s.key_down(Key::O, false, 0), InputAction::Left);
    assert_eq!(s.key_down(Key::P, true, 0), InputAction::Nothing);
    assert_eq!(s.button_down(0, PadButton::B, 0), InputAction::Confirm);
    assert_eq!(s.button_down(0, PadButton::A, 0), InputAction::Back);
    assert_eq!(s.button_down(0, PadButton::X, 0), InputAction::Refresh);
    assert_eq!(s.button_down(0, PadButton::Y, 0), InputAction::Action);
    assert_eq!(s.button_down(0, PadButton::Guide, 0), InputAction::Quit);
    assert_eq!(s.button_down(1, PadButton::Guide, 0), InputAction::Nothing);
    assert_eq!(trigger_action(Trigger::Left, 20000), InputAction::Left);
    assert_eq!(trigger_action(Trigger::Right, 16001), InputAction::Right);
    assert_eq!(trigger_action(Trigger::Right, 16000), InputAction::Nothing);
}

#[test]
fn held_direction_repeats_after_delay_then_every_interval() {
    assert_eq!((REPEAT_DELAY_MS, REPEAT_INTERVAL_MS), (300, 50));
    let mut s = InputState::new(1000);
    assert_eq!(s.key_down(Key::Down, false, 1000), InputAction::Down);
    assert_eq!(s.poll_repeat(1299), InputAction::Nothing);
    assert_eq!(s.poll_repeat(1300), InputAction::Down);
    assert_eq!(s.poll_repeat(1349), InputAction::Nothing);
    assert_eq!(s.poll_repeat(1350), InputAction::Down);
    assert_eq!(s.key_up(Key::Down), InputAction::Nothing);
    assert_eq!(s.poll_repeat(5000), InputAction::Nothing);
    assert_eq!(s.key_down(Key::Return, false, 6000), InputAction::Confirm);
    assert_eq!(s.poll_repeat(9000), InputAction::Nothing);
    s.button_down(0, PadButton::DPadUp, 10_000);
    s.button_up(PadButton::DPadDown);
    assert_eq!(s.poll_repeat(10_300), InputAction::Up);
    s.button_up(PadButton::DPadUp);
    assert_eq!(s.poll_repeat(20_000), InputAction::Nothing);
}

#[test]
fn menu_navigation() {
    let mut m = MenuState::new(2);
    assert_eq!(m.current_page(), MenuPage::Main);
    assert_eq!(m.handle_input(InputAction::Down), MenuOutcome::Nothing);
    assert_eq!(m.handle_input(InputAction::Down), MenuOutcome::Nothing);
    assert_eq!(m.selected(), 1);
    assert_eq!(m.handle_input(InputAction::Confirm), MenuOutcome::OpenMyGames);
    m.handle_input(InputAction::Up);
    assert_eq!(m.handle_input(InputAction::Refresh), MenuOutcome::Nothing);
    assert_eq!(m.handle_input(InputAction::Confirm), MenuOutcome::Nothing);
    assert_eq!(m.current_page(), MenuPage::BrowseSources);
    assert_eq!(m.handle_input(InputAction::Refresh), MenuOutcome::RefreshAll);
    m.handle_input(InputAction::Down);
    assert_eq!(m.handle_input(InputAction::Confirm), MenuOutcome::OpenGameBrowser { source_idx: 1 });
    assert_eq!(m.handle_input(InputAction::Back), MenuOutcome::Nothing);
    assert_eq!(m.current_page(), MenuPage::Main);
    assert_eq!(m.selected(), 0);
    let s = MenuState::at_sources(3);
    assert_eq!(s.current_page(), MenuPage::BrowseSources);
    assert_eq!(legend(MenuPage::Main), "Menu: Exit       A: Confirm");
}

#[test]
fn menu_lines_and_ages() {
    assert_eq!(format_age(59), "59s ago");
    assert_eq!(format_age(60), "1m ago");
    assert_eq!(format_age(7199), "1h ago");
    assert_eq!(format_age(86400 * 3 + 5), "3d ago");
    assert_eq!(youngest_age(&vec![None, Some(500), Some(90), None]), Some(90));
    assert_eq!(youngest_age(&vec![None]), None);
    let main = main_items();
    assert_eq!(main[0].label, "Browse Sources");
    assert_eq!(main[1].label, "My Games");
    let config = Config {
        sources: vec![source(), Source { name: "Other".to_string(), ..source() }],
        credentials: vec![("c".to_string(), Credentials { access_key: "a".to_string(), secret_key: "s".to_string() })],
    };
    let items = source_items(&config, &vec![vec![Some(120), Some(4000)]]);
    assert_eq!(items[0].label, "Internet Archive (2m ago)");
    assert_eq!(items[1].label, "Other (never)");
}

#[test]
fn browser_lists_letters_sorted_and_requests_downloads() {
    let games = vec![
        game("dir/crash.chd"),
        game("dir/Ape Escape.chd"),
        game("dir/Castlevania.chd"),
        game("dir/1943.chd"),
        game("dir/alundra.chd"),
    ];
    assert_eq!(LETTER_COUNT, 27);
    assert_eq!(letter(0), '#');
    assert_eq!(letter(1), 'A');
    assert_eq!(letter(26), 'Z');
    assert!(has_games_for_letter(&games, 'C'));
    assert!(!has_games_for_letter(&games, 'B'));
    assert!(has_games_for_letter(&games, '#'));

    let lib = library(&["Castlevania"]);
    let queue = DownloadQueue::new();
    let entries = letter_entries(&games, 'C', "Internet Archive", "PS", &lib, &queue);
    let names: Vec<&str> = entries.iter().map(|e| e.file_name.as_str()).collect();
    assert_eq!(names, vec!["Castlevania.chd", "crash.chd"]);
    assert!(entries[0].installed);
    assert!(!entries[1].installed);

    let mut b = BrowserState::new(games.clone(), source(), "PS".to_string(), 4, &lib, &queue);
    assert_eq!(b.source_idx(), 4);
    assert_eq!(b.letter_idx(), 0);
    assert_eq!(b.entries_ref()[0].file_name, "1943.chd");
    let step = b.handle_input(InputAction::Right, &lib, &queue, &resolver());
    assert!(step.command.is_none());
    assert_eq!(b.letter_idx(), 1);
    let names: Vec<&str> = b.entries_ref().iter().map(|e| e.file_name.as_str()).collect();
    assert_eq!(names, vec!["alundra.chd", "Ape Escape.chd"]);
    b.handle_input(InputAction::Down, &lib, &queue, &resolver());
    let step = b.handle_input(InputAction::Action, &lib, &queue, &resolver());
    match step.command {
        Some(DownloadCommand::Enqueue { key, file_name, game_key, dest_path, bucket_name, platform, total_bytes, .. }) => {
            assert_eq!(key, "dir/Ape Escape.chd");
            assert_eq!(file_name, "Ape Escape.chd");
            assert_eq!(game_key, "Ape Escape");
            assert_eq!(dest_path, "/roms/Sony PlayStation (PS)/Ape Escape.chd");
            assert_eq!(bucket_name, "b");
            assert_eq!(platform, "PS");
            assert_eq!(total_bytes, 10);
        }
        _ => panic!("expected a download request"),
    }
    assert_eq!(b.handle_input(InputAction::Back, &lib, &queue, &resolver()).outcome, BrowserOutcome::Back);
    assert_eq!(MAX_VISIBLE, 15);
}

#[test]
fn browser_does_not_download_installed_games() {
    let games = vec![game("Castlevania.chd")];
    let lib = library(&["Castlevania"]);
    let queue = DownloadQueue::new();
    let mut b = BrowserState::new(games, source(), "PS".to_string(), 0, &lib, &queue);
    assert_eq!(b.legend(), "Menu: Exit    L1/R1: Letter    B: Back");
    assert!(b.handle_input(InputAction::Action, &lib, &queue, &resolver()).command.is_none());
}

fn entry(id: u64, file_name: &str, state: DownloadState) -> DownloadEntry {
    DownloadEntry {
        id,
        state,
        source_name: "Internet Archive".to_string(),
        platform: "PS".to_string(),
        key: file_name.to_string(),
        bucket_name: "b".to_string(),
        file_name: file_name.to_string(),
        game_key: file_name.trim_end_matches(".chd").to_string(),
        dest_path: format!("/roms/{file_name}"),
        total_bytes: 100,
        downloaded_bytes: 0,
        speed: 0,
        error: None,
    }
}

#[test]
fn library_screen_rows_and_actions() {
    let statuses = vec![
        entry(1, "zeta.chd", DownloadState::Queued),
        entry(2, "Beta.chd", DownloadState::Active),
        entry(3, "done.chd", DownloadState::Completed),
        entry(4, "alpha.chd", DownloadState::Failed),
    ];
    let installed = vec![
        GameEntry { key: "spyro".to_string(), source: "IA".to_string(), platform: "PS".to_string() },
        GameEntry { key: "Crash".to_string(), source: "IA".to_string(), platform: "PS".to_string() },
    ];
    let rows = build_rows(&statuses, &installed);
    let shape: Vec<String> = rows
        .iter()
        .map(|r| match r {
            Row::Download(d) => d.file_name.clone(),
            Row::Separator => "-".to_string(),
            Row::Installed(g) => g.key.clone(),
        })
        .collect();
    assert_eq!(shape, vec!["Beta.chd", "zeta.chd", "alpha.chd", "-", "Crash", "spyro"]);

    let mut s = MyGamesState::new(&statuses, &installed);
    assert_eq!(s.legend(), "B: Back    X: Pause    Y: Delete");
    let step = s.handle_input(InputAction::Action);
    assert!(matches!(step.command, Some(DownloadCommand::Pause(2))));
    s.handle_input(InputAction::Down);
    s.handle_input(InputAction::Down);
    assert_eq!(s.legend(), "B: Back    X: Retry    Y: Delete");
    assert!(matches!(s.handle_input(InputAction::Action).command, Some(DownloadCommand::Resume(4))));
    s.handle_input(InputAction::Down);
    assert_eq!(s.selected(), 4);
    s.handle_input(InputAction::Refresh);
    assert!(s.confirm_delete());
    s.handle_input(InputAction::Down);
    assert_eq!(s.confirm_selected(), 1);
    let step = s.handle_input(InputAction::Confirm);
    assert!(step.refresh);
    assert!(step.command.is_none());
    assert_eq!(step.delete.unwrap().key, "Crash");
    assert!(!s.confirm_delete());
    assert_eq!(s.handle_input(InputAction::Back).outcome, MyGamesOutcome::Back);
}

#[test]
fn flat_files_and_completed_games() {
    let listing = vec![
        DirListingEntry { name: "Game.chd".to_string(), is_dir: false, is_file: true },
        DirListingEntry { name: "Game.sav".to_string(), is_dir: false, is_file: true },
        DirListingEntry { name: "Game".to_string(), is_dir: true, is_file: false },
        DirListingEntry { name: "Game2.chd".to_string(), is_dir: false, is_file: true },
        DirListingEntry { name: "Game".to_string(), is_dir: false, is_file: true },
    ];
    assert_eq!(flat_files_of(&listing, "Game"), vec!["Game.chd".to_string(), "Game.sav".to_string()]);
    let statuses = vec![entry(7, "Spyro.chd", DownloadState::Completed)];
    let g = completed_game(&statuses, 7).unwrap();
    assert_eq!((g.key.as_str(), g.source.as_str(), g.platform.as_str()), ("Spyro", "Internet Archive", "PS"));
    assert!(completed_game(&statuses, 8).is_none());
}

#[test]
fn loading_scene_decisions() {
    assert!(cancels(InputAction::Back));
    assert!(!cancels(InputAction::Confirm));
    assert_eq!(log_window_start(3), 0);
    assert_eq!(log_window_start(20), 5);
    let merged = merge_games(vec![vec![game("a"), game("b")], vec![], vec![game("c")]]);
    let keys: Vec<&str> = merged.iter().map(|g| g.key.as_str()).collect();
    assert_eq!(keys, vec!["a", "b", "c"]);
    assert!(matches!(finished_outcome(true, None, 0), LoadingOutcome::Cancelled));
    assert!(matches!(finished_outcome(false, Some(LoadingResult::RefreshAll(true)), 0), LoadingOutcome::RefreshDone));
    assert!(matches!(finished_outcome(false, Some(LoadingResult::RefreshAll(false)), 0), LoadingOutcome::Cancelled));
    assert!(matches!(finished_outcome(false, Some(LoadingResult::Single(None)), 0), LoadingOutcome::Cancelled));
    match finished_outcome(false, Some(LoadingResult::Single(Some(vec![game("x")]))), 3) {
        LoadingOutcome::Done { games, source_idx } => {
            assert_eq!(games.len(), 1);
            assert_eq!(source_idx, 3);
        }
        _ => panic!("expected the games"),
    }
}

#[test]
fn cache_paths_and_staleness() {
    assert_eq!(STALE_THRESHOLD_SECS, 7 * 24 * 3600);
    assert!(is_stale_age(None));
    assert!(!is_stale_age(Some(STALE_THRESHOLD_SECS - 1)));
    assert!(is_stale_age(Some(STALE_THRESHOLD_SECS)));
    let cache = CatalogCache::in_data_dir("/app/.rom-downloader");
    assert_eq!(cache.cache_dir(), "/app/.rom-downloader/cache/sources");
    let plain = Bucket { name: "psx_redump_part1".to_string(), path: String::new() };
    assert_eq!(cache.cache_path("PlayStation", &plain), "/app/.rom-downloader/cache/sources/PlayStation/psx_redump_part1.yaml");
    let deep = Bucket { name: "mixed".to_string(), path: "CHD/PSX".to_string() };
    assert_eq!(cache.cache_path("S", &deep), "/app/.rom-downloader/cache/sources/S/mixed_CHD_PSX.yaml");
    assert_eq!(CacheError::IoError("x".to_string()).message(), "Cache IO error: x");
    assert_eq!(CacheError::ParseError("y".to_string()).message(), "Cache parse error: y");
}

#[test]
fn intro_ends_on_time() {
    assert_eq!(intro_update(0), SceneResult::Continue);
    assert_eq!(intro_update(INTRO_END_MS - 1), SceneResult::Continue);
    assert_eq!(intro_update(INTRO_END_MS), SceneResult::Next);
}

fn reference_truncate_name(name: &str, max_len: usize) -> String {
    if name.len() <= max_len {
        return name.to_string();
    }
    let ext = match name.rfind('.') {
        Some(pos) => &name[pos..],
        None => "",
    };
    let avail = max_len.saturating_sub(ext.len() + 3);
    format!("{}...{}", &name[..avail], ext)
}

#[test]
fn truncate_name_keeps_the_extension() {
    assert_eq!(truncate_name("Short.chd", 40), "Short.chd");
    assert_eq!(truncate_name("A Very Long Game Name (USA) (Rev 1).chd", 20), "A Very Long G....chd");
    assert_eq!(truncate_name("NoExtensionButLong", 10), "NoExten...");
    assert_eq!(truncate_name("x.verylongextension", 5), "....verylongextension");
    for (name, max) in [("Pokémon Édition.gba", 12), ("abcdef.zip", 9), ("abc", 3), ("abcd", 3)] {
        assert_eq!(truncate_name(name, max), reference_truncate_name(name, max), "{name:?} {max}");
    }
}

#[test]
fn truncate_cuts_with_an_ellipsis() {
    assert_eq!(truncate("Crash Bandicoot", 40), "Crash Bandicoot");
    assert_eq!(truncate("Crash Bandicoot", 8), "Crash...");
    assert_eq!(truncate("abc", 3), "abc");
    assert_eq!(truncate("abcd", 3), "...");
}

#[test]
fn platform_names() {
    let table = [
        ("PS", "PlayStation"),
        ("GBA", "Game Boy Advance"),
        ("GBC", "Game Boy Color"),
        ("GB", "Game Boy"),
        ("FC", "Famicom/NES"),
        ("SFC", "Super Famicom/SNES"),
        ("MD", "Mega Drive/Genesis"),
        ("N64", "Nintendo 64"),
        ("NDS", "Nintendo DS"),
        ("PSP", "PlayStation Portable"),
        ("DC", "Dreamcast"),
        ("SS", "Sega Saturn"),
        ("PCE", "PC Engine"),
        ("MAME", "Arcade (MAME)"),
        ("WSC", "WSC"),
        ("ps", "ps"),
    ];
    for (code, name) in table {
        assert_eq!(platform_display(code), name);
    }
}

#[test]
fn sources_are_found_by_name() {
    let config = Config {
        sources: vec![source(), Source { name: "Other".to_string(), ..source() }, Source { name: "Other".to_string(), platform: "GB".to_string(), ..source() }],
        credentials: vec![],
    };
    assert_eq!(config.find_source("Other"), Some(1));
    assert_eq!(config.find_source("Internet Archive"), Some(0));
    assert_eq!(config.find_source("Missing"), None);
}

#[test]
fn download_bucket_falls_back_to_the_key() {
    let mut s = source();
    s.buckets = vec![
        Bucket { name: "eur".to_string(), path: "EUR".to_string() },
        Bucket { name: "usa".to_string(), path: "USA".to_string() },
    ];
    assert_eq!(download_bucket(&s, "USA/x.chd", ""), "usa");
    assert_eq!(download_bucket(&s, "USA/x.chd", "saved"), "saved");
}

#[test]
fn choosing_keeps_the_menu_cursor() {
    let mut m = MenuState::new(2);
    m.handle_input(InputAction::Down);
    assert_eq!(m.handle_input(InputAction::Confirm), MenuOutcome::OpenMyGames);
    assert_eq!(m.selected(), 1);
    let mut s = MenuState::at_sources(3);
    s.handle_input(InputAction::Down);
    assert_eq!(s.handle_input(InputAction::Confirm), MenuOutcome::OpenGameBrowser { source_idx: 1 });
    assert_eq!(s.selected(), 1);
    assert_eq!(s.current_page(), MenuPage::BrowseSources);
}

#[test]
fn only_regular_files_are_a_game_s_files() {
    let listing = vec![
        DirListingEntry { name: "Game.chd".to_string(), is_dir: false, is_file: true },
        DirListingEntry { name: "Game.lnk".to_string(), is_dir: false, is_file: false },
        DirListingEntry { name: "Game.d".to_string(), is_dir: true, is_file: false },
    ];
    assert_eq!(flat_files_of(&listing, "Game"), vec!["Game.chd".to_string()]);
}
