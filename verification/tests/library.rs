use rom_downloader::library::{GameEntry, LibraryError, MyGames};

const PS: &str = "PS";

fn sample_entry(key: &str) -> GameEntry {
    GameEntry {
        key: key.to_string(),
        source: "Internet Archive".to_string(),
        platform: PS.to_string(),
    }
}

fn empty_library() -> MyGames {
    MyGames::from_path("/tmp/mygames_test/mygames.yaml".to_string(), Vec::new())
}

#[test]
fn add_and_is_installed() {
    let mut lib = empty_library();
    assert!(!lib.is_installed("Internet Archive", PS, "Crash Bandicoot"));

    assert!(lib.add(sample_entry("Crash Bandicoot")));
    assert!(lib.is_installed("Internet Archive", PS, "Crash Bandicoot"));
    assert_eq!(lib.list().len(), 1);
}

#[test]
fn add_is_idempotent() {
    let mut lib = empty_library();
    assert!(lib.add(sample_entry("Spyro the Dragon")));
    assert!(!lib.add(sample_entry("Spyro the Dragon")));
    assert_eq!(lib.list().len(), 1);
}

#[test]
fn remove_entry() {
    let mut lib = empty_library();
    lib.add(sample_entry("Crash Bandicoot"));
    lib.add(sample_entry("Spyro the Dragon"));
    assert_eq!(lib.list().len(), 2);

    assert!(lib.remove("Internet Archive", PS, "Crash Bandicoot"));
    assert!(!lib.is_installed("Internet Archive", PS, "Crash Bandicoot"));
    assert!(lib.is_installed("Internet Archive", PS, "Spyro the Dragon"));
    assert_eq!(lib.list().len(), 1);
}

#[test]
fn remove_nonexistent_is_ok() {
    let mut lib = empty_library();
    assert!(!lib.remove("Internet Archive", PS, "nope"));
    assert!(lib.list().is_empty());
}

#[test]
fn loaded_entries_are_kept_in_order() {
    let loaded = vec![sample_entry("Crash Bandicoot"), sample_entry("Spyro the Dragon")];
    let lib = MyGames::from_path("/data/mygames.yaml".to_string(), loaded);
    assert_eq!(lib.path(), "/data/mygames.yaml");
    let keys: Vec<&str> = lib.list().iter().map(|e| e.key.as_str()).collect();
    assert_eq!(keys, vec!["Crash Bandicoot", "Spyro the Dragon"]);
    assert!(lib.is_installed("Internet Archive", PS, "Spyro the Dragon"));
}

#[test]
fn the_same_key_on_another_platform_is_another_game() {
    let mut lib = empty_library();
    lib.add(sample_entry("Tetris"));
    let other = GameEntry { key: "Tetris".to_string(), source: "Internet Archive".to_string(), platform: "GB".to_string() };
    assert!(lib.add(other));
    assert_eq!(lib.list().len(), 2);
    assert!(lib.remove("Internet Archive", "GB", "Tetris"));
    assert!(lib.is_installed("Internet Archive", PS, "Tetris"));
    assert!(!lib.is_installed("Internet Archive", "GB", "Tetris"));
}

#[test]
fn remove_drops_every_copy_of_a_loaded_duplicate() {
    let loaded = vec![sample_entry("Crash Bandicoot"), sample_entry("Spyro the Dragon"), sample_entry("Crash Bandicoot")];
    let mut lib = MyGames::from_path("/data/mygames.yaml".to_string(), loaded);
    assert!(lib.remove("Internet Archive", PS, "Crash Bandicoot"));
    assert_eq!(lib.list().len(), 1);
    assert_eq!(lib.list()[0].key, "Spyro the Dragon");
}

#[test]
fn library_error_messages() {
    assert_eq!(LibraryError::IoError("disk full".to_string()).message(), "Library IO error: disk full");
    assert_eq!(LibraryError::ParseError("bad yaml".to_string()).message(), "Library parse error: bad yaml");
}
