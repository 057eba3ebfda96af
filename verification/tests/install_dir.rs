use rom_downloader::install_dir::{extract_platform_code, join_path, DirListingEntry, InstallDirResolver, DEFAULT_BASE_DIR};
use std::path::Path;

fn dir(name: &str) -> DirListingEntry {
    DirListingEntry { name: name.to_string(), is_dir: true, is_file: false }
}

fn file(name: &str) -> DirListingEntry {
    DirListingEntry { name: name.to_string(), is_dir: false, is_file: true }
}

fn joined(base: &str, name: &str) -> String {
    Path::new(base).join(name).to_string_lossy().to_string()
}

#[test]
fn extract_platform_code_works() {
    assert_eq!(extract_platform_code("Sony PlayStation (PS)"), Some("PS".to_string()));
    assert_eq!(extract_platform_code("Game Boy Advance (GBA)"), Some("GBA".to_string()));
    assert_eq!(extract_platform_code("no parens"), None);
    assert_eq!(extract_platform_code("empty ()"), None);
}

#[test]
fn finds_platform_by_code() {
    let base = "/tmp/install_dir_test_find";
    let listing = vec![
        dir("Sony PlayStation (PS)"),
        dir("Game Boy Advance (GBA)"),
        dir("Nintendo Entertainment System (FC)"),
    ];
    let r = InstallDirResolver::from_listing(base.to_string(), &listing);
    assert_eq!(r.resolve("PS").unwrap(), joined(base, "Sony PlayStation (PS)"));
    assert_eq!(r.resolve("GBA").unwrap(), joined(base, "Game Boy Advance (GBA)"));
    assert_eq!(r.resolve("FC").unwrap(), joined(base, "Nintendo Entertainment System (FC)"));
    assert!(r.resolve("SNES").is_none());
}

#[test]
fn game_dir_appends_name() {
    let base = "/tmp/install_dir_test_game_dir";
    let listing = vec![dir("Sony PlayStation (PS)")];
    let r = InstallDirResolver::from_listing(base.to_string(), &listing);
    assert_eq!(
        r.game_dir("PS", "Crash Bandicoot").unwrap(),
        joined(base, "Sony PlayStation (PS)/Crash Bandicoot"),
    );
}

#[test]
fn empty_base_returns_none() {
    let r = InstallDirResolver::from_listing("/tmp/install_dir_test_empty".to_string(), &Vec::new());
    assert!(r.resolve("PS").is_none());
    assert!(r.is_empty());
}

#[test]
fn ignores_files_and_dirs_without_parens() {
    let listing = vec![dir("random_folder"), file("some_file.txt"), dir(".DS_Store_dir")];
    let r = InstallDirResolver::from_listing("/tmp/install_dir_test_ignore".to_string(), &listing);
    assert!(r.is_empty());
}

#[test]
fn files_with_a_code_are_ignored() {
    let listing = vec![file("Sony PlayStation (PS)")];
    let r = InstallDirResolver::from_listing("/roms".to_string(), &listing);
    assert!(r.is_empty());
    assert!(r.resolve("PS").is_none());
}

#[test]
fn later_directory_with_same_code_wins() {
    let listing = vec![dir("Sony PlayStation (PS)"), dir("PlayStation Extra (PS)")];
    let r = InstallDirResolver::from_listing("/roms".to_string(), &listing);
    assert_eq!(r.resolve("PS").unwrap(), "/roms/PlayStation Extra (PS)");
}

#[test]
fn platform_code_uses_last_parentheses() {
    assert_eq!(extract_platform_code("Game (USA) (SFC)"), Some("SFC".to_string()));
    assert_eq!(extract_platform_code("(A)"), Some("A".to_string()));
    assert_eq!(extract_platform_code("close) before (open"), None);
    assert_eq!(extract_platform_code("only (open"), None);
    assert_eq!(extract_platform_code(""), None);
}

#[test]
fn join_path_matches_std_path_join() {
    let cases = [
        ("/mnt/SDCARD/Roms", "Sony PlayStation (PS)"),
        ("/mnt/SDCARD/Roms/", "Game"),
        ("", "Game"),
        ("relative", "x/y"),
        ("/base", "/absolute"),
        ("/", "a"),
        ("a", ""),
    ];
    for (base, name) in cases {
        assert_eq!(join_path(base, name), joined(base, name), "{base:?} + {name:?}");
    }
}

#[test]
fn default_base_dir_is_the_sd_card() {
    assert_eq!(DEFAULT_BASE_DIR, "/mnt/SDCARD/Roms");
}

#[test]
fn game_dir_parent_is_platform_dir_in_any_written_form() {
    for base in ["/mnt/roms", "/mnt/roms/", "/mnt//roms//", "", "./roms", "/"] {
        let r = InstallDirResolver::from_listing(base.to_string(), &vec![dir("Sony PlayStation (PS)")]);
        let platform_dir = r.resolve("PS").unwrap();
        let game = r.game_dir("PS", "Crash Bandicoot").unwrap();
        assert_eq!(Path::new(&game).parent(), Some(Path::new(&platform_dir)));
    }
}
