use rom_downloader::backend::RemoteGame;
use rom_downloader::browser::BrowserOutcome;
use rom_downloader::flow::{after_browser, after_intro, after_loading, after_menu, after_my_games, NextScene};
use rom_downloader::loading::LoadingOutcome;
use rom_downloader::menu::{MenuOutcome, MenuPage};
use rom_downloader::mygames::MyGamesOutcome;
use rom_downloader::scene::SceneResult;

#[test]
fn intro_leads_to_main_menu_or_error() {
    assert_eq!(after_intro(SceneResult::Continue, true), NextScene::Stay);
    assert_eq!(after_intro(SceneResult::Continue, false), NextScene::Stay);
    assert_eq!(after_intro(SceneResult::Next, true), NextScene::Menu(MenuPage::Main));
    assert_eq!(after_intro(SceneResult::Next, false), NextScene::Error);
}

#[test]
fn menu_choices_open_their_screens() {
    assert_eq!(after_menu(MenuOutcome::Nothing), NextScene::Stay);
    assert_eq!(after_menu(MenuOutcome::OpenGameBrowser { source_idx: 3 }), NextScene::Loading { source_idx: 3 });
    assert_eq!(after_menu(MenuOutcome::OpenMyGames), NextScene::MyGames);
    assert_eq!(after_menu(MenuOutcome::RefreshAll), NextScene::RefreshAll);
}

#[test]
fn loading_leads_to_browser_or_back_to_sources() {
    let games = vec![RemoteGame { key: "Crash.zip".to_string(), file_size: 10, bucket_name: "b".to_string() }];
    assert_eq!(after_loading(&LoadingOutcome::Done { games, source_idx: 2 }), NextScene::Browser { source_idx: 2 });
    assert_eq!(after_loading(&LoadingOutcome::RefreshDone), NextScene::Menu(MenuPage::BrowseSources));
    assert_eq!(after_loading(&LoadingOutcome::Cancelled), NextScene::Menu(MenuPage::BrowseSources));
    assert_eq!(after_loading(&LoadingOutcome::Nothing), NextScene::Stay);
}

#[test]
fn browser_back_shows_sources_and_my_games_back_shows_main_menu() {
    assert_eq!(after_browser(BrowserOutcome::Back), NextScene::Menu(MenuPage::BrowseSources));
    assert_eq!(after_browser(BrowserOutcome::Nothing), NextScene::Stay);
    assert_eq!(after_my_games(MyGamesOutcome::Back), NextScene::Menu(MenuPage::Main));
    assert_eq!(after_my_games(MyGamesOutcome::Nothing), NextScene::Stay);
}
