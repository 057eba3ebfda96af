use vstd::prelude::*;

use crate::browser::BrowserOutcome;
use crate::loading::LoadingOutcome;
use crate::menu::{MenuOutcome, MenuPage};
use crate::mygames::MyGamesOutcome;
use crate::scene::SceneResult;

verus! {

/// The screen the program shows after a screen has spoken.
#[derive(Debug, Clone, Copy, PartialEq, Eq, Structural)]
pub enum NextScene {
    /// The same screen goes on.
    Stay,
    /// The menu, opened on the given page.
    Menu(MenuPage),
    /// The loading screen for the games of one source.
    Loading { source_idx: usize },
    /// The loading screen that refreshes every source.
    RefreshAll,
    /// The game browser for one source.
    Browser { source_idx: usize },
    /// The library of downloads and installed games.
    MyGames,
    /// The screen that reports a configuration that could not be loaded.
    Error,
}

/// After the intro: once it is over, the main menu when the configuration
/// loaded, the error screen when it did not.
pub fn after_intro(result: SceneResult, config_loaded: bool) -> (res: NextScene)
    ensures
        res == (match result {
            SceneResult::Continue => NextScene::Stay,
            SceneResult::Next => if config_loaded { NextScene::Menu(MenuPage::Main) } else { NextScene::Error },
        }),
{
    match result {
        SceneResult::Continue => NextScene::Stay,
        SceneResult::Next => {
            if config_loaded {
                NextScene::Menu(MenuPage::Main)
            } else {
                NextScene::Error
            }
        },
    }
}

/// After the menu: a chosen source is loaded, My Games is opened, a refresh
/// of every source is started.
pub fn after_menu(outcome: MenuOutcome) -> (res: NextScene)
    ensures
        res == (match outcome {
            MenuOutcome::Nothing => NextScene::Stay,
            MenuOutcome::OpenGameBrowser { source_idx } => NextScene::Loading { source_idx },
            MenuOutcome::OpenMyGames => NextScene::MyGames,
            MenuOutcome::RefreshAll => NextScene::RefreshAll,
        }),
{
    match outcome {
        MenuOutcome::Nothing => NextScene::Stay,
        MenuOutcome::OpenGameBrowser { source_idx } => NextScene::Loading { source_idx },
        MenuOutcome::OpenMyGames => NextScene::MyGames,
        MenuOutcome::RefreshAll => NextScene::RefreshAll,
    }
}

/// After the loading screen: loaded games are browsed; a finished refresh and
/// a cancelled or failed load go back to the list of sources.
pub fn after_loading(outcome: &LoadingOutcome) -> (res: NextScene)
    ensures
        res == (match *outcome {
            LoadingOutcome::Nothing => NextScene::Stay,
            LoadingOutcome::Done { source_idx, .. } => NextScene::Browser { source_idx },
            LoadingOutcome::RefreshDone => NextScene::Menu(MenuPage::BrowseSources),
            LoadingOutcome::Cancelled => NextScene::Menu(MenuPage::BrowseSources),
        }),
{
    match outcome {
        LoadingOutcome::Nothing => NextScene::Stay,
        LoadingOutcome::Done { source_idx, .. } => NextScene::Browser { source_idx: *source_idx },
        LoadingOutcome::RefreshDone => NextScene::Menu(MenuPage::BrowseSources),
        LoadingOutcome::Cancelled => NextScene::Menu(MenuPage::BrowseSources),
    }
}

/// After the game browser: going back shows the list of sources.
pub fn after_browser(outcome: BrowserOutcome) -> (res: NextScene)
    ensures
        res == (match outcome {
            BrowserOutcome::Nothing => NextScene::Stay,
            BrowserOutcome::Back => NextScene::Menu(MenuPage::BrowseSources),
        }),
{
    match outcome {
        BrowserOutcome::Nothing => NextScene::Stay,
        BrowserOutcome::Back => NextScene::Menu(MenuPage::BrowseSources),
    }
}

/// After My Games: going back shows the main menu.
pub fn after_my_games(outcome: MyGamesOutcome) -> (res: NextScene)
    ensures
        res == (match outcome {
            MyGamesOutcome::Nothing => NextScene::Stay,
            MyGamesOutcome::Back => NextScene::Menu(MenuPage::Main),
        }),
{
    match outcome {
        MyGamesOutcome::Nothing => NextScene::Stay,
        MyGamesOutcome::Back => NextScene::Menu(MenuPage::Main),
    }
}

} // verus!
