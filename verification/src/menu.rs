use vstd::prelude::*;

use crate::config::Config;
use crate::input::InputAction;
use crate::text::{concat, decimal, decimal_string};
use crate::widget::{MenuAction, MenuItem, MenuSelection};

verus! {

/// What the menu asks of the program.
#[derive(Debug, Clone, Copy, PartialEq, Eq, Structural)]
pub enum MenuOutcome {
    Nothing,
    OpenGameBrowser { source_idx: usize },
    OpenMyGames,
    RefreshAll,
}

/// What a menu line leads to.
#[derive(Debug, Clone, Copy, PartialEq, Eq, Structural)]
pub enum MenuTarget {
    BrowseSources,
    MyGames,
    Source(usize),
}

/// The pages of the menu.
#[derive(Debug, Clone, Copy, PartialEq, Eq, Structural)]
pub enum MenuPage {
    Main,
    BrowseSources,
}

/// The targets of the lines of a page, for `n` sources.
pub open spec fn page_targets(page: MenuPage, n: nat) -> Seq<Option<MenuTarget>> {
    match page {
        MenuPage::Main => seq![Some(MenuTarget::BrowseSources), Some(MenuTarget::MyGames)],
        MenuPage::BrowseSources => Seq::new(n, |i: int| Some(MenuTarget::Source(i as usize))),
    }
}

/// The legend shown under a page.
pub open spec fn page_legend(page: MenuPage) -> Seq<char> {
    match page {
        MenuPage::Main => "Menu: Exit       A: Confirm"@,
        MenuPage::BrowseSources => "Menu: Exit    B: Back    A: Confirm    Y: Refresh"@,
    }
}

/// The legend shown under a page.
pub fn legend(page: MenuPage) -> (res: &'static str)
    ensures
        res@ == page_legend(page),
{
    match page {
        MenuPage::Main => "Menu: Exit       A: Confirm",
        MenuPage::BrowseSources => "Menu: Exit    B: Back    A: Confirm    Y: Refresh",
    }
}

fn targets_of(page: MenuPage, n: usize) -> (res: Vec<Option<MenuTarget>>)
    ensures
        res@ == page_targets(page, n as nat),
{
    let mut v: Vec<Option<MenuTarget>> = Vec::new();
    match page {
        MenuPage::Main => {
            v.push(Some(MenuTarget::BrowseSources));
            v.push(Some(MenuTarget::MyGames));
            assert(v@ =~= page_targets(page, n as nat));
        },
        MenuPage::BrowseSources => {
            let mut i: usize = 0;
            while i < n
                invariant
                    i <= n,
                    v@ =~= Seq::new(i as nat, |j: int| Some(MenuTarget::Source(j as usize))),
                decreases n - i,
            {
                v.push(Some(MenuTarget::Source(i)));
                i = i + 1;
            }
            assert(v@ =~= page_targets(page, n as nat));
        },
    }
    v
}

/// How long ago a catalog was fetched, in the largest whole unit.
pub open spec fn age_text(secs: u64) -> Seq<char> {
    if secs < 60 {
        decimal(secs as nat) + "s ago"@
    } else if secs < 3600 {
        decimal((secs / 60) as nat) + "m ago"@
    } else if secs < 86400 {
        decimal((secs / 3600) as nat) + "h ago"@
    } else {
        decimal((secs / 86400) as nat) + "d ago"@
    }
}

/// How long ago a catalog was fetched (see `age_text`).
pub fn format_age(secs: u64) -> (res: String)
    ensures
        res@ == age_text(secs),
{
    if secs < 60 {
        let n = decimal_string(secs);
        concat(n.as_str(), "s ago")
    } else if secs < 3600 {
        let n = decimal_string(secs / 60);
        concat(n.as_str(), "m ago")
    } else if secs < 86400 {
        let n = decimal_string(secs / 3600);
        concat(n.as_str(), "h ago")
    } else {
        let n = decimal_string(secs / 86400);
        concat(n.as_str(), "d ago")
    }
}

/// The youngest of the known ages.
pub open spec fn youngest(ages: Seq<Option<u64>>) -> Option<u64>
    decreases ages.len(),
{
    if ages.len() == 0 {
        None
    } else {
        let rest = youngest(ages.drop_last());
        match ages.last() {
            Some(a) => match rest {
                Some(b) => Some(if a < b { a } else { b }),
                None => Some(a),
            },
            None => rest,
        }
    }
}

/// The youngest of the known ages (the cache age of a source is that of its freshest bucket).
pub fn youngest_age(ages: &Vec<Option<u64>>) -> (res: Option<u64>)
    ensures
        res == youngest(ages@),
{
    let mut best: Option<u64> = None;
    let mut i: usize = 0;
    while i < ages.len()
        invariant
            i <= ages.len(),
            best == youngest(ages@.take(i as int)),
        decreases ages.len() - i,
    {
        assert(ages@.take(i + 1).drop_last() =~= ages@.take(i as int));
        assert(ages@.take(i + 1).last() == ages@[i as int]);
        match ages[i] {
            Some(a) => {
                best = match best {
                    Some(b) => Some(if a < b { a } else { b }),
                    None => Some(a),
                };
            },
            None => {},
        }
        i = i + 1;
    }
    assert(ages@.take(ages.len() as int) =~= ages@);
    best
}

/// The label of a source line: the source name and how old its catalog is ("never" when never fetched).
pub open spec fn source_label(name: Seq<char>, age: Option<u64>) -> Seq<char> {
    name + " ("@ + match age {
        Some(a) => age_text(a),
        None => "never"@,
    } + ")"@
}

/// The lines of the main page.
pub fn main_items() -> (res: Vec<MenuItem<MenuTarget>>)
    ensures
        res@.len() == 2,
        res@[0].label@ == "Browse Sources"@ && res@[0].target == Some(MenuTarget::BrowseSources),
        res@[1].label@ == "My Games"@ && res@[1].target == Some(MenuTarget::MyGames),
{
    let mut v: Vec<MenuItem<MenuTarget>> = Vec::new();
    v.push(MenuItem { label: "Browse Sources".to_owned(), target: Some(MenuTarget::BrowseSources) });
    v.push(MenuItem { label: "My Games".to_owned(), target: Some(MenuTarget::MyGames) });
    v
}

/// The lines of the source page; `bucket_ages[i]` holds the cache ages of the
/// buckets of source `i` (a source without ages is shown as never fetched).
pub fn source_items(config: &Config, bucket_ages: &Vec<Vec<Option<u64>>>) -> (res: Vec<MenuItem<MenuTarget>>)
    ensures
        res@.len() == config.sources@.len(),
        forall|i: int| 0 <= i < res@.len() ==> {
            &&& (#[trigger] res@[i]).target == Some(MenuTarget::Source(i as usize))
            &&& res@[i].label@ == source_label(config.sources@[i].name@,
                if i < bucket_ages@.len() { youngest(bucket_ages@[i]@) } else { None })
        },
{
    let mut v: Vec<MenuItem<MenuTarget>> = Vec::new();
    let mut i: usize = 0;
    while i < config.sources.len()
        invariant
            i <= config.sources.len(),
            v@.len() == i,
            forall|j: int| 0 <= j < i ==> {
                &&& (#[trigger] v@[j]).target == Some(MenuTarget::Source(j as usize))
                &&& v@[j].label@ == source_label(config.sources@[j].name@,
                    if j < bucket_ages@.len() { youngest(bucket_ages@[j]@) } else { None })
            },
        decreases config.sources.len() - i,
    {
        let age = if i < bucket_ages.len() { youngest_age(&bucket_ages[i]) } else { None };
        let age_str = match age {
            Some(a) => format_age(a),
            None => "never".to_owned(),
        };
        let a = concat(config.sources[i].name.as_str(), " (");
        let b = concat(a.as_str(), age_str.as_str());
        let label = concat(b.as_str(), ")");
        v.push(MenuItem { label, target: Some(MenuTarget::Source(i)) });
        i = i + 1;
    }
    v
}

/// The menu: its page and highlighted line, for a number of sources.
pub struct MenuState {
    page: MenuPage,
    selection: MenuSelection<MenuTarget>,
    source_count: usize,
}

impl MenuState {
    pub closed spec fn page(&self) -> MenuPage {
        self.page
    }

    pub closed spec fn cursor(&self) -> nat {
        self.selection.cursor()
    }

    pub closed spec fn sources(&self) -> nat {
        self.source_count as nat
    }

    /// The lines of the page are those of `page_targets`, and the highlight is on one of them.
    pub closed spec fn wf(&self) -> bool {
        &&& self.selection.wf()
        &&& self.selection.targets() == page_targets(self.page, self.source_count as nat)
    }

    /// The main page.
    pub fn new(source_count: usize) -> (res: Self)
        ensures
            res.wf(),
            res.page() == MenuPage::Main,
            res.cursor() == 0,
            res.sources() == source_count,
    {
        MenuState {
            page: MenuPage::Main,
            selection: MenuSelection::from_targets(targets_of(MenuPage::Main, source_count)),
            source_count,
        }
    }

    /// The source page (where the menu returns to from a source).
    pub fn at_sources(source_count: usize) -> (res: Self)
        ensures
            res.wf(),
            res.page() == MenuPage::BrowseSources,
            res.cursor() == 0,
            res.sources() == source_count,
    {
        MenuState {
            page: MenuPage::BrowseSources,
            selection: MenuSelection::from_targets(targets_of(MenuPage::BrowseSources, source_count)),
            source_count,
        }
    }

    /// The page shown.
    pub fn current_page(&self) -> (res: MenuPage)
        ensures
            res == self.page(),
    {
        self.page
    }

    /// The highlighted line.
    pub fn selected(&self) -> (res: usize)
        ensures
            res == self.cursor(),
    {
        self.selection.selected()
    }

    fn go_to(&mut self, page: MenuPage)
        ensures
            final(self).wf(),
            final(self).page() == page,
            final(self).cursor() == 0,
            final(self).sources() == old(self).sources(),
    {
        self.page = page;
        self.selection = MenuSelection::from_targets(targets_of(page, self.source_count));
    }

    /// Answers an input. On the source page, Y refreshes every catalog. Choosing
    /// "Browse Sources" opens the source page, "My Games" the library, a source
    /// its game list; B goes back from the source page to the main page.
    pub fn handle_input(&mut self, action: InputAction) -> (res: MenuOutcome)
        requires
            old(self).wf(),
            (action == InputAction::Down || action == InputAction::Confirm) && old(self).page() == MenuPage::BrowseSources
                ==> old(self).sources() > 0,
        ensures
            final(self).wf(),
            final(self).sources() == old(self).sources(),
            action == InputAction::Refresh && old(self).page() == MenuPage::BrowseSources ==>
                res == MenuOutcome::RefreshAll && final(self).page() == old(self).page() && final(self).cursor() == old(self).cursor(),
            action == InputAction::Confirm ==> ({
                let t = page_targets(old(self).page(), old(self).sources())[old(self).cursor() as int];
                match t {
                    Some(MenuTarget::BrowseSources) => res == MenuOutcome::Nothing
                        && final(self).page() == MenuPage::BrowseSources && final(self).cursor() == 0,
                    Some(MenuTarget::MyGames) => res == MenuOutcome::OpenMyGames && final(self).page() == old(self).page()
                        && final(self).cursor() == old(self).cursor(),
                    Some(MenuTarget::Source(i)) => res == MenuOutcome::OpenGameBrowser { source_idx: i }
                        && final(self).page() == old(self).page() && final(self).cursor() == old(self).cursor(),
                    None => res == MenuOutcome::Nothing && final(self).page() == old(self).page()
                        && final(self).cursor() == old(self).cursor(),
                }
            }),
            action == InputAction::Back ==> res == MenuOutcome::Nothing && (old(self).page() == MenuPage::BrowseSources ==>
                final(self).page() == MenuPage::Main && final(self).cursor() == 0) && (old(self).page() == MenuPage::Main ==>
                final(self).page() == MenuPage::Main && final(self).cursor() == old(self).cursor()),
            action == InputAction::Up ==> res == MenuOutcome::Nothing && final(self).page() == old(self).page()
                && final(self).cursor() == (if old(self).cursor() > 0 { old(self).cursor() - 1 } else { 0 }),
            action == InputAction::Down ==> res == MenuOutcome::Nothing && final(self).page() == old(self).page()
                && final(self).cursor() == (if old(self).cursor() + 1 < page_targets(old(self).page(), old(self).sources()).len() {
                    old(self).cursor() + 1
                } else {
                    old(self).cursor()
                }),
            !(action == InputAction::Up || action == InputAction::Down || action == InputAction::Confirm
                || action == InputAction::Back || action == InputAction::Refresh) ==> res == MenuOutcome::Nothing
                && final(self).page() == old(self).page() && final(self).cursor() == old(self).cursor(),
            action == InputAction::Refresh && old(self).page() == MenuPage::Main ==> res == MenuOutcome::Nothing
                && final(self).page() == old(self).page() && final(self).cursor() == old(self).cursor(),
    {
        if action == InputAction::Refresh && self.page == MenuPage::BrowseSources {
            return MenuOutcome::RefreshAll;
        }
        match self.selection.handle_input(action) {
            MenuAction::Selected(target) => match target {
                MenuTarget::BrowseSources => {
                    self.go_to(MenuPage::BrowseSources);
                    MenuOutcome::Nothing
                },
                MenuTarget::MyGames => MenuOutcome::OpenMyGames,
                MenuTarget::Source(idx) => MenuOutcome::OpenGameBrowser { source_idx: idx },
            },
            MenuAction::Back => {
                if self.page == MenuPage::BrowseSources {
                    self.go_to(MenuPage::Main);
                }
                MenuOutcome::Nothing
            },
            MenuAction::Nothing => MenuOutcome::Nothing,
        }
    }
}

} // verus!
