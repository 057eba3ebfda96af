use vstd::prelude::*;

use crate::text::{concat, str_eq};

verus! {

/// A game in the library of downloaded games.
#[derive(Debug, Clone)]
pub struct GameEntry {
    pub key: String,
    pub source: String,
    pub platform: String,
}

/// Why the library could not be read or written.
#[derive(Debug, Clone)]
pub enum LibraryError {
    IoError(String),
    ParseError(String),
}

impl GameEntry {
    /// A copy of this entry.
    pub fn copy(&self) -> (res: GameEntry)
        ensures
            res == *self,
    {
        GameEntry { key: self.key.clone(), source: self.source.clone(), platform: self.platform.clone() }
    }
}

impl LibraryError {
    /// The text that the error is shown with.
    pub fn message(&self) -> (res: String)
        ensures
            match self {
                LibraryError::IoError(m) => res@ == "Library IO error: "@ + m@,
                LibraryError::ParseError(m) => res@ == "Library parse error: "@ + m@,
            },
    {
        match self {
            LibraryError::IoError(m) => concat("Library IO error: ", m.as_str()),
            LibraryError::ParseError(m) => concat("Library parse error: ", m.as_str()),
        }
    }
}

/// Whether `e` is the game `key` of `platform` from `source`.
pub open spec fn is_game(e: GameEntry, source: Seq<char>, platform: Seq<char>, key: Seq<char>) -> bool {
    e.source@ == source && e.platform@ == platform && e.key@ == key
}

/// The entries that are not the game `key` of `platform` from `source`.
pub open spec fn other_than(source: Seq<char>, platform: Seq<char>, key: Seq<char>) -> spec_fn(GameEntry) -> bool {
    |e: GameEntry| !is_game(e, source, platform, key)
}

/// Whether some entry is that game.
pub open spec fn listed(entries: Seq<GameEntry>, source: Seq<char>, platform: Seq<char>, key: Seq<char>) -> bool {
    exists|i: int| 0 <= i < entries.len() && is_game(#[trigger] entries[i], source, platform, key)
}

/// The games after `entry` is added: unchanged when that game is already listed.
pub open spec fn added(games: Seq<GameEntry>, entry: GameEntry) -> Seq<GameEntry> {
    if listed(games, entry.source@, entry.platform@, entry.key@) {
        games
    } else {
        games.push(entry)
    }
}

/// The games after the game `key` of `platform` from `source` is removed.
pub open spec fn removed(games: Seq<GameEntry>, source: Seq<char>, platform: Seq<char>, key: Seq<char>) -> Seq<GameEntry> {
    games.filter(other_than(source, platform, key))
}

/// No game is listed twice.
pub open spec fn unique_games(games: Seq<GameEntry>) -> bool {
    forall|i: int, j: int| 0 <= i < j < games.len()
        ==> !is_game(#[trigger] games[i], (#[trigger] games[j]).source@, games[j].platform@, games[j].key@)
}

/// The library of downloaded games, kept in the order they were added.
pub struct MyGames {
    path: String,
    entries: Vec<GameEntry>,
}

fn entry_is(e: &GameEntry, source: &str, platform: &str, key: &str) -> (res: bool)
    ensures
        res == is_game(*e, source@, platform@, key@),
{
    str_eq(e.source.as_str(), source) && str_eq(e.platform.as_str(), platform) && str_eq(e.key.as_str(), key)
}

impl MyGames {
    /// The games, in order.
    pub closed spec fn games(&self) -> Seq<GameEntry> {
        self.entries@
    }

    /// The file that the library is kept in.
    pub closed spec fn file(&self) -> Seq<char> {
        self.path@
    }

    /// The library kept in `path`, holding the games read from it.
    pub fn from_path(path: String, loaded: Vec<GameEntry>) -> (res: Self)
        ensures
            res.file() == path@,
            res.games() == loaded@,
    {
        MyGames { path, entries: loaded }
    }

    /// The file that the library is kept in.
    pub fn path(&self) -> (res: &String)
        ensures
            res@ == self.file(),
    {
        &self.path
    }

    /// Whether the game is in the library.
    pub fn is_installed(&self, source: &str, platform: &str, key: &str) -> (res: bool)
        ensures
            res == listed(self.games(), source@, platform@, key@),
    {
        let mut i: usize = 0;
        while i < self.entries.len()
            invariant
                i <= self.entries.len(),
                forall|j: int| 0 <= j < i ==> !is_game(#[trigger] self.entries@[j], source@, platform@, key@),
            decreases self.entries.len() - i,
        {
            if entry_is(&self.entries[i], source, platform, key) {
                return true;
            }
            i = i + 1;
        }
        false
    }

    /// The games, in the order they were added.
    pub fn list(&self) -> (res: &[GameEntry])
        ensures
            res@ == self.games(),
    {
        self.entries.as_slice()
    }

    /// Adds a game unless it is already there; says whether the library changed
    /// (and so has to be written back).
    pub fn add(&mut self, entry: GameEntry) -> (changed: bool)
        ensures
            changed == !listed(old(self).games(), entry.source@, entry.platform@, entry.key@),
            changed ==> final(self).games() == old(self).games().push(entry),
            !changed ==> final(self).games() == old(self).games(),
            final(self).games() == added(old(self).games(), entry),
            final(self).file() == old(self).file(),
    {
        if self.is_installed(entry.source.as_str(), entry.platform.as_str(), entry.key.as_str()) {
            return false;
        }
        self.entries.push(entry);
        true
    }

    /// Removes every entry of the game; says whether the library changed.
    pub fn remove(&mut self, source: &str, platform: &str, key: &str) -> (changed: bool)
        ensures
            changed == listed(old(self).games(), source@, platform@, key@),
            final(self).games() == removed(old(self).games(), source@, platform@, key@),
            final(self).file() == old(self).file(),
    {
        let ghost pred = other_than(source@, platform@, key@);
        if !self.is_installed(source, platform, key) {
            proof {
                lemma_filter_all(self.entries@, pred);
            }
            return false;
        }
        let mut kept: Vec<GameEntry> = Vec::new();
        let ghost all = self.entries@;
        let mut i: usize = 0;
        while i < self.entries.len()
            invariant
                all == self.entries@,
                i <= all.len(),
                kept@ == all.take(i as int).filter(other_than(source@, platform@, key@)),
            decreases all.len() - i,
        {
            assert(all.take(i + 1).drop_last() =~= all.take(i as int));
            assert(all.take(i + 1).last() == all[i as int]);
            assert(other_than(source@, platform@, key@)(all[i as int]) == !is_game(all[i as int], source@, platform@, key@));
            reveal(Seq::filter);
            if !entry_is(&self.entries[i], source, platform, key) {
                kept.push(self.entries[i].copy());
            }
            i = i + 1;
        }
        assert(all.take(all.len() as int) =~= all);
        self.entries = kept;
        true
    }
}

/// A game that was added is in the library.
pub proof fn law_add_installs(games: Seq<GameEntry>, entry: GameEntry)
    ensures
        listed(added(games, entry), entry.source@, entry.platform@, entry.key@),
{
    if !listed(games, entry.source@, entry.platform@, entry.key@) {
        let g = games.push(entry);
        assert(is_game(g[games.len() as int], entry.source@, entry.platform@, entry.key@));
    }
}

/// Adding a game a second time leaves the library as the first time did.
pub proof fn law_add_idempotent(games: Seq<GameEntry>, entry: GameEntry)
    ensures
        added(added(games, entry), entry) == added(games, entry),
{
    law_add_installs(games, entry);
}

/// Adding never lists a game twice.
pub proof fn law_add_keeps_unique(games: Seq<GameEntry>, entry: GameEntry)
    requires
        unique_games(games),
    ensures
        unique_games(added(games, entry)),
{
    if !listed(games, entry.source@, entry.platform@, entry.key@) {
        let g = games.push(entry);
        assert forall|i: int, j: int| 0 <= i < j < g.len()
            implies !is_game(#[trigger] g[i], (#[trigger] g[j]).source@, g[j].platform@, g[j].key@) by {
            if j == games.len() {
                assert(g[i] == games[i]);
            } else {
                assert(g[i] == games[i] && g[j] == games[j]);
            }
        }
    }
}

/// A game that was removed is no longer in the library.
pub proof fn law_remove_uninstalls(games: Seq<GameEntry>, source: Seq<char>, platform: Seq<char>, key: Seq<char>)
    ensures
        !listed(removed(games, source, platform, key), source, platform, key),
{
    let pred = other_than(source, platform, key);
    let f = games.filter(pred);
    assert forall|i: int| 0 <= i < f.len() implies !is_game(#[trigger] f[i], source, platform, key) by {
        games.lemma_filter_pred(pred, i);
    }
}

/// Removing a game leaves every other game as it was: in the library or not.
pub proof fn law_remove_keeps_others(
    games: Seq<GameEntry>,
    source: Seq<char>,
    platform: Seq<char>,
    key: Seq<char>,
    other_source: Seq<char>,
    other_platform: Seq<char>,
    other_key: Seq<char>,
)
    requires
        !(other_source == source && other_platform == platform && other_key == key),
    ensures
        listed(removed(games, source, platform, key), other_source, other_platform, other_key)
            == listed(games, other_source, other_platform, other_key),
{
    let pred = other_than(source, platform, key);
    let f = games.filter(pred);
    if listed(games, other_source, other_platform, other_key) {
        let i = choose|i: int| 0 <= i < games.len() && is_game(#[trigger] games[i], other_source, other_platform, other_key);
        games.lemma_filter_contains(pred, i);
        let j = choose|j: int| 0 <= j < f.len() && f[j] == games[i];
        assert(is_game(f[j], other_source, other_platform, other_key));
    }
    if listed(f, other_source, other_platform, other_key) {
        let j = choose|j: int| 0 <= j < f.len() && is_game(#[trigger] f[j], other_source, other_platform, other_key);
        assert(f.contains(f[j]));
        games.lemma_filter_contains_rev(pred, f[j]);
        let i = choose|i: int| 0 <= i < games.len() && games[i] == f[j];
        assert(is_game(games[i], other_source, other_platform, other_key));
    }
}

/// Removing a game that is not in the library changes nothing.
pub proof fn law_remove_absent(games: Seq<GameEntry>, source: Seq<char>, platform: Seq<char>, key: Seq<char>)
    requires
        !listed(games, source, platform, key),
    ensures
        removed(games, source, platform, key) == games,
{
    lemma_filter_all(games, other_than(source, platform, key));
}

proof fn lemma_filter_all(s: Seq<GameEntry>, pred: spec_fn(GameEntry) -> bool)
    requires
        forall|i: int| 0 <= i < s.len() ==> pred(#[trigger] s[i]),
    ensures
        s.filter(pred) == s,
    decreases s.len(),
{
    reveal(Seq::filter);
    if s.len() > 0 {
        lemma_filter_all(s.drop_last(), pred);
        assert(s.drop_last().push(s.last()) =~= s);
    }
}

} // verus!
