use vstd::prelude::*;
use vstd::utf8::{encode_utf8, is_char_boundary};

use crate::backend::RemoteGame;
use crate::config::Source;
use crate::download::{derive_dest_path, dest_path_for, format_bytes, size_text, is_live, same_game, DownloadCommand, DownloadEntry, DownloadQueue, DownloadState};
use crate::input::InputAction;
use crate::install_dir::InstallDirResolver;
use crate::library::{listed, GameEntry, MyGames};
use crate::order::{key_views, stable_order, stable_sorted, SortKey};
use crate::text::{
    after_last_slash, ascii_lower_seq, ascii_lowercase, ascii_upper, before_last_dot, char_ascii_upper,
    char_is_ascii_alpha, chars_of, concat, is_ascii_alpha, last_segment, lemma_encode_utf8_concat, lemma_rfind_bounds,
    rfind, rfind_char, string_of, strip_extension, sub_chars,
};

verus! {

/// How many games the list shows at once.
pub const MAX_VISIBLE: usize = 15;

/// How many letters the letter bar has: `#` and `A` to `Z`.
pub const LETTER_COUNT: usize = 27;

/// What the game browser asks of the program.
#[derive(Debug, Clone, Copy, PartialEq, Eq, Structural)]
pub enum BrowserOutcome {
    Nothing,
    Back,
}

/// The letter at position `i` of the letter bar.
pub open spec fn letter_at(i: int) -> char {
    if i == 0 {
        '#'
    } else {
        (64 + i) as char
    }
}

/// The letter at position `i` of the letter bar.
pub fn letter(i: usize) -> (res: char)
    requires
        i < LETTER_COUNT,
    ensures
        res == letter_at(i as int),
{
    if i == 0 {
        '#'
    } else {
        ((64 + i) as u8) as char
    }
}

/// Whether a file name is listed under a letter: `#` holds names that start
/// with anything but an ASCII letter, a letter holds names that start with it
/// in either case.
pub open spec fn name_under_letter(name: Seq<char>, letter: char) -> bool {
    name.len() > 0 && if letter == '#' {
        !is_ascii_alpha(name[0])
    } else {
        ascii_upper(name[0]) == letter
    }
}

/// Whether a game is listed under a letter, by its file name.
pub open spec fn game_under_letter(g: RemoteGame, letter: char) -> bool {
    name_under_letter(after_last_slash(g.key@), letter)
}

pub open spec fn under_letter(letter: char) -> spec_fn(RemoteGame) -> bool {
    |g: RemoteGame| game_under_letter(g, letter)
}

/// The order a letter's games are listed in: by file name, ignoring ASCII case.
pub open spec fn browse_keys(games: Seq<RemoteGame>) -> Seq<SortKey> {
    Seq::new(games.len(), |i: int| (0u64, ascii_lower_seq(after_last_slash(games[i].key@))))
}

fn game_is_under(g: &RemoteGame, l: char) -> (res: bool)
    ensures
        res == game_under_letter(*g, l),
{
    let name = last_segment(g.key.as_str());
    let v = chars_of(name.as_str());
    if v.len() == 0 {
        return false;
    }
    let first = v[0];
    if l == '#' {
        !char_is_ascii_alpha(first)
    } else {
        char_ascii_upper(first) == l
    }
}

/// Whether any game is listed under the letter.
pub fn has_games_for_letter(games: &Vec<RemoteGame>, letter: char) -> (res: bool)
    ensures
        res == exists|i: int| 0 <= i < games@.len() && game_under_letter(#[trigger] games@[i], letter),
{
    let mut i: usize = 0;
    while i < games.len()
        invariant
            i <= games.len(),
            forall|j: int| 0 <= j < i ==> !game_under_letter(#[trigger] games@[j], letter),
        decreases games.len() - i,
    {
        if game_is_under(&games[i], letter) {
            return true;
        }
        i = i + 1;
    }
    false
}

/// The extension of a file name: the text from its last `.` on; empty when it has none.
pub open spec fn extension_of(name: Seq<char>) -> Seq<char> {
    if rfind(name, '.') >= 0 {
        name.subrange(rfind(name, '.'), name.len() as int)
    } else {
        Seq::empty()
    }
}

/// How many leading bytes of a name are kept when it is cut to `max_len` bytes
/// with `...` and an extension of `ext_len` bytes after them.
pub open spec fn kept_bytes(max_len: usize, ext_len: nat) -> int {
    if max_len >= ext_len + 3 {
        max_len - ext_len - 3
    } else {
        0
    }
}

/// A file name cut to fit `max_len` bytes: a longer name keeps its first
/// bytes (see `kept_bytes`), then `...`, then its extension. The cut must fall
/// between two characters.
pub fn truncate_name(name: &str, max_len: usize) -> (res: String)
    requires
        encode_utf8(name@).len() <= usize::MAX,
        encode_utf8(name@).len() > max_len ==> is_char_boundary(encode_utf8(name@),
            kept_bytes(max_len, encode_utf8(extension_of(name@)).len())),
    ensures
        encode_utf8(name@).len() <= max_len ==> res@ == name@,
        encode_utf8(name@).len() > max_len ==> encode_utf8(res@) == encode_utf8(name@).subrange(0,
            kept_bytes(max_len, encode_utf8(extension_of(name@)).len())) + encode_utf8("..."@)
            + encode_utf8(extension_of(name@)),
{
    if name.len() <= max_len {
        return name.to_owned();
    }
    let v = chars_of(name);
    proof { lemma_rfind_bounds(v@, '.'); }
    let ext: String = match rfind_char(&v, '.') {
        Some(p) => string_of(&sub_chars(&v, p, v.len())),
        None => String::new(),
    };
    assert(ext@ == extension_of(name@));
    proof {
        if rfind(name@, '.') >= 0 {
            let r = rfind(name@, '.');
            assert(name@ =~= name@.take(r) + ext@);
            lemma_encode_utf8_concat(name@.take(r), ext@);
        } else {
            assert(ext@ =~= Seq::<char>::empty());
        }
    }
    let ext_len = ext.as_str().len();
    let avail = max_len.saturating_sub(ext_len.saturating_add(3));
    assert(avail == kept_bytes(max_len, encode_utf8(extension_of(name@)).len()));
    let (left, _) = name.split_at(avail);
    let a = concat(left, "...");
    let res = concat(a.as_str(), ext.as_str());
    proof {
        lemma_encode_utf8_concat(left@ + "..."@, ext@);
        lemma_encode_utf8_concat(left@, "..."@);
    }
    res
}

/// The size shown next to a game (see `size_text`).
pub fn format_size(bytes: u64) -> (res: String)
    ensures
        res@ == size_text(bytes),
{
    format_bytes(bytes)
}

/// A game of the list, with its state in the library and the download queue.
#[derive(Debug, Clone)]
pub struct BrowserGame {
    pub full_key: String,
    pub file_name: String,
    pub game_key: String,
    pub bucket_name: String,
    pub file_size: u64,
    pub installed: bool,
    pub downloading: bool,
    pub failed: bool,
}

/// Whether the game of the given platform and source is queued, running or paused.
pub open spec fn downloading_in(items: Seq<DownloadEntry>, source: Seq<char>, platform: Seq<char>, game_key: Seq<char>) -> bool {
    exists|i: int| 0 <= i < items.len() && same_game(#[trigger] items[i], source, platform, game_key) && is_live(items[i].state)
}

/// Whether a download of the game has failed.
pub open spec fn failed_in(items: Seq<DownloadEntry>, source: Seq<char>, platform: Seq<char>, game_key: Seq<char>) -> bool {
    exists|i: int| 0 <= i < items.len() && same_game(#[trigger] items[i], source, platform, game_key)
        && items[i].state == DownloadState::Failed
}

/// `e` is the list entry of game `g`, with the states that the library and the queue give.
pub open spec fn entry_of(
    e: BrowserGame,
    g: RemoteGame,
    source: Seq<char>,
    platform: Seq<char>,
    lib: Seq<GameEntry>,
    items: Seq<DownloadEntry>,
) -> bool {
    &&& e.full_key == g.key
    &&& e.file_name@ == after_last_slash(g.key@)
    &&& e.game_key@ == before_last_dot(e.file_name@)
    &&& e.bucket_name == g.bucket_name
    &&& e.file_size == g.file_size
    &&& e.installed == listed(lib, source, platform, e.game_key@)
    &&& e.downloading == downloading_in(items, source, platform, e.game_key@)
    &&& e.failed == failed_in(items, source, platform, e.game_key@)
}

/// The game list of a source: one letter's games at a time, sorted by file name.
pub struct BrowserState {
    games: Vec<RemoteGame>,
    source: Source,
    platform: String,
    source_idx: usize,
    letter_idx: usize,
    selected: usize,
    scroll_offset: usize,
    filtered: Vec<BrowserGame>,
    letter_has_games: Vec<bool>,
}


/// `entries` lists the games of `games` under `letter`, sorted by file name
/// (ties in listing order), each with its states (see `entry_of`).
pub open spec fn lists_letter(
    entries: Seq<BrowserGame>,
    games: Seq<RemoteGame>,
    letter: char,
    source: Seq<char>,
    platform: Seq<char>,
    lib: Seq<GameEntry>,
    items: Seq<DownloadEntry>,
) -> bool {
    let lg = games.filter(under_letter(letter));
    exists|order: Seq<usize>| #[trigger] stable_sorted(browse_keys(lg), order)
        && entries.len() == order.len()
        && forall|p: int| 0 <= p < order.len() ==> entry_of(#[trigger] entries[p], lg[order[p] as int], source, platform, lib, items)
}

fn browser_entry(g: &RemoteGame, source_name: &str, platform: &str, lib: &MyGames, queue: &DownloadQueue) -> (res: BrowserGame)
    ensures
        entry_of(res, *g, source_name@, platform@, lib.games(), queue.items()),
{
    let file_name = last_segment(g.key.as_str());
    let game_key = strip_extension(file_name.as_str());
    let installed = lib.is_installed(source_name, platform, game_key.as_str());
    let downloading = queue.is_queued_or_active(source_name, platform, game_key.as_str());
    let failed = queue.is_failed(source_name, platform, game_key.as_str());
    BrowserGame {
        full_key: g.key.clone(),
        file_name,
        game_key,
        bucket_name: g.bucket_name.clone(),
        file_size: g.file_size,
        installed,
        downloading,
        failed,
    }
}

/// The list of the games under a letter (see `lists_letter`).
pub fn letter_entries(
    games: &Vec<RemoteGame>,
    letter: char,
    source_name: &str,
    platform: &str,
    lib: &MyGames,
    queue: &DownloadQueue,
) -> (res: Vec<BrowserGame>)
    ensures
        lists_letter(res@, games@, letter, source_name@, platform@, lib.games(), queue.items()),
{
    let ghost pred = under_letter(letter);
    let mut lg: Vec<RemoteGame> = Vec::new();
    let mut i: usize = 0;
    while i < games.len()
        invariant
            i <= games.len(),
            pred == under_letter(letter),
            lg@ == games@.take(i as int).filter(pred),
        decreases games.len() - i,
    {
        assert(games@.take(i + 1).drop_last() =~= games@.take(i as int));
        assert(games@.take(i + 1).last() == games@[i as int]);
        reveal(Seq::filter);
        if game_is_under(&games[i], letter) {
            lg.push(games[i].copy());
        }
        i = i + 1;
    }
    assert(games@.take(games.len() as int) =~= games@);
    let mut keys: Vec<(u64, Vec<char>)> = Vec::new();
    let mut k: usize = 0;
    while k < lg.len()
        invariant
            k <= lg.len(),
            key_views(keys@) =~= browse_keys(lg@).take(k as int),
        decreases lg.len() - k,
    {
        let name = last_segment(lg[k].key.as_str());
        let nv = chars_of(name.as_str());
        let lower = ascii_lowercase(&nv);
        let ghost before = keys@;
        keys.push((0u64, lower));
        assert(key_views(keys@) =~= key_views(before).push(browse_keys(lg@)[k as int]));
        k = k + 1;
    }
    assert(key_views(keys@) =~= browse_keys(lg@));
    let order = stable_order(&keys);
    let mut res: Vec<BrowserGame> = Vec::new();
    let mut p: usize = 0;
    while p < order.len()
        invariant
            p <= order.len(),
            stable_sorted(browse_keys(lg@), order@),
            lg@ == games@.filter(under_letter(letter)),
            res@.len() == p,
            forall|q: int| 0 <= q < p ==> entry_of(#[trigger] res@[q], lg@[order@[q] as int], source_name@, platform@, lib.games(), queue.items()),
        decreases order.len() - p,
    {
        let e = browser_entry(&lg[order[p]], source_name, platform, lib, queue);
        res.push(e);
        p = p + 1;
    }
    assert(stable_sorted(browse_keys(lg@), order@));
    res
}

/// The position of the last letter with games before `idx`, if any.
pub open spec fn prev_letter(has: Seq<bool>, idx: int) -> int
    decreases idx,
{
    if idx <= 0 {
        -1
    } else if has[idx - 1] {
        idx - 1
    } else {
        prev_letter(has, idx - 1)
    }
}

/// The position of the first letter with games after `idx`, if any.
pub open spec fn next_letter(has: Seq<bool>, idx: int) -> int
    decreases has.len() - idx,
{
    if idx + 1 >= has.len() || idx < -1 {
        -1
    } else if has[idx + 1] {
        idx + 1
    } else {
        next_letter(has, idx + 1)
    }
}

/// Left goes to the nearest earlier letter that has games: the letter found
/// comes before `idx`, has games, and no letter between it and `idx` has any;
/// when nothing is found, no letter before `idx` has games.
pub proof fn law_prev_letter_is_nearest(letters: Seq<bool>, idx: int)
    requires
        0 <= idx <= letters.len(),
    ensures
        prev_letter(letters, idx) >= 0 ==> ({
            let p = prev_letter(letters, idx);
            &&& p < idx
            &&& letters[p]
            &&& forall|j: int| p < j < idx ==> !letters[j]
        }),
        prev_letter(letters, idx) < 0 ==> prev_letter(letters, idx) == -1 && forall|j: int| 0 <= j < idx ==> !letters[j],
    decreases idx,
{
    if idx > 0 && !letters[idx - 1] {
        law_prev_letter_is_nearest(letters, idx - 1);
    }
}

/// Right goes to the nearest later letter that letters games: the letter found
/// comes after `idx`, letters games, and no letter between `idx` and it letters any;
/// when nothing is found, no letter after `idx` letters games.
pub proof fn law_next_letter_is_nearest(letters: Seq<bool>, idx: int)
    requires
        -1 <= idx < letters.len(),
    ensures
        next_letter(letters, idx) >= 0 ==> ({
            let n = next_letter(letters, idx);
            &&& idx < n < letters.len()
            &&& letters[n]
            &&& forall|j: int| idx < j < n ==> !letters[j]
        }),
        next_letter(letters, idx) < 0 ==> next_letter(letters, idx) == -1 && forall|j: int| idx < j < letters.len() ==> !letters[j],
    decreases letters.len() - idx,
{
    if idx + 1 < letters.len() && !letters[idx + 1] {
        law_next_letter_is_nearest(letters, idx + 1);
    }
}

/// `has` tells, for each letter of the bar, whether some game is listed under it.
pub open spec fn letters_match(has: Seq<bool>, games: Seq<RemoteGame>) -> bool {
    &&& has.len() == LETTER_COUNT
    &&& forall|i: int| 0 <= i < LETTER_COUNT ==> #[trigger] has[i]
        == exists|j: int| 0 <= j < games.len() && game_under_letter(#[trigger] games[j], letter_at(i))
}

/// A request that the game list makes of the program.
pub struct BrowserStep {
    pub outcome: BrowserOutcome,
    pub command: Option<DownloadCommand>,
}

impl BrowserState {
    pub closed spec fn all_games(&self) -> Seq<RemoteGame> {
        self.games@
    }

    pub closed spec fn source_index(&self) -> usize {
        self.source_idx
    }

    /// Which source of the configuration the list belongs to.
    pub fn source_idx(&self) -> (res: usize)
        ensures
            res == self.source_index(),
    {
        self.source_idx
    }

    pub closed spec fn source_view(&self) -> Source {
        self.source
    }

    pub closed spec fn platform_view(&self) -> Seq<char> {
        self.platform@
    }

    pub closed spec fn letter_index(&self) -> nat {
        self.letter_idx as nat
    }

    pub closed spec fn cursor(&self) -> nat {
        self.selected as nat
    }

    pub closed spec fn scroll(&self) -> nat {
        self.scroll_offset as nat
    }

    pub closed spec fn entries(&self) -> Seq<BrowserGame> {
        self.filtered@
    }

    pub closed spec fn letters_with_games(&self) -> Seq<bool> {
        self.letter_has_games@
    }

    /// The letter bar knows which letters have games; the cursor is on a game
    /// (or at the top of an empty list) and inside the visible window.
    pub open spec fn wf(&self) -> bool {
        &&& letters_match(self.letters_with_games(), self.all_games())
        &&& self.letter_index() < LETTER_COUNT
        &&& (self.cursor() == 0 || self.cursor() < self.entries().len())
        &&& self.scroll() <= self.cursor() < self.scroll() + MAX_VISIBLE
    }

    /// The list shows the games of the current letter with their states in `lib` and `items`.
    pub open spec fn shows(&self, lib: Seq<GameEntry>, items: Seq<DownloadEntry>) -> bool {
        lists_letter(self.entries(), self.all_games(), letter_at(self.letter_index() as int),
            self.source_view().name@, self.platform_view(), lib, items)
    }

    fn rebuild(&mut self, lib: &MyGames, queue: &DownloadQueue)
        requires
            old(self).letter_index() < LETTER_COUNT,
        ensures
            final(self).shows(lib.games(), queue.items()),
            final(self).cursor() == 0,
            final(self).scroll() == 0,
            final(self).all_games() == old(self).all_games(),
            final(self).source_view() == old(self).source_view(),
            final(self).platform_view() == old(self).platform_view(),
            final(self).letter_index() == old(self).letter_index(),
            final(self).letters_with_games() == old(self).letters_with_games(),
            final(self).source_index() == old(self).source_index(),
    {
        let l = letter(self.letter_idx);
        self.filtered = letter_entries(&self.games, l, self.source.name.as_str(), self.platform.as_str(), lib, queue);
        self.selected = 0;
        self.scroll_offset = 0;
    }

    /// The game list of a source, on the first letter that has games.
    pub fn new(
        all_games: Vec<RemoteGame>,
        source: Source,
        platform: String,
        source_idx: usize,
        lib: &MyGames,
        queue: &DownloadQueue,
    ) -> (res: Self)
        ensures
            res.wf(),
            res.shows(lib.games(), queue.items()),
            res.all_games() == all_games@,
            res.source_view() == source,
            res.platform_view() == platform@,
            res.source_index() == source_idx,
            res.letter_index() == (if exists|i: int| 0 <= i < LETTER_COUNT && #[trigger] res.letters_with_games()[i] {
                next_letter(res.letters_with_games(), -1)
            } else {
                0
            }),
            res.cursor() == 0,
            res.scroll() == 0,
    {
        let mut has: Vec<bool> = Vec::new();
        let mut i: usize = 0;
        while i < LETTER_COUNT
            invariant
                i <= LETTER_COUNT,
                has@.len() == i,
                forall|k: int| 0 <= k < i ==> #[trigger] has@[k]
                    == exists|j: int| 0 <= j < all_games@.len() && game_under_letter(#[trigger] all_games@[j], letter_at(k)),
            decreases LETTER_COUNT - i,
        {
            let l = letter(i);
            has.push(has_games_for_letter(&all_games, l));
            i = i + 1;
        }
        let first = first_letter_with_games(&has);
        let mut state = BrowserState {
            games: all_games,
            source,
            platform,
            source_idx,
            letter_idx: first,
            selected: 0,
            scroll_offset: 0,
            filtered: Vec::new(),
            letter_has_games: has,
        };
        state.rebuild(lib, queue);
        state
    }

    /// The games of the current letter.
    pub fn entries_ref(&self) -> (res: &Vec<BrowserGame>)
        ensures
            res@ == self.entries(),
    {
        &self.filtered
    }

    /// The highlighted game's position.
    pub fn selected(&self) -> (res: usize)
        ensures
            res == self.cursor(),
    {
        self.selected
    }

    /// The position of the first visible game.
    pub fn scroll_offset(&self) -> (res: usize)
        ensures
            res == self.scroll(),
    {
        self.scroll_offset
    }

    /// The position of the current letter in the letter bar.
    pub fn letter_idx(&self) -> (res: usize)
        ensures
            res == self.letter_index(),
    {
        self.letter_idx
    }

    /// Which letters have games.
    pub fn letter_has_games(&self) -> (res: &Vec<bool>)
        ensures
            res@ == self.letters_with_games(),
    {
        &self.letter_has_games
    }

    /// The visible part of the list: from the first visible game to at most `MAX_VISIBLE` games on.
    pub fn visible_range(&self) -> (res: (usize, usize))
        requires
            self.wf(),
        ensures
            res.0 == self.scroll(),
            res.1 as int == (if self.scroll() + MAX_VISIBLE <= self.entries().len() { self.scroll() + MAX_VISIBLE } else if self.scroll() <= self.entries().len() { self.entries().len() as int } else { self.scroll() as int }),
    {
        let end = if self.filtered.len() >= MAX_VISIBLE && self.scroll_offset <= self.filtered.len() - MAX_VISIBLE {
            self.scroll_offset + MAX_VISIBLE
        } else if self.scroll_offset <= self.filtered.len() {
            self.filtered.len()
        } else {
            self.scroll_offset
        };
        (self.scroll_offset, end)
    }

    /// Updates the states of the listed games from the library and the queue;
    /// says whether any changed.
    pub fn refresh_statuses(&mut self, lib: &MyGames, queue: &DownloadQueue) -> (changed: bool)
        requires
            old(self).wf(),
        ensures
            final(self).wf(),
            final(self).entries().len() == old(self).entries().len(),
            forall|p: int| 0 <= p < old(self).entries().len() ==> {
                let (e, f) = (#[trigger] old(self).entries()[p], final(self).entries()[p]);
                &&& f == BrowserGame {
                    installed: listed(lib.games(), old(self).source_view().name@, old(self).platform_view(), e.game_key@),
                    downloading: downloading_in(queue.items(), old(self).source_view().name@, old(self).platform_view(), e.game_key@),
                    failed: failed_in(queue.items(), old(self).source_view().name@, old(self).platform_view(), e.game_key@),
                    ..e
                }
            },
            changed == exists|p: int| 0 <= p < old(self).entries().len() && #[trigger] final(self).entries()[p] != old(self).entries()[p],
            final(self).all_games() == old(self).all_games(),
            final(self).source_view() == old(self).source_view(),
            final(self).platform_view() == old(self).platform_view(),
            final(self).letter_index() == old(self).letter_index(),
            final(self).letters_with_games() == old(self).letters_with_games(),
            final(self).cursor() == old(self).cursor(),
            final(self).scroll() == old(self).scroll(),
            final(self).source_index() == old(self).source_index(),
    {
        let mut changed = false;
        let mut i: usize = 0;
        let ghost old_entries = self.filtered@;
        while i < self.filtered.len()
            invariant
                old(self).wf(),
                i <= self.filtered.len(),
                self.filtered@.len() == old_entries.len(),
                self.games == old(self).games,
                self.source == old(self).source,
                self.platform == old(self).platform,
                self.letter_idx == old(self).letter_idx,
                self.letter_has_games == old(self).letter_has_games,
                self.selected == old(self).selected,
                self.scroll_offset == old(self).scroll_offset,
                self.source_idx == old(self).source_idx,
                old_entries == old(self).entries(),
                forall|p: int| i <= p < old_entries.len() ==> #[trigger] self.filtered@[p] == old_entries[p],
                forall|p: int| 0 <= p < i ==> {
                    let (e, f) = (#[trigger] old_entries[p], self.filtered@[p]);
                    f == BrowserGame {
                        installed: listed(lib.games(), old(self).source.name@, old(self).platform@, e.game_key@),
                        downloading: downloading_in(queue.items(), old(self).source.name@, old(self).platform@, e.game_key@),
                        failed: failed_in(queue.items(), old(self).source.name@, old(self).platform@, e.game_key@),
                        ..e
                    }
                },
                changed == exists|p: int| 0 <= p < i && #[trigger] self.filtered@[p] != old_entries[p],
            decreases self.filtered.len() - i,
        {
            let installed = lib.is_installed(self.source.name.as_str(), self.platform.as_str(), self.filtered[i].game_key.as_str());
            let downloading = queue.is_queued_or_active(self.source.name.as_str(), self.platform.as_str(), self.filtered[i].game_key.as_str());
            let failed = queue.is_failed(self.source.name.as_str(), self.platform.as_str(), self.filtered[i].game_key.as_str());
            let ghost prev_changed = changed;
            if installed != self.filtered[i].installed || downloading != self.filtered[i].downloading
                || failed != self.filtered[i].failed {
                self.filtered[i].installed = installed;
                self.filtered[i].downloading = downloading;
                self.filtered[i].failed = failed;
                changed = true;
                assert(self.filtered@[i as int] != old_entries[i as int]);
            } else {
                assert(self.filtered@[i as int] == old_entries[i as int]);
            }
            assert(changed == exists|p: int| 0 <= p < i + 1 && #[trigger] self.filtered@[p] != old_entries[p]);
            i = i + 1;
        }
        assert(self.letters_with_games() == old(self).letters_with_games());
        assert(self.all_games() == old(self).all_games());
        changed
    }
}

/// The first letter that has games, or the first letter when none has.
fn first_letter_with_games(has: &Vec<bool>) -> (res: usize)
    requires
        has@.len() == LETTER_COUNT,
    ensures
        res < LETTER_COUNT,
        res == (if exists|i: int| 0 <= i < LETTER_COUNT && #[trigger] has@[i] { next_letter(has@, -1) } else { 0 }),
{
    let mut i: usize = 0;
    while i < LETTER_COUNT
        invariant
            has@.len() == LETTER_COUNT,
            i <= LETTER_COUNT,
            forall|k: int| 0 <= k < i ==> !#[trigger] has@[k],
            next_letter(has@, -1) == next_letter(has@, i - 1),
        decreases LETTER_COUNT - i,
    {
        if has[i] {
            return i;
        }
        i = i + 1;
    }
    0
}


fn find_prev_letter(has: &Vec<bool>, idx: usize) -> (res: Option<usize>)
    requires
        idx <= has@.len(),
    ensures
        match res {
            Some(i) => i as int == prev_letter(has@, idx as int) && i < idx,
            None => prev_letter(has@, idx as int) == -1,
        },
{
    let mut i = idx;
    while i > 0
        invariant
            i <= idx <= has@.len(),
            prev_letter(has@, idx as int) == prev_letter(has@, i as int),
        decreases i,
    {
        if has[i - 1] {
            return Some(i - 1);
        }
        i = i - 1;
    }
    None
}

fn find_next_letter(has: &Vec<bool>, idx: usize) -> (res: Option<usize>)
    requires
        idx < has.len(),
    ensures
        match res {
            Some(i) => i as int == next_letter(has@, idx as int) && idx < i < has@.len(),
            None => next_letter(has@, idx as int) == -1,
        },
{
    let mut i = idx + 1;
    while i < has.len()
        invariant
            idx < i <= has@.len(),
            next_letter(has@, idx as int) == next_letter(has@, i - 1),
        decreases has.len() - i,
    {
        if has[i] {
            return Some(i);
        }
        i = i + 1;
    }
    None
}

impl BrowserState {
    /// Answers an input: L/R move to the previous or next letter with games,
    /// up/down move the cursor (scrolling the window), X asks to download the
    /// highlighted game unless it is installed, downloading or failed, and B
    /// leaves the list.
    pub fn handle_input(
        &mut self,
        action: InputAction,
        lib: &MyGames,
        queue: &DownloadQueue,
        install_resolver: &InstallDirResolver,
    ) -> (res: BrowserStep)
        requires
            old(self).wf(),
        ensures
            final(self).wf(),
            final(self).all_games() == old(self).all_games(),
            final(self).source_view() == old(self).source_view(),
            final(self).platform_view() == old(self).platform_view(),
            final(self).letters_with_games() == old(self).letters_with_games(),
            final(self).source_index() == old(self).source_index(),
            res.outcome == (if action == InputAction::Back { BrowserOutcome::Back } else { BrowserOutcome::Nothing }),
            action != InputAction::Action ==> res.command is None,
            action == InputAction::Left ==> ({
                let p = prev_letter(old(self).letters_with_games(), old(self).letter_index() as int);
                if p >= 0 {
                    final(self).letter_index() == p && final(self).shows(lib.games(), queue.items())
                        && final(self).cursor() == 0 && final(self).scroll() == 0
                } else {
                    final(self).letter_index() == old(self).letter_index() && final(self).entries() == old(self).entries()
                        && final(self).cursor() == old(self).cursor() && final(self).scroll() == old(self).scroll()
                }
            }),
            action == InputAction::Right ==> ({
                let n = next_letter(old(self).letters_with_games(), old(self).letter_index() as int);
                if n >= 0 {
                    final(self).letter_index() == n && final(self).shows(lib.games(), queue.items())
                        && final(self).cursor() == 0 && final(self).scroll() == 0
                } else {
                    final(self).letter_index() == old(self).letter_index() && final(self).entries() == old(self).entries()
                        && final(self).cursor() == old(self).cursor() && final(self).scroll() == old(self).scroll()
                }
            }),
            action == InputAction::Up ==> ({
                let c = if old(self).cursor() > 0 { old(self).cursor() - 1 } else { old(self).cursor() as int };
                &&& final(self).cursor() == c
                &&& final(self).scroll() == (if c < old(self).scroll() { c } else { old(self).scroll() as int })
                &&& final(self).entries() == old(self).entries()
                &&& final(self).letter_index() == old(self).letter_index()
            }),
            action == InputAction::Down ==> ({
                let c = if old(self).cursor() + 1 < old(self).entries().len() { (old(self).cursor() + 1) as int } else { old(self).cursor() as int };
                &&& final(self).cursor() == c
                &&& final(self).scroll() == (if c >= old(self).scroll() + MAX_VISIBLE { c - MAX_VISIBLE + 1 } else { old(self).scroll() as int })
                &&& final(self).entries() == old(self).entries()
                &&& final(self).letter_index() == old(self).letter_index()
            }),
            !(action == InputAction::Left || action == InputAction::Right || action == InputAction::Up || action == InputAction::Down)
                ==> final(self).entries() == old(self).entries() && final(self).cursor() == old(self).cursor()
                && final(self).scroll() == old(self).scroll() && final(self).letter_index() == old(self).letter_index(),
            action == InputAction::Action ==> ({
                let c = old(self).cursor() as int;
                let e = old(self).entries()[c];
                if c < old(self).entries().len() && !(e.installed || e.downloading || e.failed) {
                    res.command matches Some(DownloadCommand::Enqueue { source, platform, key, bucket_name, file_name, game_key, dest_path, total_bytes })
                        && source.name == old(self).source_view().name && source.source_type == old(self).source_view().source_type
                        && source.credentials == old(self).source_view().credentials && source.platform == old(self).source_view().platform
                        && source.buckets@ == old(self).source_view().buckets@ && source.extract == old(self).source_view().extract
                        && platform@ == old(self).platform_view() && key == e.full_key && bucket_name == e.bucket_name
                        && file_name == e.file_name && game_key == e.game_key && total_bytes == e.file_size
                        && dest_path@ == dest_path_for(install_resolver.dir_map(), old(self).platform_view(), e.file_name@)
                } else {
                    res.command is None
                }
            }),
    {
        match action {
            InputAction::Left => {
                match find_prev_letter(&self.letter_has_games, self.letter_idx) {
                    Some(idx) => {
                        self.letter_idx = idx;
                        self.rebuild(lib, queue);
                    },
                    None => {},
                }
                BrowserStep { outcome: BrowserOutcome::Nothing, command: None }
            },
            InputAction::Right => {
                match find_next_letter(&self.letter_has_games, self.letter_idx) {
                    Some(idx) => {
                        self.letter_idx = idx;
                        self.rebuild(lib, queue);
                    },
                    None => {},
                }
                BrowserStep { outcome: BrowserOutcome::Nothing, command: None }
            },
            InputAction::Up => {
                if self.selected > 0 {
                    self.selected = self.selected - 1;
                    if self.selected < self.scroll_offset {
                        self.scroll_offset = self.selected;
                    }
                }
                BrowserStep { outcome: BrowserOutcome::Nothing, command: None }
            },
            InputAction::Down => {
                if self.filtered.len() > 0 && self.selected < self.filtered.len() - 1 {
                    self.selected = self.selected + 1;
                    if self.selected - self.scroll_offset >= MAX_VISIBLE {
                        self.scroll_offset = self.selected - MAX_VISIBLE + 1;
                    }
                }
                BrowserStep { outcome: BrowserOutcome::Nothing, command: None }
            },
            InputAction::Action => {
                if self.selected < self.filtered.len() {
                    let e = &self.filtered[self.selected];
                    if e.installed || e.downloading || e.failed {
                        BrowserStep { outcome: BrowserOutcome::Nothing, command: None }
                    } else {
                        let dest = derive_dest_path(install_resolver, self.platform.as_str(), e.file_name.as_str());
                        let cmd = DownloadCommand::Enqueue {
                            source: self.source.copy(),
                            platform: self.platform.clone(),
                            key: e.full_key.clone(),
                            bucket_name: e.bucket_name.clone(),
                            file_name: e.file_name.clone(),
                            game_key: e.game_key.clone(),
                            dest_path: dest,
                            total_bytes: e.file_size,
                        };
                        BrowserStep { outcome: BrowserOutcome::Nothing, command: Some(cmd) }
                    }
                } else {
                    BrowserStep { outcome: BrowserOutcome::Nothing, command: None }
                }
            },
            InputAction::Back => BrowserStep { outcome: BrowserOutcome::Back, command: None },
            _ => BrowserStep { outcome: BrowserOutcome::Nothing, command: None },
        }
    }

    /// The legend under the list: without "X: Download" when the highlighted
    /// game is installed, downloading or failed.
    pub fn legend(&self) -> (res: &'static str)
        ensures
            ({
                let c = self.cursor() as int;
                let e = self.entries()[c];
                if c < self.entries().len() && (e.installed || e.downloading || e.failed) {
                    res@ == "Menu: Exit    L1/R1: Letter    B: Back"@
                } else {
                    res@ == "Menu: Exit    L1/R1: Letter    X: Download    B: Back"@
                }
            }),
    {
        if self.selected < self.filtered.len() {
            let e = &self.filtered[self.selected];
            if e.installed || e.downloading || e.failed {
                return "Menu: Exit    L1/R1: Letter    B: Back";
            }
        }
        "Menu: Exit    L1/R1: Letter    X: Download    B: Back"
    }
}

} // verus!
