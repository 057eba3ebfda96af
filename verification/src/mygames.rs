use vstd::prelude::*;
use vstd::utf8::{encode_utf8, is_char_boundary};

use crate::download::{DownloadCommand, DownloadEntry, DownloadId, DownloadState};
use crate::input::InputAction;
use crate::install_dir::DirListingEntry;
use crate::library::GameEntry;
use crate::order::{key_views, stable_order, stable_sorted, SortKey};
use crate::text::{
    before_last_dot, chars_of, chars_eq, concat, lemma_encode_utf8_concat, lowercased, rfind, rfind_char, str_eq, sub_chars,
    to_lowercase,
};

verus! {

/// How many rows the list shows at once.
pub const ROWS_VISIBLE: usize = 15;

/// What the library screen asks of the program.
#[derive(Debug, Clone, Copy, PartialEq, Eq, Structural)]
pub enum MyGamesOutcome {
    Nothing,
    Back,
}

/// A row of the library screen.
#[derive(Debug, Clone)]
pub enum Row {
    Download(DownloadEntry),
    Separator,
    Installed(GameEntry),
}

/// Whether a download is shown: every one that is not completed.
pub open spec fn shown(s: DownloadState) -> bool {
    s != DownloadState::Completed
}

pub open spec fn shown_downloads() -> spec_fn(DownloadEntry) -> bool {
    |e: DownloadEntry| shown(e.state)
}

/// The rank of a state in the list: running, unpacking, queued, paused, failed.
pub open spec fn state_rank(s: DownloadState) -> u64 {
    match s {
        DownloadState::Active => 0,
        DownloadState::Unpacking => 1,
        DownloadState::Queued => 2,
        DownloadState::Paused => 3,
        DownloadState::Failed => 4,
        DownloadState::Completed => 5,
    }
}

fn rank_of(s: DownloadState) -> (res: u64)
    ensures
        res == state_rank(s),
{
    match s {
        DownloadState::Active => 0,
        DownloadState::Unpacking => 1,
        DownloadState::Queued => 2,
        DownloadState::Paused => 3,
        DownloadState::Failed => 4,
        DownloadState::Completed => 5,
    }
}

/// Downloads are listed by state rank, then by file name ignoring case.
pub open spec fn download_keys(ds: Seq<DownloadEntry>) -> Seq<SortKey> {
    Seq::new(ds.len(), |i: int| (state_rank(ds[i].state), lowercased(ds[i].file_name@)))
}

/// Installed games are listed by name ignoring case.
pub open spec fn installed_keys(gs: Seq<GameEntry>) -> Seq<SortKey> {
    Seq::new(gs.len(), |i: int| (0u64, lowercased(gs[i].key@)))
}

/// Whether a separator row stands between downloads and installed games.
pub open spec fn has_separator(ds: Seq<DownloadEntry>, gs: Seq<GameEntry>) -> bool {
    ds.len() > 0 && gs.len() > 0
}

/// The rows of the screen: the shown downloads, sorted (see `download_keys`);
/// a separator when there are both downloads and installed games; the
/// installed games, sorted (see `installed_keys`). Sorts keep ties in input order.
pub open spec fn rows_of(rows: Seq<Row>, statuses: Seq<DownloadEntry>, installed: Seq<GameEntry>) -> bool {
    let ds = statuses.filter(shown_downloads());
    let sep: int = if has_separator(ds, installed) { 1 } else { 0 };
    &&& rows.len() == ds.len() + sep + installed.len()
    &&& exists|o: Seq<usize>| #[trigger] stable_sorted(download_keys(ds), o)
        && forall|p: int| 0 <= p < ds.len() ==> #[trigger] rows[p] == Row::Download(ds[o[p] as int])
    &&& sep == 1 ==> rows[ds.len() as int] is Separator
    &&& exists|o: Seq<usize>| #[trigger] stable_sorted(installed_keys(installed), o)
        && forall|p: int| 0 <= p < installed.len() ==> #[trigger] rows[ds.len() + sep + p] == Row::Installed(installed[o[p] as int])
}

/// The rows of the screen (see `rows_of`).
pub fn build_rows(statuses: &Vec<DownloadEntry>, installed: &[GameEntry]) -> (res: Vec<Row>)
    ensures
        rows_of(res@, statuses@, installed@),
{
    let ghost pred = shown_downloads();
    let mut ds: Vec<DownloadEntry> = Vec::new();
    let mut i: usize = 0;
    while i < statuses.len()
        invariant
            i <= statuses.len(),
            pred == shown_downloads(),
            ds@ == statuses@.take(i as int).filter(pred),
        decreases statuses.len() - i,
    {
        assert(statuses@.take(i + 1).drop_last() =~= statuses@.take(i as int));
        assert(statuses@.take(i + 1).last() == statuses@[i as int]);
        reveal(Seq::filter);
        if statuses[i].state != DownloadState::Completed {
            ds.push(statuses[i].copy());
        }
        i = i + 1;
    }
    assert(statuses@.take(statuses.len() as int) =~= statuses@);
    let mut dkeys: Vec<(u64, Vec<char>)> = Vec::new();
    let mut k: usize = 0;
    while k < ds.len()
        invariant
            k <= ds.len(),
            key_views(dkeys@) =~= download_keys(ds@).take(k as int),
        decreases ds.len() - k,
    {
        let lower = to_lowercase(ds[k].file_name.as_str());
        let ghost before = dkeys@;
        dkeys.push((rank_of(ds[k].state), chars_of(lower.as_str())));
        assert(key_views(dkeys@) =~= key_views(before).push(download_keys(ds@)[k as int]));
        k = k + 1;
    }
    assert(key_views(dkeys@) =~= download_keys(ds@));
    let dorder = stable_order(&dkeys);
    let mut gkeys: Vec<(u64, Vec<char>)> = Vec::new();
    let mut k: usize = 0;
    while k < installed.len()
        invariant
            k <= installed.len(),
            key_views(gkeys@) =~= installed_keys(installed@).take(k as int),
        decreases installed.len() - k,
    {
        let lower = to_lowercase(installed[k].key.as_str());
        let ghost before = gkeys@;
        gkeys.push((0u64, chars_of(lower.as_str())));
        assert(key_views(gkeys@) =~= key_views(before).push(installed_keys(installed@)[k as int]));
        k = k + 1;
    }
    assert(key_views(gkeys@) =~= installed_keys(installed@));
    let gorder = stable_order(&gkeys);
    let mut rows: Vec<Row> = Vec::new();
    let mut p: usize = 0;
    while p < dorder.len()
        invariant
            p <= dorder.len(),
            dorder@.len() == ds@.len(),
            stable_sorted(download_keys(ds@), dorder@),
            rows@.len() == p,
            forall|q: int| 0 <= q < p ==> #[trigger] rows@[q] == Row::Download(ds@[dorder@[q] as int]),
        decreases dorder.len() - p,
    {
        rows.push(Row::Download(ds[dorder[p]].copy()));
        p = p + 1;
    }
    let sep = ds.len() > 0 && installed.len() > 0;
    if sep {
        rows.push(Row::Separator);
    }
    let ghost base = rows@.len();
    let ghost before_installed = rows@;
    let mut p: usize = 0;
    while p < gorder.len()
        invariant
            p <= gorder.len(),
            gorder@.len() == installed@.len(),
            stable_sorted(installed_keys(installed@), gorder@),
            rows@.len() == base + p,
            forall|q: int| 0 <= q < base ==> #[trigger] rows@[q] == before_installed[q],
            forall|q: int| 0 <= q < p ==> #[trigger] rows@[base + q] == Row::Installed(installed@[gorder@[q] as int]),
        decreases gorder.len() - p,
    {
        rows.push(Row::Installed(installed[gorder[p]].copy()));
        p = p + 1;
    }
    proof {
        assert(stable_sorted(download_keys(ds@), dorder@));
        assert(stable_sorted(installed_keys(installed@), gorder@));
        let sepv: int = if sep { 1int } else { 0int };
        assert(base == ds@.len() + sepv);
        assert forall|q: int| 0 <= q < installed@.len() implies #[trigger] rows@[ds@.len() + sepv + q]
            == Row::Installed(installed@[gorder@[q] as int]) by {
            assert(rows@[base + q] == Row::Installed(installed@[gorder@[q] as int]));
        }
    }
    rows
}


/// The cursor after a rebuild moves it off a separator: down when it can, else up.
pub open spec fn off_separator(rows: Seq<Row>, sel: int) -> int {
    if 0 <= sel < rows.len() && rows[sel] is Separator {
        if sel + 1 < rows.len() {
            sel + 1
        } else if sel > 0 {
            sel - 1
        } else {
            sel
        }
    } else {
        sel
    }
}

/// The cursor kept on a row and the window moved to show it.
pub open spec fn clamped(sel: int, scroll: int, len: int) -> (int, int) {
    if len == 0 {
        (0, 0)
    } else {
        let s = if sel >= len { len - 1 } else { sel };
        let sc = if s < scroll { s } else { scroll };
        let sc2 = if s >= sc + ROWS_VISIBLE { s + 1 - ROWS_VISIBLE } else { sc };
        (s, sc2)
    }
}

pub open spec fn clamp_int(x: int, lo: int, hi: int) -> int {
    if x < lo {
        lo
    } else if x > hi {
        hi
    } else {
        x
    }
}

pub open spec fn signum(x: int) -> int {
    if x > 0 {
        1
    } else if x < 0 {
        -1
    } else {
        0
    }
}

/// The cursor after moving by `delta` on a nonempty list: kept inside the list,
/// and stepped once more in the same direction when it lands on the separator
/// and the next row is not one.
pub open spec fn moved(rows: Seq<Row>, sel: int, delta: int) -> int {
    let n = clamp_int(sel + delta, 0, rows.len() - 1);
    if rows[n] is Separator {
        let next = clamp_int(n + signum(delta), 0, rows.len() - 1);
        if !(rows[next] is Separator) {
            next
        } else {
            n
        }
    } else {
        n
    }
}

/// Moving the cursor goes the way it is asked: up (a negative `delta`) from
/// any row but the first ends on an earlier row, down (a positive `delta`)
/// from any row but the last ends on a later row, stepping over the separator
/// rather than back; the row it ends on is a row of the list, and it is where
/// the cursor of the screen is left.
pub proof fn law_move_goes_its_way(rows: Seq<Row>, sel: int, delta: int, scroll: int)
    requires
        0 <= sel < rows.len(),
    ensures
        0 <= moved(rows, sel, delta) < rows.len(),
        clamped(moved(rows, sel, delta), scroll, rows.len() as int).0 == moved(rows, sel, delta),
        delta < 0 && sel > 0 ==> moved(rows, sel, delta) < sel,
        delta > 0 && sel < rows.len() - 1 ==> moved(rows, sel, delta) > sel,
{
}

/// What the library screen asks of the program after an input.
pub struct MyGamesStep {
    pub outcome: MyGamesOutcome,
    pub command: Option<DownloadCommand>,
    pub delete: Option<GameEntry>,
    pub refresh: bool,
}

/// The library screen: its rows, cursor, window and delete dialog.
pub struct MyGamesState {
    rows: Vec<Row>,
    selected: usize,
    scroll_offset: usize,
    confirm_delete: bool,
    confirm_selected: usize,
}

impl MyGamesState {
    pub closed spec fn rows(&self) -> Seq<Row> {
        self.rows@
    }

    pub closed spec fn cursor(&self) -> int {
        self.selected as int
    }

    pub closed spec fn scroll(&self) -> int {
        self.scroll_offset as int
    }

    pub closed spec fn confirming(&self) -> bool {
        self.confirm_delete
    }

    /// 0 for "No", 1 for "Yes".
    pub closed spec fn choice(&self) -> int {
        self.confirm_selected as int
    }

    /// The rows and, in the dialog, a choice that is "No" or "Yes".
    pub open spec fn wf(&self) -> bool {
        &&& 0 <= self.choice() <= 1
        &&& self.rows().len() <= 0x7fff_0000
        &&& 0 <= self.cursor() <= 0x7fff_0000
        &&& 0 <= self.scroll() <= 0x7fff_0000
    }

    fn rebuild(&mut self, statuses: &Vec<DownloadEntry>, installed: &[GameEntry])
        requires
            statuses@.len() + installed@.len() + 1 <= 0x7fff_0000,
        ensures
            rows_of(final(self).rows(), statuses@, installed@),
            final(self).cursor() == off_separator(final(self).rows(), old(self).cursor()),
            final(self).scroll() == old(self).scroll(),
            final(self).confirming() == old(self).confirming(),
            final(self).choice() == old(self).choice(),
            final(self).rows().len() <= 0x7fff_0000,
    {
        proof {
            statuses@.lemma_filter_len(shown_downloads());
        }
        self.rows = build_rows(statuses, installed);
        if self.selected < self.rows.len() {
            match &self.rows[self.selected] {
                Row::Separator => {
                    if self.selected + 1 < self.rows.len() {
                        self.selected = self.selected + 1;
                    } else if self.selected > 0 {
                        self.selected = self.selected - 1;
                    }
                },
                _ => {},
            }
        }
    }

    /// The screen for the given downloads and installed games, cursor on the first row.
    pub fn new(statuses: &Vec<DownloadEntry>, installed: &[GameEntry]) -> (res: Self)
        requires
            statuses@.len() + installed@.len() + 1 <= 0x7fff_0000,
        ensures
            res.wf(),
            rows_of(res.rows(), statuses@, installed@),
            res.cursor() == off_separator(res.rows(), 0),
            res.scroll() == 0,
            !res.confirming(),
    {
        let mut st = MyGamesState { rows: Vec::new(), selected: 0, scroll_offset: 0, confirm_delete: false, confirm_selected: 0 };
        st.rebuild(statuses, installed);
        st
    }

    fn clamp_scroll(&mut self)
        ensures
            final(self).rows() == old(self).rows(),
            (final(self).cursor(), final(self).scroll()) == clamped(old(self).cursor(), old(self).scroll(), old(self).rows().len() as int),
            final(self).confirming() == old(self).confirming(),
            final(self).choice() == old(self).choice(),
    {
        if self.rows.len() == 0 {
            self.scroll_offset = 0;
            self.selected = 0;
            return;
        }
        if self.selected >= self.rows.len() {
            self.selected = self.rows.len() - 1;
        }
        if self.selected < self.scroll_offset {
            self.scroll_offset = self.selected;
        }
        if self.selected - self.scroll_offset >= ROWS_VISIBLE {
            self.scroll_offset = self.selected + 1 - ROWS_VISIBLE;
        }
    }

    /// Rebuilds the rows from new data, keeping the cursor where it was when it
    /// still is on a row (else on the last row) and the window around it.
    pub fn refresh(&mut self, statuses: &Vec<DownloadEntry>, installed: &[GameEntry])
        requires
            old(self).wf(),
            statuses@.len() + installed@.len() + 1 <= 0x7fff_0000,
        ensures
            final(self).wf(),
            rows_of(final(self).rows(), statuses@, installed@),
            ({
                let len = final(self).rows().len() as int;
                let kept = if old(self).cursor() < len { old(self).cursor() } else if len > 0 { len - 1 } else { old(self).cursor() };
                (final(self).cursor(), final(self).scroll()) == clamped(off_separator(final(self).rows(), kept), old(self).scroll(), len)
            }),
            final(self).confirming() == old(self).confirming(),
            final(self).choice() == old(self).choice(),
    {
        let old_selected = self.selected;
        self.rebuild(statuses, installed);
        if old_selected < self.rows.len() {
            self.selected = old_selected;
        } else if self.rows.len() > 0 {
            self.selected = self.rows.len() - 1;
        }
        if self.selected < self.rows.len() {
            let on_sep = match &self.rows[self.selected] {
                Row::Separator => true,
                _ => false,
            };
            if on_sep {
                if self.selected + 1 < self.rows.len() {
                    self.selected = self.selected + 1;
                } else if self.selected > 0 {
                    self.selected = self.selected - 1;
                }
            }
        }
        self.clamp_scroll();
    }

    fn move_selection(&mut self, delta: i32)
        requires
            old(self).wf(),
            -100 <= delta <= 100,
        ensures
            final(self).wf(),
            final(self).rows() == old(self).rows(),
            final(self).confirming() == old(self).confirming(),
            final(self).choice() == old(self).choice(),
            old(self).rows().len() == 0 ==> *final(self) == *old(self),
            old(self).rows().len() > 0 ==> (final(self).cursor(), final(self).scroll()) == clamped(
                moved(old(self).rows(), old(self).cursor(), delta as int), old(self).scroll(), old(self).rows().len() as int),
    {
        if self.rows.len() == 0 {
            return;
        }
        let len = self.rows.len() as i64;
        let target = self.selected as i64 + delta as i64;
        let n: i64 = if target < 0 { 0 } else if target > len - 1 { len - 1 } else { target };
        self.selected = n as usize;
        let on_sep = match &self.rows[self.selected] {
            Row::Separator => true,
            _ => false,
        };
        if on_sep {
            let step: i64 = if delta > 0 { 1 } else if delta < 0 { -1 } else { 0 };
            let t2 = n + step;
            let next: i64 = if t2 < 0 { 0 } else if t2 > len - 1 { len - 1 } else { t2 };
            let next_sep = match &self.rows[next as usize] {
                Row::Separator => true,
                _ => false,
            };
            if !next_sep {
                self.selected = next as usize;
            }
        }
        self.clamp_scroll();
    }

    /// The rows.
    pub fn rows_ref(&self) -> (res: &Vec<Row>)
        ensures
            res@ == self.rows(),
    {
        &self.rows
    }

    /// The highlighted row.
    pub fn selected(&self) -> (res: usize)
        ensures
            res == self.cursor(),
    {
        self.selected
    }

    /// The first visible row.
    pub fn scroll_offset(&self) -> (res: usize)
        ensures
            res == self.scroll(),
    {
        self.scroll_offset
    }

    /// Whether the delete dialog is open.
    pub fn confirm_delete(&self) -> (res: bool)
        ensures
            res == self.confirming(),
    {
        self.confirm_delete
    }

    /// The highlighted answer of the delete dialog: 0 for "No", 1 for "Yes".
    pub fn confirm_selected(&self) -> (res: usize)
        ensures
            res == self.choice(),
    {
        self.confirm_selected
    }

    /// Answers an input. In the delete dialog, up/down switch between "No" and
    /// "Yes", A answers (on "Yes" a download is cancelled, an installed game
    /// deleted, and the screen refreshed) and B closes it. Otherwise the
    /// directions move the cursor (left/right by a page), X pauses a running
    /// download and resumes a paused or failed one, Y opens the dialog on a row
    /// that is not the separator, and B leaves the screen.
    pub fn handle_input(&mut self, action: InputAction) -> (res: MyGamesStep)
        requires
            old(self).wf(),
        ensures
            final(self).wf(),
            final(self).rows() == old(self).rows(),
            old(self).confirming() ==> ({
                let c = old(self).cursor();
                let yes = old(self).choice() == 1;
                &&& res.outcome == MyGamesOutcome::Nothing
                &&& final(self).cursor() == old(self).cursor()
                &&& final(self).scroll() == old(self).scroll()
                &&& (action == InputAction::Up || action == InputAction::Down) ==> final(self).confirming()
                    && final(self).choice() == 1 - old(self).choice() && res.command is None && res.delete is None && !res.refresh
                &&& action == InputAction::Confirm ==> !final(self).confirming() && final(self).choice() == old(self).choice()
                    && res.refresh == yes
                    && (yes && c < old(self).rows().len() && old(self).rows()[c] is Download ==>
                        res.command == Some(DownloadCommand::Cancel(old(self).rows()[c]->Download_0.id)) && res.delete is None)
                    && (yes && c < old(self).rows().len() && old(self).rows()[c] is Installed ==>
                        res.delete == Some(old(self).rows()[c]->Installed_0) && res.command is None)
                    && (!(yes && c < old(self).rows().len()) || old(self).rows()[c] is Separator ==>
                        res.delete is None && res.command is None)
                &&& action == InputAction::Back ==> !final(self).confirming() && final(self).choice() == old(self).choice()
                    && res.command is None && res.delete is None && !res.refresh
                &&& !(action == InputAction::Up || action == InputAction::Down || action == InputAction::Confirm
                    || action == InputAction::Back) ==> final(self).confirming() && final(self).choice() == old(self).choice()
                    && res.command is None && res.delete is None && !res.refresh
            }),
            !old(self).confirming() ==> ({
                let c = old(self).cursor();
                let len = old(self).rows().len() as int;
                &&& res.delete is None
                &&& !res.refresh
                &&& res.outcome == (if action == InputAction::Back { MyGamesOutcome::Back } else { MyGamesOutcome::Nothing })
                &&& (action == InputAction::Up || action == InputAction::Down || action == InputAction::Left
                    || action == InputAction::Right) ==> res.command is None && !final(self).confirming() && ({
                    let delta: int = if action == InputAction::Up { -1 } else if action == InputAction::Down { 1 }
                        else if action == InputAction::Left { -(ROWS_VISIBLE as int) } else { ROWS_VISIBLE as int };
                    if len == 0 {
                        final(self).cursor() == old(self).cursor() && final(self).scroll() == old(self).scroll()
                    } else {
                        (final(self).cursor(), final(self).scroll()) == clamped(moved(old(self).rows(), c, delta), old(self).scroll(), len)
                    }
                })
                &&& action == InputAction::Action ==> !final(self).confirming() && final(self).cursor() == c
                    && final(self).scroll() == old(self).scroll()
                    && (if c < len && old(self).rows()[c] is Download {
                        let dl = old(self).rows()[c]->Download_0;
                        if dl.state == DownloadState::Active {
                            res.command == Some(DownloadCommand::Pause(dl.id))
                        } else if dl.state == DownloadState::Paused || dl.state == DownloadState::Failed {
                            res.command == Some(DownloadCommand::Resume(dl.id))
                        } else {
                            res.command is None
                        }
                    } else {
                        res.command is None
                    })
                &&& action == InputAction::Refresh ==> res.command is None && final(self).cursor() == c
                    && final(self).scroll() == old(self).scroll()
                    && (if c < len && !(old(self).rows()[c] is Separator) {
                        final(self).confirming() && final(self).choice() == 0
                    } else {
                        !final(self).confirming() && final(self).choice() == old(self).choice()
                    })
                &&& !(action == InputAction::Up || action == InputAction::Down || action == InputAction::Left
                    || action == InputAction::Right || action == InputAction::Action || action == InputAction::Refresh)
                    ==> res.command is None && !final(self).confirming() && final(self).cursor() == c
                    && final(self).scroll() == old(self).scroll()
            }),
    {
        let none = MyGamesStep { outcome: MyGamesOutcome::Nothing, command: None, delete: None, refresh: false };
        if self.confirm_delete {
            match action {
                InputAction::Up | InputAction::Down => {
                    self.confirm_selected = 1 - self.confirm_selected;
                    return none;
                },
                InputAction::Confirm => {
                    self.confirm_delete = false;
                    if self.confirm_selected == 1 {
                        let mut step = MyGamesStep { outcome: MyGamesOutcome::Nothing, command: None, delete: None, refresh: true };
                        if self.selected < self.rows.len() {
                            match &self.rows[self.selected] {
                                Row::Download(dl) => {
                                    step.command = Some(DownloadCommand::Cancel(dl.id));
                                },
                                Row::Installed(game) => {
                                    step.delete = Some(game.copy());
                                },
                                Row::Separator => {},
                            }
                        }
                        return step;
                    }
                    return none;
                },
                InputAction::Back => {
                    self.confirm_delete = false;
                    return none;
                },
                _ => {
                    return none;
                },
            }
        }
        match action {
            InputAction::Up => {
                self.move_selection(-1);
                none
            },
            InputAction::Down => {
                self.move_selection(1);
                none
            },
            InputAction::Left => {
                self.move_selection(-15);
                none
            },
            InputAction::Right => {
                self.move_selection(15);
                none
            },
            InputAction::Back => MyGamesStep { outcome: MyGamesOutcome::Back, command: None, delete: None, refresh: false },
            InputAction::Action => {
                if self.selected < self.rows.len() {
                    match &self.rows[self.selected] {
                        Row::Download(dl) => {
                            if dl.state == DownloadState::Active {
                                return MyGamesStep {
                                    outcome: MyGamesOutcome::Nothing,
                                    command: Some(DownloadCommand::Pause(dl.id)),
                                    delete: None,
                                    refresh: false,
                                };
                            } else if dl.state == DownloadState::Paused || dl.state == DownloadState::Failed {
                                return MyGamesStep {
                                    outcome: MyGamesOutcome::Nothing,
                                    command: Some(DownloadCommand::Resume(dl.id)),
                                    delete: None,
                                    refresh: false,
                                };
                            }
                        },
                        _ => {},
                    }
                }
                none
            },
            InputAction::Refresh => {
                if self.selected < self.rows.len() {
                    match &self.rows[self.selected] {
                        Row::Separator => {},
                        _ => {
                            self.confirm_delete = true;
                            self.confirm_selected = 0;
                        },
                    }
                }
                none
            },
            _ => none,
        }
    }

    /// The legend under the list, for the highlighted row.
    pub fn legend(&self) -> (res: &'static str)
        ensures
            res@ == ({
                let c = self.cursor();
                if 0 <= c < self.rows().len() {
                    match self.rows()[c] {
                        Row::Download(dl) => match dl.state {
                            DownloadState::Active | DownloadState::Queued => "B: Back    X: Pause    Y: Delete"@,
                            DownloadState::Paused => "B: Back    X: Resume    Y: Delete"@,
                            DownloadState::Failed => "B: Back    X: Retry    Y: Delete"@,
                            DownloadState::Unpacking => "B: Back"@,
                            DownloadState::Completed => "B: Back    Y: Delete"@,
                        },
                        Row::Installed(_) => "B: Back    Y: Delete"@,
                        Row::Separator => "B: Back"@,
                    }
                } else {
                    "B: Back"@
                }
            }),
    {
        if self.selected < self.rows.len() {
            match &self.rows[self.selected] {
                Row::Download(dl) => match dl.state {
                    DownloadState::Active | DownloadState::Queued => "B: Back    X: Pause    Y: Delete",
                    DownloadState::Paused => "B: Back    X: Resume    Y: Delete",
                    DownloadState::Failed => "B: Back    X: Retry    Y: Delete",
                    DownloadState::Unpacking => "B: Back",
                    DownloadState::Completed => "B: Back    Y: Delete",
                },
                Row::Installed(_) => "B: Back    Y: Delete",
                Row::Separator => "B: Back",
            }
        } else {
            "B: Back"
        }
    }
}

/// A text cut to fit `max_len` bytes: a longer one keeps its first
/// `max_len - 3` bytes and ends with `...`. The cut must fall between two characters.
pub fn truncate(s: &str, max_len: usize) -> (res: String)
    requires
        encode_utf8(s@).len() <= usize::MAX,
        encode_utf8(s@).len() > max_len ==> max_len >= 3 && is_char_boundary(encode_utf8(s@), max_len - 3),
    ensures
        encode_utf8(s@).len() <= max_len ==> res@ == s@,
        encode_utf8(s@).len() > max_len ==> encode_utf8(res@) == encode_utf8(s@).subrange(0, max_len - 3)
            + encode_utf8("..."@),
{
    if s.len() <= max_len {
        return s.to_owned();
    }
    let (left, _) = s.split_at(max_len - 3);
    let res = concat(left, "...");
    proof { lemma_encode_utf8_concat(left@, "..."@); }
    res
}

/// The name a platform code is shown with; an unknown code is shown as it is.
pub open spec fn platform_name(code: Seq<char>) -> Seq<char> {
    if code == "PS"@ {
        "PlayStation"@
    } else if code == "GBA"@ {
        "Game Boy Advance"@
    } else if code == "GBC"@ {
        "Game Boy Color"@
    } else if code == "GB"@ {
        "Game Boy"@
    } else if code == "FC"@ {
        "Famicom/NES"@
    } else if code == "SFC"@ {
        "Super Famicom/SNES"@
    } else if code == "MD"@ {
        "Mega Drive/Genesis"@
    } else if code == "N64"@ {
        "Nintendo 64"@
    } else if code == "NDS"@ {
        "Nintendo DS"@
    } else if code == "PSP"@ {
        "PlayStation Portable"@
    } else if code == "DC"@ {
        "Dreamcast"@
    } else if code == "SS"@ {
        "Sega Saturn"@
    } else if code == "PCE"@ {
        "PC Engine"@
    } else if code == "MAME"@ {
        "Arcade (MAME)"@
    } else {
        code
    }
}

/// The name a platform code is shown with (see `platform_name`).
pub fn platform_display(code: &str) -> (res: String)
    ensures
        res@ == platform_name(code@),
{
    if str_eq(code, "PS") {
        "PlayStation".to_owned()
    } else if str_eq(code, "GBA") {
        "Game Boy Advance".to_owned()
    } else if str_eq(code, "GBC") {
        "Game Boy Color".to_owned()
    } else if str_eq(code, "GB") {
        "Game Boy".to_owned()
    } else if str_eq(code, "FC") {
        "Famicom/NES".to_owned()
    } else if str_eq(code, "SFC") {
        "Super Famicom/SNES".to_owned()
    } else if str_eq(code, "MD") {
        "Mega Drive/Genesis".to_owned()
    } else if str_eq(code, "N64") {
        "Nintendo 64".to_owned()
    } else if str_eq(code, "NDS") {
        "Nintendo DS".to_owned()
    } else if str_eq(code, "PSP") {
        "PlayStation Portable".to_owned()
    } else if str_eq(code, "DC") {
        "Dreamcast".to_owned()
    } else if str_eq(code, "SS") {
        "Sega Saturn".to_owned()
    } else if str_eq(code, "PCE") {
        "PC Engine".to_owned()
    } else if str_eq(code, "MAME") {
        "Arcade (MAME)".to_owned()
    } else {
        code.to_owned()
    }
}

/// Whether a file of the platform directory belongs to the installed game `key`:
/// its name without the last extension is the key (a name without a dot belongs to none).
pub open spec fn flat_file_of(name: Seq<char>, key: Seq<char>) -> bool {
    rfind(name, '.') >= 0 && name.take(rfind(name, '.')) == key
}

/// A file belongs to a game exactly when its name is the game's key, a dot,
/// and a last extension holding no dot, whatever the key holds (dots included).
pub proof fn law_game_files_are_key_dot_extension(name: Seq<char>, key: Seq<char>, ext: Seq<char>)
    ensures
        (forall|i: int| 0 <= i < ext.len() ==> ext[i] != '.') ==> flat_file_of(key + seq!['.'] + ext, key),
        flat_file_of(name, key) ==> ({
            let e = name.subrange(key.len() as int + 1, name.len() as int);
            &&& name == key + seq!['.'] + e
            &&& forall|i: int| 0 <= i < e.len() ==> e[i] != '.'
        }),
{
    let n = key + seq!['.'] + ext;
    if forall|i: int| 0 <= i < ext.len() ==> ext[i] != '.' {
        let k = key.len() as int;
        assert forall|j: int| k + 1 <= j < n.len() implies n[j] != '.' by {
            assert(n[j] == ext[j - k - 1]);
        }
        crate::text::lemma_rfind_take(n, '.', k + 1);
        assert(n.take(k + 1).last() == '.');
        assert(rfind(n.take(k + 1), '.') == k);
        assert(n.take(k) =~= key);
    }
    if flat_file_of(name, key) {
        crate::text::lemma_rfind_bounds(name, '.');
        let r = rfind(name, '.');
        let e = name.subrange(key.len() as int + 1, name.len() as int);
        assert(r == key.len());
        assert(name =~= key + seq!['.'] + e);
        assert forall|i: int| 0 <= i < e.len() implies e[i] != '.' by {
            assert(e[i] == name[r + 1 + i]);
        }
    }
}

/// The regular files of a platform directory listing that belong to the installed game `key`.
pub fn flat_files_of(listing: &Vec<DirListingEntry>, key: &str) -> (res: Vec<String>)
    ensures
        ({
            let kept = listing@.filter(|e: DirListingEntry| e.is_file && flat_file_of(e.name@, key@));
            res@.len() == kept.len() && forall|i: int| 0 <= i < kept.len() ==> #[trigger] res@[i] == kept[i].name
        }),
{
    let ghost pred = |e: DirListingEntry| e.is_file && flat_file_of(e.name@, key@);
    let k = chars_of(key);
    let mut res: Vec<String> = Vec::new();
    let mut i: usize = 0;
    while i < listing.len()
        invariant
            i <= listing.len(),
            k@ == key@,
            pred == (|e: DirListingEntry| e.is_file && flat_file_of(e.name@, key@)),
            res@.len() == listing@.take(i as int).filter(pred).len(),
            forall|j: int| 0 <= j < res@.len() ==> #[trigger] res@[j] == listing@.take(i as int).filter(pred)[j].name,
        decreases listing.len() - i,
    {
        assert(listing@.take(i + 1).drop_last() =~= listing@.take(i as int));
        assert(listing@.take(i + 1).last() == listing@[i as int]);
        reveal(Seq::filter);
        let e = &listing[i];
        let name = chars_of(e.name.as_str());
        proof { crate::text::lemma_rfind_bounds(name@, '.'); }
        let belongs = match rfind_char(&name, '.') {
            Some(d) => {
                let stem = sub_chars(&name, 0, d);
                assert(stem@ =~= name@.take(d as int));
                chars_eq(&stem, &k)
            },
            None => false,
        };
        if e.is_file && belongs {
            res.push(e.name.clone());
        }
        i = i + 1;
    }
    assert(listing@.take(listing.len() as int) =~= listing@);
    res
}

/// The library entry of a completed download: its game key, source and platform.
pub open spec fn library_entry_of(g: GameEntry, e: DownloadEntry) -> bool {
    g.key == e.game_key && g.source == e.source_name && g.platform == e.platform
}

/// The library entry for the download with this id, if it is listed.
pub fn completed_game(statuses: &Vec<DownloadEntry>, id: DownloadId) -> (res: Option<GameEntry>)
    ensures
        ({
            let k = crate::download::id_index(statuses@, id);
            match res {
                Some(g) => k >= 0 && library_entry_of(g, statuses@[k]),
                None => k == -1,
            }
        }),
{
    let mut i: usize = 0;
    while i < statuses.len()
        invariant
            i <= statuses.len(),
            crate::download::id_index(statuses@, id) == crate::download::id_index_from(statuses@, id, i as int),
        decreases statuses.len() - i,
    {
        if statuses[i].id == id {
            let e = &statuses[i];
            return Some(GameEntry { key: e.game_key.clone(), source: e.source_name.clone(), platform: e.platform.clone() });
        }
        i = i + 1;
    }
    None
}

} // verus!
