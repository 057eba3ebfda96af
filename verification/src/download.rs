use vstd::prelude::*;

use crate::config::Source;
use crate::install_dir::{join_path, path_join, InstallDirResolver};
use crate::order::{key_views, stable_order, stable_sorted, SortKey};
use crate::text::{
    ascii_lower_seq, ascii_lowercase, sub_chars, rfind, rfind_char, lemma_rfind_bounds,
    after_last_slash, before_last_dot, chars_of, concat, contains_chars, ends_with, ends_with_chars,
    has_substring, last_segment, lowercased, starts_with, str_eq, string_of, strip_extension, to_lowercase,
    decimal, decimal_string,
};
use vstd::arithmetic::power2::{pow2, lemma_pow2_unfold, lemma2_to64, lemma2_to64_rest};

verus! {

/// How many downloads run at the same time.
pub const MAX_ACTIVE: usize = 2;

/// Where platform directories are taken to live when none was found for a platform.
pub const FALLBACK_ROM_DIR: &'static str = "/mnt/SDCARD/Roms";

pub type DownloadId = u64;

/// Where a download stands.
#[derive(Debug, Clone, Copy, PartialEq, Eq, Structural)]
pub enum DownloadState {
    Queued,
    Active,
    Paused,
    Unpacking,
    Completed,
    Failed,
}

impl DownloadState {
    /// The name the state is shown with.
    pub fn label(&self) -> (res: String)
        ensures
            res@ == state_label(*self),
    {
        match self {
            DownloadState::Queued => "Queued".to_owned(),
            DownloadState::Active => "Active".to_owned(),
            DownloadState::Paused => "Paused".to_owned(),
            DownloadState::Unpacking => "Unpacking".to_owned(),
            DownloadState::Completed => "Completed".to_owned(),
            DownloadState::Failed => "Failed".to_owned(),
        }
    }
}

pub open spec fn state_label(s: DownloadState) -> Seq<char> {
    match s {
        DownloadState::Queued => "Queued"@,
        DownloadState::Active => "Active"@,
        DownloadState::Paused => "Paused"@,
        DownloadState::Unpacking => "Unpacking"@,
        DownloadState::Completed => "Completed"@,
        DownloadState::Failed => "Failed"@,
    }
}

/// One download, with its progress. `speed` is in bytes per second.
#[derive(Debug, Clone)]
pub struct DownloadEntry {
    pub id: DownloadId,
    pub state: DownloadState,
    pub source_name: String,
    pub platform: String,
    pub key: String,
    pub bucket_name: String,
    pub file_name: String,
    pub game_key: String,
    pub dest_path: String,
    pub total_bytes: u64,
    pub downloaded_bytes: u64,
    pub speed: u64,
    pub error: Option<String>,
}

fn copy_opt(s: &Option<String>) -> (res: Option<String>)
    ensures
        res == *s,
{
    match s {
        Some(m) => Some(m.clone()),
        None => None,
    }
}

impl DownloadEntry {
    /// A copy of this entry.
    pub fn copy(&self) -> (res: DownloadEntry)
        ensures
            res == *self,
    {
        DownloadEntry {
            id: self.id,
            state: self.state,
            source_name: self.source_name.clone(),
            platform: self.platform.clone(),
            key: self.key.clone(),
            bucket_name: self.bucket_name.clone(),
            file_name: self.file_name.clone(),
            game_key: self.game_key.clone(),
            dest_path: self.dest_path.clone(),
            total_bytes: self.total_bytes,
            downloaded_bytes: self.downloaded_bytes,
            speed: self.speed,
            error: copy_opt(&self.error),
        }
    }
}

/// What the download manager tells the rest of the program.
#[derive(Debug, Clone)]
pub enum DownloadEvent {
    Completed { id: DownloadId },
    Failed { id: DownloadId, error: String },
}

/// What the rest of the program asks of the download manager.
pub enum DownloadCommand {
    Enqueue {
        source: Source,
        platform: String,
        key: String,
        bucket_name: String,
        file_name: String,
        game_key: String,
        dest_path: String,
        total_bytes: u64,
    },
    Pause(DownloadId),
    Resume(DownloadId),
    Cancel(DownloadId),
}

/// How a download thread ended.
#[derive(Debug, Clone)]
pub enum WorkerOutcome {
    Succeeded,
    Failed(String),
    Panicked,
}

/// How many binary digits `x` has.
pub open spec fn bit_len(x: nat) -> nat
    decreases x,
{
    if x == 0 {
        0
    } else {
        1 + bit_len(x / 2)
    }
}

/// The integer nearest to `num / den`; of two equally near, the even one.
pub open spec fn round_half_even(num: nat, den: nat) -> nat {
    let q = num / den;
    let r = num % den;
    if 2 * r > den || (2 * r == den && q % 2 == 1) {
        q + 1
    } else {
        q
    }
}

/// The value that `x` converts to as a 64-bit float: `x` rounded to 53
/// significant bits, ties to even.
pub open spec fn float_value(x: nat) -> nat {
    if bit_len(x) <= 53 {
        x
    } else {
        let p = pow2((bit_len(x) - 53) as nat);
        round_half_even(x, p) * p
    }
}

/// A number of tenths written with one decimal.
pub open spec fn tenths_text(n: nat) -> Seq<char> {
    decimal(n / 10) + "."@ + decimal(n % 10)
}

/// A byte count for people: whole bytes below 1 KiB, whole KB below 1 MiB,
/// then MB and GB with one decimal, each rounded to nearest, ties to even, as
/// the `{:.0}` and `{:.1}` formats print the quotient of the count (as a
/// 64-bit float) by the unit.
pub open spec fn size_text(bytes: u64) -> Seq<char> {
    if bytes >= 1_073_741_824 {
        tenths_text(round_half_even(10 * float_value(bytes as nat), 1_073_741_824)) + " GB"@
    } else if bytes >= 1_048_576 {
        tenths_text(round_half_even(10 * (bytes as nat), 1_048_576)) + " MB"@
    } else if bytes >= 1024 {
        decimal(round_half_even(bytes as nat, 1024)) + " KB"@
    } else {
        decimal(bytes as nat) + " B"@
    }
}

fn nearest(num: u128, den: u128) -> (res: u128)
    requires
        den > 0,
        num < u128::MAX,
    ensures
        res == round_half_even(num as nat, den as nat),
{
    let q = num / den;
    let r = num % den;
    if r > den - r || (r == den - r && q % 2 == 1) {
        assert(q < u128::MAX) by (nonlinear_arith)
            requires
                q == num / den,
                den > 0,
                num < u128::MAX;
        q + 1
    } else {
        q
    }
}

proof fn lemma_bit_len_below(x: nat, k: nat)
    requires
        x < pow2(k),
    ensures
        bit_len(x) <= k,
    decreases k,
{
    if x > 0 {
        if k == 0 {
            lemma2_to64();
        } else {
            lemma_pow2_unfold(k);
            lemma_bit_len_below(x / 2, (k - 1) as nat);
        }
    }
}

proof fn lemma_bit_len_at_least(x: nat, k: nat)
    requires
        bit_len(x) > k,
    ensures
        x >= pow2(k),
    decreases k,
{
    if k == 0 {
        lemma2_to64();
    } else {
        lemma_pow2_unfold(k);
        lemma_bit_len_at_least(x / 2, (k - 1) as nat);
    }
}

fn float_value_of(x: u64) -> (res: u128)
    ensures
        res == float_value(x as nat),
        res <= 0x1_0000_0000_0000_0000,
{
    proof {
        lemma2_to64();
        lemma2_to64_rest();
        lemma_bit_len_below(x as nat, 64);
    }
    let mut n: u64 = 0;
    let mut t: u64 = x;
    while t > 0
        invariant
            bit_len(x as nat) == n + bit_len(t as nat),
            bit_len(x as nat) <= 64,
        decreases t,
    {
        t = t / 2;
        n = n + 1;
    }
    if n <= 53 {
        return x as u128;
    }
    let s: u64 = n - 53;
    let mut p: u128 = 1;
    let mut k: u64 = 0;
    while k < s
        invariant
            k <= s,
            s <= 11,
            p == pow2(k as nat),
        decreases s - k,
    {
        proof {
            lemma_pow2_unfold((k + 1) as nat);
            lemma2_to64();
            vstd::arithmetic::power2::lemma_pow2_strictly_increases(k as nat, 11);
        }
        p = p * 2;
        k = k + 1;
    }
    let q = nearest(x as u128, p);
    proof {
        let m = pow2((64 - s) as nat);
        vstd::arithmetic::power2::lemma_pow2_adds((64 - s) as nat, s as nat);
        vstd::arithmetic::power2::lemma_pow2_pos(s as nat);
        assert(m * p == 0x1_0000_0000_0000_0000);
        assert(q <= m) by (nonlinear_arith)
            requires
                p >= 1,
                q <= (x as nat) / (p as nat) + 1,
                (x as nat) < m * p;
        assert(q * p <= m * p) by (nonlinear_arith)
            requires
                q <= m,
                p >= 1;
    }
    q * p
}

/// A byte count for people (see `size_text`).
pub fn format_bytes(bytes: u64) -> (res: String)
    ensures
        res@ == size_text(bytes),
{
    if bytes >= 1_073_741_824 {
        let v = float_value_of(bytes);
        let n = nearest(10 * v, 1_073_741_824);
        assert(n / 10 < 0x1_0000_0000_0000_0000) by (nonlinear_arith)
            requires
                n <= (10 * v) / 1_073_741_824 + 1,
                v <= 0x1_0000_0000_0000_0000;
        let whole = decimal_string((n / 10) as u64);
        let frac = decimal_string((n % 10) as u64);
        let a = concat(whole.as_str(), ".");
        let b = concat(a.as_str(), frac.as_str());
        concat(b.as_str(), " GB")
    } else if bytes >= 1_048_576 {
        let n = nearest(10 * (bytes as u128), 1_048_576);
        assert(n / 10 < 0x1_0000_0000_0000_0000) by (nonlinear_arith)
            requires
                n <= (10 * bytes) / 1_048_576 + 1,
                bytes < 1_073_741_824;
        let whole = decimal_string((n / 10) as u64);
        let frac = decimal_string((n % 10) as u64);
        let a = concat(whole.as_str(), ".");
        let b = concat(a.as_str(), frac.as_str());
        concat(b.as_str(), " MB")
    } else if bytes >= 1024 {
        let n = nearest(bytes as u128, 1024);
        assert(n < 0x1_0000_0000_0000_0000) by (nonlinear_arith)
            requires
                n <= bytes / 1024 + 1,
                bytes < 1_048_576;
        let whole = decimal_string(n as u64);
        concat(whole.as_str(), " KB")
    } else {
        let whole = decimal_string(bytes);
        concat(whole.as_str(), " B")
    }
}

/// The state a download is saved with.
#[derive(Debug, Clone, Copy, PartialEq, Eq, Structural)]
pub enum PersistedState {
    Downloading,
    Paused,
    Failed,
    Done,
}

/// A download as the queue file keeps it.
#[derive(Debug, Clone)]
pub struct PersistedEntry {
    pub source_name: String,
    pub platform: String,
    pub key: String,
    pub bucket_name: String,
    pub state: PersistedState,
}

/// The state a download is saved with.
pub open spec fn persisted_state(s: DownloadState) -> PersistedState {
    match s {
        DownloadState::Queued | DownloadState::Active | DownloadState::Unpacking => PersistedState::Downloading,
        DownloadState::Paused => PersistedState::Paused,
        DownloadState::Failed => PersistedState::Failed,
        DownloadState::Completed => PersistedState::Done,
    }
}

/// The state a saved download comes back in: one that was running is queued again.
pub open spec fn restored_state(s: PersistedState) -> DownloadState {
    match s {
        PersistedState::Downloading => DownloadState::Queued,
        PersistedState::Paused => DownloadState::Paused,
        PersistedState::Failed => DownloadState::Failed,
        PersistedState::Done => DownloadState::Completed,
    }
}

/// The order the queue file lists downloads in: by key, ignoring case.
pub open spec fn persist_keys(entries: Seq<DownloadEntry>) -> Seq<SortKey> {
    Seq::new(entries.len(), |i: int| (0u64, lowercased(entries[i].key@)))
}

/// What the queue file holds for `entries`: each download saved, listed by
/// key ignoring case, downloads with equal keys in queue order.
pub open spec fn saved_queue(entries: Seq<DownloadEntry>, saved: Seq<PersistedEntry>) -> bool {
    exists|order: Seq<usize>| #[trigger] stable_sorted(persist_keys(entries), order)
        && saved == Seq::new(order.len(), |p: int| persisted_of(entries[order[p] as int]))
}

/// Downloads whose size is unknown and that are not finished.
pub open spec fn needs_size() -> spec_fn(DownloadEntry) -> bool {
    |e: DownloadEntry| e.total_bytes == 0 && e.state != DownloadState::Completed
}

/// The download that a saved entry comes back as, under id `id`, with the platform directories `dirs`.
pub open spec fn is_restored(e: DownloadEntry, pe: PersistedEntry, id: DownloadId, dirs: Map<Seq<char>, Seq<char>>) -> bool {
    &&& e.id == id
    &&& e.state == restored_state(pe.state)
    &&& e.source_name == pe.source_name
    &&& e.platform == pe.platform
    &&& e.key == pe.key
    &&& e.bucket_name == pe.bucket_name
    &&& e.file_name@ == after_last_slash(pe.key@)
    &&& e.game_key@ == before_last_dot(e.file_name@)
    &&& e.dest_path@ == dest_path_for(dirs, pe.platform@, e.file_name@)
    &&& e.total_bytes == 0
    &&& e.downloaded_bytes == 0
    &&& e.speed == 0
    &&& e.error is None
}

/// How a download is saved.
pub open spec fn persisted_of(e: DownloadEntry) -> PersistedEntry {
    PersistedEntry {
        source_name: e.source_name,
        platform: e.platform,
        key: e.key,
        bucket_name: e.bucket_name,
        state: persisted_state(e.state),
    }
}

/// Whether a download of this state still holds its game (it is not finished nor failed).
pub open spec fn is_live(s: DownloadState) -> bool {
    s == DownloadState::Queued || s == DownloadState::Active || s == DownloadState::Paused
        || s == DownloadState::Unpacking
}

/// A download still holds its game while it is queued, running, paused or
/// being unpacked, so the game cannot be queued again; once it has completed
/// or failed it holds it no more.
pub proof fn law_unfinished_downloads_hold_their_game(s: DownloadState)
    ensures
        (s == DownloadState::Queued || s == DownloadState::Active || s == DownloadState::Paused
            || s == DownloadState::Unpacking) <==> is_live(s),
        is_live(DownloadState::Paused),
        !is_live(DownloadState::Completed),
        !is_live(DownloadState::Failed),
{
}

pub open spec fn same_game(e: DownloadEntry, source: Seq<char>, platform: Seq<char>, game_key: Seq<char>) -> bool {
    e.source_name@ == source && e.platform@ == platform && e.game_key@ == game_key
}

/// The file name at the end of an object key.
pub fn derive_file_name(key: &str) -> (res: String)
    ensures
        res@ == after_last_slash(key@),
{
    last_segment(key)
}

/// The name a game is known by: its file name without the extension.
pub fn derive_game_key(file_name: &str) -> (res: String)
    ensures
        res@ == before_last_dot(file_name@),
{
    strip_extension(file_name)
}

/// Where a downloaded file goes: straight into the platform directory, or,
/// when no directory carries the platform code, into a directory named after
/// the code under the default ROM directory.
pub open spec fn dest_path_for(dirs: Map<Seq<char>, Seq<char>>, platform: Seq<char>, file_name: Seq<char>) -> Seq<char> {
    if dirs.contains_key(platform) {
        path_join(dirs[platform], file_name)
    } else {
        path_join(path_join("/mnt/SDCARD/Roms"@, platform), file_name)
    }
}

/// Where a downloaded file goes (see `dest_path_for`).
pub fn derive_dest_path(install_resolver: &InstallDirResolver, platform: &str, file_name: &str) -> (res: String)
    ensures
        res@ == dest_path_for(install_resolver.dir_map(), platform@, file_name@),
{
    match install_resolver.resolve(platform) {
        Some(dir) => join_path(dir.as_str(), file_name),
        None => {
            let platform_dir = join_path(FALLBACK_ROM_DIR, platform);
            join_path(platform_dir.as_str(), file_name)
        },
    }
}

/// The bucket a key of `source` belongs to: the first bucket without a path,
/// or whose path is a directory prefix of the key; else the first bucket; else none.
pub open spec fn bucket_for_key(buckets: Seq<crate::config::Bucket>, key: Seq<char>, i: int) -> Seq<char>
    decreases buckets.len() - i,
{
    if i < 0 || i >= buckets.len() {
        if buckets.len() > 0 {
            buckets[0].name@
        } else {
            Seq::empty()
        }
    } else if buckets[i].path@.len() == 0 {
        buckets[i].name@
    } else if key.len() >= buckets[i].path@.len() + 1
        && key.take(buckets[i].path@.len() + 1 as int) == buckets[i].path@.push('/') {
        buckets[i].name@
    } else {
        bucket_for_key(buckets, key, i + 1)
    }
}

/// The bucket a key of `source` belongs to (see `bucket_for_key`).
pub fn find_bucket_name(source: &Source, key: &str) -> (res: String)
    ensures
        res@ == bucket_for_key(source.buckets@, key@, 0),
{
    let k = chars_of(key);
    let mut i: usize = 0;
    while i < source.buckets.len()
        invariant
            i <= source.buckets.len(),
            k@ == key@,
            bucket_for_key(source.buckets@, key@, 0) == bucket_for_key(source.buckets@, key@, i as int),
        decreases source.buckets.len() - i,
    {
        let b = &source.buckets[i];
        if b.path.as_str().is_empty() {
            return b.name.clone();
        }
        let mut prefix = chars_of(b.path.as_str());
        prefix.push('/');
        if starts_with(&k, &prefix) {
            return b.name.clone();
        }
        i = i + 1;
    }
    if source.buckets.len() > 0 {
        source.buckets[0].name.clone()
    } else {
        String::new()
    }
}

/// The bucket a download is fetched from: the one it was saved with, or,
/// when none was saved, the bucket of its key (see `bucket_for_key`).
pub fn download_bucket(source: &Source, key: &str, bucket_name: &str) -> (res: String)
    ensures
        res@ == (if bucket_name@.len() == 0 { bucket_for_key(source.buckets@, key@, 0) } else { bucket_name@ }),
{
    if bucket_name.is_empty() {
        find_bucket_name(source, key)
    } else {
        bucket_name.to_owned()
    }
}

/// Whether a finished download is an archive that is to be unpacked.
pub open spec fn needs_extraction(extract: bool, file_name: Seq<char>) -> bool {
    extract && ends_with(lowercased(file_name), ".zip"@)
}

/// Whether a finished download is an archive that is to be unpacked.
pub fn should_extract(extract: bool, file_name: &str) -> (res: bool)
    ensures
        res == needs_extraction(extract, file_name@),
{
    if !extract {
        return false;
    }
    let lower = to_lowercase(file_name);
    let l = chars_of(lower.as_str());
    let suffix = chars_of(".zip");
    ends_with_chars(&l, &suffix)
}

/// Position of the first entry with this id, from `i` on; -1 when there is none.
pub open spec fn id_index_from(entries: Seq<DownloadEntry>, id: DownloadId, i: int) -> int
    decreases entries.len() - i,
{
    if i < 0 || i >= entries.len() {
        -1
    } else if entries[i].id == id {
        i
    } else {
        id_index_from(entries, id, i + 1)
    }
}

pub open spec fn id_index(entries: Seq<DownloadEntry>, id: DownloadId) -> int {
    id_index_from(entries, id, 0)
}

pub proof fn lemma_id_index(entries: Seq<DownloadEntry>, id: DownloadId, i: int)
    requires
        0 <= i <= entries.len(),
    ensures
        -1 <= id_index_from(entries, id, i) < entries.len(),
        id_index_from(entries, id, i) >= 0 ==> id_index_from(entries, id, i) >= i
            && entries[id_index_from(entries, id, i)].id == id,
        id_index_from(entries, id, i) == -1 ==> forall|j: int| i <= j < entries.len() ==> #[trigger] entries[j].id != id,
    decreases entries.len() - i,
{
    if i < entries.len() && entries[i].id != id {
        lemma_id_index(entries, id, i + 1);
    }
}

pub open spec fn ids_unique(entries: Seq<DownloadEntry>) -> bool {
    forall|p: int, q: int| 0 <= p < q < entries.len() ==> entries[p].id != entries[q].id
}

/// The entry `e` in the given state.
pub open spec fn with_state(e: DownloadEntry, s: DownloadState) -> DownloadEntry {
    DownloadEntry { state: s, ..e }
}

/// The new download that an enqueue request makes.
pub open spec fn new_download(
    id: DownloadId,
    source_name: String,
    platform: String,
    key: String,
    bucket_name: String,
    file_name: String,
    game_key: String,
    dest_path: String,
    total_bytes: u64,
) -> DownloadEntry {
    DownloadEntry {
        id,
        state: DownloadState::Queued,
        source_name,
        platform,
        key,
        bucket_name,
        file_name,
        game_key,
        dest_path,
        total_bytes,
        downloaded_bytes: 0,
        speed: 0,
        error: None,
    }
}

/// Position of the first queued download from `i` on; -1 when there is none.
pub open spec fn first_queued_from(entries: Seq<DownloadEntry>, i: int) -> int
    decreases entries.len() - i,
{
    if i < 0 || i >= entries.len() {
        -1
    } else if entries[i].state == DownloadState::Queued {
        i
    } else {
        first_queued_from(entries, i + 1)
    }
}

pub open spec fn first_queued(entries: Seq<DownloadEntry>) -> int {
    first_queued_from(entries, 0)
}

pub proof fn lemma_first_queued(entries: Seq<DownloadEntry>, i: int)
    requires
        0 <= i <= entries.len(),
    ensures
        -1 <= first_queued_from(entries, i) < entries.len(),
        first_queued_from(entries, i) >= 0 ==> first_queued_from(entries, i) >= i
            && entries[first_queued_from(entries, i)].state == DownloadState::Queued,
        first_queued_from(entries, i) >= 0 ==> forall|j: int| i <= j < first_queued_from(entries, i)
            ==> #[trigger] entries[j].state != DownloadState::Queued,
        first_queued_from(entries, i) == -1 ==> forall|j: int| i <= j < entries.len()
            ==> #[trigger] entries[j].state != DownloadState::Queued,
    decreases entries.len() - i,
{
    if i < entries.len() && entries[i].state != DownloadState::Queued {
        lemma_first_queued(entries, i + 1);
    }
}

/// The downloads after the first queued one is started.
pub open spec fn start_first(entries: Seq<DownloadEntry>) -> Seq<DownloadEntry> {
    let i = first_queued(entries);
    if i >= 0 {
        entries.update(i, with_state(entries[i], DownloadState::Active))
    } else {
        entries
    }
}

/// The downloads after the first queued one is started, `n` times over.
pub open spec fn start_n(entries: Seq<DownloadEntry>, n: nat) -> Seq<DownloadEntry>
    decreases n,
{
    if n == 0 {
        entries
    } else {
        start_first(start_n(entries, (n - 1) as nat))
    }
}

/// Whether a download of this state holds a worker: it is downloading or unpacking.
pub open spec fn is_running(s: DownloadState) -> bool {
    s == DownloadState::Active || s == DownloadState::Unpacking
}

/// How many downloads are running.
pub open spec fn running_count(entries: Seq<DownloadEntry>) -> nat
    decreases entries.len(),
{
    if entries.len() == 0 {
        0
    } else {
        running_count(entries.drop_last()) + if is_running(entries.last().state) { 1nat } else { 0nat }
    }
}

proof fn lemma_running_count_update(entries: Seq<DownloadEntry>, i: int, x: DownloadEntry)
    requires
        0 <= i < entries.len(),
    ensures
        running_count(entries.update(i, x)) + (if is_running(entries[i].state) { 1int } else { 0int })
            == running_count(entries) + (if is_running(x.state) { 1int } else { 0int }),
    decreases entries.len(),
{
    let u = entries.update(i, x);
    if i == entries.len() - 1 {
        assert(u.drop_last() =~= entries.drop_last());
    } else {
        assert(u.drop_last() =~= entries.drop_last().update(i, x));
        lemma_running_count_update(entries.drop_last(), i, x);
    }
}

/// Starting queued downloads one at a time adds one running download per start.
pub proof fn law_start_counts(entries: Seq<DownloadEntry>, n: nat)
    requires
        forall|j: int| 0 <= j < n ==> first_queued(#[trigger] start_n(entries, j as nat)) >= 0,
    ensures
        running_count(start_n(entries, n)) == running_count(entries) + n,
    decreases n,
{
    if n > 0 {
        let before = start_n(entries, (n - 1) as nat);
        assert(first_queued(start_n(entries, (n - 1) as nat)) >= 0);
        law_start_counts(entries, (n - 1) as nat);
        lemma_first_queued(before, 0);
        let i = first_queued(before);
        lemma_running_count_update(before, i, with_state(before[i], DownloadState::Active));
    }
}

/// No more than `MAX_ACTIVE` downloads run at once: when the downloads
/// running are counted in `running`, the `n` starts that `start_downloads`
/// allows leave at most `MAX_ACTIVE` of them running.
pub proof fn law_active_cap(entries: Seq<DownloadEntry>, running: nat, n: nat)
    requires
        running_count(entries) <= running,
        running + n <= MAX_ACTIVE,
        forall|j: int| 0 <= j < n ==> first_queued(#[trigger] start_n(entries, j as nat)) >= 0,
    ensures
        running_count(start_n(entries, n)) <= MAX_ACTIVE,
{
    law_start_counts(entries, n);
}

/// The downloads after the one with id `id` is paused, if it is downloading.
pub open spec fn paused_items(entries: Seq<DownloadEntry>, id: DownloadId) -> Seq<DownloadEntry> {
    let k = id_index(entries, id);
    if k >= 0 && entries[k].state == DownloadState::Active {
        entries.update(k, with_state(entries[k], DownloadState::Paused))
    } else {
        entries
    }
}

/// The downloads after the one with id `id` is queued again, if it is paused or failed.
pub open spec fn resumed_items(entries: Seq<DownloadEntry>, id: DownloadId) -> Seq<DownloadEntry> {
    let k = id_index(entries, id);
    if k >= 0 && (entries[k].state == DownloadState::Paused || entries[k].state == DownloadState::Failed) {
        entries.update(k, DownloadEntry { state: DownloadState::Queued, error: None, ..entries[k] })
    } else {
        entries
    }
}

proof fn lemma_id_index_update(entries: Seq<DownloadEntry>, id: DownloadId, x: DownloadEntry, k: int, j: int)
    requires
        0 <= j <= k,
        id_index_from(entries, id, j) == k,
        0 <= k < entries.len(),
        x.id == id,
    ensures
        id_index_from(entries.update(k, x), id, j) == k,
    decreases k - j,
{
    if j < k {
        lemma_id_index_update(entries, id, x, k, j + 1);
    }
}

/// Pausing a download and then resuming it queues it again where it stood:
/// its progress is kept and it has no error.
pub proof fn law_pause_then_resume(entries: Seq<DownloadEntry>, id: DownloadId)
    requires
        id_index(entries, id) >= 0,
        entries[id_index(entries, id)].state == DownloadState::Active,
    ensures
        resumed_items(paused_items(entries, id), id) == entries.update(id_index(entries, id),
            DownloadEntry { state: DownloadState::Queued, error: None, ..entries[id_index(entries, id)] }),
{
    let k = id_index(entries, id);
    lemma_id_index(entries, id, 0);
    let p = paused_items(entries, id);
    lemma_id_index_update(entries, id, with_state(entries[k], DownloadState::Paused), k, 0);
    assert(id_index(p, id) == k);
    assert(p.update(k, DownloadEntry { state: DownloadState::Queued, error: None, ..p[k] }) =~= entries.update(k,
        DownloadEntry { state: DownloadState::Queued, error: None, ..entries[k] }));
}

/// The queue file keeps every download: one saved entry for each.
pub proof fn law_saved_keeps_all(entries: Seq<DownloadEntry>, saved: Seq<PersistedEntry>, k: int)
    requires
        saved_queue(entries, saved),
        entries.len() <= usize::MAX,
        0 <= k < entries.len(),
    ensures
        saved.len() == entries.len(),
        exists|p: int| 0 <= p < saved.len() && saved[p] == persisted_of(entries[k]),
{
    let order = choose|order: Seq<usize>| #[trigger] stable_sorted(persist_keys(entries), order)
        && saved == Seq::new(order.len(), |p: int| persisted_of(entries[order[p] as int]));
    assert(order.contains(k as usize));
    let p = choose|p: int| 0 <= p < order.len() && order[p] == k as usize;
    assert(order[p] as int == k);
    assert(saved[p] == persisted_of(entries[order[p] as int]));
}

/// A saved download comes back as it was: the same game from the same
/// bucket, in the same state, except that one that was queued or running is
/// queued again; when its file name, game key and destination followed from
/// its key, they are found again.
pub proof fn law_restore_saved(e: DownloadEntry, id: DownloadId, dirs: Map<Seq<char>, Seq<char>>, r: DownloadEntry)
    requires
        is_restored(r, persisted_of(e), id, dirs),
    ensures
        r.source_name == e.source_name,
        r.platform == e.platform,
        r.key == e.key,
        r.bucket_name == e.bucket_name,
        is_running(e.state) || e.state == DownloadState::Queued ==> r.state == DownloadState::Queued,
        !(is_running(e.state) || e.state == DownloadState::Queued) ==> r.state == e.state,
        e.file_name@ == after_last_slash(e.key@) ==> r.file_name@ == e.file_name@,
        e.file_name@ == after_last_slash(e.key@) && e.game_key@ == before_last_dot(e.file_name@)
            ==> r.game_key@ == e.game_key@,
        e.file_name@ == after_last_slash(e.key@) && e.dest_path@ == dest_path_for(dirs, e.platform@, e.file_name@)
            ==> r.dest_path@ == e.dest_path@,
{
}

/// The downloads, in the order they were added, with the next id to hand out.
pub struct DownloadQueue {
    entries: Vec<DownloadEntry>,
    next_id: DownloadId,
}

impl DownloadQueue {
    pub closed spec fn items(&self) -> Seq<DownloadEntry> {
        self.entries@
    }

    pub closed spec fn next(&self) -> DownloadId {
        self.next_id
    }

    /// Ids are unique, nonzero, and below the next id.
    pub open spec fn wf(&self) -> bool {
        &&& ids_unique(self.items())
        &&& self.next() >= 1
        &&& forall|p: int| 0 <= p < self.items().len() ==> 1 <= #[trigger] self.items()[p].id < self.next()
    }

    /// An empty queue; the first id it hands out is 1.
    pub fn new() -> (res: Self)
        ensures
            res.wf(),
            res.items() == Seq::<DownloadEntry>::empty(),
            res.next() == 1,
    {
        DownloadQueue { entries: Vec::new(), next_id: 1 }
    }

    /// The id the next download will get.
    pub fn next_id(&self) -> (res: DownloadId)
        ensures
            res == self.next(),
    {
        self.next_id
    }

    /// Position of the download with this id.
    pub fn find(&self, id: DownloadId) -> (res: Option<usize>)
        ensures
            match res {
                Some(i) => i as int == id_index(self.items(), id),
                None => id_index(self.items(), id) == -1,
            },
    {
        let mut i: usize = 0;
        while i < self.entries.len()
            invariant
                i <= self.entries.len(),
                id_index(self.items(), id) == id_index_from(self.items(), id, i as int),
            decreases self.entries.len() - i,
        {
            if self.entries[i].id == id {
                return Some(i);
            }
            i = i + 1;
        }
        None
    }

    /// The download with this id.
    pub fn get(&self, id: DownloadId) -> (res: Option<&DownloadEntry>)
        ensures
            match res {
                Some(e) => id_index(self.items(), id) >= 0 && *e == self.items()[id_index(self.items(), id)],
                None => id_index(self.items(), id) == -1,
            },
    {
        proof { lemma_id_index(self.items(), id, 0); }
        match self.find(id) {
            Some(i) => Some(&self.entries[i]),
            None => None,
        }
    }

    /// A copy of every download, in order.
    pub fn snapshot(&self) -> (res: Vec<DownloadEntry>)
        ensures
            res@ == self.items(),
    {
        let mut res: Vec<DownloadEntry> = Vec::new();
        let mut i: usize = 0;
        while i < self.entries.len()
            invariant
                i <= self.entries.len(),
                res@ == self.items().take(i as int),
            decreases self.entries.len() - i,
        {
            res.push(self.entries[i].copy());
            assert(self.items().take(i + 1) =~= self.items().take(i as int).push(self.items()[i as int]));
            i = i + 1;
        }
        assert(self.items().take(self.entries.len() as int) =~= self.items());
        res
    }

    /// Whether a download of the game is queued, running or paused.
    pub fn is_queued_or_active(&self, source_name: &str, platform: &str, game_key: &str) -> (res: bool)
        ensures
            res == exists|i: int| 0 <= i < self.items().len() && same_game(#[trigger] self.items()[i], source_name@, platform@, game_key@)
                && is_live(self.items()[i].state),
            (exists|i: int| 0 <= i < self.items().len() && same_game(#[trigger] self.items()[i], source_name@, platform@, game_key@)
                && self.items()[i].state == DownloadState::Paused) ==> res,
    {
        let mut i: usize = 0;
        while i < self.entries.len()
            invariant
                i <= self.entries.len(),
                forall|j: int| 0 <= j < i ==> !(same_game(#[trigger] self.items()[j], source_name@, platform@, game_key@)
                    && is_live(self.items()[j].state)),
            decreases self.entries.len() - i,
        {
            let e = &self.entries[i];
            if str_eq(e.source_name.as_str(), source_name) && str_eq(e.platform.as_str(), platform)
                && str_eq(e.game_key.as_str(), game_key)
                && (e.state == DownloadState::Queued || e.state == DownloadState::Active || e.state == DownloadState::Paused
                    || e.state == DownloadState::Unpacking) {
                return true;
            }
            i = i + 1;
        }
        false
    }

    /// Whether a download of the game has failed.
    pub fn is_failed(&self, source_name: &str, platform: &str, game_key: &str) -> (res: bool)
        ensures
            res == exists|i: int| 0 <= i < self.items().len() && same_game(#[trigger] self.items()[i], source_name@, platform@, game_key@)
                && self.items()[i].state == DownloadState::Failed,
    {
        let mut i: usize = 0;
        while i < self.entries.len()
            invariant
                i <= self.entries.len(),
                forall|j: int| 0 <= j < i ==> !(same_game(#[trigger] self.items()[j], source_name@, platform@, game_key@)
                    && self.items()[j].state == DownloadState::Failed),
            decreases self.entries.len() - i,
        {
            let e = &self.entries[i];
            if str_eq(e.source_name.as_str(), source_name) && str_eq(e.platform.as_str(), platform)
                && str_eq(e.game_key.as_str(), game_key) && e.state == DownloadState::Failed {
                return true;
            }
            i = i + 1;
        }
        false
    }

    /// Queues a download unless the same game is already queued, running or
    /// paused; gives the new download's id.
    pub fn enqueue(
        &mut self,
        source_name: String,
        platform: String,
        key: String,
        bucket_name: String,
        file_name: String,
        game_key: String,
        dest_path: String,
        total_bytes: u64,
    ) -> (res: Option<DownloadId>)
        requires
            old(self).wf(),
            old(self).next() < u64::MAX,
        ensures
            final(self).wf(),
            (exists|i: int| 0 <= i < old(self).items().len() && same_game(#[trigger] old(self).items()[i], source_name@, platform@, game_key@)
                && is_live(old(self).items()[i].state)) ==> res is None && *final(self) == *old(self),
            (exists|i: int| 0 <= i < old(self).items().len() && same_game(#[trigger] old(self).items()[i], source_name@, platform@, game_key@)
                && old(self).items()[i].state == DownloadState::Paused) ==> res is None && *final(self) == *old(self),
            !(exists|i: int| 0 <= i < old(self).items().len() && same_game(#[trigger] old(self).items()[i], source_name@, platform@, game_key@)
                && is_live(old(self).items()[i].state)) ==> {
                &&& res == Some(old(self).next())
                &&& final(self).items() == old(self).items().push(new_download(old(self).next(), source_name, platform,
                    key, bucket_name, file_name, game_key, dest_path, total_bytes))
                &&& final(self).next() == old(self).next() + 1
            },
    {
        if self.is_queued_or_active(source_name.as_str(), platform.as_str(), game_key.as_str()) {
            return None;
        }
        let id = self.next_id;
        self.next_id = self.next_id + 1;
        self.entries.push(DownloadEntry {
            id,
            state: DownloadState::Queued,
            source_name,
            platform,
            key,
            bucket_name,
            file_name,
            game_key,
            dest_path,
            total_bytes,
            downloaded_bytes: 0,
            speed: 0,
            error: None,
        });
        Some(id)
    }

    /// Pauses a running download; says whether anything changed.
    pub fn pause(&mut self, id: DownloadId) -> (changed: bool)
        requires
            old(self).wf(),
        ensures
            final(self).wf(),
            final(self).next() == old(self).next(),
            changed == (id_index(old(self).items(), id) >= 0
                && old(self).items()[id_index(old(self).items(), id)].state == DownloadState::Active),
            changed ==> final(self).items() == old(self).items().update(id_index(old(self).items(), id),
                with_state(old(self).items()[id_index(old(self).items(), id)], DownloadState::Paused)),
            !changed ==> final(self).items() == old(self).items(),
            final(self).items() == paused_items(old(self).items(), id),
    {
        proof { lemma_id_index(self.items(), id, 0); }
        match self.find(id) {
            Some(i) => {
                if self.entries[i].state == DownloadState::Active {
                    self.entries[i].state = DownloadState::Paused;
                    assert(self.items() =~= old(self).items().update(i as int, with_state(old(self).items()[i as int], DownloadState::Paused)));
                    true
                } else {
                    false
                }
            },
            None => false,
        }
    }

    /// Queues a paused or failed download again, clearing its error; says whether anything changed.
    pub fn resume(&mut self, id: DownloadId) -> (changed: bool)
        requires
            old(self).wf(),
        ensures
            final(self).wf(),
            final(self).next() == old(self).next(),
            changed == (id_index(old(self).items(), id) >= 0 && (
                old(self).items()[id_index(old(self).items(), id)].state == DownloadState::Paused
                || old(self).items()[id_index(old(self).items(), id)].state == DownloadState::Failed)),
            changed ==> final(self).items() == old(self).items().update(id_index(old(self).items(), id),
                DownloadEntry { state: DownloadState::Queued, error: None, ..old(self).items()[id_index(old(self).items(), id)] }),
            !changed ==> final(self).items() == old(self).items(),
            final(self).items() == resumed_items(old(self).items(), id),
    {
        proof { lemma_id_index(self.items(), id, 0); }
        match self.find(id) {
            Some(i) => {
                if self.entries[i].state == DownloadState::Paused || self.entries[i].state == DownloadState::Failed {
                    self.entries[i].state = DownloadState::Queued;
                    self.entries[i].error = None;
                    assert(self.items() =~= old(self).items().update(i as int,
                        DownloadEntry { state: DownloadState::Queued, error: None, ..old(self).items()[i as int] }));
                    true
                } else {
                    false
                }
            },
            None => false,
        }
    }

    /// Removes a download from the queue; gives it back so its files can be deleted.
    pub fn cancel(&mut self, id: DownloadId) -> (res: Option<DownloadEntry>)
        requires
            old(self).wf(),
        ensures
            final(self).wf(),
            final(self).next() == old(self).next(),
            id_index(old(self).items(), id) == -1 ==> res is None && final(self).items() == old(self).items(),
            id_index(old(self).items(), id) >= 0 ==> res == Some(old(self).items()[id_index(old(self).items(), id)])
                && final(self).items() == old(self).items().remove(id_index(old(self).items(), id)),
    {
        proof { lemma_id_index(self.items(), id, 0); }
        match self.find(id) {
            Some(i) => {
                let e = self.entries.remove(i);
                Some(e)
            },
            None => None,
        }
    }

    /// Starts the first queued download; gives its id.
    pub fn take_next(&mut self) -> (res: Option<DownloadId>)
        requires
            old(self).wf(),
        ensures
            final(self).wf(),
            final(self).next() == old(self).next(),
            final(self).items() == start_first(old(self).items()),
            first_queued(old(self).items()) == -1 ==> res is None,
            first_queued(old(self).items()) >= 0 ==> res == Some(old(self).items()[first_queued(old(self).items())].id),
    {
        proof { lemma_first_queued(self.items(), 0); }
        let mut i: usize = 0;
        while i < self.entries.len()
            invariant
                self.items() == old(self).items(),
                self.next() == old(self).next(),
                old(self).wf(),
                i <= self.entries.len(),
                first_queued(self.items()) == first_queued_from(self.items(), i as int),
            decreases self.entries.len() - i,
        {
            if self.entries[i].state == DownloadState::Queued {
                self.entries[i].state = DownloadState::Active;
                assert(self.items() =~= start_first(old(self).items()));
                return Some(self.entries[i].id);
            }
            i = i + 1;
        }
        None
    }

    /// Starts queued downloads, in queue order, while fewer than
    /// `MAX_ACTIVE` run; `running` is how many run already. Gives the ids started.
    pub fn start_downloads(&mut self, running: usize) -> (res: Vec<DownloadId>)
        requires
            old(self).wf(),
        ensures
            final(self).wf(),
            final(self).next() == old(self).next(),
            final(self).items() == start_n(old(self).items(), res.len() as nat),
            running + res.len() <= MAX_ACTIVE || res.len() == 0,
            running < MAX_ACTIVE && running + res.len() < MAX_ACTIVE ==> first_queued(final(self).items()) == -1,
            forall|j: int| 0 <= j < res.len() ==> {
                let before = #[trigger] start_n(old(self).items(), j as nat);
                first_queued(before) >= 0 && res@[j] == before[first_queued(before)].id
            },
    {
        let free: usize = if running < MAX_ACTIVE { MAX_ACTIVE - running } else { 0 };
        let mut started: Vec<DownloadId> = Vec::new();
        let mut more = true;
        while more && started.len() < free
            invariant
                self.wf(),
                self.next() == old(self).next(),
                free <= MAX_ACTIVE,
                free == (if running < MAX_ACTIVE { MAX_ACTIVE - running } else { 0 }),
                started.len() <= free,
                self.items() == start_n(old(self).items(), started.len() as nat),
                !more ==> first_queued(self.items()) == -1,
                forall|j: int| 0 <= j < started.len() ==> {
                    let before = #[trigger] start_n(old(self).items(), j as nat);
                    first_queued(before) >= 0 && started@[j] == before[first_queued(before)].id
                },
            decreases free - started.len(), if more { 1int } else { 0int },
        {
            let ghost before = self.items();
            let ghost n0 = started.len();
            proof { lemma_first_queued(before, 0); }
            match self.take_next() {
                Some(id) => {
                    started.push(id);
                    assert(start_n(old(self).items(), started.len() as nat) == start_first(before));
                    assert(start_n(old(self).items(), n0 as nat) == before);
                    assert forall|j: int| 0 <= j < started.len() implies {
                        let b = #[trigger] start_n(old(self).items(), j as nat);
                        first_queued(b) >= 0 && started@[j] == b[first_queued(b)].id
                    } by {
                        if j == n0 {
                            assert(first_queued(before) >= 0);
                        }
                    }
                },
                None => {
                    more = false;
                },
            }
        }
        started
    }

    /// Records the size of a download.
    pub fn set_total(&mut self, id: DownloadId, total_bytes: u64) -> (changed: bool)
        requires
            old(self).wf(),
        ensures
            final(self).wf(),
            final(self).next() == old(self).next(),
            changed == (id_index(old(self).items(), id) >= 0),
            changed ==> final(self).items() == old(self).items().update(id_index(old(self).items(), id),
                DownloadEntry { total_bytes, ..old(self).items()[id_index(old(self).items(), id)] }),
            !changed ==> final(self).items() == old(self).items(),
    {
        proof { lemma_id_index(self.items(), id, 0); }
        match self.find(id) {
            Some(i) => {
                self.entries[i].total_bytes = total_bytes;
                assert(self.items() =~= old(self).items().update(i as int,
                    DownloadEntry { total_bytes, ..old(self).items()[i as int] }));
                true
            },
            None => false,
        }
    }

    /// Records how much of a download is on disk and how fast it comes in.
    pub fn record_progress(&mut self, id: DownloadId, downloaded_bytes: u64, speed: u64) -> (changed: bool)
        requires
            old(self).wf(),
        ensures
            final(self).wf(),
            final(self).next() == old(self).next(),
            changed == (id_index(old(self).items(), id) >= 0),
            changed ==> final(self).items() == old(self).items().update(id_index(old(self).items(), id),
                DownloadEntry { downloaded_bytes, speed, ..old(self).items()[id_index(old(self).items(), id)] }),
            !changed ==> final(self).items() == old(self).items(),
    {
        proof { lemma_id_index(self.items(), id, 0); }
        match self.find(id) {
            Some(i) => {
                self.entries[i].downloaded_bytes = downloaded_bytes;
                self.entries[i].speed = speed;
                assert(self.items() =~= old(self).items().update(i as int,
                    DownloadEntry { downloaded_bytes, speed, ..old(self).items()[i as int] }));
                true
            },
            None => false,
        }
    }

    /// Records how much of a download is on disk.
    pub fn set_downloaded(&mut self, id: DownloadId, downloaded_bytes: u64) -> (changed: bool)
        requires
            old(self).wf(),
        ensures
            final(self).wf(),
            final(self).next() == old(self).next(),
            changed == (id_index(old(self).items(), id) >= 0),
            changed ==> final(self).items() == old(self).items().update(id_index(old(self).items(), id),
                DownloadEntry { downloaded_bytes, ..old(self).items()[id_index(old(self).items(), id)] }),
            !changed ==> final(self).items() == old(self).items(),
    {
        proof { lemma_id_index(self.items(), id, 0); }
        match self.find(id) {
            Some(i) => {
                self.entries[i].downloaded_bytes = downloaded_bytes;
                assert(self.items() =~= old(self).items().update(i as int,
                    DownloadEntry { downloaded_bytes, ..old(self).items()[i as int] }));
                true
            },
            None => false,
        }
    }

    /// Marks a running download whose archive is being unpacked.
    pub fn set_unpacking(&mut self, id: DownloadId) -> (changed: bool)
        requires
            old(self).wf(),
        ensures
            final(self).wf(),
            final(self).next() == old(self).next(),
            changed == (id_index(old(self).items(), id) >= 0
                && old(self).items()[id_index(old(self).items(), id)].state == DownloadState::Active),
            changed ==> final(self).items() == old(self).items().update(id_index(old(self).items(), id),
                with_state(old(self).items()[id_index(old(self).items(), id)], DownloadState::Unpacking)),
            !changed ==> final(self).items() == old(self).items(),
    {
        proof { lemma_id_index(self.items(), id, 0); }
        match self.find(id) {
            Some(i) => {
                if self.entries[i].state == DownloadState::Active {
                    self.entries[i].state = DownloadState::Unpacking;
                    assert(self.items() =~= old(self).items().update(i as int,
                        with_state(old(self).items()[i as int], DownloadState::Unpacking)));
                    true
                } else {
                    false
                }
            },
            None => false,
        }
    }

    /// Records how a download thread ended. A finished download becomes
    /// completed; an error fails the download unless it was paused or the
    /// error says it was cancelled; a panicked thread fails it. Gives the
    /// event to report, if any.
    pub fn finish(&mut self, id: DownloadId, outcome: WorkerOutcome) -> (res: Option<DownloadEvent>)
        requires
            old(self).wf(),
        ensures
            final(self).wf(),
            final(self).next() == old(self).next(),
            ({
                let k = id_index(old(self).items(), id);
                let e = old(self).items()[k];
                match outcome {
                    WorkerOutcome::Succeeded => if k >= 0 && (e.state == DownloadState::Active || e.state == DownloadState::Unpacking) {
                        &&& final(self).items() == old(self).items().update(k,
                            DownloadEntry { state: DownloadState::Completed, downloaded_bytes: e.total_bytes, ..e })
                        &&& res == Some(DownloadEvent::Completed { id })
                    } else {
                        final(self).items() == old(self).items() && res is None
                    },
                    WorkerOutcome::Failed(msg) => if k >= 0 && e.state != DownloadState::Paused
                        && !has_substring(msg@, "Cancelled"@) {
                        &&& final(self).items() == old(self).items().update(k,
                            DownloadEntry { state: DownloadState::Failed, error: Some(msg), ..e })
                        &&& res == Some(DownloadEvent::Failed { id, error: msg })
                    } else {
                        final(self).items() == old(self).items() && res is None
                    },
                    WorkerOutcome::Panicked => if k >= 0 {
                        &&& final(self).items()[k].error matches Some(m) && m@ == "Thread panicked"@
                        &&& final(self).items() == old(self).items().update(k,
                            DownloadEntry { state: DownloadState::Failed, error: final(self).items()[k].error, ..e })
                        &&& res matches Some(DownloadEvent::Failed { id: j, error: m }) && j == id && m@ == "Thread panicked"@
                    } else {
                        final(self).items() == old(self).items() && res is None
                    },
                }
            }),
    {
        proof { lemma_id_index(self.items(), id, 0); }
        let i = match self.find(id) {
            Some(i) => i,
            None => return None,
        };
        match outcome {
            WorkerOutcome::Succeeded => {
                if self.entries[i].state == DownloadState::Active || self.entries[i].state == DownloadState::Unpacking {
                    self.entries[i].state = DownloadState::Completed;
                    self.entries[i].downloaded_bytes = self.entries[i].total_bytes;
                    assert(self.items() =~= old(self).items().update(i as int, DownloadEntry {
                        state: DownloadState::Completed, downloaded_bytes: old(self).items()[i as int].total_bytes,
                        ..old(self).items()[i as int] }));
                    Some(DownloadEvent::Completed { id })
                } else {
                    None
                }
            },
            WorkerOutcome::Failed(msg) => {
                let m = chars_of(msg.as_str());
                let marker = chars_of("Cancelled");
                if self.entries[i].state != DownloadState::Paused && !contains_chars(&m, &marker) {
                    self.entries[i].state = DownloadState::Failed;
                    self.entries[i].error = Some(msg.clone());
                    assert(self.items() =~= old(self).items().update(i as int, DownloadEntry {
                        state: DownloadState::Failed, error: Some(msg), ..old(self).items()[i as int] }));
                    Some(DownloadEvent::Failed { id, error: msg })
                } else {
                    None
                }
            },
            WorkerOutcome::Panicked => {
                self.entries[i].state = DownloadState::Failed;
                self.entries[i].error = Some("Thread panicked".to_owned());
                assert(self.items() =~= old(self).items().update(i as int, DownloadEntry {
                    state: DownloadState::Failed, error: self.items()[i as int].error, ..old(self).items()[i as int] }));
                Some(DownloadEvent::Failed { id, error: "Thread panicked".to_owned() })
            },
        }
    }

    /// What the queue file is to hold (see `saved_queue`).
    pub fn persisted(&self) -> (res: Vec<PersistedEntry>)
        ensures
            saved_queue(self.items(), res@),
    {
        let mut keys: Vec<(u64, Vec<char>)> = Vec::new();
        let mut i: usize = 0;
        while i < self.entries.len()
            invariant
                i <= self.entries.len(),
                key_views(keys@) =~= persist_keys(self.items()).take(i as int),
            decreases self.entries.len() - i,
        {
            let lower = to_lowercase(self.entries[i].key.as_str());
            let ghost before = keys@;
            let lc = chars_of(lower.as_str());
            assert(lc@ == lowercased(self.items()[i as int].key@));
            keys.push((0u64, lc));
            assert(key_views(keys@) =~= key_views(before).push((0u64, lowercased(self.items()[i as int].key@))));
            assert(persist_keys(self.items()).take(i + 1) =~= persist_keys(self.items()).take(i as int).push((0u64, lowercased(self.items()[i as int].key@))));
            i = i + 1;
        }
        assert(key_views(keys@) =~= persist_keys(self.items()));
        let order = stable_order(&keys);
        let mut res: Vec<PersistedEntry> = Vec::new();
        let mut p: usize = 0;
        while p < order.len()
            invariant
                p <= order.len(),
                stable_sorted(persist_keys(self.items()), order@),
                res@ =~= Seq::new(p as nat, |q: int| persisted_of(self.items()[order@[q] as int])),
            decreases order.len() - p,
        {
            let e = &self.entries[order[p]];
            let state = match e.state {
                DownloadState::Queued | DownloadState::Active | DownloadState::Unpacking => PersistedState::Downloading,
                DownloadState::Paused => PersistedState::Paused,
                DownloadState::Failed => PersistedState::Failed,
                DownloadState::Completed => PersistedState::Done,
            };
            res.push(PersistedEntry {
                source_name: e.source_name.clone(),
                platform: e.platform.clone(),
                key: e.key.clone(),
                bucket_name: e.bucket_name.clone(),
                state,
            });
            p = p + 1;
        }
        assert(saved_queue(self.items(), res@));
        res
    }

    /// Adds a download read back from the queue file (see `is_restored`); gives its id.
    pub fn restore(&mut self, pe: PersistedEntry, install_resolver: &InstallDirResolver) -> (res: DownloadId)
        requires
            old(self).wf(),
            old(self).next() < u64::MAX,
        ensures
            final(self).wf(),
            res == old(self).next(),
            final(self).next() == old(self).next() + 1,
            final(self).items().len() == old(self).items().len() + 1,
            final(self).items().drop_last() == old(self).items(),
            is_restored(final(self).items().last(), pe, res, install_resolver.dir_map()),
    {
        let state = match pe.state {
            PersistedState::Downloading => DownloadState::Queued,
            PersistedState::Paused => DownloadState::Paused,
            PersistedState::Failed => DownloadState::Failed,
            PersistedState::Done => DownloadState::Completed,
        };
        let file_name = derive_file_name(pe.key.as_str());
        let game_key = derive_game_key(file_name.as_str());
        let dest_path = derive_dest_path(install_resolver, pe.platform.as_str(), file_name.as_str());
        let id = self.next_id;
        self.next_id = self.next_id + 1;
        let ghost before = self.items();
        self.entries.push(DownloadEntry {
            id,
            state,
            source_name: pe.source_name,
            platform: pe.platform,
            key: pe.key,
            bucket_name: pe.bucket_name,
            file_name,
            game_key,
            dest_path,
            total_bytes: 0,
            downloaded_bytes: 0,
            speed: 0,
            error: None,
        });
        assert(self.items().drop_last() =~= before);
        id
    }

    /// The downloads whose size is still to be asked for (see `needs_size`).
    pub fn missing_sizes(&self) -> (res: Vec<DownloadEntry>)
        ensures
            res@ == self.items().filter(needs_size()),
    {
        let mut res: Vec<DownloadEntry> = Vec::new();
        let mut i: usize = 0;
        while i < self.entries.len()
            invariant
                i <= self.entries.len(),
                res@ == self.items().take(i as int).filter(needs_size()),
            decreases self.entries.len() - i,
        {
            assert(self.items().take(i + 1).drop_last() =~= self.items().take(i as int));
            assert(self.items().take(i + 1).last() == self.items()[i as int]);
            reveal(Seq::filter);
            if self.entries[i].total_bytes == 0 && self.entries[i].state != DownloadState::Completed {
                res.push(self.entries[i].copy());
            }
            i = i + 1;
        }
        assert(self.items().take(self.entries.len() as int) =~= self.items());
        res
    }
}


/// The download threads that run, by the id of the download each one
/// serves, in the order they were started. There are never more than
/// `MAX_ACTIVE` of them.
pub struct WorkerSlots {
    running: Vec<DownloadId>,
}

impl WorkerSlots {
    /// The downloads served by running threads, in the order they were started.
    pub closed spec fn ids(&self) -> Seq<DownloadId> {
        self.running@
    }

    #[verifier::type_invariant]
    spec fn within_cap(self) -> bool {
        self.running@.len() <= MAX_ACTIVE
    }

    /// No thread runs.
    pub fn new() -> (res: Self)
        ensures
            res.ids() == Seq::<DownloadId>::empty(),
    {
        WorkerSlots { running: Vec::new() }
    }

    /// How many threads run; at any moment, at most `MAX_ACTIVE`.
    pub fn count(&self) -> (res: usize)
        ensures
            res == self.ids().len(),
            res <= MAX_ACTIVE,
    {
        proof { use_type_invariant(self); }
        self.running.len()
    }

    /// The download served by the `i`-th running thread.
    pub fn id_at(&self, i: usize) -> (res: DownloadId)
        requires
            i < self.ids().len(),
        ensures
            res == self.ids()[i as int],
    {
        self.running[i]
    }

    /// Starts, in the free slots, the front-most queued downloads (see
    /// `DownloadQueue::start_downloads`); each gets a thread, after those that run.
    pub fn start(&mut self, queue: &mut DownloadQueue) -> (res: Vec<DownloadId>)
        requires
            old(queue).wf(),
        ensures
            final(queue).wf(),
            final(queue).next() == old(queue).next(),
            final(queue).items() == start_n(old(queue).items(), res.len() as nat),
            forall|j: int| 0 <= j < res.len() ==> {
                let before = #[trigger] start_n(old(queue).items(), j as nat);
                first_queued(before) >= 0 && res@[j] == before[first_queued(before)].id
            },
            final(self).ids() == old(self).ids() + res@,
            old(self).ids().len() + res.len() <= MAX_ACTIVE,
            old(self).ids().len() + res.len() < MAX_ACTIVE ==> first_queued(final(queue).items()) == -1,
    {
        proof { use_type_invariant(&*self); }
        let started = queue.start_downloads(self.running.len());
        let mut all: Vec<DownloadId> = Vec::new();
        let mut i: usize = 0;
        while i < self.running.len()
            invariant
                i <= self.running.len(),
                all@ == self.running@.take(i as int),
            decreases self.running.len() - i,
        {
            all.push(self.running[i]);
            assert(self.running@.take(i + 1) =~= self.running@.take(i as int).push(self.running@[i as int]));
            i = i + 1;
        }
        assert(self.running@.take(self.running.len() as int) =~= self.running@);
        let mut k: usize = 0;
        while k < started.len()
            invariant
                k <= started.len(),
                all@ == old(self).ids() + started@.take(k as int),
                old(self).ids().len() + started.len() <= MAX_ACTIVE,
            decreases started.len() - k,
        {
            all.push(started[k]);
            assert(started@.take(k + 1) =~= started@.take(k as int).push(started@[k as int]));
            k = k + 1;
        }
        assert(started@.take(started.len() as int) =~= started@);
        self.running = all;
        started
    }

    /// The `i`-th running thread has ended: its slot is free again; gives the
    /// download it served.
    pub fn release(&mut self, i: usize) -> (res: DownloadId)
        requires
            i < old(self).ids().len(),
        ensures
            res == old(self).ids()[i as int],
            final(self).ids() == old(self).ids().remove(i as int),
    {
        proof { use_type_invariant(&*self); }
        let mut kept: Vec<DownloadId> = Vec::new();
        let mut j: usize = 0;
        while j < self.running.len()
            invariant
                j <= self.running.len(),
                i < self.running.len(),
                kept@ == (if j <= i { self.running@.take(j as int) } else { self.running@.take(j as int).remove(i as int) }),
            decreases self.running.len() - j,
        {
            if j != i {
                kept.push(self.running[j]);
            }
            proof {
                let r = self.running@;
                if j < i {
                    assert(r.take(j + 1) =~= r.take(j as int).push(r[j as int]));
                } else if j == i {
                    assert(r.take(j + 1).remove(i as int) =~= r.take(j as int));
                } else {
                    assert(r.take(j + 1).remove(i as int) =~= r.take(j as int).remove(i as int).push(r[j as int]));
                }
            }
            j = j + 1;
        }
        assert(self.running@.take(self.running.len() as int) =~= self.running@);
        let id = self.running[i];
        self.running = kept;
        id
    }
}

/// An entry of a zip archive, as the archive lists it.
#[derive(Debug, Clone)]
pub struct ArchiveEntry {
    pub name: String,
    pub is_dir: bool,
}

/// Where an archive's files go: `dest_dir`, and for each archive entry, the
/// path it is written to, or nothing when it is skipped.
pub struct ExtractionPlan {
    pub dest_dir: String,
    pub outputs: Vec<Option<String>>,
}

/// The directory a path lies in: the part before its last `/` (`/` itself for
/// a path right under the root, empty for a bare name); none for an empty path or `/`.
pub open spec fn parent_of(p: Seq<char>) -> Option<Seq<char>> {
    if p.len() == 0 || p == seq!['/'] {
        None
    } else if rfind(p, '/') > 0 {
        Some(p.take(rfind(p, '/')))
    } else if rfind(p, '/') == 0 {
        Some(seq!['/'])
    } else {
        Some(Seq::empty())
    }
}

/// The name an archive entry is written under: directories inside the archive are dropped.
pub open spec fn flat_name(e: ArchiveEntry) -> Seq<char> {
    after_last_slash(e.name@)
}

/// Whether an archive entry is written out: a file with a name.
pub open spec fn extracted(e: ArchiveEntry) -> bool {
    !e.is_dir && flat_name(e).len() > 0
}

/// Whether the archive holds a disc image cue sheet (a file ending in `.cue`, in any ASCII case).
pub open spec fn has_cue_sheet(entries: Seq<ArchiveEntry>) -> bool {
    exists|i: int| 0 <= i < entries.len() && extracted(#[trigger] entries[i])
        && ends_with(ascii_lower_seq(flat_name(entries[i])), ".cue"@)
}

/// Where an archive is unpacked: an archive with a cue sheet (a bin/cue game)
/// into a directory named after the game next to the archive, any other one
/// next to the archive.
pub open spec fn extraction_dir(parent: Seq<char>, game_key: Seq<char>, entries: Seq<ArchiveEntry>) -> Seq<char> {
    if has_cue_sheet(entries) {
        path_join(parent, game_key)
    } else {
        parent
    }
}

/// Where the files of the archive at `archive_path` go (see `extraction_dir`,
/// `extracted`, `flat_name`); none when the archive path has no parent directory.
pub fn plan_extraction(archive_path: &str, game_key: &str, entries: &Vec<ArchiveEntry>) -> (res: Option<ExtractionPlan>)
    ensures
        match parent_of(archive_path@) {
            None => res is None,
            Some(parent) => res matches Some(plan) && {
                let dir = extraction_dir(parent, game_key@, entries@);
                &&& plan.dest_dir@ == dir
                &&& plan.outputs@.len() == entries@.len()
                &&& forall|i: int| 0 <= i < entries@.len() ==> if extracted(#[trigger] entries@[i]) {
                    plan.outputs@[i] matches Some(p) && p@ == path_join(dir, flat_name(entries@[i]))
                } else {
                    plan.outputs@[i] is None
                }
            },
        },
{
    let p = chars_of(archive_path);
    proof { lemma_rfind_bounds(p@, '/'); }
    if p.len() == 0 || (p.len() == 1 && p[0] == '/') {
        proof {
            if p@.len() == 1 && p@[0] == '/' {
                assert(p@ =~= seq!['/']);
            }
        }
        return None;
    }
    assert(p@ != seq!['/']);
    let parent_chars: Vec<char> = match rfind_char(&p, '/') {
        Some(r) => {
            if r > 0 {
                sub_chars(&p, 0, r)
            } else {
                let mut v: Vec<char> = Vec::new();
                v.push('/');
                v
            }
        },
        None => Vec::new(),
    };
    assert(parent_chars@ =~= parent_of(archive_path@)->0);
    let parent = string_of(&parent_chars);
    let cue = chars_of(".cue");
    let mut has_cue = false;
    let mut i: usize = 0;
    while i < entries.len()
        invariant
            i <= entries.len(),
            cue@ == ".cue"@,
            has_cue == exists|j: int| 0 <= j < i && extracted(#[trigger] entries@[j])
                && ends_with(ascii_lower_seq(flat_name(entries@[j])), ".cue"@),
        decreases entries.len() - i,
    {
        let e = &entries[i];
        let flat = last_segment(e.name.as_str());
        let fv = chars_of(flat.as_str());
        let lower = ascii_lowercase(&fv);
        if !e.is_dir && fv.len() > 0 && ends_with_chars(&lower, &cue) {
            has_cue = true;
        }
        i = i + 1;
    }
    let dest_dir = if has_cue { join_path(parent.as_str(), game_key) } else { string_of(&parent_chars) };
    let mut outputs: Vec<Option<String>> = Vec::new();
    let mut i: usize = 0;
    while i < entries.len()
        invariant
            i <= entries.len(),
            outputs@.len() == i,
            dest_dir@ == extraction_dir(parent_of(archive_path@)->0, game_key@, entries@),
            forall|k: int| 0 <= k < i ==> if extracted(#[trigger] entries@[k]) {
                outputs@[k] matches Some(p) && p@ == path_join(dest_dir@, flat_name(entries@[k]))
            } else {
                outputs@[k] is None
            },
        decreases entries.len() - i,
    {
        let e = &entries[i];
        let flat = last_segment(e.name.as_str());
        if !e.is_dir && !flat.as_str().is_empty() {
            outputs.push(Some(join_path(dest_dir.as_str(), flat.as_str())));
        } else {
            outputs.push(None);
        }
        i = i + 1;
    }
    Some(ExtractionPlan { dest_dir, outputs })
}

/// A paused download of a game keeps that game in the queue: the game counts
/// as queued or active, and asking to queue it again is refused (the queue's
/// downloads are the ones the condition of `enqueue`'s refusal speaks of).
pub proof fn law_paused_game_is_not_queued_again(q: DownloadQueue, i: int, source: Seq<char>, platform: Seq<char>, game_key: Seq<char>)
    requires
        0 <= i < q.items().len(),
        same_game(q.items()[i], source, platform, game_key),
        q.items()[i].state == DownloadState::Paused,
    ensures
        exists|j: int| 0 <= j < q.items().len() && same_game(#[trigger] q.items()[j], source, platform, game_key)
            && is_live(q.items()[j].state),
{
    law_unfinished_downloads_hold_their_game(q.items()[i].state);
    assert(same_game(q.items()[i], source, platform, game_key) && is_live(q.items()[i].state));
}

} // verus!
