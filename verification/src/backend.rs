use vstd::prelude::*;
use vstd::utf8::encode_utf8;

use crate::config::{cred_index, Bucket, Config, Source, SourceType};
use crate::text::{
    chars_of, concat, decimal, decimal_chars, decimal_string, join, join_chars, parse_u64, parse_u64_spec, split_chars,
    split_on, starts_with, string_of, views,
};

verus! {

/// A file of a bucket that can be downloaded.
#[derive(Debug, Clone)]
pub struct RemoteGame {
    pub key: String,
    pub file_size: u64,
    pub bucket_name: String,
}

impl RemoteGame {
    /// A copy of this game.
    pub fn copy(&self) -> (res: RemoteGame)
        ensures
            res == *self,
    {
        RemoteGame { key: self.key.clone(), file_size: self.file_size, bucket_name: self.bucket_name.clone() }
    }
}

/// Why a listing or a download failed.
#[derive(Debug, Clone)]
pub enum BackendError {
    ListFailed(String),
    DownloadFailed(String),
}

impl BackendError {
    /// The text that the error is shown with.
    pub fn message(&self) -> (res: String)
        ensures
            match self {
                BackendError::ListFailed(m) => res@ == "List failed: "@ + m@,
                BackendError::DownloadFailed(m) => res@ == "Download failed: "@ + m@,
            },
    {
        match self {
            BackendError::ListFailed(m) => concat("List failed: ", m.as_str()),
            BackendError::DownloadFailed(m) => concat("Download failed: ", m.as_str()),
        }
    }
}

/// How far a download has come.
#[derive(Debug, Clone, Copy)]
pub struct DownloadProgress {
    pub bytes_downloaded: u64,
    pub total_bytes: u64,
}

/// An entry of the Internet Archive file listing of an item.
#[derive(Debug, Clone)]
pub struct ListedFile {
    pub name: String,
    pub size: Option<String>,
}

/// The Internet Archive backend: its access keys.
#[derive(Debug, Clone)]
pub struct IABackend {
    pub access_key: String,
    pub secret_key: String,
}

/// The backend for `source`, with the credentials it names in `config`.
pub fn create_backend(source: &Source, config: &Config) -> (res: Result<IABackend, BackendError>)
    ensures
        ({
            let k = cred_index(config.credentials@, source.credentials@);
            &&& (res is Ok <==> source_keys(*config, *source) is Some)
            &&& res matches Ok(b) ==> source_keys(*config, *source) == Some((b.access_key@, b.secret_key@))
            &&& match res {
                Ok(b) => k >= 0 && b.access_key == config.credentials@[k].1.access_key
                    && b.secret_key == config.credentials@[k].1.secret_key,
                Err(BackendError::ListFailed(m)) => k == -1
                    && m@ == "Credentials '"@ + source.credentials@ + "' not found"@,
                Err(_) => false,
            }
        }),
{
    proof { crate::config::lemma_cred_index(config.credentials@, source.credentials@, 0); }
    let creds = match source.resolve_credentials(config) {
        Some(c) => c,
        None => {
            let head = concat("Credentials '", source.credentials.as_str());
            return Err(BackendError::ListFailed(concat(head.as_str(), "' not found")));
        },
    };
    match source.source_type {
        SourceType::S3Archive => Ok(IABackend::new(creds.access_key.clone(), creds.secret_key.clone())),
    }
}

/// Whether `b` is a byte that URL encoding keeps: an ASCII letter or digit, or one of `-`, `_`, `.`, `~`.
pub open spec fn is_unreserved(b: u8) -> bool {
    (48 <= b <= 57) || (65 <= b <= 90) || (97 <= b <= 122) || b == 45 || b == 46 || b == 95 || b == 126
}

pub open spec fn hex_digit(d: u8) -> char {
    if d < 10 {
        (48 + d) as char
    } else {
        (55 + d) as char
    }
}

/// Percent-encoding of bytes: kept bytes as they are, others as `%` and two upper-case hex digits.
pub open spec fn percent_encoded(bytes: Seq<u8>) -> Seq<char>
    decreases bytes.len(),
{
    if bytes.len() == 0 {
        Seq::empty()
    } else {
        let b = bytes[0];
        (if is_unreserved(b) {
            seq![b as char]
        } else {
            seq!['%', hex_digit(b / 16), hex_digit(b % 16)]
        }) + percent_encoded(bytes.drop_first())
    }
}

/// `urlencoding::encode`: the contract states its result, the percent-encoding
/// of the UTF-8 bytes of `s`, as the crate documents and implements it.
#[verifier::external_body]
fn url_encode(s: &str) -> (res: String)
    ensures
        res@ == percent_encoded(encode_utf8(s@)),
{
    urlencoding::encode(s).into_owned()
}

/// The key with each `/`-separated piece percent-encoded.
pub open spec fn encoded_key(key: Seq<char>) -> Seq<char> {
    let parts = split_on(key, '/');
    join(Seq::new(parts.len(), |i: int| percent_encoded(encode_utf8(parts[i]))), seq!['/'])
}

impl IABackend {
    pub fn new(access_key: String, secret_key: String) -> (res: Self)
        ensures
            res.access_key == access_key,
            res.secret_key == secret_key,
    {
        IABackend { access_key, secret_key }
    }

    /// The URL a file of a bucket is downloaded from.
    pub fn make_download_url(&self, bucket_name: &str, key: &str) -> (res: String)
        ensures
            res@ == "https://archive.org/download/"@ + bucket_name@ + "/"@ + encoded_key(key@),
    {
        let k = chars_of(key);
        let parts = split_chars(&k, '/');
        let mut encoded: Vec<Vec<char>> = Vec::new();
        let mut i: usize = 0;
        let ghost target = Seq::new(views(parts@).len(), |j: int| percent_encoded(encode_utf8(views(parts@)[j])));
        while i < parts.len()
            invariant
                i <= parts.len(),
                target == Seq::new(views(parts@).len(), |j: int| percent_encoded(encode_utf8(views(parts@)[j]))),
                views(encoded@) =~= target.take(i as int),
            decreases parts.len() - i,
        {
            let piece = string_of(&parts[i]);
            let enc = url_encode(piece.as_str());
            let ghost before = views(encoded@);
            let ec = chars_of(enc.as_str());
            assert(ec@ == target[i as int]);
            encoded.push(ec);
            assert(views(encoded@) =~= before.push(target[i as int]));
            assert(target.take(i + 1) =~= target.take(i as int).push(target[i as int]));
            i = i + 1;
        }
        assert(views(encoded@) =~= target);
        let mut sep: Vec<char> = Vec::new();
        sep.push('/');
        assert(sep@ =~= seq!['/']);
        let joined = join_chars(&encoded, &sep);
        let head = concat("https://archive.org/download/", bucket_name);
        let head2 = concat(head.as_str(), "/");
        let tail = string_of(&joined);
        concat(head2.as_str(), tail.as_str())
    }

    /// The headers of a request of this backend: its authorization, then,
    /// for a request that resumes at `offset` bytes, the range.
    pub fn request_headers(&self, offset: u64) -> (res: Vec<(String, String)>)
        ensures
            header_views(res@) == request_headers_for(self.access_key@, self.secret_key@, offset),
    {
        let mut v: Vec<(String, String)> = Vec::new();
        v.push(("Authorization".to_owned(), self.auth_header()));
        match range_header(offset) {
            Some(r) => v.push(("Range".to_owned(), r)),
            None => {},
        }
        assert(header_views(v@) =~= request_headers_for(self.access_key@, self.secret_key@, offset));
        v
    }

    /// The value of the `Authorization` header.
    pub fn auth_header(&self) -> (res: String)
        ensures
            res@ == "LOW "@ + self.access_key@ + ":"@ + self.secret_key@,
    {
        let a = concat("LOW ", self.access_key.as_str());
        let b = concat(a.as_str(), ":");
        concat(b.as_str(), self.secret_key.as_str())
    }
}

/// The headers of a request made with these keys that resumes at `offset`
/// bytes (0 for a request from the start).
pub open spec fn request_headers_for(access_key: Seq<char>, secret_key: Seq<char>, offset: u64) -> Seq<(Seq<char>, Seq<char>)> {
    let auth = ("Authorization"@, "LOW "@ + access_key + ":"@ + secret_key);
    if offset > 0 {
        seq![auth, ("Range"@, "bytes="@ + decimal(offset as nat) + "-"@)]
    } else {
        seq![auth]
    }
}

/// Headers, as values of the specification.
pub open spec fn header_views(h: Seq<(String, String)>) -> Seq<(Seq<char>, Seq<char>)> {
    Seq::new(h.len(), |i: int| (h[i].0@, h[i].1@))
}

/// The keys the backend of `source` is made with: those of the credentials it names, if any.
pub open spec fn source_keys(config: Config, source: Source) -> Option<(Seq<char>, Seq<char>)> {
    let k = cred_index(config.credentials@, source.credentials@);
    if k >= 0 {
        Some((config.credentials@[k].1.access_key@, config.credentials@[k].1.secret_key@))
    } else {
        None
    }
}

/// Every request that the backend of a source makes, a listing, a download
/// or a HEAD request, carries first the `LOW` authorization of the
/// credentials the source names.
pub proof fn law_requests_authorized(config: Config, source: Source, b: IABackend, offset: u64)
    requires
        source_keys(config, source) == Some((b.access_key@, b.secret_key@)),
    ensures
        request_headers_for(b.access_key@, b.secret_key@, offset).len() >= 1,
        request_headers_for(b.access_key@, b.secret_key@, offset)[0] == ("Authorization"@,
            "LOW "@ + (source_keys(config, source)->0).0 + ":"@ + (source_keys(config, source)->0).1),
{
}

/// The URL that lists the files of a bucket.
pub fn listing_url(bucket_name: &str) -> (res: String)
    ensures
        res@ == "https://archive.org/metadata/"@ + bucket_name@ + "/files"@,
{
    let a = concat("https://archive.org/metadata/", bucket_name);
    concat(a.as_str(), "/files")
}

/// The prefix that a bucket's path asks keys to have: empty, or the path and a `/`.
pub open spec fn key_prefix(path: Seq<char>) -> Seq<char> {
    if path.len() == 0 {
        Seq::empty()
    } else {
        path.push('/')
    }
}

/// The key prefix of a bucket.
pub fn bucket_prefix(bucket: &Bucket) -> (res: String)
    ensures
        res@ == key_prefix(bucket.path@),
{
    if bucket.path.as_str().is_empty() {
        String::new()
    } else {
        let res = concat(bucket.path.as_str(), "/");
        proof { reveal_strlit("/"); }
        assert(res@ =~= bucket.path@.push('/'));
        res
    }
}

/// Whether a listed file becomes a game: its name has the prefix and its size is a number.
pub open spec fn is_listed_game(f: ListedFile, prefix: Seq<char>) -> bool {
    &&& (prefix.len() == 0 || (prefix.len() <= f.name@.len() && f.name@.take(prefix.len() as int) == prefix))
    &&& f.size is Some
    &&& parse_u64_spec(f.size->0@) is Some
}

pub open spec fn listed_games_filter(prefix: Seq<char>) -> spec_fn(ListedFile) -> bool {
    |f: ListedFile| is_listed_game(f, prefix)
}

/// `g` is the game that listed file `f` of bucket `bucket_name` gives.
pub open spec fn game_of_file(g: RemoteGame, f: ListedFile, bucket_name: Seq<char>) -> bool {
    &&& g.key == f.name
    &&& f.size is Some
    &&& parse_u64_spec(f.size->0@) == Some(g.file_size)
    &&& g.bucket_name@ == bucket_name
}

/// The games of a bucket listing: the files under the bucket's path whose size
/// is a number, in listing order.
pub fn games_from_listing(files: &Vec<ListedFile>, bucket: &Bucket) -> (res: Vec<RemoteGame>)
    ensures
        ({
            let kept = files@.filter(listed_games_filter(key_prefix(bucket.path@)));
            res@.len() == kept.len() && forall|i: int| 0 <= i < kept.len() ==> game_of_file(#[trigger] res@[i], kept[i], bucket.name@)
        }),
{
    let prefix_s = bucket_prefix(bucket);
    let prefix = chars_of(prefix_s.as_str());
    let mut res: Vec<RemoteGame> = Vec::new();
    let mut i: usize = 0;
    let ghost pred = listed_games_filter(key_prefix(bucket.path@));
    while i < files.len()
        invariant
            i <= files.len(),
            prefix@ == key_prefix(bucket.path@),
            pred == listed_games_filter(key_prefix(bucket.path@)),
            res@.len() == files@.take(i as int).filter(pred).len(),
            forall|j: int| 0 <= j < res@.len() ==> game_of_file(#[trigger] res@[j], files@.take(i as int).filter(pred)[j], bucket.name@),
        decreases files.len() - i,
    {
        let f = &files[i];
        let ghost before = files@.take(i as int).filter(pred);
        assert(files@.take(i + 1).drop_last() =~= files@.take(i as int));
        assert(files@.take(i + 1).last() == files@[i as int]);
        reveal(Seq::filter);
        let name = chars_of(f.name.as_str());
        let has_prefix = prefix.len() == 0 || starts_with(&name, &prefix);
        if has_prefix {
            match &f.size {
                Some(sz) => match parse_u64(sz.as_str()) {
                    Some(n) => {
                        assert(pred(files@[i as int]));
                        res.push(RemoteGame { key: f.name.clone(), file_size: n, bucket_name: bucket.name.clone() });
                        assert(files@.take(i + 1).filter(pred) == before.push(files@[i as int]));
                    },
                    None => {
                        assert(!pred(files@[i as int]));
                    },
                },
                None => {
                    assert(!pred(files@[i as int]));
                },
            }
        } else {
            assert(!pred(files@[i as int]));
        }
        i = i + 1;
    }
    assert(files@.take(files.len() as int) =~= files@);
    res
}


/// How many times a download is tried while the server answers with an error it may recover from.
pub const MAX_ATTEMPTS: u32 = 5;

/// Seconds to wait before trying a download again.
pub const RETRY_DELAY_SECS: u64 = 5;

/// How many redirects are followed before giving up.
pub const MAX_REDIRECT_HOPS: u32 = 10;

/// What to do before a download is requested.
#[derive(Debug, Clone)]
pub enum DownloadStart {
    /// The request cannot be made.
    Fail(BackendError),
    /// The file on disk is already whole.
    AlreadyComplete,
    /// Request the file.
    Fetch,
}

/// What to do before requesting `key` when `offset` of `total_bytes` bytes are on disk.
pub fn plan_download(key: &str, offset: u64, total_bytes: u64) -> (res: DownloadStart)
    ensures
        total_bytes == 0 ==> (res matches DownloadStart::Fail(BackendError::DownloadFailed(m))
            && m@ == "File size is 0 for key '"@ + key@ + "'"@),
        total_bytes != 0 && offset >= total_bytes ==> res is AlreadyComplete,
        total_bytes != 0 && offset < total_bytes ==> res is Fetch,
{
    if total_bytes == 0 {
        let a = concat("File size is 0 for key '", key);
        return DownloadStart::Fail(BackendError::DownloadFailed(concat(a.as_str(), "'")));
    }
    if offset >= total_bytes {
        DownloadStart::AlreadyComplete
    } else {
        DownloadStart::Fetch
    }
}

/// The value of the `Range` header for a download that resumes at `offset`.
pub fn range_header(offset: u64) -> (res: Option<String>)
    ensures
        offset == 0 ==> res is None,
        offset > 0 ==> (res matches Some(r) && r@ == "bytes="@ + decimal(offset as nat) + "-"@),
{
    if offset > 0 {
        let n = decimal_string(offset);
        let a = concat("bytes=", n.as_str());
        Some(concat(a.as_str(), "-"))
    } else {
        None
    }
}

/// What a download attempt's status asks for.
#[derive(Debug, Clone)]
pub enum AttemptResult {
    /// The body is coming.
    Accept,
    /// Try again later.
    Retry,
    /// Give up.
    Fail(BackendError),
}

pub open spec fn is_retry_status(status: u16) -> bool {
    status == 500 || status == 502 || status == 503
}

/// What the final status of a download request asks for: 200 and 206 bring
/// the body, 500, 502 and 503 are tried again, anything else fails.
pub fn on_download_status(status: u16, key: &str) -> (res: AttemptResult)
    ensures
        (status == 200 || status == 206) ==> res is Accept,
        is_retry_status(status) ==> res is Retry,
        !(status == 200 || status == 206) && !is_retry_status(status) ==> (res matches AttemptResult::Fail(BackendError::DownloadFailed(m))
            && m@ == "Download returned status "@ + decimal(status as nat) + " for '"@ + key@ + "'"@),
{
    if status == 200 || status == 206 {
        AttemptResult::Accept
    } else if status == 500 || status == 502 || status == 503 {
        AttemptResult::Retry
    } else {
        let n = decimal_string(status as u64);
        let a = concat("Download returned status ", n.as_str());
        let b = concat(a.as_str(), " for '");
        let c = concat(b.as_str(), key);
        AttemptResult::Fail(BackendError::DownloadFailed(concat(c.as_str(), "'")))
    }
}

/// The error once every attempt was answered with a status worth retrying.
pub fn retries_exhausted(last_status: u16, key: &str) -> (res: BackendError)
    ensures
        res matches BackendError::DownloadFailed(m)
            && m@ == "Download failed after 5 retries (last status="@ + decimal(last_status as nat) + ") for '"@ + key@ + "'"@,
{
    let n = decimal_string(last_status as u64);
    let a = concat("Download failed after 5 retries (last status=", n.as_str());
    let b = concat(a.as_str(), ") for '");
    let c = concat(b.as_str(), key);
    BackendError::DownloadFailed(concat(c.as_str(), "'"))
}

/// Where the body that came with `status` starts: a 206 answer resumes at
/// `offset`; any other answer starts over.
pub fn resume_offset(offset: u64, status: u16) -> (res: u64)
    ensures
        res == (if status == 206 { offset } else { 0 }),
{
    if offset > 0 && status == 200 {
        0
    } else if status == 206 {
        offset
    } else {
        0
    }
}

/// The error of a cancelled transfer.
pub fn cancelled(listing: bool) -> (res: BackendError)
    ensures
        listing ==> (res matches BackendError::ListFailed(m) && m@ == "Cancelled"@),
        !listing ==> (res matches BackendError::DownloadFailed(m) && m@ == "Cancelled"@),
{
    if listing {
        BackendError::ListFailed("Cancelled".to_owned())
    } else {
        BackendError::DownloadFailed("Cancelled".to_owned())
    }
}

/// What a response status says about redirects.
#[derive(Debug, Clone)]
pub enum RedirectStep {
    /// Ask again at this URL.
    Follow(String),
    /// This is the answer.
    Done,
    /// The redirect cannot be followed.
    Fail(BackendError),
}

pub open spec fn is_redirect_status(status: u16) -> bool {
    status == 301 || status == 302 || status == 307 || status == 308
}

/// What a response asks for: a redirect status with a location is followed,
/// one without fails, any other status is the answer.
pub fn redirect_step(status: u16, location: Option<String>) -> (res: RedirectStep)
    ensures
        !is_redirect_status(status) ==> res is Done,
        is_redirect_status(status) ==> match location {
            Some(l) => res == RedirectStep::Follow(l),
            None => res matches RedirectStep::Fail(BackendError::DownloadFailed(m))
                && m@ == "Redirect "@ + decimal(status as nat) + " without Location header"@,
        },
{
    if status == 301 || status == 302 || status == 307 || status == 308 {
        match location {
            Some(l) => RedirectStep::Follow(l),
            None => {
                let n = decimal_string(status as u64);
                let a = concat("Redirect ", n.as_str());
                RedirectStep::Fail(BackendError::DownloadFailed(concat(a.as_str(), " without Location header")))
            },
        }
    } else {
        RedirectStep::Done
    }
}

/// The error once `MAX_REDIRECT_HOPS` redirects were followed.
pub fn too_many_redirects() -> (res: BackendError)
    ensures
        res matches BackendError::DownloadFailed(m) && m@ == "Too many redirects"@,
{
    BackendError::DownloadFailed("Too many redirects".to_owned())
}

/// Where a step of a request loop leads, apart from the text of an error.
#[derive(Debug, Clone, Copy, PartialEq, Eq, Structural)]
pub enum StepKind {
    /// The answer is taken.
    Accept,
    /// Ask again (after the retry delay, or at the redirect's location).
    Again,
    /// Give up: too many attempts or redirects.
    Exhausted,
    /// Give up on this answer.
    Rejected,
}

/// What the final status of download attempt number `attempt` (from 0) leads
/// to: 200 and 206 are taken; 500, 502 and 503 are tried again until the
/// `MAX_ATTEMPTS`-th attempt, which gives up; any other status gives up.
pub open spec fn attempt_kind(attempt: nat, status: u16) -> StepKind {
    if status == 200 || status == 206 {
        StepKind::Accept
    } else if is_retry_status(status) {
        if attempt + 1 < MAX_ATTEMPTS {
            StepKind::Again
        } else {
            StepKind::Exhausted
        }
    } else {
        StepKind::Rejected
    }
}

/// The next step after attempt number `attempt` (from 0) was answered with
/// `status` (see `attempt_kind`); the errors carry the status and the key.
pub fn next_attempt(attempt: u32, status: u16, key: &str) -> (res: AttemptResult)
    requires
        attempt < MAX_ATTEMPTS,
    ensures
        attempt_kind(attempt as nat, status) == StepKind::Accept ==> res is Accept,
        attempt_kind(attempt as nat, status) == StepKind::Again ==> res is Retry,
        attempt_kind(attempt as nat, status) == StepKind::Exhausted ==> (res matches AttemptResult::Fail(BackendError::DownloadFailed(m))
            && m@ == "Download failed after 5 retries (last status="@ + decimal(status as nat) + ") for '"@ + key@ + "'"@),
        attempt_kind(attempt as nat, status) == StepKind::Rejected ==> (res matches AttemptResult::Fail(BackendError::DownloadFailed(m))
            && m@ == "Download returned status "@ + decimal(status as nat) + " for '"@ + key@ + "'"@),
{
    match on_download_status(status, key) {
        AttemptResult::Retry => {
            if attempt + 1 < MAX_ATTEMPTS {
                AttemptResult::Retry
            } else {
                AttemptResult::Fail(retries_exhausted(status, key))
            }
        },
        other => other,
    }
}

/// The attempt at which a download stops asking, from attempt `i` on, when
/// the attempts are answered with `statuses` in turn.
pub open spec fn attempts_stop(statuses: Seq<u16>, i: nat) -> nat
    decreases MAX_ATTEMPTS - i,
{
    if i + 1 >= MAX_ATTEMPTS || attempt_kind(i, statuses[i as int]) != StepKind::Again {
        i
    } else {
        attempts_stop(statuses, i + 1)
    }
}

proof fn lemma_attempts_stop(statuses: Seq<u16>, i: nat)
    requires
        i < MAX_ATTEMPTS,
    ensures
        i <= attempts_stop(statuses, i) < MAX_ATTEMPTS,
        forall|j: nat| i <= j < attempts_stop(statuses, i) ==> #[trigger] attempt_kind(j, statuses[j as int]) == StepKind::Again,
        attempt_kind(attempts_stop(statuses, i), statuses[attempts_stop(statuses, i) as int]) != StepKind::Again,
    decreases MAX_ATTEMPTS - i,
{
    if !(i + 1 >= MAX_ATTEMPTS || attempt_kind(i, statuses[i as int]) != StepKind::Again) {
        lemma_attempts_stop(statuses, i + 1);
    }
}

/// A download makes at most `MAX_ATTEMPTS` attempts: whatever the statuses
/// its attempts are answered with, every attempt before the last one made was
/// answered with a status worth retrying, the last one made is taken or
/// gives up, and five such statuses in a row give up with the
/// "after 5 retries" error on the fifth.
pub proof fn law_at_most_five_attempts(statuses: Seq<u16>)
    requires
        statuses.len() >= MAX_ATTEMPTS,
    ensures
        attempts_stop(statuses, 0) < MAX_ATTEMPTS,
        forall|j: nat| j < attempts_stop(statuses, 0) ==> #[trigger] attempt_kind(j, statuses[j as int]) == StepKind::Again
            && is_retry_status(statuses[j as int]),
        attempt_kind(attempts_stop(statuses, 0), statuses[attempts_stop(statuses, 0) as int]) != StepKind::Again,
        (forall|j: int| 0 <= j < MAX_ATTEMPTS ==> is_retry_status(#[trigger] statuses[j]))
            ==> attempts_stop(statuses, 0) == MAX_ATTEMPTS - 1
                && attempt_kind(attempts_stop(statuses, 0), statuses[attempts_stop(statuses, 0) as int]) == StepKind::Exhausted,
{
    lemma_attempts_stop(statuses, 0);
    let k = attempts_stop(statuses, 0);
    if forall|j: int| 0 <= j < MAX_ATTEMPTS ==> is_retry_status(#[trigger] statuses[j]) {
        assert(is_retry_status(statuses[k as int]));
    }
}

/// What the answer to request number `hop` (from 0) of a redirect chain leads
/// to: a status other than 301, 302, 307 and 308 is the answer; a redirect
/// without a location gives up; one with a location is followed unless it
/// is the `MAX_REDIRECT_HOPS`-th request, which gives up.
pub open spec fn hop_kind(hop: nat, status: u16, has_location: bool) -> StepKind {
    if !is_redirect_status(status) {
        StepKind::Accept
    } else if !has_location {
        StepKind::Rejected
    } else if hop + 1 < MAX_REDIRECT_HOPS {
        StepKind::Again
    } else {
        StepKind::Exhausted
    }
}

/// The next step after request number `hop` (from 0) was answered with
/// `status` and, maybe, a location (see `hop_kind`).
pub fn next_hop(hop: u32, status: u16, location: Option<String>) -> (res: RedirectStep)
    requires
        hop < MAX_REDIRECT_HOPS,
    ensures
        hop_kind(hop as nat, status, location is Some) == StepKind::Accept ==> res is Done,
        hop_kind(hop as nat, status, location is Some) == StepKind::Again ==> res == RedirectStep::Follow(location->0),
        hop_kind(hop as nat, status, location is Some) == StepKind::Rejected ==> (res matches RedirectStep::Fail(BackendError::DownloadFailed(m))
            && m@ == "Redirect "@ + decimal(status as nat) + " without Location header"@),
        hop_kind(hop as nat, status, location is Some) == StepKind::Exhausted ==> (res matches RedirectStep::Fail(BackendError::DownloadFailed(m))
            && m@ == "Too many redirects"@),
{
    match redirect_step(status, location) {
        RedirectStep::Follow(l) => {
            if hop + 1 < MAX_REDIRECT_HOPS {
                RedirectStep::Follow(l)
            } else {
                RedirectStep::Fail(too_many_redirects())
            }
        },
        other => other,
    }
}

/// The request at which a redirect chain stops, from request `i` on, when the
/// requests are answered with `answers` (status, and whether a location came).
pub open spec fn hops_stop(answers: Seq<(u16, bool)>, i: nat) -> nat
    decreases MAX_REDIRECT_HOPS - i,
{
    if i + 1 >= MAX_REDIRECT_HOPS || hop_kind(i, answers[i as int].0, answers[i as int].1) != StepKind::Again {
        i
    } else {
        hops_stop(answers, i + 1)
    }
}

proof fn lemma_hops_stop(answers: Seq<(u16, bool)>, i: nat)
    requires
        i < MAX_REDIRECT_HOPS,
    ensures
        i <= hops_stop(answers, i) < MAX_REDIRECT_HOPS,
        forall|j: nat| i <= j < hops_stop(answers, i) ==> #[trigger] hop_kind(j, answers[j as int].0, answers[j as int].1) == StepKind::Again,
        hop_kind(hops_stop(answers, i), answers[hops_stop(answers, i) as int].0, answers[hops_stop(answers, i) as int].1) != StepKind::Again,
    decreases MAX_REDIRECT_HOPS - i,
{
    if !(i + 1 >= MAX_REDIRECT_HOPS || hop_kind(i, answers[i as int].0, answers[i as int].1) != StepKind::Again) {
        lemma_hops_stop(answers, i + 1);
    }
}

/// A redirect chain sends at most `MAX_REDIRECT_HOPS` requests: every request
/// before the last one sent was answered with a redirect and its location,
/// the last one is the answer or gives up, and ten redirects with locations
/// in a row give up with "Too many redirects".
pub proof fn law_at_most_ten_requests(answers: Seq<(u16, bool)>)
    requires
        answers.len() >= MAX_REDIRECT_HOPS,
    ensures
        hops_stop(answers, 0) < MAX_REDIRECT_HOPS,
        forall|j: nat| j < hops_stop(answers, 0) ==> #[trigger] hop_kind(j, answers[j as int].0, answers[j as int].1) == StepKind::Again
            && is_redirect_status(answers[j as int].0) && answers[j as int].1,
        hop_kind(hops_stop(answers, 0), answers[hops_stop(answers, 0) as int].0, answers[hops_stop(answers, 0) as int].1) != StepKind::Again,
        (forall|j: int| 0 <= j < MAX_REDIRECT_HOPS ==> is_redirect_status(#[trigger] answers[j].0) && answers[j].1)
            ==> hops_stop(answers, 0) == MAX_REDIRECT_HOPS - 1
                && hop_kind(hops_stop(answers, 0), answers[hops_stop(answers, 0) as int].0, answers[hops_stop(answers, 0) as int].1) == StepKind::Exhausted,
{
    lemma_hops_stop(answers, 0);
    let k = hops_stop(answers, 0);
    if forall|j: int| 0 <= j < MAX_REDIRECT_HOPS ==> is_redirect_status(#[trigger] answers[j].0) && answers[j].1 {
        assert(is_redirect_status(answers[k as int].0) && answers[k as int].1);
    }
}

/// The error of a download whose source is not in the configuration.
pub fn source_missing() -> (res: BackendError)
    ensures
        res matches BackendError::DownloadFailed(m) && m@ == "Source not found in config"@,
{
    BackendError::DownloadFailed("Source not found in config".to_owned())
}

/// The error of a download whose archive could not be unpacked.
pub fn extraction_failed(reason: &str) -> (res: BackendError)
    ensures
        res matches BackendError::DownloadFailed(m) && m@ == "Extraction failed: "@ + reason@,
{
    BackendError::DownloadFailed(concat("Extraction failed: ", reason))
}

/// The size that a HEAD answer gives: the `Content-Length` of a 200 answer,
/// 0 when it is missing or not a number; any other status is an error.
pub fn head_size(status: u16, content_length: Option<String>) -> (res: Result<u64, BackendError>)
    ensures
        status == 200 ==> res == Ok::<u64, BackendError>(match content_length {
            Some(v) => match parse_u64_spec(v@) {
                Some(n) => n,
                None => 0,
            },
            None => 0,
        }),
        status != 200 ==> (res matches Err(BackendError::ListFailed(m))
            && m@ == "HEAD returned status "@ + decimal(status as nat)),
{
    if status == 200 {
        match content_length {
            Some(v) => match parse_u64(v.as_str()) {
                Some(n) => Ok(n),
                None => Ok(0),
            },
            None => Ok(0),
        }
    } else {
        let n = decimal_string(status as u64);
        Err(BackendError::ListFailed(concat("HEAD returned status ", n.as_str())))
    }
}

/// The error for a listing answered with a status other than 200.
pub fn listing_status(status: u16) -> (res: Option<BackendError>)
    ensures
        status == 200 ==> res is None,
        status != 200 ==> (res matches Some(BackendError::ListFailed(m))
            && m@ == "Metadata API returned status "@ + decimal(status as nat)),
{
    if status == 200 {
        None
    } else {
        let n = decimal_string(status as u64);
        Some(BackendError::ListFailed(concat("Metadata API returned status ", n.as_str())))
    }
}

} // verus!
