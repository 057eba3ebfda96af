use vstd::prelude::*;

use crate::config::Bucket;
use crate::install_dir::{join_path, path_join};
use crate::text::{chars_of, concat, string_of};

verus! {

/// A catalog older than this many seconds is fetched again (seven days).
pub const STALE_THRESHOLD_SECS: u64 = 604800;

/// Why the catalog cache could not be read or written.
#[derive(Debug, Clone)]
pub enum CacheError {
    IoError(String),
    ParseError(String),
}

impl CacheError {
    /// The text that the error is shown with.
    pub fn message(&self) -> (res: String)
        ensures
            match self {
                CacheError::IoError(m) => res@ == "Cache IO error: "@ + m@,
                CacheError::ParseError(m) => res@ == "Cache parse error: "@ + m@,
            },
    {
        match self {
            CacheError::IoError(m) => concat("Cache IO error: ", m.as_str()),
            CacheError::ParseError(m) => concat("Cache parse error: ", m.as_str()),
        }
    }
}

/// Whether a cached catalog of this age (in seconds) is to be fetched again:
/// when there is none, when its age is unknown, or when it is seven days old.
pub open spec fn stale(age_secs: Option<u64>) -> bool {
    match age_secs {
        Some(a) => a >= STALE_THRESHOLD_SECS,
        None => true,
    }
}

/// Whether a cached catalog of this age is to be fetched again (see `stale`).
pub fn is_stale_age(age_secs: Option<u64>) -> (res: bool)
    ensures
        res == stale(age_secs),
{
    match age_secs {
        Some(a) => a >= STALE_THRESHOLD_SECS,
        None => true,
    }
}

/// `s` with every `/` turned into `_`.
pub open spec fn slashes_to_underscores(s: Seq<char>) -> Seq<char> {
    Seq::new(s.len(), |i: int| if s[i] == '/' { '_' } else { s[i] })
}

/// The name of the cache file of a bucket: the bucket name, then, when the
/// bucket has a path, `_` and the path with `/` turned into `_`; then `.yaml`.
pub open spec fn cache_file_name(bucket_name: Seq<char>, path: Seq<char>) -> Seq<char> {
    if path.len() == 0 {
        bucket_name + ".yaml"@
    } else {
        bucket_name + "_"@ + slashes_to_underscores(path) + ".yaml"@
    }
}

/// The on-disk cache of game catalogs, one file per bucket.
pub struct CatalogCache {
    cache_dir: String,
}

impl CatalogCache {
    /// The directory the cache files live in.
    pub closed spec fn dir(&self) -> Seq<char> {
        self.cache_dir@
    }

    /// The cache kept under the data directory `data_dir`, in `cache/sources`.
    pub fn in_data_dir(data_dir: &str) -> (res: Self)
        ensures
            res.dir() == path_join(path_join(data_dir@, "cache"@), "sources"@),
    {
        let a = join_path(data_dir, "cache");
        CatalogCache { cache_dir: join_path(a.as_str(), "sources") }
    }

    /// The directory the cache files live in.
    pub fn cache_dir(&self) -> (res: &String)
        ensures
            res@ == self.dir(),
    {
        &self.cache_dir
    }

    /// The cache file of a bucket of a source.
    pub fn cache_path(&self, source_name: &str, bucket: &Bucket) -> (res: String)
        ensures
            res@ == path_join(path_join(self.dir(), source_name@), cache_file_name(bucket.name@, bucket.path@)),
    {
        let dir = join_path(self.cache_dir.as_str(), source_name);
        let file = if bucket.path.as_str().is_empty() {
            concat(bucket.name.as_str(), ".yaml")
        } else {
            let p = chars_of(bucket.path.as_str());
            let mut q: Vec<char> = Vec::new();
            let mut i: usize = 0;
            while i < p.len()
                invariant
                    i <= p.len(),
                    q@ =~= slashes_to_underscores(p@).take(i as int),
                decreases p.len() - i,
            {
                q.push(if p[i] == '/' { '_' } else { p[i] });
                i = i + 1;
            }
            assert(q@ =~= slashes_to_underscores(bucket.path@));
            let under = string_of(&q);
            let a = concat(bucket.name.as_str(), "_");
            let b = concat(a.as_str(), under.as_str());
            concat(b.as_str(), ".yaml")
        };
        join_path(dir.as_str(), file.as_str())
    }
}

} // verus!
