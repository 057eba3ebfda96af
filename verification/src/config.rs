use vstd::prelude::*;

use crate::text::{concat, normalize_path, normalized_path, str_eq};

verus! {

/// Access keys for the Internet Archive S3 API.
#[derive(Debug, Clone)]
pub struct Credentials {
    pub access_key: String,
    pub secret_key: String,
}

/// The kind of backend that serves a source.
#[derive(Debug, Clone, Copy, PartialEq, Eq, Structural)]
pub enum SourceType {
    S3Archive,
}

/// An Internet Archive item, optionally narrowed to a path prefix.
#[derive(Debug, Clone)]
pub struct Bucket {
    pub name: String,
    pub path: String,
}

/// A browsable source of games.
#[derive(Debug, Clone)]
pub struct Source {
    pub name: String,
    pub source_type: SourceType,
    pub credentials: String,
    pub platform: String,
    pub buckets: Vec<Bucket>,
    pub extract: bool,
}

/// The user configuration: the sources and the named credentials they refer to.
/// `credentials` holds one entry per name.
#[derive(Debug, Clone)]
pub struct Config {
    pub sources: Vec<Source>,
    pub credentials: Vec<(String, Credentials)>,
}

/// Why a configuration could not be used.
#[derive(Debug, Clone)]
pub enum ConfigError {
    NotFound(String),
    ParseError(String),
    ValidationError(String),
}

/// Position of the first credentials entry named `name`, from `i` on; -1 when there is none.
pub open spec fn cred_index_from(creds: Seq<(String, Credentials)>, name: Seq<char>, i: int) -> int
    decreases creds.len() - i,
{
    if i < 0 || i >= creds.len() {
        -1
    } else if creds[i].0@ == name {
        i
    } else {
        cred_index_from(creds, name, i + 1)
    }
}

pub open spec fn cred_index(creds: Seq<(String, Credentials)>, name: Seq<char>) -> int {
    cred_index_from(creds, name, 0)
}

pub open spec fn has_credentials(creds: Seq<(String, Credentials)>, name: Seq<char>) -> bool {
    exists|i: int| 0 <= i < creds.len() && #[trigger] creds[i].0@ == name
}

pub proof fn lemma_cred_index(creds: Seq<(String, Credentials)>, name: Seq<char>, i: int)
    requires
        0 <= i <= creds.len(),
    ensures
        -1 <= cred_index_from(creds, name, i) < creds.len(),
        cred_index_from(creds, name, i) >= 0 ==> cred_index_from(creds, name, i) >= i
            && creds[cred_index_from(creds, name, i)].0@ == name,
        cred_index_from(creds, name, i) == -1 ==> forall|j: int| i <= j < creds.len() ==> #[trigger] creds[j].0@ != name,
    decreases creds.len() - i,
{
    if i < creds.len() && creds[i].0@ != name {
        lemma_cred_index(creds, name, i + 1);
    }
}

/// Each name has one credentials entry, as in the map the configuration file holds.
pub open spec fn names_unique(creds: Seq<(String, Credentials)>) -> bool {
    forall|i: int, j: int| 0 <= i < j < creds.len() ==> (#[trigger] creds[i]).0@ != (#[trigger] creds[j]).0@
}

/// When each name has one entry, the credentials found for a name are that
/// name's entry.
pub proof fn law_credentials_lookup(creds: Seq<(String, Credentials)>, name: Seq<char>, i: int)
    requires
        names_unique(creds),
        0 <= i < creds.len(),
        creds[i].0@ == name,
    ensures
        cred_index(creds, name) == i,
{
    lemma_cred_index(creds, name, 0);
    let k = cred_index(creds, name);
    if k == -1 {
        assert(creds[i].0@ != name);
    } else if k < i {
        assert(creds[k].0@ != creds[i].0@);
    } else if k > i {
        assert(creds[i].0@ != creds[k].0@);
    }
}

/// The message of the first rule that `s` breaks, if any.
pub open spec fn source_problem(s: Source, creds: Seq<(String, Credentials)>) -> Option<Seq<char>> {
    if s.name@.len() == 0 {
        Some("Source name cannot be empty"@)
    } else if s.credentials@.len() == 0 {
        Some("Source '"@ + s.name@ + "': credentials cannot be empty"@)
    } else if !has_credentials(creds, s.credentials@) {
        Some("Source '"@ + s.name@ + "': credentials '"@ + s.credentials@ + "' not found"@)
    } else if s.platform@.len() == 0 {
        Some("Source '"@ + s.name@ + "': platform cannot be empty"@)
    } else if s.buckets@.len() == 0 {
        Some("Source '"@ + s.name@ + "': at least one bucket is required"@)
    } else if exists|j: int| 0 <= j < s.buckets@.len() && (#[trigger] s.buckets@[j]).name@.len() == 0 {
        Some("Source '"@ + s.name@ + "': bucket name cannot be empty"@)
    } else {
        None
    }
}

/// The message of the first broken rule among the sources from `i` on.
pub open spec fn first_problem(sources: Seq<Source>, creds: Seq<(String, Credentials)>, i: int) -> Option<Seq<char>>
    decreases sources.len() - i,
{
    if i < 0 || i >= sources.len() {
        None
    } else if source_problem(sources[i], creds) is Some {
        source_problem(sources[i], creds)
    } else {
        first_problem(sources, creds, i + 1)
    }
}

/// The message that validation reports for `c`, or `None` when `c` is valid.
pub open spec fn config_problem(c: Config) -> Option<Seq<char>> {
    if c.sources@.len() == 0 {
        Some("At least one source is required"@)
    } else {
        first_problem(c.sources@, c.credentials@, 0)
    }
}

/// `b` is `a` with the bucket paths normalized and nothing else changed.
pub open spec fn normalized_from(a: Config, b: Config) -> bool {
    &&& b.credentials == a.credentials
    &&& b.sources@.len() == a.sources@.len()
    &&& forall|i: int| 0 <= i < a.sources@.len() ==> {
        let (s, t) = (#[trigger] a.sources@[i], b.sources@[i]);
        &&& t.name == s.name
        &&& t.source_type == s.source_type
        &&& t.credentials == s.credentials
        &&& t.platform == s.platform
        &&& t.extract == s.extract
        &&& t.buckets@.len() == s.buckets@.len()
        &&& forall|j: int| 0 <= j < s.buckets@.len() ==> {
            &&& (#[trigger] t.buckets@[j]).name == s.buckets@[j].name
            &&& t.buckets@[j].path@ == normalized_path(s.buckets@[j].path@)
        }
    }
}

/// Normalizing the bucket paths does not change what validation says: a
/// configuration that passed validation still passes it once normalized.
pub proof fn law_normalized_keeps_validity(a: Config, b: Config)
    requires
        normalized_from(a, b),
    ensures
        config_problem(b) == config_problem(a),
{
    let n = a.sources@.len() as int;
    assert forall|i: int| 0 <= i < n implies
        source_problem(#[trigger] b.sources@[i], b.credentials@) == source_problem(a.sources@[i], a.credentials@) by {
        let (s, t) = (a.sources@[i], b.sources@[i]);
        assert((exists|j: int| 0 <= j < t.buckets@.len() && (#[trigger] t.buckets@[j]).name@.len() == 0)
            == (exists|j: int| 0 <= j < s.buckets@.len() && (#[trigger] s.buckets@[j]).name@.len() == 0)) by {
            if exists|j: int| 0 <= j < s.buckets@.len() && (#[trigger] s.buckets@[j]).name@.len() == 0 {
                let j = choose|j: int| 0 <= j < s.buckets@.len() && (#[trigger] s.buckets@[j]).name@.len() == 0;
                assert(t.buckets@[j].name == s.buckets@[j].name);
            }
            if exists|j: int| 0 <= j < t.buckets@.len() && (#[trigger] t.buckets@[j]).name@.len() == 0 {
                let j = choose|j: int| 0 <= j < t.buckets@.len() && (#[trigger] t.buckets@[j]).name@.len() == 0;
                assert(t.buckets@[j].name == s.buckets@[j].name);
            }
        }
    }
    lemma_first_problem_same(a.sources@, b.sources@, a.credentials@, 0);
}

proof fn lemma_first_problem_same(x: Seq<Source>, y: Seq<Source>, creds: Seq<(String, Credentials)>, i: int)
    requires
        x.len() == y.len(),
        0 <= i <= x.len(),
        forall|k: int| 0 <= k < x.len() ==> source_problem(#[trigger] y[k], creds) == source_problem(x[k], creds),
    ensures
        first_problem(y, creds, i) == first_problem(x, creds, i),
    decreases x.len() - i,
{
    if i < x.len() {
        assert(source_problem(y[i], creds) == source_problem(x[i], creds));
        lemma_first_problem_same(x, y, creds, i + 1);
    }
}

fn source_message(name: &String, tail: &str) -> (res: String)
    ensures
        res@ == "Source '"@ + name@ + tail@,
{
    let head = concat("Source '", name.as_str());
    concat(head.as_str(), tail)
}

impl Bucket {
    /// A copy of this bucket.
    pub fn copy(&self) -> (res: Bucket)
        ensures
            res == *self,
    {
        Bucket { name: self.name.clone(), path: self.path.clone() }
    }
}

impl Source {
    /// A copy of this source.
    pub fn copy(&self) -> (res: Source)
        ensures
            res.name == self.name,
            res.source_type == self.source_type,
            res.credentials == self.credentials,
            res.platform == self.platform,
            res.buckets@ == self.buckets@,
            res.extract == self.extract,
    {
        let mut buckets: Vec<Bucket> = Vec::new();
        let mut i: usize = 0;
        while i < self.buckets.len()
            invariant
                i <= self.buckets.len(),
                buckets@ =~= self.buckets@.take(i as int),
            decreases self.buckets.len() - i,
        {
            buckets.push(self.buckets[i].copy());
            i = i + 1;
        }
        assert(buckets@ =~= self.buckets@);
        Source {
            name: self.name.clone(),
            source_type: self.source_type,
            credentials: self.credentials.clone(),
            platform: self.platform.clone(),
            buckets,
            extract: self.extract,
        }
    }

    /// The credentials that this source names, looked up in `config`.
    pub fn resolve_credentials<'a>(&self, config: &'a Config) -> (res: Option<&'a Credentials>)
        ensures
            cred_index(config.credentials@, self.credentials@) == -1 ==> res is None,
            cred_index(config.credentials@, self.credentials@) >= 0 ==> res == Some(
                &config.credentials@[cred_index(config.credentials@, self.credentials@)].1),
    {
        let mut i: usize = 0;
        proof { lemma_cred_index(config.credentials@, self.credentials@, 0); }
        while i < config.credentials.len()
            invariant
                i <= config.credentials.len(),
                cred_index(config.credentials@, self.credentials@) == cred_index_from(config.credentials@, self.credentials@, i as int),
            decreases config.credentials.len() - i,
        {
            if str_eq(config.credentials[i].0.as_str(), self.credentials.as_str()) {
                return Some(&config.credentials[i].1);
            }
            i = i + 1;
        }
        None
    }

    /// The first rule of the configuration format that this source breaks.
    fn problem(&self, config: &Config) -> (res: Option<String>)
        ensures
            match res {
                Some(m) => source_problem(*self, config.credentials@) == Some(m@),
                None => source_problem(*self, config.credentials@) is None,
            },
    {
        if self.name.as_str().is_empty() {
            return Some("Source name cannot be empty".to_owned());
        }
        if self.credentials.as_str().is_empty() {
            return Some(source_message(&self.name, "': credentials cannot be empty"));
        }
        proof { lemma_cred_index(config.credentials@, self.credentials@, 0); }
        let found = self.resolve_credentials(config);
        if found.is_some() {
            let ghost k = cred_index(config.credentials@, self.credentials@);
            assert(config.credentials@[k].0@ == self.credentials@);
            assert(has_credentials(config.credentials@, self.credentials@));
        }
        if found.is_none() {
            let head = source_message(&self.name, "': credentials '");
            let head2 = concat(head.as_str(), self.credentials.as_str());
            let msg = concat(head2.as_str(), "' not found");
            assert(msg@ =~= "Source '"@ + self.name@ + "': credentials '"@ + self.credentials@ + "' not found"@);
            return Some(msg);
        }
        if self.platform.as_str().is_empty() {
            return Some(source_message(&self.name, "': platform cannot be empty"));
        }
        if self.buckets.len() == 0 {
            return Some(source_message(&self.name, "': at least one bucket is required"));
        }
        let mut j: usize = 0;
        while j < self.buckets.len()
            invariant
                j <= self.buckets.len(),
                self.name@.len() != 0,
                self.credentials@.len() != 0,
                has_credentials(config.credentials@, self.credentials@),
                self.platform@.len() != 0,
                self.buckets@.len() != 0,
                forall|k: int| 0 <= k < j ==> (#[trigger] self.buckets@[k]).name@.len() != 0,
            decreases self.buckets.len() - j,
        {
            if self.buckets[j].name.as_str().is_empty() {
                assert(self.buckets@[j as int].name@.len() == 0);
                return Some(source_message(&self.name, "': bucket name cannot be empty"));
            }
            j = j + 1;
        }
        None
    }
}

impl Config {
    /// Checks the rules of the configuration format; the error names the first rule broken.
    pub fn validate(&self) -> (res: Result<(), ConfigError>)
        ensures
            match res {
                Ok(()) => config_problem(*self) is None,
                Err(ConfigError::ValidationError(m)) => config_problem(*self) == Some(m@),
                Err(_) => false,
            },
    {
        if self.sources.len() == 0 {
            return Err(ConfigError::ValidationError("At least one source is required".to_owned()));
        }
        let mut i: usize = 0;
        while i < self.sources.len()
            invariant
                i <= self.sources.len(),
                config_problem(*self) == first_problem(self.sources@, self.credentials@, i as int),
            decreases self.sources.len() - i,
        {
            match self.sources[i].problem(self) {
                Some(m) => return Err(ConfigError::ValidationError(m)),
                None => {},
            }
            i = i + 1;
        }
        Ok(())
    }

    /// The position of the first source named `name`, if any.
    pub fn find_source(&self, name: &str) -> (res: Option<usize>)
        ensures
            match res {
                Some(i) => i < self.sources@.len() && self.sources@[i as int].name@ == name@
                    && forall|j: int| 0 <= j < i ==> #[trigger] self.sources@[j].name@ != name@,
                None => forall|j: int| 0 <= j < self.sources@.len() ==> #[trigger] self.sources@[j].name@ != name@,
            },
    {
        let mut i: usize = 0;
        while i < self.sources.len()
            invariant
                i <= self.sources.len(),
                forall|j: int| 0 <= j < i ==> #[trigger] self.sources@[j].name@ != name@,
            decreases self.sources.len() - i,
        {
            if str_eq(self.sources[i].name.as_str(), name) {
                return Some(i);
            }
            i = i + 1;
        }
        None
    }

    /// The same configuration with every bucket path normalized.
    pub fn normalized(self) -> (res: Config)
        ensures
            normalized_from(self, res),
    {
        let mut config = self;
        let mut i: usize = 0;
        while i < config.sources.len()
            invariant
                i <= config.sources.len(),
                config.credentials == self.credentials,
                config.sources@.len() == self.sources@.len(),
                forall|k: int| i <= k < config.sources@.len() ==> #[trigger] config.sources@[k] == self.sources@[k],
                forall|k: int| 0 <= k < i ==> {
                    let (s, t) = (#[trigger] self.sources@[k], config.sources@[k]);
                    &&& t.name == s.name
                    &&& t.source_type == s.source_type
                    &&& t.credentials == s.credentials
                    &&& t.platform == s.platform
                    &&& t.extract == s.extract
                    &&& t.buckets@.len() == s.buckets@.len()
                    &&& forall|j: int| 0 <= j < s.buckets@.len() ==> {
                        &&& (#[trigger] t.buckets@[j]).name == s.buckets@[j].name
                        &&& t.buckets@[j].path@ == normalized_path(s.buckets@[j].path@)
                    }
                },
            decreases config.sources.len() - i,
        {
            let ghost before = config.sources@;
            let mut j: usize = 0;
            while j < config.sources[i].buckets.len()
                invariant
                    i < config.sources.len(),
                    before.len() == config.sources@.len(),
                    j <= config.sources@[i as int].buckets.len(),
                    config.credentials == self.credentials,
                    config.sources@.len() == self.sources@.len(),
                    forall|k: int| 0 <= k < config.sources@.len() && k != i ==> #[trigger] config.sources@[k] == before[k],
                    ({
                        let (s, t) = (self.sources@[i as int], config.sources@[i as int]);
                        &&& t.name == s.name
                        &&& t.source_type == s.source_type
                        &&& t.credentials == s.credentials
                        &&& t.platform == s.platform
                        &&& t.extract == s.extract
                        &&& t.buckets@.len() == s.buckets@.len()
                        &&& forall|m: int| 0 <= m < s.buckets@.len() ==> (#[trigger] t.buckets@[m]).name == s.buckets@[m].name
                        &&& forall|m: int| 0 <= m < j ==> (#[trigger] t.buckets@[m]).path@ == normalized_path(s.buckets@[m].path@)
                        &&& forall|m: int| j <= m < s.buckets@.len() ==> (#[trigger] t.buckets@[m]).path == s.buckets@[m].path
                    }),
                decreases config.sources@[i as int].buckets.len() - j,
            {
                let p = normalize_path(config.sources[i].buckets[j].path.as_str());
                config.sources[i].buckets[j].path = p;
                j = j + 1;
            }
            i = i + 1;
        }
        config
    }

    /// Finishes loading a parsed configuration: validates it, then normalizes its bucket paths.
    pub fn checked(self) -> (res: Result<Config, ConfigError>)
        ensures
            match res {
                Ok(c) => config_problem(self) is None && normalized_from(self, c),
                Err(ConfigError::ValidationError(m)) => config_problem(self) == Some(m@),
                Err(_) => false,
            },
    {
        match self.validate() {
            Ok(()) => Ok(self.normalized()),
            Err(e) => Err(e),
        }
    }
}

impl ConfigError {
    /// The text that the error is shown with.
    pub fn message(&self) -> (res: String)
        ensures
            match self {
                ConfigError::NotFound(p) => res@ == "Config file not found: "@ + p@,
                ConfigError::ParseError(m) => res@ == "Failed to parse config: "@ + m@,
                ConfigError::ValidationError(m) => res@ == "Config validation error: "@ + m@,
            },
    {
        match self {
            ConfigError::NotFound(p) => concat("Config file not found: ", p.as_str()),
            ConfigError::ParseError(m) => concat("Failed to parse config: ", m.as_str()),
            ConfigError::ValidationError(m) => concat("Config validation error: ", m.as_str()),
        }
    }
}

} // verus!
