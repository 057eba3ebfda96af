use rom_downloader::config::{Bucket, Config, ConfigError, Credentials, Source, SourceType};
use rom_downloader::text::normalize_path;

fn creds(name: &str) -> (String, Credentials) {
    (name.to_string(), Credentials { access_key: "ak".to_string(), secret_key: "sk".to_string() })
}

fn bucket(name: &str, path: &str) -> Bucket {
    Bucket { name: name.to_string(), path: path.to_string() }
}

fn source(name: &str, credentials: &str, platform: &str, buckets: Vec<Bucket>) -> Source {
    Source {
        name: name.to_string(),
        source_type: SourceType::S3Archive,
        credentials: credentials.to_string(),
        platform: platform.to_string(),
        buckets,
        extract: false,
    }
}

fn config(sources: Vec<Source>) -> Config {
    Config { sources, credentials: vec![creds("my_archive")] }
}

fn validation_message(c: &Config) -> Option<String> {
    match c.validate() {
        Ok(()) => None,
        Err(ConfigError::ValidationError(m)) => Some(m),
        Err(other) => panic!("unexpected error {other:?}"),
    }
}

fn reference_normalize(path: &str) -> String {
    path.trim_matches('/').split('/').filter(|s| !s.is_empty()).collect::<Vec<_>>().join("/")
}

#[test]
fn valid_config_passes() {
    let c = config(vec![source("PlayStation CHD", "my_archive", "PS", vec![bucket("psx-chd-collection", "CHD-PSX")])]);
    assert_eq!(validation_message(&c), None);
}

#[test]
fn each_rule_has_its_message() {
    assert_eq!(validation_message(&config(vec![])).as_deref(), Some("At least one source is required"));
    let b = || vec![bucket("item", "")];
    assert_eq!(
        validation_message(&config(vec![source("", "my_archive", "PS", b())])).as_deref(),
        Some("Source name cannot be empty")
    );
    assert_eq!(
        validation_message(&config(vec![source("S", "", "PS", b())])).as_deref(),
        Some("Source 'S': credentials cannot be empty")
    );
    assert_eq!(
        validation_message(&config(vec![source("S", "missing", "PS", b())])).as_deref(),
        Some("Source 'S': credentials 'missing' not found")
    );
    assert_eq!(
        validation_message(&config(vec![source("S", "my_archive", "", b())])).as_deref(),
        Some("Source 'S': platform cannot be empty")
    );
    assert_eq!(
        validation_message(&config(vec![source("S", "my_archive", "PS", vec![])])).as_deref(),
        Some("Source 'S': at least one bucket is required")
    );
    assert_eq!(
        validation_message(&config(vec![source("S", "my_archive", "PS", vec![bucket("ok", ""), bucket("", "x")])])).as_deref(),
        Some("Source 'S': bucket name cannot be empty")
    );
}

#[test]
fn first_broken_source_is_reported() {
    let c = config(vec![
        source("Good", "my_archive", "PS", vec![bucket("a", "")]),
        source("Bad", "my_archive", "", vec![bucket("b", "")]),
        source("", "my_archive", "PS", vec![bucket("c", "")]),
    ]);
    assert_eq!(validation_message(&c).as_deref(), Some("Source 'Bad': platform cannot be empty"));
}

#[test]
fn checked_normalizes_bucket_paths() {
    let c = config(vec![source(
        "S",
        "my_archive",
        "PS",
        vec![bucket("a", "/CHD-PSX-EUR/"), bucket("b", "a//b///c"), bucket("c", "")],
    )]);
    let c = c.checked().unwrap();
    let paths: Vec<&str> = c.sources[0].buckets.iter().map(|b| b.path.as_str()).collect();
    assert_eq!(paths, vec!["CHD-PSX-EUR", "a/b/c", ""]);
    assert_eq!(c.sources[0].name, "S");
    assert_eq!(c.sources[0].buckets[1].name, "b");
}

#[test]
fn checked_rejects_invalid_config() {
    match config(vec![]).checked() {
        Err(ConfigError::ValidationError(m)) => assert_eq!(m, "At least one source is required"),
        _ => panic!("expected a validation error"),
    }
}

#[test]
fn normalize_path_matches_reference() {
    let cases = ["", "/", "//", "a", "/a", "a/", "/a/b/", "a//b", "///a///b///", "CHD-PSX", "x/ /y", "é//ü/"];
    for p in cases {
        assert_eq!(normalize_path(p), reference_normalize(p), "{p:?}");
    }
}

#[test]
fn normalize_path_is_idempotent() {
    for p in ["/a//b/", "", "//", "a/b/c"] {
        let once = normalize_path(p);
        assert_eq!(normalize_path(&once), once);
    }
}

#[test]
fn resolve_credentials_finds_named_entry() {
    let c = Config {
        sources: vec![],
        credentials: vec![creds("first"), ("second".to_string(), Credentials { access_key: "A2".to_string(), secret_key: "S2".to_string() })],
    };
    let s = source("S", "second", "PS", vec![]);
    let found = s.resolve_credentials(&c).unwrap();
    assert_eq!(found.access_key, "A2");
    assert_eq!(found.secret_key, "S2");
    let missing = source("S", "third", "PS", vec![]);
    assert!(missing.resolve_credentials(&c).is_none());
}

#[test]
fn config_error_messages() {
    assert_eq!(ConfigError::NotFound("sources.yaml".to_string()).message(), "Config file not found: sources.yaml");
    assert_eq!(ConfigError::ParseError("bad".to_string()).message(), "Failed to parse config: bad");
    assert_eq!(ConfigError::ValidationError("x".to_string()).message(), "Config validation error: x");
}
