use jmapsyncd::args::{Command, Overrides as ArgOverrides};
use jmapsyncd::config::{
    config_file_path, config_path, default_timeout_secs, default_true, effective_log_level,
    expand_opt_path, expand_path, path_join, resolve_token, Account, Config, ConfigError,
    ConfigFile, LogLevel, Overrides, SyncMode, TokenError, TokenSource,
};

fn account(name: &str) -> Account {
    Account {
        name: name.to_string(),
        enabled: default_true(),
        jmap_host: "x.com".to_string(),
        jmap_user: "u@x.com".to_string(),
        token: TokenSource::Inline { jmap_token: "t".to_string() },
        timeout_secs: default_timeout_secs(),
        mail: None,
    }
}

fn file(db_dir: Option<&str>) -> ConfigFile {
    ConfigFile {
        db_dir: db_dir.map(|d| d.to_string()),
        log_level: None,
        accounts: vec![account("test")],
    }
}

#[test]
fn defaults() {
    assert!(default_true());
    assert_eq!(default_timeout_secs(), 30);
    assert_eq!(SyncMode::default(), SyncMode::Mirror);
    assert_eq!(LogLevel::default(), LogLevel::Info);
    assert_eq!(Command::default(), Command::Daemon);
    assert!(Overrides::default().db_dir.is_none());
}

#[test]
fn resolve_uses_file_db_dir() {
    let overrides = Overrides { db_dir: None };
    let config = Config::resolve(file(Some("/from/file")), &overrides, Some(&b"/data"[..])).unwrap();
    assert_eq!(config.db_dir, b"/from/file".to_vec());
    assert_eq!(config.accounts.len(), 1);
    assert_eq!(config.accounts[0].name, "test");
    assert_eq!(config.accounts[0].jmap_host, "x.com");
}

#[test]
fn resolve_override_takes_precedence_over_file_db_dir() {
    let overrides = Overrides { db_dir: Some(b"/override".to_vec()) };
    let config =
        Config::resolve(file(Some("/from/file")), &overrides, Some(&b"/data"[..])).unwrap();
    assert_eq!(config.db_dir, b"/override".to_vec());
}

#[test]
fn resolve_falls_back_to_platform_data_dir() {
    let overrides = Overrides { db_dir: None };
    let config = Config::resolve(file(None), &overrides, Some(&b"/home/u/.local/share"[..])).unwrap();
    assert_eq!(config.db_dir, b"/home/u/.local/share/jmapsyncd".to_vec());
}

#[test]
fn resolve_without_any_db_dir_errors() {
    let overrides = Overrides { db_dir: None };
    let result = Config::resolve(file(None), &overrides, None);
    assert_eq!(result.unwrap_err(), ConfigError::NoDataDir);
}

#[test]
fn resolve_override_needs_no_platform_dir() {
    let overrides = Overrides { db_dir: Some(b"/o".to_vec()) };
    assert_eq!(Config::resolve(file(None), &overrides, None).unwrap().db_dir, b"/o".to_vec());
}

#[test]
fn config_path_explicit() {
    assert_eq!(config_path(Some(b"/etc/x.toml"), None).unwrap(), b"/etc/x.toml".to_vec());
    assert_eq!(
        config_path(Some(b"/etc/x.toml"), Some(b"/cfg")).unwrap(),
        b"/etc/x.toml".to_vec()
    );
}

#[test]
fn config_path_under_platform_dir() {
    assert_eq!(
        config_path(None, Some(b"/home/u/.config")).unwrap(),
        b"/home/u/.config/jmapsyncd/config.toml".to_vec()
    );
}

#[test]
fn config_path_missing_errors() {
    assert_eq!(config_path(None, None).unwrap_err(), ConfigError::NoConfigDir);
}

#[test]
fn path_join_separators() {
    assert_eq!(path_join(b"/a", b"b"), b"/a/b".to_vec());
    assert_eq!(path_join(b"/a/", b"b"), b"/a/b".to_vec());
    assert_eq!(path_join(b"", b"b"), b"b".to_vec());
    assert_eq!(path_join(b"/", b"b"), b"/b".to_vec());
}

#[test]
fn arg_overrides_convert() {
    let o: Overrides = ArgOverrides { db_dir: Some(b"/x".to_vec()) }.into();
    assert_eq!(o.db_dir.as_deref(), Some(&b"/x"[..]));
    let o: Overrides = ArgOverrides { db_dir: None }.into();
    assert!(o.db_dir.is_none());
}

#[test]
fn path_expansion_identity() {
    assert_eq!(expand_path("/already/absolute").unwrap(), "/already/absolute");
    assert_eq!(expand_path("relative/dir").unwrap(), "relative/dir");
}

#[test]
fn path_expansion_home() {
    let home = expand_path("$HOME").unwrap();
    assert_eq!(expand_path("~/test").unwrap(), format!("{home}/test"));
}

#[test]
fn path_expansion_default_value() {
    assert_eq!(
        expand_path("${JMAPSYNCD_SURELY_UNSET_VARIABLE:-/fallback}/x").unwrap(),
        "/fallback/x"
    );
}

#[test]
fn path_expansion_unset_variable_errors() {
    let err = expand_path("$JMAPSYNCD_SURELY_UNSET_VARIABLE/x").unwrap_err();
    assert_eq!(err.var_name, "JMAPSYNCD_SURELY_UNSET_VARIABLE");
}

#[test]
fn optional_path_expansion() {
    assert_eq!(expand_opt_path(None).unwrap(), None);
    assert_eq!(expand_opt_path(Some("/etc/ssl")).unwrap(), Some("/etc/ssl".to_string()));
    assert!(expand_opt_path(Some("$JMAPSYNCD_SURELY_UNSET_VARIABLE")).is_err());
}

#[test]
fn config_file_path_explicit() {
    assert_eq!(config_file_path(Some(b"/x/config.toml")).unwrap(), b"/x/config.toml".to_vec());
}

#[test]
fn config_file_path_default_ends_in_app_dir() {
    match config_file_path(None) {
        Ok(p) => assert!(p.ends_with(b"/jmapsyncd/config.toml")),
        Err(e) => assert_eq!(e, ConfigError::NoConfigDir),
    }
}

#[test]
fn load_uses_file_db_dir() {
    let overrides = Overrides { db_dir: None };
    let config = Config::load(file(Some("/from/file")), &overrides).unwrap();
    assert_eq!(config.db_dir, b"/from/file".to_vec());
    assert_eq!(config.accounts.len(), 1);
}

#[test]
fn load_override_takes_precedence_over_file_db_dir() {
    let overrides = Overrides { db_dir: Some(b"/override".to_vec()) };
    let config = Config::load(file(Some("/from/file")), &overrides).unwrap();
    assert_eq!(config.db_dir, b"/override".to_vec());
}

#[test]
fn load_default_db_dir_is_under_app_dir() {
    let overrides = Overrides { db_dir: None };
    match Config::load(file(None), &overrides) {
        Ok(c) => assert!(c.db_dir.ends_with(b"/jmapsyncd")),
        Err(e) => assert_eq!(e, ConfigError::NoDataDir),
    }
}

#[test]
fn path_expansion_escaped_dollar() {
    assert_eq!(expand_path("/a$$b").unwrap(), "/a$b");
    assert_eq!(expand_path("$$$$").unwrap(), "$$");
    assert_eq!(expand_opt_path(Some("cost$$")).unwrap(), Some("cost$".to_string()));
}

#[test]
fn path_expansion_other_user_tilde_untouched() {
    assert_eq!(expand_path("~nobody/x").unwrap(), "~nobody/x");
}

#[test]
fn path_expansion_braced_unset_variable_errors() {
    let err = expand_path("/a/${JMAPSYNCD_SURELY_UNSET_VARIABLE}").unwrap_err();
    assert_eq!(err.var_name, "JMAPSYNCD_SURELY_UNSET_VARIABLE");
}

#[test]
fn paths_keep_non_utf8_bytes() {
    let base: &[u8] = b"/data/\xff\xfe";
    assert_eq!(path_join(base, b"jmapsyncd"), b"/data/\xff\xfe/jmapsyncd".to_vec());
    let overrides = Overrides { db_dir: None };
    let config = Config::resolve(file(None), &overrides, Some(base)).unwrap();
    assert_eq!(config.db_dir, b"/data/\xff\xfe/jmapsyncd".to_vec());
    let over = Overrides { db_dir: Some(vec![b'/', 0xc3, b'x']) };
    assert_eq!(Config::resolve(file(None), &over, None).unwrap().db_dir, vec![b'/', 0xc3, b'x']);
}

fn some(s: &str) -> Option<String> {
    Some(s.to_string())
}

#[test]
fn token_at_least_one_required() {
    assert_eq!(resolve_token(None, None, None).unwrap_err(), TokenError::Missing);
    assert!(resolve_token(some("t"), None, None).is_ok());
}

#[test]
fn token_resolution() {
    match resolve_token(some("t"), None, None).unwrap() {
        TokenSource::Inline { jmap_token } => assert_eq!(jmap_token, "t"),
        _ => panic!("expected Inline"),
    }
    match resolve_token(None, some("/some/path"), None).unwrap() {
        TokenSource::File { jmap_token_file } => assert_eq!(jmap_token_file, "/some/path"),
        _ => panic!("expected File"),
    }
    match resolve_token(None, None, some("get-token")).unwrap() {
        TokenSource::Cmd { jmap_token_cmd } => assert_eq!(jmap_token_cmd, "get-token"),
        _ => panic!("expected Cmd"),
    }
}

#[test]
fn token_more_than_one_rejected() {
    let multiple = TokenError::Multiple;
    assert_eq!(resolve_token(some("t"), some("/p"), None).unwrap_err(), multiple);
    assert_eq!(resolve_token(some("t"), None, some("c")).unwrap_err(), multiple);
    assert_eq!(resolve_token(None, some("/p"), some("c")).unwrap_err(), multiple);
    assert_eq!(resolve_token(some("t"), some("/p"), some("c")).unwrap_err(), multiple);
}

#[test]
fn log_level_precedence() {
    let warn = Some(LogLevel::Warn);
    let debug = Some(LogLevel::Debug);
    assert_eq!(effective_log_level(warn, debug, true), warn);
    assert_eq!(effective_log_level(warn, None, false), warn);
    assert_eq!(effective_log_level(None, debug, true), debug);
    assert_eq!(effective_log_level(None, None, true), None);
    assert_eq!(effective_log_level(None, None, false), Some(LogLevel::Info));
}

#[test]
fn resolve_keeps_file_log_level() {
    let mut f = file(Some("/d"));
    f.log_level = Some(LogLevel::Trace);
    let config = Config::resolve(f, &Overrides { db_dir: None }, None).unwrap();
    assert_eq!(config.log_level, Some(LogLevel::Trace));
    let config = Config::resolve(file(Some("/d")), &Overrides { db_dir: None }, None).unwrap();
    assert_eq!(config.log_level, None);
}

#[test]
fn path_expansion_tilde_keeps_rest() {
    let expanded = expand_path("~/Mail/personal").unwrap();
    assert!(expanded.ends_with("/Mail/personal"));
    assert!(expand_path("~").is_ok());
}

#[test]
fn path_expansion_error_gives_cause() {
    let err = expand_path("$JMAPSYNCD_SURELY_UNSET_VARIABLE").unwrap_err();
    assert_eq!(err.cause, "environment variable not found");
}
