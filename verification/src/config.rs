//! Configuration model and the precedence rules that turn a parsed config
//! file, command-line overrides and the platform directories into the final
//! configuration.
//!
//! Paths are Unix paths, held as their bytes exactly as the operating system
//! gives them and joined with `/`; paths written in the config file are text,
//! expanded (`~`, `$VAR`) when the file is read.

use vstd::prelude::*;
use vstd::utf8::encode_utf8;

mod platform;

pub use platform::{ConfigDir, DataDir};
use platform::{platform_config_dir, platform_data_dir};



verus! {

/// Final merged configuration after precedence resolution.
#[derive(Debug)]
pub struct Config {
    pub db_dir: Vec<u8>,
    /// The log level the config file asks for, if any.
    pub log_level: Option<LogLevel>,
    pub accounts: Vec<Account>,
}

/// Values given on the command line or in the environment that take
/// precedence over the config file.
#[derive(Debug)]
pub struct Overrides {
    pub db_dir: Option<Vec<u8>>,
}

impl Default for Overrides {
    fn default() -> (r: Self)
        ensures
            r.db_dir is None,
    {
        Overrides { db_dir: None }
    }
}

/// The contents of the TOML config file.
#[derive(Debug)]
pub struct ConfigFile {
    pub db_dir: Option<String>,
    pub log_level: Option<LogLevel>,
    pub accounts: Vec<Account>,
}

/// One JMAP account in the config.
#[derive(Debug)]
pub struct Account {
    pub name: String,
    pub enabled: bool,
    pub jmap_host: String,
    pub jmap_user: String,
    pub token: TokenSource,
    pub timeout_secs: u64,
    pub mail: Option<MailConfig>,
}

/// Where the JMAP token comes from: exactly one of the three.
#[derive(Debug)]
pub enum TokenSource {
    Inline { jmap_token: String },
    File { jmap_token_file: String },
    Cmd { jmap_token_cmd: String },
}

/// Per-account Maildir and JMAP mail settings.
#[derive(Debug)]
pub struct MailConfig {
    pub path: String,
    pub sync_mode: SyncMode,
    pub subscribed_only: bool,
    pub box_filter: Option<Vec<String>>,
    pub tls: Option<TlsConfig>,
    pub box_mapping: Vec<BoxMapping>,
}

/// TLS settings of an account.
#[derive(Debug)]
pub struct TlsConfig {
    pub ca_file: Option<String>,
    pub client_cert: Option<String>,
    pub client_key: Option<String>,
    pub fingerprint: Option<String>,
}

/// A mailbox whose local name differs from its remote one.
#[derive(Debug)]
pub struct BoxMapping {
    pub remote: String,
    pub local: String,
}

/// Direction of synchronisation.
#[derive(Debug, Clone, Copy, PartialEq, Eq, Structural)]
pub enum SyncMode {
    /// Pull-only.
    Mirror,
    /// Bidirectional.
    TwoWay,
}

impl Default for SyncMode {
    fn default() -> (r: Self)
        ensures
            r == SyncMode::Mirror,
    {
        SyncMode::Mirror
    }
}

/// Logging verbosity.
#[derive(Debug, Clone, Copy, PartialEq, Eq, Structural)]
pub enum LogLevel {
    Trace,
    Debug,
    Info,
    Warn,
    Error,
}

impl Default for LogLevel {
    fn default() -> (r: Self)
        ensures
            r == LogLevel::Info,
    {
        LogLevel::Info
    }
}

/// Why the configuration could not be resolved.
#[derive(Debug, Clone, Copy, PartialEq, Eq, Structural)]
pub enum ConfigError {
    /// No config path was given and the platform has no config directory.
    NoConfigDir,
    /// No database directory was given and the platform has no data directory.
    NoDataDir,
}

/// Why an account's token source is not valid.
#[derive(Debug, Clone, Copy, PartialEq, Eq, Structural)]
pub enum TokenError {
    /// None of `jmap_token`, `jmap_token_file`, `jmap_token_cmd` is set.
    Missing,
    /// More than one of them is set.
    Multiple,
}


/// A `$VAR` in a path names a variable that is not set (and has no default).
#[derive(Debug, Clone, PartialEq)]
pub struct PathExpandError {
    /// The variable that could not be looked up.
    pub var_name: String,
    /// Why the lookup failed, as the environment lookup describes it (the
    /// variable is not set, or its value is not valid Unicode).
    pub cause: String,
}

/// `s` starts with `~`.
pub open spec fn starts_with_tilde(s: Seq<char>) -> bool {
    s.len() > 0 && s[0] == '~'
}

/// Every `$` of `s` is doubled: `s` holds `$$` escapes and no variable reference.
pub open spec fn only_escaped_dollars(s: Seq<char>) -> bool
    decreases s.len(),
{
    if s.len() == 0 {
        true
    } else if s[0] == '$' {
        if s.len() >= 2 && s[1] == '$' {
            only_escaped_dollars(s.skip(2))
        } else {
            false
        }
    } else {
        only_escaped_dollars(s.skip(1))
    }
}

/// `s` with each `$$` escape turned into one `$`, read from the left.
pub open spec fn unescape_dollars(s: Seq<char>) -> Seq<char>
    decreases s.len(),
{
    if s.len() == 0 {
        s
    } else if s[0] == '$' && s.len() >= 2 {
        seq!['$'] + unescape_dollars(s.skip(2))
    } else {
        seq![s[0]] + unescape_dollars(s.skip(1))
    }
}

/// `name` is written in `raw` right after a `$` (as in `$NAME`) or a `${`
/// (as in `${NAME}`).
pub open spec fn names_variable_in(raw: Seq<char>, name: Seq<char>) -> bool {
    exists|i: int, j: int|
        0 <= i < raw.len() && raw[i] == '$' && ((i + 1 <= j <= raw.len() && name == #[trigger] raw.subrange(i + 1, j))
            || (i + 2 <= j <= raw.len() && raw[i + 1] == '{' && name == #[trigger] raw.subrange(i + 2, j)))
}

/// `s` starts with `~` followed by something other than a path separator
/// (`/`, or `\` as Windows also has it), as in `~name/...`.
pub open spec fn starts_with_user_tilde(s: Seq<char>) -> bool {
    s.len() > 1 && s[0] == '~' && s[1] != '/' && s[1] != '\\'
}

/// `s` ends with `t`.
pub open spec fn ends_with(s: Seq<char>, t: Seq<char>) -> bool {
    t.len() <= s.len() && s.skip(s.len() - t.len()) == t
}

/// An ASCII letter, digit or `_`: a character of a variable's name.
pub open spec fn is_ascii_name_char(c: char) -> bool {
    ('a' <= c <= 'z') || ('A' <= c <= 'Z') || ('0' <= c <= '9') || c == '_'
}

/// `raw` is `$NAME`, with `NAME` the `n` ASCII name characters after the `$`,
/// followed by nothing or by `/` and text without `$`, as in `$HOME/Mail`.
pub open spec fn leading_variable(raw: Seq<char>, n: int) -> bool {
    &&& 1 <= n && n + 1 <= raw.len()
    &&& raw[0] == '$'
    &&& forall|i: int| 1 <= i <= n ==> is_ascii_name_char(#[trigger] raw[i])
    &&& (n + 1 == raw.len() || raw[n + 1] == '/')
    &&& !raw.skip(n + 1).contains('$')
}

/// `shellexpand::full`: expands a leading `~` to the home directory and
/// `$VAR`, `${VAR}`, `${VAR:-default}` from the environment. What the
/// variables and the home directory hold is not stated. Stated, on every
/// platform: text without `$` cannot fail; text whose only `$`s are `$$`
/// escapes, and that does not start with `~`, comes back with each `$$` turned
/// into `$`; text without `$` that starts with `~` comes back ending with what
/// follows the `~`; `~name` (a `~` followed by neither `/` nor `\`) without `$`
/// comes back unchanged; `$NAME` followed by nothing or by `/` and text
/// without `$` comes back as the variable's value followed by that text, or
/// fails naming `NAME`; a failed lookup names a variable written right after
/// a `$` or `${` in the text.
#[verifier::external_body]
fn shell_expand(raw: &str) -> (r: Result<String, PathExpandError>)
    ensures
        !raw@.contains('$') ==> r is Ok,
        only_escaped_dollars(raw@) && !starts_with_tilde(raw@) ==> (r is Ok && r->Ok_0@
            == unescape_dollars(raw@)),
        !raw@.contains('$') && starts_with_tilde(raw@) ==> (r is Ok && ends_with(
            r->Ok_0@,
            raw@.skip(1),
        )),
        !raw@.contains('$') && starts_with_user_tilde(raw@) ==> (r is Ok && r->Ok_0@ == raw@),
        forall|n: int| #[trigger]
            leading_variable(raw@, n) ==> (r is Ok ==> ends_with(r->Ok_0@, raw@.skip(n + 1))) && (
            r is Err ==> r->Err_0.var_name@ == raw@.subrange(1, n + 1)),
        r is Err ==> names_variable_in(raw@, r->Err_0.var_name@),
{
    match shellexpand::full(raw) {
        Ok(expanded) => Ok(expanded.into_owned()),
        Err(e) => Err(PathExpandError { var_name: e.var_name, cause: e.cause.to_string() }),
    }
}

/// Text without `$` has only escaped dollars (none) and unescaping leaves it alone.
proof fn lemma_no_dollar_plain(s: Seq<char>)
    requires
        !s.contains('$'),
    ensures
        only_escaped_dollars(s),
        unescape_dollars(s) == s,
    decreases s.len(),
{
    if s.len() > 0 {
        assert(s[0] != '$');
        let t = s.skip(1);
        assert forall|i: int| 0 <= i < t.len() implies t[i] != '$' by {
            assert(t[i] == s[i + 1]);
        }
        lemma_no_dollar_plain(t);
        assert(s =~= seq![s[0]] + t);
    }
}

/// Expands `~`, `$VAR` and `${VAR:-default}` in a configured path; `$$`
/// stands for `$`.
pub fn expand_path(raw: &str) -> (r: Result<String, PathExpandError>)
    ensures
        !raw@.contains('$') ==> r is Ok,
        !raw@.contains('$') && !starts_with_tilde(raw@) ==> (r matches Ok(s) && s@ == raw@),
        only_escaped_dollars(raw@) && !starts_with_tilde(raw@) ==> (r matches Ok(s) && s@
            == unescape_dollars(raw@)),
        !raw@.contains('$') && starts_with_tilde(raw@) ==> (r matches Ok(s) && ends_with(
            s@,
            raw@.skip(1),
        )),
        !raw@.contains('$') && starts_with_user_tilde(raw@) ==> (r matches Ok(s) && s@ == raw@),
        forall|n: int| #[trigger]
            leading_variable(raw@, n) ==> (r matches Ok(s) ==> ends_with(s@, raw@.skip(n + 1))) && (
            r matches Err(e) ==> e.var_name@ == raw@.subrange(1, n + 1)),
        r matches Err(e) ==> names_variable_in(raw@, e.var_name@),
{
    proof {
        if !raw@.contains('$') {
            lemma_no_dollar_plain(raw@);
        }
    }
    shell_expand(raw)
}

/// Expands an optional configured path as [`expand_path`] does; an absent path
/// stays absent.
pub fn expand_opt_path(raw: Option<&str>) -> (r: Result<Option<String>, PathExpandError>)
    ensures
        match raw {
            None => r == Ok::<Option<String>, PathExpandError>(None),
            Some(p) => {
                &&& r matches Ok(o) ==> o is Some
                &&& !p@.contains('$') ==> r is Ok
                &&& !p@.contains('$') && !starts_with_tilde(p@) ==> (r matches Ok(Some(s)) && s@
                    == p@)
                &&& only_escaped_dollars(p@) && !starts_with_tilde(p@) ==> (r matches Ok(Some(s))
                    && s@ == unescape_dollars(p@))
                &&& !p@.contains('$') && starts_with_tilde(p@) ==> (r matches Ok(Some(s))
                    && ends_with(s@, p@.skip(1)))
                &&& !p@.contains('$') && starts_with_user_tilde(p@) ==> (r matches Ok(Some(s))
                    && s@ == p@)
                &&& forall|n: int| #[trigger]
                    leading_variable(p@, n) ==> (r matches Ok(Some(s)) ==> ends_with(
                        s@,
                        p@.skip(n + 1),
                    )) && (r matches Err(e) ==> e.var_name@ == p@.subrange(1, n + 1))
                &&& r matches Err(e) ==> names_variable_in(p@, e.var_name@)
            },
        },
{
    match raw {
        None => Ok(None),
        Some(p) => match expand_path(p) {
            Ok(s) => Ok(Some(s)),
            Err(e) => Err(e),
        },
    }
}

/// Default for flags that are on unless the config says otherwise.
pub fn default_true() -> (r: bool)
    ensures
        r,
{
    true
}

/// Default JMAP request timeout, in seconds.
pub fn default_timeout_secs() -> (r: u64)
    ensures
        r == 30,
{
    30
}

/// The path separator `/`.
pub open spec fn separator() -> u8 {
    47
}

/// `name` appended to the path `base` as one more component.
pub open spec fn joined(base: Seq<u8>, name: Seq<u8>) -> Seq<u8> {
    if base.len() == 0 || base.last() == separator() {
        base + name
    } else {
        base + seq![separator()] + name
    }
}

/// The application's directory name under the platform directories.
pub open spec fn app_dir_name() -> Seq<u8> {
    encode_utf8(seq!['j', 'm', 'a', 'p', 's', 'y', 'n', 'c', 'd'])
}

/// The config file's name.
pub open spec fn config_file_name() -> Seq<u8> {
    encode_utf8(seq!['c', 'o', 'n', 'f', 'i', 'g', '.', 't', 'o', 'm', 'l'])
}

/// The bytes of the application's directory name.
fn app_dir_bytes() -> (r: Vec<u8>)
    ensures
        r@ == app_dir_name(),
{
    proof {
        reveal_strlit("jmapsyncd");
        assert("jmapsyncd"@ =~= seq!['j', 'm', 'a', 'p', 's', 'y', 'n', 'c', 'd']);
    }
    vstd::slice::slice_to_vec("jmapsyncd".as_bytes())
}

/// The bytes of the config file's name.
fn config_file_bytes() -> (r: Vec<u8>)
    ensures
        r@ == config_file_name(),
{
    proof {
        reveal_strlit("config.toml");
        assert("config.toml"@ =~= seq!['c', 'o', 'n', 'f', 'i', 'g', '.', 't', 'o', 'm', 'l']);
    }
    vstd::slice::slice_to_vec("config.toml".as_bytes())
}

/// Appends `bytes` to `out`.
fn push_bytes(out: &mut Vec<u8>, bytes: &[u8])
    ensures
        final(out)@ == old(out)@ + bytes@,
{
    let mut i: usize = 0;
    while i < bytes.len()
        invariant
            i <= bytes@.len(),
            out@ == old(out)@ + bytes@.take(i as int),
        decreases bytes@.len() - i,
    {
        out.push(bytes[i]);
        assert(bytes@.take(i + 1) =~= bytes@.take(i as int).push(bytes@[i as int]));
        i = i + 1;
    }
    assert(bytes@.take(bytes@.len() as int) =~= bytes@);
}

/// Appends `name` to the path `base` as one more component.
pub fn path_join(base: &[u8], name: &[u8]) -> (r: Vec<u8>)
    ensures
        r@ == joined(base@, name@),
{
    let mut out: Vec<u8> = Vec::new();
    push_bytes(&mut out, base);
    let n = out.len();
    if n > 0 && out[n - 1] != 47u8 {
        out.push(47u8);
    }
    push_bytes(&mut out, name);
    assert(out@ =~= joined(base@, name@));
    out
}

/// The config file that is read: the one given, or `jmapsyncd/config.toml`
/// under the platform config directory.
pub fn config_path(path: Option<&[u8]>, config_dir: Option<&[u8]>) -> (r: Result<Vec<u8>, ConfigError>)
    ensures
        match path {
            Some(p) => r matches Ok(s) && s@ == p@,
            None => match config_dir {
                Some(d) => r matches Ok(s) && s@ == joined(
                    joined(d@, app_dir_name()),
                    config_file_name(),
                ),
                None => r == Err::<Vec<u8>, ConfigError>(ConfigError::NoConfigDir),
            },
        },
{
    match path {
        Some(p) => Ok(vstd::slice::slice_to_vec(p)),
        None => match config_dir {
            Some(d) => {
                let app = app_dir_bytes();
                let dir = path_join(d, app.as_slice());
                let file = config_file_bytes();
                Ok(path_join(dir.as_slice(), file.as_slice()))
            },
            None => Err(ConfigError::NoConfigDir),
        },
    }
}

/// The config file to read: the given path, or `jmapsyncd/config.toml` under
/// the platform config directory.
pub fn config_file_path(path: Option<&[u8]>) -> (r: Result<Vec<u8>, ConfigError>)
    ensures
        match path {
            Some(p) => r matches Ok(s) && s@ == p@,
            None => r == Err::<Vec<u8>, ConfigError>(ConfigError::NoConfigDir) || exists|
                d: ConfigDir,
            |
                (r matches Ok(s) && s@ == joined(
                    #[trigger] joined(d.path(), app_dir_name()),
                    config_file_name(),
                )),
        },
{
    match path {
        Some(_) => config_path(path, None),
        None => {
            let dir = platform_config_dir();
            match &dir {
                Some(d) => {
                    let r = config_path(None, Some(d.config_dir_bytes()));
                    assert(r matches Ok(s) && s@ == joined(
                        joined(d.path(), app_dir_name()),
                        config_file_name(),
                    ));
                    r
                },
                None => config_path(None, None),
            }
        },
    }
}

/// The token source an account's three token keys select: exactly one of
/// `jmap_token`, `jmap_token_file` and `jmap_token_cmd` must be set.
pub fn resolve_token(
    jmap_token: Option<String>,
    jmap_token_file: Option<String>,
    jmap_token_cmd: Option<String>,
) -> (r: Result<TokenSource, TokenError>)
    ensures
        match (jmap_token, jmap_token_file, jmap_token_cmd) {
            (Some(t), None, None) => r matches Ok(TokenSource::Inline { jmap_token: v }) && v == t,
            (None, Some(p), None) => r matches Ok(TokenSource::File { jmap_token_file: v }) && v
                == p,
            (None, None, Some(c)) => r matches Ok(TokenSource::Cmd { jmap_token_cmd: v }) && v
                == c,
            (None, None, None) => r == Err::<TokenSource, TokenError>(TokenError::Missing),
            _ => r == Err::<TokenSource, TokenError>(TokenError::Multiple),
        },
{
    match (jmap_token, jmap_token_file, jmap_token_cmd) {
        (Some(t), None, None) => Ok(TokenSource::Inline { jmap_token: t }),
        (None, Some(p), None) => Ok(TokenSource::File { jmap_token_file: p }),
        (None, None, Some(c)) => Ok(TokenSource::Cmd { jmap_token_cmd: c }),
        (None, None, None) => Err(TokenError::Missing),
        _ => Err(TokenError::Multiple),
    }
}

/// The log level to run at, highest precedence first: the command line (or
/// its environment variable), then the config file; `None` when neither sets
/// one and `RUST_LOG` is set, whose filter then applies; else the default
/// level.
pub fn effective_log_level(
    cli: Option<LogLevel>,
    config: Option<LogLevel>,
    rust_log_set: bool,
) -> (r: Option<LogLevel>)
    ensures
        r == match (cli, config) {
            (Some(l), _) => Some(l),
            (None, Some(l)) => Some(l),
            (None, None) => if rust_log_set {
                None
            } else {
                Some(LogLevel::Info)
            },
        },
{
    match (cli, config) {
        (Some(l), _) => Some(l),
        (None, Some(l)) => Some(l),
        (None, None) => if rust_log_set {
            None
        } else {
            Some(LogLevel::default())
        },
    }
}

/// The bytes of a path written as text.
fn text_bytes(text: &String) -> (r: Vec<u8>)
    ensures
        r@ == encode_utf8(text@),
{
    vstd::slice::slice_to_vec(text.as_str().as_bytes())
}

impl Config {
    /// Builds the final configuration from the parsed config file and the
    /// overrides: the database directory comes from the overrides, else the
    /// file, else `jmapsyncd` under the platform data directory, which is only
    /// looked up when needed; the log level and the accounts come from the file.
    pub fn load(file_config: ConfigFile, overrides: &Overrides) -> (r: Result<Config, ConfigError>)
        ensures
            r matches Ok(c) ==> c.log_level == file_config.log_level,
            match (overrides.db_dir, file_config.db_dir) {
                (Some(d), _) => r matches Ok(c) && c.db_dir@ == d@ && c.accounts@
                    == file_config.accounts@,
                (None, Some(d)) => r matches Ok(c) && c.db_dir@ == encode_utf8(d@)
                    && c.accounts@ == file_config.accounts@,
                (None, None) => r == Err::<Config, ConfigError>(ConfigError::NoDataDir) || exists|
                    d: DataDir,
                | (r matches Ok(c) && c.db_dir@ == #[trigger] joined(d.path(), app_dir_name()) && c.accounts@
                    == file_config.accounts@),
            },
    {
        if overrides.db_dir.is_some() || file_config.db_dir.is_some() {
            Config::resolve(file_config, overrides, None)
        } else {
            let ghost accounts = file_config.accounts@;
            let ghost level = file_config.log_level;
            let data_dir = platform_data_dir();
            match &data_dir {
                Some(d) => {
                    let r = Config::resolve(file_config, overrides, Some(d.data_dir_bytes()));
                    assert(r matches Ok(c) && c.db_dir@ == joined(d.path(), app_dir_name())
                        && c.accounts@ == accounts && c.log_level == level);
                    r
                },
                None => Config::resolve(file_config, overrides, None),
            }
        }
    }

    /// Merges the parsed config file with the overrides: the database
    /// directory comes from the overrides, else the file, else `jmapsyncd`
    /// under the platform data directory; the log level and the accounts come
    /// from the file.
    pub fn resolve(file_config: ConfigFile, overrides: &Overrides, data_dir: Option<&[u8]>) -> (r:
        Result<Config, ConfigError>)
        ensures
            r matches Ok(c) ==> c.log_level == file_config.log_level,
            match (overrides.db_dir, file_config.db_dir) {
                (Some(d), _) => r matches Ok(c) && c.db_dir@ == d@ && c.accounts@
                    == file_config.accounts@,
                (None, Some(d)) => r matches Ok(c) && c.db_dir@ == encode_utf8(d@)
                    && c.accounts@ == file_config.accounts@,
                (None, None) => match data_dir {
                    Some(d) => r matches Ok(c) && c.db_dir@ == joined(d@, app_dir_name())
                        && c.accounts@ == file_config.accounts@,
                    None => r matches Err(e) && e == ConfigError::NoDataDir,
                },
            },
    {
        let db_dir = match &overrides.db_dir {
            Some(d) => d.clone(),
            None => match &file_config.db_dir {
                Some(d) => text_bytes(d),
                None => match data_dir {
                    Some(d) => {
                        let app = app_dir_bytes();
                        path_join(d, app.as_slice())
                    },
                    None => {
                        return Err(ConfigError::NoDataDir);
                    },
                },
            },
        };
        Ok(Config { db_dir, log_level: file_config.log_level, accounts: file_config.accounts })
    }
}

} // verus!
