//! Typed, validated configuration.
//!
//! Source precedence (highest first): environment overrides, then the
//! config file, then built-in defaults. Reading the file and the
//! environment is the host's business; this module holds the defaults,
//! applies an override value and validates the result.

use vstd::prelude::*;
use vstd::string::*;

use crate::text::{ascii_lower, chars_of, lower_char, trim, trim_bounds, trim_str};

verus! {

/// Environment variable overriding `logging.level`.
pub const ENV_LOG_LEVEL: &'static str = "REFX_LOG";

#[derive(Debug, Clone, PartialEq, Eq)]
pub struct RefxConfig {
    pub general: GeneralConfig,
    pub logging: LoggingConfig,
}

#[derive(Debug, Clone, PartialEq, Eq)]
pub struct GeneralConfig {
    /// Human-readable name for this instance.
    pub instance_name: String,
    /// Root directory for data (workspaces, database, logs). Relative paths
    /// are resolved against the config file's directory when it is loaded.
    pub data_dir: String,
}

#[derive(Debug, Clone, PartialEq, Eq)]
pub struct LoggingConfig {
    /// Either a level (`info`) or a full filter directive (`info,refx_core=debug`).
    pub level: String,
    /// Colored terminal output.
    pub ansi: bool,
}

impl Default for GeneralConfig {
    fn default() -> (c: GeneralConfig)
        ensures
            c.instance_name@ == "REFX"@,
            c.data_dir@ == "data"@,
    {
        GeneralConfig { instance_name: "REFX".to_owned(), data_dir: "data".to_owned() }
    }
}

impl Default for LoggingConfig {
    fn default() -> (c: LoggingConfig)
        ensures
            c.level@ == "info"@,
            c.ansi,
    {
        LoggingConfig { level: "info".to_owned(), ansi: true }
    }
}

impl Default for RefxConfig {
    fn default() -> (c: RefxConfig)
        ensures
            c.general.instance_name@ == "REFX"@,
            c.general.data_dir@ == "data"@,
            c.logging.level@ == "info"@,
            c.logging.ansi,
    {
        RefxConfig { general: GeneralConfig::default(), logging: LoggingConfig::default() }
    }
}

/// Configuration errors. Reading and parsing the file happen in the host,
/// which reports its failures through the first two variants.
#[derive(Debug, Clone, PartialEq, Eq)]
pub enum ConfigError {
    Io { path: String, message: String },
    Parse { path: String, message: String },
    Invalid { key: &'static str, message: String },
}

/// Where the configuration came from; logged at startup for observability.
#[derive(Debug, Clone, PartialEq, Eq)]
pub enum ConfigSource {
    Defaults,
    File(String),
}

/// The level after an override value was looked up: a present, non-blank
/// value replaces the level, anything else keeps it.
pub open spec fn level_after_override(level: Seq<char>, value: Option<Seq<char>>) -> Seq<char> {
    match value {
        Some(v) => if trim(v).len() > 0 { v } else { level },
        None => level,
    }
}

/// The pieces of `s` between occurrences of `sep`, as `str::split` yields them.
pub open spec fn split_on(s: Seq<char>, sep: char) -> Seq<Seq<char>>
    decreases s.len(),
{
    if s.len() == 0 {
        seq![Seq::<char>::empty()]
    } else {
        let rest = split_on(s.drop_first(), sep);
        if s[0] == sep {
            seq![Seq::<char>::empty()] + rest
        } else {
            rest.update(0, seq![s[0]] + rest[0])
        }
    }
}

/// The level named by a directive: the text after its last `=`, or all of it.
pub open spec fn level_of(directive: Seq<char>) -> Seq<char>
    decreases directive.len(),
{
    if directive.len() == 0 {
        directive
    } else if directive.last() == '=' {
        Seq::empty()
    } else {
        level_of(directive.drop_last()).push(directive.last())
    }
}

/// The accepted level names.
pub open spec fn level_names() -> Seq<Seq<char>> {
    seq![
        seq!['t', 'r', 'a', 'c', 'e'],
        seq!['d', 'e', 'b', 'u', 'g'],
        seq!['i', 'n', 'f', 'o'],
        seq!['w', 'a', 'r', 'n'],
        seq!['e', 'r', 'r', 'o', 'r'],
    ]
}

/// A level is valid when, with ASCII letters in lower case, it is one of the level names.
pub open spec fn is_level(level: Seq<char>) -> bool {
    level_names().contains(level.map_values(|c: char| ascii_lower(c)))
}

/// The level of the first directive that names no valid level, if any.
pub open spec fn first_bad_level(directives: Seq<Seq<char>>) -> Option<Seq<char>>
    decreases directives.len(),
{
    if directives.len() == 0 {
        None
    } else if !is_level(level_of(trim(directives[0]))) {
        Some(level_of(trim(directives[0])))
    } else {
        first_bad_level(directives.drop_first())
    }
}

/// Why a log filter is refused, if it is: it is blank, or one of its
/// comma-separated directives names no valid level.
pub open spec fn log_filter_problem(filter: Seq<char>) -> Option<Seq<char>> {
    if trim(filter).len() == 0 {
        Some("must not be empty"@)
    } else {
        match first_bad_level(split_on(filter, ',')) {
            Some(level) => Some("`"@ + level + "` is not one of trace, debug, info, warn, error"@),
            None => None,
        }
    }
}

/// Why a configuration is refused, as a key and a message, if it is.
pub open spec fn config_problem(instance_name: Seq<char>, level: Seq<char>) -> Option<(Seq<char>, Seq<char>)> {
    if trim(instance_name).len() == 0 {
        Some(("general.instance_name"@, "must not be empty"@))
    } else {
        match log_filter_problem(level) {
            Some(m) => Some(("logging.level"@, m)),
            None => None,
        }
    }
}

proof fn lemma_first_bad_level_none(directives: Seq<Seq<char>>)
    ensures
        first_bad_level(directives) is None <==> forall|i: int|
            0 <= i < directives.len() ==> is_level(level_of(trim(#[trigger] directives[i]))),
    decreases directives.len(),
{
    if directives.len() > 0 {
        let rest = directives.drop_first();
        lemma_first_bad_level_none(rest);
        if first_bad_level(directives) is None {
            assert forall|i: int| 0 <= i < directives.len() implies is_level(level_of(trim(#[trigger] directives[i]))) by {
                if i > 0 {
                    assert(directives[i] == rest[i - 1]);
                }
            }
        } else if is_level(level_of(trim(directives[0]))) {
            let j = choose|j: int| 0 <= j < rest.len() && !is_level(level_of(trim(#[trigger] rest[j])));
            assert(rest[j] == directives[j + 1]);
        }
    }
}

/// A log filter is accepted exactly when it is not blank and every one of
/// its comma-separated directives, trimmed, names a valid level after its
/// last `=` (or, without `=`, is one).
pub proof fn law_log_filter_accepted_iff_every_directive_names_a_level(filter: Seq<char>)
    ensures
        log_filter_problem(filter) is None <==> {
            &&& trim(filter).len() > 0
            &&& forall|i: int| 0 <= i < split_on(filter, ',').len()
                ==> is_level(level_of(trim(#[trigger] split_on(filter, ',')[i])))
        },
{
    lemma_first_bad_level_none(split_on(filter, ','));
}

impl RefxConfig {
    /// Apply environment overrides. The lookup is injected, so that the host
    /// reads the environment and tests can supply values.
    pub fn apply_env(&mut self, lookup: impl Fn(&str) -> Option<String>)
        requires
            call_requires(lookup, (ENV_LOG_LEVEL,)),
        ensures
            exists|v: Option<String>| #[trigger] call_ensures(lookup, (ENV_LOG_LEVEL,), v) && {
                &&& final(self).general == old(self).general
                &&& final(self).logging.ansi == old(self).logging.ansi
                &&& final(self).logging.level@ == level_after_override(old(self).logging.level@, crate::task::opt_text(v))
            },
    {
        let value = lookup(ENV_LOG_LEVEL);
        self.apply_log_level(value);
    }

    /// Apply a looked-up value of the log level override.
    pub fn apply_log_level(&mut self, value: Option<String>)
        ensures
            final(self).general == old(self).general,
            final(self).logging.ansi == old(self).logging.ansi,
            final(self).logging.level@ == level_after_override(old(self).logging.level@, crate::task::opt_text(value)),
    {
        if let Some(level) = value {
            if !trim_str(level.as_str()).is_empty() {
                self.logging.level = level;
            }
        }
    }

    /// Check the configuration: a non-blank instance name and a valid log filter.
    pub fn validate(&self) -> (r: Result<(), ConfigError>)
        ensures
            r is Ok <==> config_problem(self.general.instance_name@, self.logging.level@) is None,
            r matches Err(e) ==> e matches ConfigError::Invalid { key, message }
                && config_problem(self.general.instance_name@, self.logging.level@) == Some((key@, message@)),
    {
        if trim_str(self.general.instance_name.as_str()).is_empty() {
            return Err(ConfigError::Invalid {
                key: "general.instance_name",
                message: "must not be empty".to_owned(),
            });
        }
        validate_log_filter(self.logging.level.as_str())
    }
}

proof fn lemma_split_at_sep(s: Seq<char>, sep: char, m: int)
    requires
        0 <= m < s.len(),
        s[m] == sep,
        forall|j: int| 0 <= j < m ==> s[j] != sep,
    ensures
        split_on(s, sep) == seq![s.take(m)] + split_on(s.skip(m + 1), sep),
    decreases m,
{
    if m == 0 {
        assert(s.take(0) =~= Seq::<char>::empty());
        assert(s.skip(1) =~= s.drop_first());
    } else {
        let t = s.drop_first();
        assert forall|j: int| 0 <= j < m - 1 implies t[j] != sep by {
            assert(t[j] == s[j + 1]);
        }
        lemma_split_at_sep(t, sep, m - 1);
        assert(t.skip(m) =~= s.skip(m + 1));
        assert(seq![s[0]] + t.take(m - 1) =~= s.take(m));
        assert(split_on(s, sep) =~= seq![s.take(m)] + split_on(s.skip(m + 1), sep));
    }
}

proof fn lemma_split_without_sep(s: Seq<char>, sep: char)
    requires
        forall|j: int| 0 <= j < s.len() ==> s[j] != sep,
    ensures
        split_on(s, sep) == seq![s],
    decreases s.len(),
{
    if s.len() > 0 {
        let t = s.drop_first();
        assert forall|j: int| 0 <= j < t.len() implies t[j] != sep by {
            assert(t[j] == s[j + 1]);
        }
        lemma_split_without_sep(t, sep);
        assert(seq![s[0]] + t =~= s);
        assert(split_on(s, sep) =~= seq![s]);
    } else {
        assert(s =~= Seq::<char>::empty());
    }
}

/// Where, in `v[a..b]`, the level named by that directive begins.
fn level_start(v: &Vec<char>, a: usize, b: usize) -> (l: usize)
    requires
        a <= b <= v@.len(),
    ensures
        a <= l <= b,
        v@.subrange(l as int, b as int) == level_of(v@.subrange(a as int, b as int)),
{
    let mut j: usize = b;
    assert(level_of(v@.subrange(a as int, b as int)) + v@.subrange(b as int, b as int)
        =~= level_of(v@.subrange(a as int, b as int)));
    while j > a && v[j - 1] != '='
        invariant
            a <= j <= b <= v@.len(),
            level_of(v@.subrange(a as int, b as int)) == level_of(v@.subrange(a as int, j as int))
                + v@.subrange(j as int, b as int),
        decreases j - a,
    {
        proof {
            let u = v@.subrange(a as int, j as int);
            assert(u.drop_last() =~= v@.subrange(a as int, j - 1));
            assert(u.last() == v@[j - 1]);
            assert(level_of(u.drop_last()).push(v@[j - 1]) + v@.subrange(j as int, b as int)
                =~= level_of(u.drop_last()) + v@.subrange(j - 1, b as int));
        }
        j = j - 1;
    }
    proof {
        let u = v@.subrange(a as int, j as int);
        if j > a {
            assert(u.last() == v@[j - 1]);
        }
        assert(level_of(u) =~= Seq::<char>::empty());
        assert(Seq::<char>::empty() + v@.subrange(j as int, b as int) =~= v@.subrange(j as int, b as int));
    }
    j
}

/// Whether `v[l..b]`, with ASCII letters in lower case, is `w`.
fn lowered_equals(v: &Vec<char>, l: usize, b: usize, w: &[char]) -> (r: bool)
    requires
        l <= b <= v@.len(),
    ensures
        r == (v@.subrange(l as int, b as int).map_values(|c: char| ascii_lower(c)) == w@),
{
    let ghost x = v@.subrange(l as int, b as int).map_values(|c: char| ascii_lower(c));
    if b - l != w.len() {
        assert(x.len() != w@.len());
        return false;
    }
    let mut i: usize = 0;
    while i < w.len()
        invariant
            l <= b <= v@.len(),
            b - l == w@.len(),
            0 <= i <= w@.len(),
            x == v@.subrange(l as int, b as int).map_values(|c: char| ascii_lower(c)),
            forall|j: int| 0 <= j < i ==> x[j] == w@[j],
        decreases w@.len() - i,
    {
        let c = lower_char(v[l + i]);
        assert(x[i as int] == ascii_lower(v@[l + i]));
        if c != w[i] {
            return false;
        }
        i = i + 1;
    }
    assert(x =~= w@);
    true
}

/// Whether `v[l..b]` names a valid level.
fn level_is_valid(v: &Vec<char>, l: usize, b: usize) -> (r: bool)
    requires
        l <= b <= v@.len(),
    ensures
        r == is_level(v@.subrange(l as int, b as int)),
{
    let ghost x = v@.subrange(l as int, b as int).map_values(|c: char| ascii_lower(c));
    let names: [&[char]; 5] = [
        &['t', 'r', 'a', 'c', 'e'],
        &['d', 'e', 'b', 'u', 'g'],
        &['i', 'n', 'f', 'o'],
        &['w', 'a', 'r', 'n'],
        &['e', 'r', 'r', 'o', 'r'],
    ];
    let r = lowered_equals(v, l, b, names[0]) || lowered_equals(v, l, b, names[1])
        || lowered_equals(v, l, b, names[2]) || lowered_equals(v, l, b, names[3])
        || lowered_equals(v, l, b, names[4]);
    proof {
        let ns = level_names();
        assert(names[0]@ == ns[0]);
        assert(names[1]@ == ns[1]);
        assert(names[2]@ == ns[2]);
        assert(names[3]@ == ns[3]);
        assert(names[4]@ == ns[4]);
        if ns.contains(x) {
            let k = choose|k: int| 0 <= k < ns.len() && ns[k] == x;
            assert(r);
        }
        if r {
            assert(ns.contains(x));
        }
    }
    r
}

/// Accept a level or comma-separated `target=level` directives.
pub fn validate_log_filter(filter: &str) -> (r: Result<(), ConfigError>)
    ensures
        r is Ok <==> log_filter_problem(filter@) is None,
        r matches Err(e) ==> e matches ConfigError::Invalid { key, message }
            && key@ == "logging.level"@ && log_filter_problem(filter@) == Some(message@),
{
    let v = chars_of(filter);
    let n = v.len();
    let (a0, b0) = trim_bounds(&v, 0, n);
    assert(v@.subrange(0, n as int) =~= v@);
    if a0 == b0 {
        proof { reveal_strlit("must not be empty"); }
        return Err(ConfigError::Invalid { key: "logging.level", message: "must not be empty".to_owned() });
    }
    let ghost all = split_on(v@, ',');
    let mut start: usize = 0;
    assert(v@.subrange(0, n as int) =~= v@);
    loop
        invariant
            n == v@.len(),
            v@ == filter@,
            trim(v@).len() > 0,
            start <= n,
            first_bad_level(all) == first_bad_level(split_on(v@.subrange(start as int, n as int), ',')),
            all == split_on(v@, ','),
        decreases n - start,
    {
        let mut k: usize = start;
        while k < n && v[k] != ','
            invariant
                start <= k <= n,
                n == v@.len(),
                forall|j: int| start <= j < k ==> v@[j] != ',',
            decreases n - k,
        {
            k = k + 1;
        }
        let ghost s = v@.subrange(start as int, n as int);
        let ghost seg = v@.subrange(start as int, k as int);
        proof {
            if k < n {
                lemma_split_at_sep(s, ',', k - start);
                assert(s.take(k - start) =~= seg);
                assert(s.skip(k - start + 1) =~= v@.subrange(k + 1, n as int));
            } else {
                assert(seg =~= s);
                lemma_split_without_sep(s, ',');
            }
        }
        let (a, b) = trim_bounds(&v, start, k);
        let l = level_start(&v, a, b);
        if !level_is_valid(&v, l, b) {
            let level = filter.substring_char(l, b);
            let mut message = String::from_str("`");
            message.append(level);
            message.append("` is not one of trace, debug, info, warn, error");
            proof {
                reveal_strlit("`");
                reveal_strlit("` is not one of trace, debug, info, warn, error");
            }
            return Err(ConfigError::Invalid { key: "logging.level", message });
        }
        proof {
            let ss = split_on(s, ',');
            assert(ss[0] == seg);
            assert(is_level(level_of(trim(seg))));
            assert(ss.drop_first() =~= split_on(s, ',').drop_first());
            if k < n {
                assert(ss.drop_first() =~= split_on(v@.subrange(k + 1, n as int), ','));
            } else {
                assert(ss.drop_first() =~= Seq::<Seq<char>>::empty());
            }
            assert(first_bad_level(ss) == first_bad_level(ss.drop_first()));
        }
        if k == n {
            return Ok(());
        }
        start = k + 1;
    }
}

/// What a load settles on: the file's configuration, with its data
/// directory replaced by `resolved` where that is given, or the defaults when
/// there is no file; then the level override `env_level`; refused exactly as
/// `validate` refuses.
pub open spec fn settles(
    file: Option<RefxConfig>,
    resolved: Option<Seq<char>>,
    env_level: Option<Seq<char>>,
    r: Result<RefxConfig, ConfigError>,
) -> bool {
    let (name, dir, level, ansi) = match file {
        Some(f) => (f.general.instance_name@, f.general.data_dir@, f.logging.level@, f.logging.ansi),
        None => ("REFX"@, "data"@, "info"@, true),
    };
    let dir2 = match resolved {
        Some(d) => d,
        None => dir,
    };
    let level2 = level_after_override(level, env_level);
    match config_problem(name, level2) {
        None => r matches Ok(c) && c.general.instance_name@ == name && c.general.data_dir@ == dir2
            && c.logging.level@ == level2 && c.logging.ansi == ansi,
        Some((key, message)) => r matches Err(ConfigError::Invalid { key: k, message: m }) && k@ == key
            && m@ == message,
    }
}

/// A path with neither a prefix nor a root on any platform: it holds no
/// drive or device colon and does not start with a backslash (so no Windows
/// prefix), and it does not start with a slash.
pub open spec fn plainly_relative(p: Seq<char>) -> bool {
    &&& no_prefix(p)
    &&& (p.len() == 0 || p[0] != '/')
}

/// A path with no Windows prefix (`C:`, `\\server\share`, `\\?\`): it holds
/// no colon and does not start with a backslash.
pub open spec fn no_prefix(p: Seq<char>) -> bool {
    &&& !p.contains(':')
    &&& (p.len() == 0 || p[0] != '\\')
}

/// `j` is `path` joined onto `dir`: `dir`, then a separator unless `dir` is
/// empty or already ends in one, then `path`. Which separator is the
/// platform's (`/` or `\`).
pub open spec fn joined(dir: Seq<char>, path: Seq<char>, j: Seq<char>) -> bool {
    ||| j == dir + path && (dir.len() == 0 || dir.last() == '/' || dir.last() == '\\')
    ||| j == dir.push('/') + path
    ||| j == dir.push('\\') + path
}

/// Where a file's data directory is plainly relative and the config
/// directory has no prefix, the data directory is resolved to their join.
pub open spec fn resolves_relative_data_dir(
    file: Option<RefxConfig>,
    config_dir: Option<String>,
    resolved: Option<Seq<char>>,
) -> bool {
    match (file, config_dir) {
        (Some(f), Some(d)) => plainly_relative(f.general.data_dir@) && no_prefix(d@) ==> (resolved matches Some(j)
            && joined(d@, f.general.data_dir@, j)),
        _ => true,
    }
}

/// A file's plainly relative data directory is resolved against the config
/// directory: the settled directory is their join, so it starts with the
/// config directory and ends with the file's value, and it is longer than
/// the file's value whenever the config directory is not empty.
pub proof fn law_relative_data_dir_is_resolved_against_config_dir(
    f: RefxConfig,
    d: String,
    env_level: Option<Seq<char>>,
    resolved: Option<Seq<char>>,
    r: Result<RefxConfig, ConfigError>,
)
    requires
        resolves_relative_data_dir(Some(f), Some(d), resolved),
        settles(Some(f), resolved, env_level, r),
        plainly_relative(f.general.data_dir@),
        no_prefix(d@),
        r is Ok,
    ensures
        joined(d@, f.general.data_dir@, r->Ok_0.general.data_dir@),
        r->Ok_0.general.data_dir@.take(d@.len() as int) == d@,
        r->Ok_0.general.data_dir@.skip(r->Ok_0.general.data_dir@.len() - f.general.data_dir@.len())
            == f.general.data_dir@,
        d@.len() > 0 ==> r->Ok_0.general.data_dir@.len() > f.general.data_dir@.len(),
{
    let j = r->Ok_0.general.data_dir@;
    let p = f.general.data_dir@;
    let dd = d@;
    if j == dd + p {
        assert(j.take(dd.len() as int) =~= dd);
        assert(j.skip(j.len() - p.len()) =~= p);
    } else if j == dd.push('/') + p {
        assert(j.take(dd.len() as int) =~= dd);
        assert(j.skip(j.len() - p.len()) =~= p);
    } else {
        assert(j.take(dd.len() as int) =~= dd);
        assert(j.skip(j.len() - p.len()) =~= p);
    }
}

/// Calls `std::path::Path::is_relative` on `path`. Which paths count as
/// relative depends on the platform; on every one, a path without a root
/// (a leading separator) and without a prefix (a drive, device or server
/// part, each of which holds a colon or starts with a backslash) is not
/// absolute, and that is all that is promised.
#[verifier::external_body]
fn path_is_relative(path: &str) -> (r: bool)
    ensures
        plainly_relative(path@) ==> r,
{
    std::path::Path::new(path).is_relative()
}

/// Calls `std::path::Path::join`: `path` joined onto `dir`, as text. For a
/// `dir` without a prefix and a `path` with neither prefix nor root, the
/// join appends `path` to `dir` after a separator where one is needed
/// (`PathBuf::push`); the separator is the platform's. Nothing is promised
/// of other paths.
#[verifier::external_body]
fn path_join(dir: &str, path: &str) -> (r: String)
    ensures
        no_prefix(dir@) && plainly_relative(path@) ==> joined(dir@, path@, r@),
{
    std::path::Path::new(dir).join(path).display().to_string()
}

/// Settle a configuration whose data directory, if it needs resolving, was
/// already resolved to `resolved`: see [`settles`].
pub fn settle_config_with(
    file: Option<RefxConfig>,
    resolved: Option<String>,
    env_level: Option<String>,
) -> (r: Result<RefxConfig, ConfigError>)
    ensures
        settles(file, crate::task::opt_text(resolved), crate::task::opt_text(env_level), r),
{
    let mut cfg = match file {
        Some(f) => f,
        None => RefxConfig::default(),
    };
    if let Some(d) = resolved {
        cfg.general.data_dir = d;
    }
    cfg.apply_log_level(env_level);
    match cfg.validate() {
        Ok(()) => Ok(cfg),
        Err(e) => Err(e),
    }
}

/// Settle the configuration of a load: the file's (`None` when there is no
/// file), a relative data directory resolved against `config_dir`, the file's
/// directory; or else the defaults. Then the environment's level override
/// `env_level` is applied and the result validated.
pub fn settle_config(
    file: Option<RefxConfig>,
    config_dir: Option<String>,
    env_level: Option<String>,
) -> (r: Result<RefxConfig, ConfigError>)
    ensures
        exists|resolved: Option<Seq<char>>|
            (resolved is Some ==> file is Some && config_dir is Some)
            && resolves_relative_data_dir(file, config_dir, resolved)
            && #[trigger] settles(file, resolved, crate::task::opt_text(env_level), r),
{
    let resolved: Option<String> = match &file {
        Some(f) => match &config_dir {
            Some(dir) => if path_is_relative(f.general.data_dir.as_str()) {
                Some(path_join(dir.as_str(), f.general.data_dir.as_str()))
            } else {
                None
            },
            None => None,
        },
        None => None,
    };
    let ghost rv = crate::task::opt_text(resolved);
    let r = settle_config_with(file, resolved, env_level);
    assert(settles(file, rv, crate::task::opt_text(env_level), r));
    r
}

} // verus!
