use vstd::prelude::*;

use crate::text::{
    chars_have_prefix_at, chars_of, concat2, has_prefix, owned, push_char, starts_with, str_eq,
};

verus! {

/// Gateway server configuration.
pub struct GatewayConfig {
    pub host: String,
    pub port: u16,
    pub auth_token: Option<String>,
}

/// All channel configurations.
pub struct ChannelsConfig {
    pub feishu: Option<FeishuConfig>,
}

/// Feishu (Lark) bot channel configuration.
pub struct FeishuConfig {
    pub enabled: bool,
    pub app_id: String,
    pub app_secret: String,
    pub encrypt_key: Option<String>,
    pub verification_token: Option<String>,
    /// "feishu" | "lark" | custom base URL.
    pub domain: Option<String>,
    /// "websocket" | "webhook".
    pub connection_mode: Option<String>,
    pub webhook_port: Option<u16>,
    /// Whether group messages require @mention.
    pub require_mention: Option<bool>,
}

/// Logging configuration.
pub struct LoggingConfig {
    pub level: String,
}

/// Default listening host.
pub fn default_host() -> (r: String)
    ensures
        r@ == "127.0.0.1"@,
{
    "127.0.0.1".to_owned()
}

/// Default listening port.
pub fn default_port() -> (r: u16)
    ensures
        r == 18789,
{
    18789
}

/// Default for `enabled`.
pub fn default_true() -> (r: bool)
    ensures
        r,
{
    true
}

/// Default for `require_mention`.
pub fn default_true_opt() -> (r: Option<bool>)
    ensures
        r == Some(true),
{
    Some(true)
}

/// Default Feishu domain.
pub fn default_domain() -> (r: Option<String>)
    ensures
        r matches Some(d) && d@ == "feishu"@,
{
    Some("feishu".to_owned())
}

/// Default Feishu connection mode.
pub fn default_connection_mode() -> (r: Option<String>)
    ensures
        r matches Some(m) && m@ == "websocket"@,
{
    Some("websocket".to_owned())
}

/// Default log level.
pub fn default_log_level() -> (r: String)
    ensures
        r@ == "info"@,
{
    "info".to_owned()
}

impl Default for GatewayConfig {
    fn default() -> (r: Self)
        ensures
            r.host@ == "127.0.0.1"@,
            r.port == 18789,
            r.auth_token is None,
    {
        GatewayConfig { host: default_host(), port: default_port(), auth_token: None }
    }
}

impl Default for ChannelsConfig {
    fn default() -> (r: Self)
        ensures
            r.feishu is None,
    {
        ChannelsConfig { feishu: None }
    }
}

/// The domain setting, `feishu` when unset.
pub open spec fn domain_or_default(domain: Option<String>) -> Seq<char> {
    match domain {
        Some(d) => d@,
        None => "feishu"@,
    }
}

/// The API base URL that a domain setting selects.
pub open spec fn base_url_of(domain: Seq<char>) -> Seq<char> {
    if domain == "feishu"@ {
        "https://open.feishu.cn/open-apis"@
    } else if domain == "lark"@ {
        "https://open.larksuite.com/open-apis"@
    } else if has_prefix(domain, "http"@) {
        domain
    } else {
        "https://"@ + domain + "/open-apis"@
    }
}

/// `s` without any trailing `c` characters (`str::trim_end_matches(c)`).
pub open spec fn trim_end_char_spec(s: Seq<char>, c: char) -> Seq<char>
    decreases s.len(),
{
    if s.len() > 0 && s.last() == c {
        trim_end_char_spec(s.drop_last(), c)
    } else {
        s
    }
}

/// `s` without any leading copies of `p` (`str::trim_start_matches(p)`).
pub open spec fn trim_start_str_spec(s: Seq<char>, p: Seq<char>) -> Seq<char>
    decreases s.len(),
{
    if p.len() > 0 && has_prefix(s, p) {
        trim_start_str_spec(s.skip(p.len() as int), p)
    } else {
        s
    }
}

/// The domain root (without the `/open-apis` prefix) that a domain setting
/// selects, used for the WebSocket endpoint.
pub open spec fn domain_root_of(domain: Seq<char>) -> Seq<char> {
    if domain == "feishu"@ {
        "https://open.feishu.cn"@
    } else if domain == "lark"@ {
        "https://open.larksuite.com"@
    } else if has_prefix(domain, "http"@) {
        trim_end_char_spec(domain, '/')
    } else {
        "https://"@ + domain
    }
}

/// The domain setting of a Feishu configuration, `feishu` when unset.
pub fn domain_setting(domain: &Option<String>) -> (r: String)
    ensures
        r@ == domain_or_default(*domain),
{
    match domain {
        Some(d) => d.clone(),
        None => "feishu".to_owned(),
    }
}

/// `s` without trailing `c` characters.
pub fn trim_end_char(s: &str, c: char) -> (r: String)
    ensures
        r@ == trim_end_char_spec(s@, c),
{
    let cs = chars_of(s);
    let mut k: usize = cs.len();
    proof {
        assert(cs@.take(k as int) =~= cs@);
    }
    while k > 0 && cs[k - 1] == c
        invariant
            cs@ == s@,
            k <= cs@.len(),
            trim_end_char_spec(s@, c) == trim_end_char_spec(cs@.take(k as int), c),
        decreases k,
    {
        assert(cs@.take(k as int).drop_last() =~= cs@.take(k - 1));
        k = k - 1;
    }
    crate::text::string_of_range(cs.as_slice(), 0, k)
}

/// `s` without leading copies of `p`.
pub fn trim_start_str(s: &str, p: &str) -> (r: String)
    ensures
        r@ == trim_start_str_spec(s@, p@),
{
    let cs = chars_of(s);
    let pc = chars_of(p);
    if pc.len() == 0 {
        return owned(s);
    }
    let mut i: usize = 0;
    assert(cs@.skip(0) =~= cs@);
    while i < cs.len() && chars_have_prefix_at(cs.as_slice(), i, pc.as_slice())
        invariant
            cs@ == s@,
            pc@ == p@,
            pc@.len() > 0,
            i <= cs@.len(),
            trim_start_str_spec(s@, p@) == trim_start_str_spec(cs@.skip(i as int), p@),
        decreases cs@.len() - i,
    {
        assert(cs@.skip(i as int).skip(pc@.len() as int) =~= cs@.skip(i + pc@.len()));
        i = i + pc.len();
    }
    proof {
        if i == cs@.len() {
            assert(cs@.skip(i as int) =~= Seq::<char>::empty());
        }
    }
    crate::text::string_of_range(cs.as_slice(), i, cs.len())
}

impl FeishuConfig {
    /// Resolve the API base URL from the domain setting.
    pub fn base_url(&self) -> (r: String)
        ensures
            r@ == base_url_of(domain_or_default(self.domain)),
    {
        let domain = domain_setting(&self.domain);
        if str_eq(domain.as_str(), "feishu") {
            "https://open.feishu.cn/open-apis".to_owned()
        } else if str_eq(domain.as_str(), "lark") {
            "https://open.larksuite.com/open-apis".to_owned()
        } else if starts_with(domain.as_str(), "http") {
            domain
        } else {
            let mut r = concat2("https://", domain.as_str());
            r.append("/open-apis");
            r
        }
    }

    /// The domain root for the WebSocket endpoint negotiation.
    pub fn domain_root(&self) -> (r: String)
        ensures
            r@ == domain_root_of(domain_or_default(self.domain)),
    {
        let domain = domain_setting(&self.domain);
        if str_eq(domain.as_str(), "feishu") {
            "https://open.feishu.cn".to_owned()
        } else if str_eq(domain.as_str(), "lark") {
            "https://open.larksuite.com".to_owned()
        } else if starts_with(domain.as_str(), "http") {
            trim_end_char(domain.as_str(), '/')
        } else {
            concat2("https://", domain.as_str())
        }
    }

    /// The URL that hands out the WebSocket endpoint:
    /// `{domain root}/callback/ws/endpoint`.
    pub fn ws_endpoint_url(&self) -> (r: String)
        ensures
            r@ == domain_root_of(domain_or_default(self.domain)) + "/callback/ws/endpoint"@,
    {
        let mut r = self.domain_root();
        r.append("/callback/ws/endpoint");
        r
    }

    /// Whether group messages need an @mention (`true` when unset).
    pub fn requires_mention(&self) -> (r: bool)
        ensures
            r == match self.require_mention {
                Some(b) => b,
                None => true,
            },
    {
        match self.require_mention {
            Some(b) => b,
            None => true,
        }
    }
}

// ---------------------------------------------------------------------------
// `${VAR}` substitution
// ---------------------------------------------------------------------------

/// Index of the first `}` in `s` at or after `from`.
pub open spec fn first_close(s: Seq<char>, from: int) -> Option<int>
    decreases s.len() - from,
{
    if from < 0 || from >= s.len() {
        None
    } else if s[from] == '}' {
        Some(from)
    } else {
        first_close(s, from + 1)
    }
}

/// When `s` begins with a placeholder `${NAME}` (NAME non-empty and free of
/// `}`), the index of its closing brace: the match of the pattern
/// `\$\{([^}]+)\}` at the start of `s`.
pub open spec fn placeholder_at(s: Seq<char>) -> Option<int> {
    if s.len() >= 2 && s[0] == '$' && s[1] == '{' {
        match first_close(s, 2) {
            Some(k) => if 2 < k < s.len() {
                Some(k)
            } else {
                None
            },
            None => None,
        }
    } else {
        None
    }
}

/// The value of variable `name` in `env`, empty when it is not set.
pub open spec fn env_lookup(env: Seq<(Seq<char>, Seq<char>)>, name: Seq<char>) -> Seq<char>
    decreases env.len(),
{
    if env.len() == 0 {
        Seq::empty()
    } else if env[0].0 == name {
        env[0].1
    } else {
        env_lookup(env.drop_first(), name)
    }
}

/// The model of an environment given as (name, value) pairs.
pub open spec fn env_view(env: Seq<(String, String)>) -> Seq<(Seq<char>, Seq<char>)> {
    env.map_values(|p: (String, String)| (p.0@, p.1@))
}

/// `s` with each placeholder `${NAME}`, found left to right without overlap,
/// replaced by the value of `NAME` in `env` (empty when unset).
pub open spec fn substitute_spec(s: Seq<char>, env: Seq<(Seq<char>, Seq<char>)>) -> Seq<char>
    decreases s.len(),
{
    if s.len() == 0 {
        Seq::empty()
    } else {
        match placeholder_at(s) {
            Some(k) => env_lookup(env, s.subrange(2, k)) + substitute_spec(s.skip(k + 1), env),
            None => seq![s[0]] + substitute_spec(s.drop_first(), env),
        }
    }
}

/// The value of variable `name` in `env`, empty when it is not set.
pub fn env_value(env: &Vec<(String, String)>, name: &str) -> (r: String)
    ensures
        r@ == env_lookup(env_view(env@), name@),
{
    let mut i: usize = 0;
    let ghost ev = env_view(env@);
    assert(ev.skip(0) =~= ev);
    while i < env.len()
        invariant
            ev == env_view(env@),
            i <= env@.len(),
            env_lookup(ev, name@) == env_lookup(ev.skip(i as int), name@),
        decreases env@.len() - i,
    {
        assert(ev.skip(i as int).drop_first() =~= ev.skip(i + 1));
        if str_eq(env[i].0.as_str(), name) {
            return env[i].1.clone();
        }
        i = i + 1;
    }
    String::new()
}

/// The pattern of a placeholder: `$`, `{`, a non-empty name without `}`,
/// then `}`; the name is the first group.
pub open spec fn placeholder_pattern() -> Seq<char> {
    "\\$\\{([^}]+)\\}"@
}

/// Replaces every match of the placeholder pattern in `input` by the value
/// in `env` of the match's first group (`regex::Regex::new` of the pattern,
/// then `Regex::replace_all` with a closure that calls `env_value`). By the
/// regex crate's documented semantics (leftmost-first, non-overlapping
/// matches; `[^}]` is any character but `}`; a closure's text is inserted as
/// it is), the pattern compiles and the result is `substitute_spec`.
#[verifier::external_body]
fn replace_placeholders(pattern: &str, input: &str, env: &Vec<(String, String)>) -> (r: String)
    requires
        pattern@ == placeholder_pattern(),
    ensures
        r@ == substitute_spec(input@, env_view(env@)),
{
    match regex::Regex::new(pattern) {
        Ok(re) => re.replace_all(input, |caps: &regex::Captures| env_value(env, &caps[1])).into_owned(),
        Err(_) => String::new(),
    }
}

/// Replace `${VAR_NAME}` patterns with the values of those variables in
/// `env`; variables that `env` does not hold become empty strings.
pub fn substitute_env_vars(input: &str, env: &Vec<(String, String)>) -> (r: String)
    ensures
        r@ == substitute_spec(input@, env_view(env@)),
{
    replace_placeholders("\\$\\{([^}]+)\\}", input, env)
}

// ---------------------------------------------------------------------------
// Config file location
// ---------------------------------------------------------------------------

/// `PathBuf::join` on Unix: an absolute `rest` replaces `base`; otherwise
/// `rest` is appended, with a `/` between them unless `base` is empty or
/// already ends with one.
pub open spec fn join_path_spec(base: Seq<char>, rest: Seq<char>) -> Seq<char> {
    if rest.len() > 0 && rest[0] == '/' {
        rest
    } else if base.len() == 0 || base.last() == '/' {
        base + rest
    } else {
        base + seq!['/'] + rest
    }
}

/// Joins two path strings as `PathBuf::join` does on Unix.
pub fn join_path(base: &str, rest: &str) -> (r: String)
    ensures
        r@ == join_path_spec(base@, rest@),
{
    let bc = chars_of(base);
    let rc = chars_of(rest);
    if rc.len() > 0 && rc[0] == '/' {
        owned(rest)
    } else if bc.len() == 0 || bc[bc.len() - 1] == '/' {
        concat2(base, rest)
    } else {
        let mut r = owned(base);
        push_char(&mut r, '/');
        r.append(rest);
        r
    }
}

/// Why a config path could not be resolved.
pub enum ConfigPathError {
    /// The path needs the home directory, and it is unknown.
    NoHomeDir,
}

/// Where `~/.opencrab/config.toml` points for a given home directory.
pub open spec fn default_config_path_spec(home: Seq<char>) -> Seq<char> {
    join_path_spec(join_path_spec(home, ".opencrab"@), "config.toml"@)
}

/// Default config file path: `~/.opencrab/config.toml`.
pub fn default_config_path(home: Option<String>) -> (r: Result<String, ConfigPathError>)
    ensures
        match home {
            Some(h) => r matches Ok(p) && p@ == default_config_path_spec(h@),
            None => r matches Err(ConfigPathError::NoHomeDir),
        },
{
    match home {
        Some(h) => {
            let dir = join_path(h.as_str(), ".opencrab");
            Ok(join_path(dir.as_str(), "config.toml"))
        },
        None => Err(ConfigPathError::NoHomeDir),
    }
}

/// The path that a `--config` argument names: a leading `~` stands for the
/// home directory (with any leading `~/` removed from the rest).
pub open spec fn expand_path_spec(path: Seq<char>, home: Seq<char>) -> Seq<char> {
    join_path_spec(home, trim_start_str_spec(path, "~/"@))
}

/// Expand `~` in a config path.
pub fn expand_config_path(path: &str, home: Option<String>) -> (r: Result<String, ConfigPathError>)
    ensures
        !has_prefix(path@, "~"@) ==> (r matches Ok(p) && p@ == path@),
        has_prefix(path@, "~"@) ==> match home {
            Some(h) => (r matches Ok(p) && p@ == expand_path_spec(path@, h@)),
            None => (r matches Err(ConfigPathError::NoHomeDir)),
        },
{
    if starts_with(path, "~") {
        match home {
            Some(h) => {
                let rest = trim_start_str(path, "~/");
                Ok(join_path(h.as_str(), rest.as_str()))
            },
            None => Err(ConfigPathError::NoHomeDir),
        }
    } else {
        Ok(owned(path))
    }
}

/// A text without `$` has no placeholder, so substitution leaves it as it
/// is, whatever the environment.
pub proof fn substitution_identity_law(s: Seq<char>, env: Seq<(Seq<char>, Seq<char>)>)
    requires
        forall|i: int| 0 <= i < s.len() ==> s[i] != '$',
    ensures
        substitute_spec(s, env) == s,
    decreases s.len(),
{
    if s.len() > 0 {
        assert(placeholder_at(s) is None);
        let t = s.drop_first();
        assert forall|i: int| 0 <= i < t.len() implies t[i] != '$' by {
            assert(t[i] == s[i + 1]);
        }
        substitution_identity_law(t, env);
        assert(seq![s[0]] + t =~= s);
    }
}

} // verus!
