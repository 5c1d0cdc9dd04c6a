//! Runtime configuration: built-in defaults, overridden by environment
//! variables whose raw values the caller reads and hands in.
use vstd::prelude::*;
use std::time::Duration;
use crate::clock::{duration_from_secs, duration_nanos};
use crate::text::{
    chars_eq, chars_of, lower_chars, lower_seq, parse_unsigned, parsed_unsigned, push_str, push_trimmed_end,
    string_of, trim, trim_end_char, trim_seq,
};

verus! {

/// Desktop Chrome user agent the upstream web apps expect.
pub const BROWSER_UA: &'static str = "Mozilla/5.0 (Windows NT 10.0; Win64; x64) AppleWebKit/537.36 (KHTML, like Gecko) Chrome/125.0.0.0 Safari/537.36";

/// Runtime configuration.
#[derive(Debug, Clone)]
pub struct Config {
    pub port: u16,
    pub data_dir: String,
    pub static_dir: String,
    pub http_timeout: Duration,
    pub cache_ttl: Duration,
    pub user_agent: String,
    pub railyatri_base: String,
    pub etrain_base: String,
    pub ntes_base: String,
    pub ir_base: String,
    pub irctc_base: String,
    pub paytm_base: String,
    pub ai_enabled: bool,
    pub ai_base: String,
    pub ai_model: String,
    pub ai_api_key: Option<String>,
    pub ai_timeout: Duration,
    /// AskDISHA module feature gate.
    pub askdisha_enabled: bool,
    /// AskDISHA guest API origin.
    pub corover_base: String,
    /// AskDISHA CDN origin without the bucket path.
    pub corover_cdn_base: String,
}

/// Raw values of the environment variables the configuration reads; `None`
/// when a variable is unset (or not valid Unicode).
#[derive(Debug, Clone, Default)]
pub struct EnvVars {
    pub railway_port: Option<String>,
    pub port: Option<String>,
    pub data_dir: Option<String>,
    pub static_dir: Option<String>,
    pub http_timeout: Option<String>,
    pub cache_ttl: Option<String>,
    pub user_agent: Option<String>,
    pub railyatri_base: Option<String>,
    pub etrain_base: Option<String>,
    pub ntes_base: Option<String>,
    pub ir_base: Option<String>,
    pub irctc_base: Option<String>,
    pub paytm_base: Option<String>,
    pub ai_enabled: Option<String>,
    pub ai_base: Option<String>,
    pub ai_model: Option<String>,
    pub ai_api_key: Option<String>,
    pub ai_timeout: Option<String>,
    pub askdisha_enabled: Option<String>,
    pub corover_base: Option<String>,
    pub corover_cdn_base: Option<String>,
}

/// Whether `d` is a duration of `secs` seconds.
pub open spec fn is_secs(d: Duration, secs: int) -> bool {
    duration_nanos(d) == secs * 1_000_000_000
}

/// Trimmed, ASCII-lower-cased text of a variable.
pub open spec fn norm(s: Seq<char>) -> Seq<char> {
    lower_seq(trim_seq(s))
}

/// An opt-in flag: `1`, `true` or `yes` (any case, surrounding blanks
/// ignored) enable it, anything else disables it, and an unset variable
/// keeps `default`.
pub open spec fn flag_value(raw: Option<String>, default: bool) -> bool {
    match raw {
        Some(v) => norm(v@) == "1"@ || norm(v@) == "true"@ || norm(v@) == "yes"@,
        None => default,
    }
}

/// An opt-out switch: `0`, `false`, `off` or `no` disable it, anything else
/// enables it, and an unset variable keeps `default`.
pub open spec fn switch_value(raw: Option<String>, default: bool) -> bool {
    match raw {
        Some(v) => !(norm(v@) == "0"@ || norm(v@) == "false"@ || norm(v@) == "off"@ || norm(v@) == "no"@),
        None => default,
    }
}

/// A number of seconds, `default` when unset or not a valid `u64`.
pub open spec fn secs_value(raw: Option<String>, default: u64) -> int {
    match raw {
        Some(v) => match parsed_unsigned(v@, u64::MAX as nat) {
            Some(n) => n as int,
            None => default as int,
        },
        None => default as int,
    }
}

/// The listening port: `RAILWAY_PORT` when set, else `PORT`; `default` when
/// the chosen value is not a valid port number.
pub open spec fn port_value(railway_port: Option<String>, port: Option<String>, default: u16) -> u16 {
    let raw = match railway_port {
        Some(v) => Some(v),
        None => port,
    };
    match raw {
        Some(v) => match parsed_unsigned(v@, u16::MAX as nat) {
            Some(n) => n as u16,
            None => default,
        },
        None => default,
    }
}

/// A text setting: the variable when set, else `default`.
pub open spec fn text_value(raw: Option<String>, default: Seq<char>) -> Seq<char> {
    match raw {
        Some(v) => v@,
        None => default,
    }
}

/// The API key when set to something other than blanks.
pub open spec fn key_value(raw: Option<String>) -> Option<Seq<char>> {
    match raw {
        Some(v) => if trim_seq(v@).len() > 0 { Some(v@) } else { None },
        None => None,
    }
}

/// Whether the normalized text of `v` is one of `words`.
fn norm_is_one_of(v: &str, words: &[&str]) -> (r: bool)
    ensures
        r == exists|i: int| 0 <= i < words@.len() && norm(v@) == #[trigger] words@[i]@,
{
    let t = trim(v);
    let tv = chars_of(t);
    let lv = lower_chars(tv.as_slice());
    let mut i: usize = 0;
    while i < words.len()
        invariant
            0 <= i <= words@.len(),
            lv@ == norm(v@),
            forall|j: int| 0 <= j < i ==> norm(v@) != #[trigger] words@[j]@,
        decreases words@.len() - i,
    {
        let w = chars_of(words[i]);
        if chars_eq(lv.as_slice(), w.as_slice()) {
            return true;
        }
        i = i + 1;
    }
    false
}

/// Parse an opt-in boolean variable: `1` / `true` / `yes` (case-insensitive,
/// surrounding blanks ignored) enable the feature; anything else disables
/// it; an unset variable keeps `default`.
pub fn flag_enabled(raw: Option<String>, default: bool) -> (r: bool)
    ensures
        r == flag_value(raw, default),
{
    match raw {
        Some(v) => {
            let r = norm_is_one_of(v.as_str(), &["1", "true", "yes"]);
            proof {
                let words = seq!["1", "true", "yes"];
                if r {
                    let i = choose|i: int| 0 <= i < 3 && norm(v@) == #[trigger] words[i]@;
                }
            }
            r
        },
        None => default,
    }
}

/// Parse an opt-out switch: `0` / `false` / `off` / `no` disable it.
pub fn switch_enabled(raw: Option<String>, default: bool) -> (r: bool)
    ensures
        r == switch_value(raw, default),
{
    match raw {
        Some(v) => {
            let off = norm_is_one_of(v.as_str(), &["0", "false", "off", "no"]);
            proof {
                let words = seq!["0", "false", "off", "no"];
                if off {
                    let i = choose|i: int| 0 <= i < 4 && norm(v@) == #[trigger] words[i]@;
                }
            }
            !off
        },
        None => default,
    }
}

/// A number of seconds from a variable, `default` when unset or invalid.
pub fn env_u64(raw: &Option<String>, default: u64) -> (r: u64)
    ensures
        r as int == secs_value(*raw, default),
{
    match raw {
        Some(v) => match parse_unsigned(v.as_str(), u64::MAX) {
            Some(n) => n,
            None => default,
        },
        None => default,
    }
}

/// The listening port from `RAILWAY_PORT`, else `PORT`, else `default`.
pub fn port_from_env(railway_port: &Option<String>, port: &Option<String>, default: u16) -> (r: u16)
    ensures
        r == port_value(*railway_port, *port, default),
{
    let raw = match railway_port {
        Some(v) => Some(v),
        None => match port {
            Some(v) => Some(v),
            None => None,
        },
    };
    match raw {
        Some(v) => match parse_unsigned(v.as_str(), 65535) {
            Some(n) => n as u16,
            None => default,
        },
        None => default,
    }
}

/// The variable's text when set, else the default text.
fn text_or(raw: Option<String>, default: String) -> (r: String)
    ensures
        r@ == text_value(raw, default@),
{
    match raw {
        Some(v) => v,
        None => default,
    }
}

/// Whether `d` is the built-in configuration.
pub open spec fn is_default_config(d: Config) -> bool {
    &&& d.port == 3000
    &&& d.data_dir@ == "data"@
    &&& d.static_dir@ == "static"@
    &&& is_secs(d.http_timeout, 15)
    &&& is_secs(d.cache_ttl, 120)
    &&& d.user_agent@ == BROWSER_UA@
    &&& d.railyatri_base@ == "https://www.railyatri.in"@
    &&& d.etrain_base@ == "https://etrain.info"@
    &&& d.ntes_base@ == "https://enquiry.indianrail.gov.in"@
    &&& d.ir_base@ == "https://www.indianrail.gov.in"@
    &&& d.irctc_base@ == "https://www.irctc.co.in"@
    &&& d.paytm_base@ == "https://travel.paytm.com"@
    &&& d.ai_enabled
    &&& d.ai_base@ == "https://opencode.ai/zen/v1"@
    &&& d.ai_model@ == "x-preview-f-free"@
    &&& d.ai_api_key is None
    &&& is_secs(d.ai_timeout, 120)
    &&& d.askdisha_enabled
    &&& d.corover_base@ == "https://api.disha.corover.ai"@
    &&& d.corover_cdn_base@ == "https://cdn.corover.ai"@
}

impl Default for Config {
    fn default() -> (r: Self)
        ensures
            is_default_config(r),
    {
        Config {
            port: 3000,
            data_dir: "data".to_owned(),
            static_dir: "static".to_owned(),
            http_timeout: duration_from_secs(15),
            cache_ttl: duration_from_secs(120),
            user_agent: BROWSER_UA.to_owned(),
            railyatri_base: "https://www.railyatri.in".to_owned(),
            etrain_base: "https://etrain.info".to_owned(),
            ntes_base: "https://enquiry.indianrail.gov.in".to_owned(),
            ir_base: "https://www.indianrail.gov.in".to_owned(),
            irctc_base: "https://www.irctc.co.in".to_owned(),
            paytm_base: "https://travel.paytm.com".to_owned(),
            ai_enabled: true,
            ai_base: "https://opencode.ai/zen/v1".to_owned(),
            ai_model: "x-preview-f-free".to_owned(),
            ai_api_key: None,
            ai_timeout: duration_from_secs(120),
            askdisha_enabled: true,
            corover_base: "https://api.disha.corover.ai".to_owned(),
            corover_cdn_base: "https://cdn.corover.ai".to_owned(),
        }
    }
}

impl Config {
    /// The configuration the given environment values select, every unset or
    /// invalid value falling back to the built-in default.
    pub fn from_vars(vars: EnvVars) -> (r: Self)
        ensures
            r.port == port_value(vars.railway_port, vars.port, 3000),
            r.data_dir@ == text_value(vars.data_dir, "data"@),
            r.static_dir@ == text_value(vars.static_dir, "static"@),
            is_secs(r.http_timeout, secs_value(vars.http_timeout, 15)),
            is_secs(r.cache_ttl, secs_value(vars.cache_ttl, 120)),
            r.user_agent@ == text_value(vars.user_agent, BROWSER_UA@),
            r.railyatri_base@ == text_value(vars.railyatri_base, "https://www.railyatri.in"@),
            r.etrain_base@ == text_value(vars.etrain_base, "https://etrain.info"@),
            r.ntes_base@ == text_value(vars.ntes_base, "https://enquiry.indianrail.gov.in"@),
            r.ir_base@ == text_value(vars.ir_base, "https://www.indianrail.gov.in"@),
            r.irctc_base@ == text_value(vars.irctc_base, "https://www.irctc.co.in"@),
            r.paytm_base@ == text_value(vars.paytm_base, "https://travel.paytm.com"@),
            r.ai_enabled == switch_value(vars.ai_enabled, true),
            r.ai_base@ == text_value(vars.ai_base, "https://opencode.ai/zen/v1"@),
            r.ai_model@ == text_value(vars.ai_model, "x-preview-f-free"@),
            match key_value(vars.ai_api_key) {
                Some(k) => r.ai_api_key is Some && r.ai_api_key->0@ == k,
                None => r.ai_api_key is None,
            },
            is_secs(r.ai_timeout, secs_value(vars.ai_timeout, 120)),
            r.askdisha_enabled == flag_value(vars.askdisha_enabled, true),
            r.corover_base@ == text_value(vars.corover_base, "https://api.disha.corover.ai"@),
            r.corover_cdn_base@ == text_value(vars.corover_cdn_base, "https://cdn.corover.ai"@),
    {
        let d = Config::default();
        let port = port_from_env(&vars.railway_port, &vars.port, d.port);
        let http_secs = env_u64(&vars.http_timeout, 15);
        let cache_secs = env_u64(&vars.cache_ttl, 120);
        let ai_secs = env_u64(&vars.ai_timeout, 120);
        let ai_api_key = match vars.ai_api_key {
            Some(v) => {
                let tv = chars_of(trim(v.as_str()));
                if tv.len() > 0 { Some(v) } else { None }
            },
            None => None,
        };
        Config {
            port,
            data_dir: text_or(vars.data_dir, d.data_dir),
            static_dir: text_or(vars.static_dir, d.static_dir),
            http_timeout: duration_from_secs(http_secs),
            cache_ttl: duration_from_secs(cache_secs),
            user_agent: text_or(vars.user_agent, d.user_agent),
            railyatri_base: text_or(vars.railyatri_base, d.railyatri_base),
            etrain_base: text_or(vars.etrain_base, d.etrain_base),
            ntes_base: text_or(vars.ntes_base, d.ntes_base),
            ir_base: text_or(vars.ir_base, d.ir_base),
            irctc_base: text_or(vars.irctc_base, d.irctc_base),
            paytm_base: text_or(vars.paytm_base, d.paytm_base),
            ai_enabled: switch_enabled(vars.ai_enabled, d.ai_enabled),
            ai_base: text_or(vars.ai_base, d.ai_base),
            ai_model: text_or(vars.ai_model, d.ai_model),
            ai_api_key,
            ai_timeout: duration_from_secs(ai_secs),
            askdisha_enabled: flag_enabled(vars.askdisha_enabled, d.askdisha_enabled),
            corover_base: text_or(vars.corover_base, d.corover_base),
            corover_cdn_base: text_or(vars.corover_cdn_base, d.corover_cdn_base),
        }
    }

    /// Join a source base URL with a path/query segment: trailing slashes of
    /// the base are dropped.
    pub fn source_url(&self, base: &str, path: &str) -> (r: String)
        ensures
            r@ == trim_end_char(base@, '/') + path@,
    {
        let mut out: Vec<char> = Vec::new();
        push_trimmed_end(&mut out, base, '/');
        push_str(&mut out, path);
        string_of(out.as_slice())
    }
}

} // verus!
