//! Configuration: the settings, their defaults, and where the settings file
//! is looked for.
use vstd::prelude::*;
use crate::json::{Json, JsonV, json_to_string, spec_json_text};
use crate::text::{concat2, owned, views};

verus! {

/// The proxy's settings.
pub struct Config {
    pub port: u16,
    pub host: String,
    pub retry_attempts: u32,
    pub retry_delay_sec: u64,
    pub request_timeout_sec: u64,
    pub gemini_bl: String,
    /// account index; may be string or number in JSON, or null
    pub auth_user: Option<Json>,
    pub xsrf_token: Option<String>,
    pub default_model: String,
    pub log_requests: bool,
    pub cookie_file: Option<String>,
    pub proxy: Option<String>,
    pub api_keys: Vec<String>,
}

impl Default for Config {
    fn default() -> (r: Config)
        ensures
            r.port == 8081,
            r.host@ == "0.0.0.0"@,
            r.retry_attempts == 3,
            r.retry_delay_sec == 2,
            r.request_timeout_sec == 180,
            r.gemini_bl@ == "boq_assistant-bard-web-server_20260525.09_p0"@,
            r.auth_user is None,
            r.xsrf_token is None,
            r.default_model@ == "gemini-3.5-flash"@,
            r.log_requests,
            r.cookie_file is None,
            r.proxy is None,
            r.api_keys@.len() == 0,
    {
        Config {
            port: 8081,
            host: owned("0.0.0.0"),
            retry_attempts: 3,
            retry_delay_sec: 2,
            request_timeout_sec: 180,
            gemini_bl: owned("boq_assistant-bard-web-server_20260525.09_p0"),
            auth_user: None,
            xsrf_token: None,
            default_model: owned("gemini-3.5-flash"),
            log_requests: true,
            cookie_file: None,
            proxy: None,
            api_keys: Vec::new(),
        }
    }
}

/// The account index as text: nothing for a missing, null or empty value,
/// the string itself for a string, and the JSON text of any other value.
pub open spec fn spec_auth_user_str(auth_user: Option<JsonV>) -> Option<Seq<char>> {
    match auth_user {
        None => None,
        Some(JsonV::Null) => None,
        Some(JsonV::Str(s)) => if s.len() == 0 {
            None
        } else {
            Some(s)
        },
        Some(v) => Some(spec_json_text(v)),
    }
}

/// The model of an optional value.
pub open spec fn auth_view(a: Option<Json>) -> Option<JsonV> {
    match a {
        Some(j) => Some(j@),
        None => None,
    }
}

/// The URL path prefix that selects the account: `/u/<index>`, or nothing.
pub open spec fn spec_account_prefix(auth_user: Option<JsonV>) -> Seq<char> {
    match spec_auth_user_str(auth_user) {
        Some(u) => "/u/"@ + u,
        None => Seq::empty(),
    }
}

impl Config {
    /// Return the auth_user as a string, treating null / empty as None.
    pub fn auth_user_str(&self) -> (r: Option<String>)
        ensures
            match r {
                Some(s) => spec_auth_user_str(auth_view(self.auth_user)) == Some(s@),
                None => spec_auth_user_str(auth_view(self.auth_user)) is None,
            },
    {
        match &self.auth_user {
            None => None,
            Some(Json::Null) => None,
            Some(Json::Str(s)) => {
                if s.as_str().is_empty() {
                    None
                } else {
                    Some(s.clone())
                }
            },
            Some(v) => Some(json_to_string(v)),
        }
    }
}

/// `/u/<index>` for the configured account, or the empty string.
pub fn account_prefix(cfg: &Config) -> (r: String)
    ensures
        r@ == spec_account_prefix(auth_view(cfg.auth_user)),
{
    match cfg.auth_user_str() {
        Some(u) => concat2("/u/", u.as_str()),
        None => String::new(),
    }
}

/// The places where a settings file is looked for, in order: the working
/// directory, then `.config/gemini-web2api` under the home directory.
pub open spec fn spec_config_candidates(home: Option<Seq<char>>) -> Seq<Seq<char>> {
    match home {
        Some(h) => seq!["./config.json"@, h + "/.config/gemini-web2api/config.json"@],
        None => seq!["./config.json"@],
    }
}

/// The places where a settings file is looked for, given the home
/// directory (`$HOME`, else `$USERPROFILE`).
pub fn config_candidates(home: Option<&str>) -> (r: Vec<String>)
    ensures
        views(r@) == spec_config_candidates(
            match home {
                Some(h) => Some(h@),
                None => None,
            },
        ),
{
    let mut v: Vec<String> = Vec::new();
    v.push(owned("./config.json"));
    match home {
        Some(h) => {
            v.push(concat2(h, "/.config/gemini-web2api/config.json"));
        },
        None => {},
    }
    proof {
        let ghost hv = match home {
            Some(h) => Some(h@),
            None => None::<Seq<char>>,
        };
        assert(views(v@) =~= spec_config_candidates(hv));
    }
    v
}

/// The first candidate path that exists.
pub open spec fn spec_find_config(candidates: Seq<(Seq<char>, bool)>) -> Option<Seq<char>>
    decreases candidates.len(),
{
    if candidates.len() == 0 {
        None
    } else if candidates[0].1 {
        Some(candidates[0].0)
    } else {
        spec_find_config(candidates.drop_first())
    }
}

/// Picks the settings file: the first candidate path that exists, given
/// each candidate with whether it exists.
pub fn find_config(candidates: &Vec<(String, bool)>) -> (r: Option<String>)
    ensures
        match r {
            Some(p) => spec_find_config(candidates@.map_values(|c: (String, bool)| (c.0@, c.1)))
                == Some(p@),
            None => spec_find_config(candidates@.map_values(|c: (String, bool)| (c.0@, c.1))) is None,
        },
{
    let ghost cs = candidates@.map_values(|c: (String, bool)| (c.0@, c.1));
    assert(cs.skip(0) =~= cs);
    let mut i: usize = 0;
    while i < candidates.len()
        invariant
            i <= candidates@.len(),
            cs == candidates@.map_values(|c: (String, bool)| (c.0@, c.1)),
            spec_find_config(cs) == spec_find_config(cs.skip(i as int)),
        decreases candidates@.len() - i,
    {
        assert(cs.skip(i as int)[0] == cs[i as int]);
        if candidates[i].1 {
            return Some(candidates[i].0.clone());
        }
        assert(cs.skip(i as int).drop_first() =~= cs.skip(i + 1));
        i += 1;
    }
    None
}

} // verus!
