//! The settings: whether and how often to reconnect, the keepalive
//! interval, and the tags that ask for a confirmation.

use vstd::prelude::*;
use crate::text::views;

verus! {

/// The settings of the program.
#[derive(Debug, Clone)]
pub struct OkenConfig {
    /// Whether a lost connection is made again.
    pub reconnect: bool,
    /// How often at most.
    pub reconnect_retries: u32,
    /// The seconds to wait before each retry.
    pub reconnect_delay_secs: u64,
    /// The seconds between two keepalive probes.
    pub keepalive_interval: u32,
    /// The tags that mark a host as one to confirm before connecting.
    pub danger_tags: Vec<String>,
}

/// What an `OkenConfig` holds.
pub struct OkenConfigView {
    pub reconnect: bool,
    pub reconnect_retries: u32,
    pub reconnect_delay_secs: u64,
    pub keepalive_interval: u32,
    pub danger_tags: Seq<Seq<char>>,
}

impl View for OkenConfig {
    type V = OkenConfigView;

    open spec fn view(&self) -> OkenConfigView {
        OkenConfigView {
            reconnect: self.reconnect,
            reconnect_retries: self.reconnect_retries,
            reconnect_delay_secs: self.reconnect_delay_secs,
            keepalive_interval: self.keepalive_interval,
            danger_tags: views(self.danger_tags@),
        }
    }
}

/// The settings that hold where the user has made none: reconnect up to
/// three times, five seconds apart, a keepalive probe every minute, and
/// `prod` and `production` as danger tags.
pub open spec fn default_settings() -> OkenConfigView {
    OkenConfigView {
        reconnect: true,
        reconnect_retries: 3,
        reconnect_delay_secs: 5,
        keepalive_interval: 60,
        danger_tags: seq!["prod"@, "production"@],
    }
}

/// Whether a lost connection is made again, where the user has not said.
pub fn default_reconnect() -> (r: bool)
    ensures
        r == default_settings().reconnect,
{
    true
}

/// How often a lost connection is made again, where the user has not said.
pub fn default_retries() -> (r: u32)
    ensures
        r == default_settings().reconnect_retries,
{
    3
}

/// The seconds to wait before a retry, where the user has not said.
pub fn default_delay() -> (r: u64)
    ensures
        r == default_settings().reconnect_delay_secs,
{
    5
}

/// The seconds between two keepalive probes, where the user has not said.
pub fn default_keepalive() -> (r: u32)
    ensures
        r == default_settings().keepalive_interval,
{
    60
}

/// The danger tags, where the user has named none.
pub fn default_danger_tags() -> (r: Vec<String>)
    ensures
        views(r@) == default_settings().danger_tags,
{
    let mut r: Vec<String> = Vec::new();
    r.push("prod".to_owned());
    r.push("production".to_owned());
    assert(views(r@) =~= default_settings().danger_tags);
    r
}

impl Default for OkenConfig {
    /// The settings that hold where the user has made none.
    fn default() -> (r: Self)
        ensures
            r@ == default_settings(),
    {
        OkenConfig {
            reconnect: default_reconnect(),
            reconnect_retries: default_retries(),
            reconnect_delay_secs: default_delay(),
            keepalive_interval: default_keepalive(),
            danger_tags: default_danger_tags(),
        }
    }
}

/// The settings to go by: those read from the settings file, or the
/// defaults where the file is missing or cannot be read as settings.
pub fn load_config(parsed: Option<OkenConfig>) -> (r: OkenConfig)
    ensures
        r@ == match parsed {
            Some(c) => c@,
            None => default_settings(),
        },
{
    match parsed {
        Some(c) => c,
        None => OkenConfig::default(),
    }
}

} // verus!
