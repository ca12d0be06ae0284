//! Static configuration: the bot, the store and the crawled sources.

use vstd::prelude::*;
use vstd::string::StringExecFns;
use crate::text::same_text;

verus! {

/// The whole configuration.
#[derive(Clone)]
pub struct Config {
    pub bot: BotConfig,
    pub database: DbConfig,
    pub sources: Vec<SourceConfig>,
}

/// Delivery settings.
#[derive(Clone)]
pub struct BotConfig {
    pub telegram_channel: String,
    pub log_channel: Option<String>,
    pub max_notices_per_run: usize,
    pub message_delay_ms: u64,
}

/// Where the store is kept.
#[derive(Clone)]
pub struct DbConfig {
    pub path: String,
}

/// One crawled notice board.
#[derive(Clone)]
pub struct SourceConfig {
    pub key: String,
    pub display_name: String,
    pub parser: String,
    pub url: String,
    /// Dialect-specific parameters, as (name, value) pairs; the first pair
    /// with a given name is the one that counts.
    pub params: Vec<(String, String)>,
    pub enabled: bool,
    /// The channel for this source's notices; the default channel when absent.
    pub channel: Option<String>,
}

pub fn default_max_notices() -> (r: usize)
    ensures
        r == 20,
{
    20
}

pub fn default_delay() -> (r: u64)
    ensures
        r == 150,
{
    150
}

pub fn default_db_path() -> (r: String)
    ensures
        r@ == "notices.db"@,
{
    String::from_str("notices.db")
}

pub fn default_true() -> (r: bool)
    ensures
        r,
{
    true
}

/// The value of the first parameter named `name`, if any.
pub open spec fn param_value(params: Seq<(String, String)>, name: Seq<char>) -> Option<Seq<char>>
    decreases params.len(),
{
    if params.len() == 0 {
        None
    } else if params[0].0@ == name {
        Some(params[0].1@)
    } else {
        param_value(params.drop_first(), name)
    }
}

/// The value of the first parameter named `name`, or `default`.
pub open spec fn param_or_default(params: Seq<(String, String)>, name: Seq<char>, default: Seq<char>) -> Seq<char> {
    match param_value(params, name) {
        Some(v) => v,
        None => default,
    }
}

/// The sources of `s` that are enabled, in their order.
pub open spec fn enabled_of(s: Seq<SourceConfig>) -> Seq<SourceConfig>
    decreases s.len(),
{
    if s.len() == 0 {
        Seq::empty()
    } else if s.last().enabled {
        enabled_of(s.drop_last()).push(s.last())
    } else {
        enabled_of(s.drop_last())
    }
}

/// The value paired with the first `name` in `pairs`, or `default`.
pub fn lookup_or(pairs: &Vec<(String, String)>, name: &str, default: &str) -> (r: String)
    ensures
        r@ == param_or_default(pairs@, name@, default@),
{
    let mut i: usize = 0;
    assert(pairs@.skip(0) =~= pairs@);
    while i < pairs.len()
        invariant
            i <= pairs@.len(),
            param_value(pairs@, name@) == param_value(pairs@.skip(i as int), name@),
        decreases pairs@.len() - i,
    {
        assert(pairs@.skip(i as int).drop_first() =~= pairs@.skip(i + 1));
        if same_text(pairs[i].0.as_str(), name) {
            return pairs[i].1.clone();
        }
        i = i + 1;
    }
    String::from_str(default)
}

impl SourceConfig {
    /// The value of the parameter `name`, or `default` when it is absent.
    pub fn param_or(&self, name: &str, default: &str) -> (r: String)
        ensures
            r@ == param_or_default(self.params@, name@, default@),
    {
        lookup_or(&self.params, name, default)
    }
}

impl Config {
    /// The enabled sources, in configuration order.
    pub fn enabled_sources(&self) -> (r: Vec<&SourceConfig>)
        ensures
            r@.map_values(|p: &SourceConfig| *p) == enabled_of(self.sources@),
    {
        let mut out: Vec<&SourceConfig> = Vec::new();
        let mut i: usize = 0;
        while i < self.sources.len()
            invariant
                i <= self.sources@.len(),
                out@.map_values(|p: &SourceConfig| *p) == enabled_of(self.sources@.subrange(0, i as int)),
            decreases self.sources@.len() - i,
        {
            assert(self.sources@.subrange(0, i + 1).drop_last() =~= self.sources@.subrange(0, i as int));
            if self.sources[i].enabled {
                out.push(&self.sources[i]);
            }
            assert(out@.map_values(|p: &SourceConfig| *p) =~= enabled_of(self.sources@.subrange(0, i + 1)));
            i = i + 1;
        }
        assert(self.sources@.subrange(0, self.sources@.len() as int) =~= self.sources@);
        out
    }
}

} // verus!
