use vstd::prelude::*;

pub mod num;
pub mod text;
pub mod kvmap;
pub mod raw;
pub mod value;
pub mod flatten;
pub mod pattern;
pub mod time;
pub mod error;
pub mod conn;
pub mod agg;
pub mod stats;
pub mod filter;
pub mod pipeline;

verus! {

/// The configuration the pipeline runs with, parsed and validated by the
/// caller: the source location (a URL for realtime mode, a file path for
/// replay mode), the polling interval and chart period in seconds, the two
/// filters, the optional record destination, and the cluster-wide flag.
#[derive(Clone, Debug)]
pub struct Options {
    pub sora_api_url: String,
    pub polling_interval: u64,
    pub chart_time_period: u64,
    pub connection_filter: regex::Regex,
    pub stats_key_filter: regex::Regex,
    pub record: Option<String>,
    pub global: bool,
}

/// A location names the live endpoint exactly when it carries an HTTP
/// scheme; anything else is a recorded file's path.
pub open spec fn spec_is_realtime(url: Seq<char>) -> bool {
    text::has_prefix(url, "http://"@) || text::has_prefix(url, "https://"@)
}

impl Options {
    /// Whether the configured location selects realtime mode.
    pub fn is_realtime_mode(&self) -> (r: bool)
        ensures
            r == spec_is_realtime(self.sora_api_url@),
    {
        text::str_has_prefix(self.sora_api_url.as_str(), "http://") || text::str_has_prefix(
            self.sora_api_url.as_str(),
            "https://",
        )
    }
}

} // verus!
