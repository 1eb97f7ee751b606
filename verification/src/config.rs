//! The agent's configuration record and the command-line override rule.
//!
//! The configuration file itself is read and decoded by the unverified
//! rim, which hands a plain `Config` in; command-line arguments arrive as
//! a plain `Args`.  What is verified here is the merge: which argument
//! overrides which field, and that everything else is left alone.

use vstd::prelude::*;

verus! {

/// Command-line arguments, already decoded to plain values.
#[derive(Debug, PartialEq, Eq)]
pub struct Args {
    /// Path of the configuration file.
    pub config: Vec<u8>,
    /// Overrides the scrape URL when present.
    pub scrape_url: Option<Vec<u8>>,
    /// Overrides the alert-manager base URL when present.
    pub alertmanager_url: Option<Vec<u8>>,
    /// Overrides the scrape interval when present.
    pub scrape_interval_seconds: Option<u64>,
    /// Overrides the poll interval when present.
    pub poll_interval_seconds: Option<u64>,
}

/// One remote-write destination: its URL and an optional authorization
/// header value.
#[derive(Debug, PartialEq, Eq)]
pub struct RemoteWriteConfig {
    pub url: Vec<u8>,
    pub auth_header: Option<Vec<u8>>,
}

/// One remediation action: an action name mapped to a shell command.
#[derive(Debug, PartialEq, Eq)]
pub struct ActionEntry {
    pub name: Vec<u8>,
    pub command: Vec<u8>,
}

/// The agent's whole configuration.
#[derive(Debug, PartialEq, Eq)]
pub struct Config {
    pub scrape_url: Vec<u8>,
    pub remote_write: Vec<RemoteWriteConfig>,
    pub alertmanager_url: Vec<u8>,
    pub actions: Vec<ActionEntry>,
    pub scrape_interval_seconds: u64,
    pub poll_interval_seconds: u64,
}

/// The scrape interval used when the file names none.
pub fn default_scrape_interval() -> (r: u64)
    ensures
        r == 15,
{
    15
}

/// The poll interval used when the file names none.
pub fn default_poll_interval() -> (r: u64)
    ensures
        r == 30,
{
    30
}

impl Config {
    /// Merges command-line overrides into a file-provided configuration:
    /// each present argument replaces its field, each absent one leaves
    /// the file's value; destinations and actions always come from the
    /// file.
    pub fn build(args: Args, file: Config) -> (r: Config)
        ensures
            r.scrape_url@ == match args.scrape_url {
                Some(u) => u@,
                None => file.scrape_url@,
            },
            r.alertmanager_url@ == match args.alertmanager_url {
                Some(u) => u@,
                None => file.alertmanager_url@,
            },
            r.scrape_interval_seconds == match args.scrape_interval_seconds {
                Some(i) => i,
                None => file.scrape_interval_seconds,
            },
            r.poll_interval_seconds == match args.poll_interval_seconds {
                Some(i) => i,
                None => file.poll_interval_seconds,
            },
            r.remote_write == file.remote_write,
            r.actions == file.actions,
    {
        let mut config = file;
        if let Some(url) = args.scrape_url {
            config.scrape_url = url;
        }
        if let Some(url) = args.alertmanager_url {
            config.alertmanager_url = url;
        }
        if let Some(interval) = args.scrape_interval_seconds {
            config.scrape_interval_seconds = interval;
        }
        if let Some(interval) = args.poll_interval_seconds {
            config.poll_interval_seconds = interval;
        }
        config
    }
}

} // verus!
