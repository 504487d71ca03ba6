//! The agent's configuration, as handed over by the configuration loader.

use crate::jobs::Job;
use vstd::prelude::*;

verus! {

/// Where results go.
#[derive(Debug, Clone, PartialEq, Eq)]
pub enum ResultSenderAdapter {
    Stdout,
    Broker(BrokerConfig),
    Socket(SocketConfig),
}

/// A local stream socket.
#[derive(Debug, Clone, PartialEq, Eq)]
pub struct SocketConfig {
    /// Filesystem path of the socket.
    pub path: String,
}

/// A remote broker reached over RPC.
#[derive(Debug, Clone, PartialEq, Eq)]
pub struct BrokerConfig {
    pub main_broker: String,
    /// Reserved: only `main_broker` is used.
    pub fallback_brokers: Vec<String>,
    pub agent_id: String,
    pub zone: String,
    pub region: String,
    /// Events per batch; zero is taken as one.
    pub batch: usize,
    /// Seconds after the last flush past which the next event flushes; zero
    /// flushes after every event.
    pub batch_interval: usize,
}

/// Where the checks come from.
#[derive(Debug, Clone, PartialEq, Eq)]
pub enum ConfigCheckAdapter {
    Static(StaticConfigAdapter),
    File(FileConfigCheckAdapter),
}

/// Checks read from a separate file.
#[derive(Debug, Clone, PartialEq, Eq)]
pub struct FileConfigCheckAdapter {
    pub path: String,
}

/// Checks given inline.
#[derive(Debug, Clone, PartialEq, Eq)]
pub struct StaticConfigAdapter {
    pub checks: Vec<Job>,
}

/// The agent's configuration.
#[derive(Debug, Clone, PartialEq, Eq)]
pub struct Config {
    pub check_config_adapter: ConfigCheckAdapter,
    pub result_sender_adapter: ResultSenderAdapter,
}

impl Config {
    /// No checks, results to standard output.
    pub fn default_config() -> (r: Config)
        ensures
            r.check_config_adapter matches ConfigCheckAdapter::Static(a) && a.checks@.len() == 0,
            r.result_sender_adapter is Stdout,
    {
        Config {
            check_config_adapter: ConfigCheckAdapter::Static(StaticConfigAdapter { checks: Vec::new() }),
            result_sender_adapter: ResultSenderAdapter::Stdout,
        }
    }
}

impl Default for Config {
    fn default() -> (r: Config)
        ensures
            r.check_config_adapter matches ConfigCheckAdapter::Static(a) && a.checks@.len() == 0,
            r.result_sender_adapter is Stdout,
    {
        Config::default_config()
    }
}

/// Where a configuration file named `file_name` is looked for when none is
/// given, in order: `/etc/<bin>/<file>`, `./<bin>/<file>`, `./<file>`.
pub fn get_possible_paths(bin_name: &str, file_name: &str) -> (r: Vec<String>)
    ensures
        r@.len() == 3,
        r@[0]@ == "/etc/"@ + bin_name@ + "/"@ + file_name@,
        r@[1]@ == "./"@ + bin_name@ + "/"@ + file_name@,
        r@[2]@ == "./"@ + file_name@,
{
    let etc_path = String::from_str("/etc/").concat(bin_name).concat("/").concat(file_name);
    let local_path = String::from_str("./").concat(bin_name).concat("/").concat(file_name);
    let mut paths: Vec<String> = Vec::new();
    paths.push(etc_path);
    paths.push(local_path);
    paths.push(String::from_str("./").concat(file_name));
    paths
}

/// Builds an agent configuration for tests: static checks, chosen sink.
pub struct AgentTestingRunner {
    pub config: Config,
}

impl AgentTestingRunner {
    /// Starts from the default configuration.
    pub fn new() -> (r: AgentTestingRunner)
        ensures
            r.config.check_config_adapter matches ConfigCheckAdapter::Static(a) && a.checks@.len() == 0,
            r.config.result_sender_adapter is Stdout,
    {
        AgentTestingRunner { config: Config::default_config() }
    }

    /// Adds a check when the checks are static.
    pub fn add_check(self, check: Job) -> (r: AgentTestingRunner)
        ensures
            r.config.result_sender_adapter == self.config.result_sender_adapter,
            match self.config.check_config_adapter {
                ConfigCheckAdapter::Static(a) => r.config.check_config_adapter matches ConfigCheckAdapter::Static(b)
                    && b.checks@ == a.checks@.push(check),
                ConfigCheckAdapter::File(f) => r.config.check_config_adapter == ConfigCheckAdapter::File(f),
            },
    {
        let AgentTestingRunner { config } = self;
        let Config { check_config_adapter, result_sender_adapter } = config;
        let check_config_adapter = match check_config_adapter {
            ConfigCheckAdapter::Static(a) => {
                let mut checks = a.checks;
                checks.push(check);
                ConfigCheckAdapter::Static(StaticConfigAdapter { checks })
            },
            ConfigCheckAdapter::File(f) => ConfigCheckAdapter::File(f),
        };
        AgentTestingRunner { config: Config { check_config_adapter, result_sender_adapter } }
    }

    /// Sends results to the socket at `path`.
    pub fn use_socket_sender(self, path: String) -> (r: AgentTestingRunner)
        ensures
            r.config.check_config_adapter == self.config.check_config_adapter,
            r.config.result_sender_adapter matches ResultSenderAdapter::Socket(s) && s.path@ == path@,
    {
        let AgentTestingRunner { config } = self;
        let Config { check_config_adapter, result_sender_adapter: _ } = config;
        AgentTestingRunner {
            config: Config {
                check_config_adapter,
                result_sender_adapter: ResultSenderAdapter::Socket(SocketConfig { path }),
            },
        }
    }
}

} // verus!
