//! What a user configures of the llama.cpp servers.

use vstd::prelude::*;

verus! {

/// How many tokens each level of thinking may spend.
#[derive(Debug, Clone, Copy, PartialEq, Eq, Structural)]
pub struct ThinkingBudgets {
    pub minimal: u32,
    pub low: u32,
    pub medium: u32,
    pub high: u32,
}

impl Default for ThinkingBudgets {
    fn default() -> (budgets: Self)
        ensures
            budgets == (ThinkingBudgets { minimal: 1024, low: 2048, medium: 8192, high: 16384 }),
    {
        ThinkingBudgets { minimal: 1024, low: 2048, medium: 8192, high: 16384 }
    }
}

/// A configured server.
#[derive(Debug)]
pub struct LlamaCppServerConfig {
    pub url: String,
    pub api_key: Option<String>,
}

/// The configured servers, and what goes for all of them.
#[derive(Debug)]
pub struct LlamaCppConfig {
    pub servers: Vec<LlamaCppServerConfig>,
    pub thinking_budgets: ThinkingBudgets,
    pub auto_load: bool,
}

/// The server that stands where nothing names one.
pub const DEFAULT_SERVER_URL: &'static str = "http://127.0.0.1:8080";

/// The address to use where no server is configured: what `LLAMA_SERVER_URL` holds, else what
/// `LLAMA_CPP_HOST` holds, else the default.
pub open spec fn fallback_url(server_url: Option<String>, host: Option<String>) -> Seq<char> {
    match server_url {
        Some(url) => url@,
        None => match host {
            Some(url) => url@,
            None => DEFAULT_SERVER_URL@,
        },
    }
}

/// A named server takes precedence over a named host, and either over the default.
pub proof fn law_named_server_comes_first(server_url: Option<String>, host: Option<String>)
    ensures
        server_url matches Some(url) ==> fallback_url(server_url, host) == url@,
        server_url is None ==> (host matches Some(url) ==> fallback_url(server_url, host) == url@),
        server_url is None && host is None ==> fallback_url(server_url, host)
            == "http://127.0.0.1:8080"@,
{
}

impl LlamaCppConfig {
    /// The servers to use: the configured ones; where there are none, one without a key, by the
    /// values of `LLAMA_SERVER_URL` and `LLAMA_CPP_HOST` or the default.
    pub fn resolve_servers(&self, server_url: Option<String>, host: Option<String>) -> (servers:
        Vec<LlamaCppServerConfig>)
        ensures
            self.servers@.len() > 0 ==> servers@ == self.servers@,
            self.servers@.len() == 0 ==> servers@.len() == 1 && servers@[0].url@ == fallback_url(
                server_url,
                host,
            ) && servers@[0].api_key is None,
    {
        let mut servers: Vec<LlamaCppServerConfig> = Vec::new();
        if self.servers.len() == 0 {
            let url: String = match server_url {
                Some(url) => url,
                None => match host {
                    Some(url) => url,
                    None => DEFAULT_SERVER_URL.to_owned(),
                },
            };
            servers.push(LlamaCppServerConfig { url, api_key: None });
            return servers;
        }
        let mut i: usize = 0;
        while i < self.servers.len()
            invariant
                i <= self.servers.len(),
                servers@ == self.servers@.take(i as int),
            decreases self.servers.len() - i,
        {
            let s: &LlamaCppServerConfig = &self.servers[i];
            let api_key: Option<String> = match &s.api_key {
                Some(key) => Some(key.clone()),
                None => None,
            };
            servers.push(LlamaCppServerConfig { url: s.url.clone(), api_key });
            assert(servers@ =~= self.servers@.take(i + 1));
            i += 1;
        }
        assert(servers@ =~= self.servers@);
        servers
    }
}

/// Configured servers are used as they are, whatever the environment names. Without any there is
/// one, without a key: at the named address, the server's before the host's, or at the default.
pub proof fn law_configured_servers_come_first(
    config: &LlamaCppConfig,
    server_url: Option<String>,
    host: Option<String>,
    servers: Vec<LlamaCppServerConfig>,
)
    requires
        call_ensures(LlamaCppConfig::resolve_servers, (config, server_url, host), servers),
    ensures
        config.servers@.len() > 0 ==> servers@ == config.servers@,
        config.servers@.len() == 0 ==> {
            &&& servers@.len() == 1
            &&& servers@[0].api_key is None
            &&& server_url matches Some(url) ==> servers@[0].url@ == url@
            &&& server_url is None ==> (host matches Some(url) ==> servers@[0].url@ == url@)
            &&& server_url is None && host is None ==> servers@[0].url@ == "http://127.0.0.1:8080"@
        },
{
    law_named_server_comes_first(server_url, host);
}

} // verus!
