//! The provider that talks to llama.cpp servers.

use std::time::Duration;

use vstd::prelude::*;
use vstd::string::*;
use crate::config;
use crate::config::{LlamaCppConfig, LlamaCppServerConfig};
use crate::json;
use crate::json::Json;
use crate::llama_cpp_server;
use crate::llama_cpp_server::{LlamaCppServer, ModelStatus, ServerModel};
use crate::message;
use crate::message::{AgentError, Model};
use crate::number;
use crate::order;
use crate::order::text_less;
use crate::text;
use crate::text::{among, cat, same_text};

verus! {

/// The variable that names a server's address.
pub const HOST_ENV: &'static str = "LLAMA_CPP_HOST";

/// The variable that holds the keys.
pub const API_KEY_ENV: &'static str = "LLAMA_CPP_API_KEY";

/// The message of the error that comes without an address.
pub const HOST_NOT_SET: &'static str = "LLAMA_CPP_HOST not set";

/// How long to wait for a model that is loaded for a request.
pub const AUTO_LOAD_TIMEOUT_SECS: u64 = 120;

/// What tells a server apart from others that speak the same protocol.
#[derive(Debug)]
pub struct OpenAiCompatConfig {
    pub api_key_env: &'static str,
    pub base_url: &'static str,
    pub max_tokens_field: &'static str,
    pub include_stream_usage: bool,
    pub provider_name: &'static str,
}

/// What tells llama.cpp apart.
pub fn compat_config() -> (config: OpenAiCompatConfig)
    ensures
        config.api_key_env@ == ""@,
        config.base_url@ == "http://localhost:8080/v1"@,
        config.max_tokens_field@ == "max_tokens"@,
        config.include_stream_usage,
        config.provider_name@ == "LlamaCpp"@,
{
    OpenAiCompatConfig {
        api_key_env: "",
        base_url: "http://localhost:8080/v1",
        max_tokens_field: "max_tokens",
        include_stream_usage: true,
        provider_name: "LlamaCpp",
    }
}

/// How many tokens each level of thinking may spend.
#[derive(Debug, Clone, Copy, PartialEq, Eq, Structural)]
pub struct ThinkingBudgets {
    pub minimal: u32,
    pub low: u32,
    pub medium: u32,
    pub high: u32,
}

impl Default for ThinkingBudgets {
    fn default() -> (budgets: Self)
        ensures
            budgets == (ThinkingBudgets { minimal: 1024, low: 2048, medium: 8192, high: 16384 }),
    {
        ThinkingBudgets { minimal: 1024, low: 2048, medium: 8192, high: 16384 }
    }
}

impl ThinkingBudgets {
    /// The configured budgets.
    pub fn from_config(budgets: &config::ThinkingBudgets) -> (own: Self)
        ensures
            own.minimal == budgets.minimal,
            own.low == budgets.low,
            own.medium == budgets.medium,
            own.high == budgets.high,
    {
        ThinkingBudgets {
            minimal: budgets.minimal,
            low: budgets.low,
            medium: budgets.medium,
            high: budgets.high,
        }
    }
}

/// How long to wait for a connection, on a slow one, and for a stream.
#[derive(Debug, Clone, Copy)]
pub struct Timeouts {
    pub connect: Duration,
    pub low_speed: Duration,
    pub stream: Duration,
}

/// Where requests go, and the headers they carry.
#[derive(Debug)]
pub struct ResolvedAuth {
    pub base_url: Option<String>,
    pub headers: Vec<(String, String)>,
}

/// The headers that carry a key.
pub open spec fn key_headers(key: Option<Seq<char>>) -> Seq<(Seq<char>, Seq<char>)> {
    match key {
        Some(k) => seq![("authorization"@, "Bearer "@ + k)],
        None => Seq::empty(),
    }
}

fn headers_with_key(key: Option<&str>) -> (headers: Vec<(String, String)>)
    ensures
        llama_cpp_server::header_views(headers@) == key_headers(
            match key {
                Some(k) => Some(k@),
                None => None,
            },
        ),
{
    let mut headers: Vec<(String, String)> = Vec::new();
    if let Some(k) = key {
        headers.push(("authorization".to_owned(), cat("Bearer ", k)));
    }
    assert(llama_cpp_server::header_views(headers@) =~= key_headers(
        match key {
            Some(k) => Some(k@),
            None => None,
        },
    ));
    headers
}

/// Keys of which one at a time is used.
#[derive(Debug)]
pub struct KeyPool {
    pub keys: Vec<String>,
    pub at: usize,
}

impl KeyPool {
    /// Whether a key is in use.
    pub open spec fn well_formed(&self) -> bool {
        self.at < self.keys@.len()
    }

    /// The key in use.
    pub open spec fn key(&self) -> Seq<char> {
        self.keys@[self.at as int]@
    }

    /// A pool of these keys that uses the first.
    pub fn from_keys(keys: Vec<String>) -> (pool: Self)
        requires
            keys@.len() > 0,
        ensures
            pool.well_formed(),
            pool.keys@ == keys@,
            pool.at == 0,
    {
        KeyPool { keys, at: 0 }
    }

    /// The key in use.
    pub fn current(&self) -> (key: &str)
        requires
            self.well_formed(),
        ensures
            key@ == self.key(),
    {
        self.keys[self.at].as_str()
    }
}

/// How a model is to think.
#[derive(Debug, Clone, Copy, PartialEq, Eq, Structural)]
pub enum ThinkingConfig {
    Off,
    Budget(u32),
    Adaptive,
}

/// What to do before a request to a model.
#[derive(Debug, Clone, Copy, PartialEq, Eq, Structural)]
pub enum LoadStep {
    Done,
    AskStatus,
    Load { timeout_secs: u64 },
}

/// The provider.
#[derive(Debug)]
pub struct LlamaCpp {
    pub timeouts: Timeouts,
    pub auth: ResolvedAuth,
    pub key_pool: Option<KeyPool>,
    pub system_prefix: Option<String>,
    pub servers: Vec<LlamaCppServer>,
    pub thinking_budgets: ThinkingBudgets,
    pub auto_load: bool,
}

impl LlamaCpp {
    /// Whether requests carry the key in use, where there are keys.
    pub open spec fn carries_key(&self) -> bool {
        self.key_pool matches Some(pool) ==> pool.well_formed() && llama_cpp_server::header_views(
            self.auth.headers@,
        ) == key_headers(Some(pool.key()))
    }
}

/// Whether a server is one that has just been made from its configuration.
pub open spec fn made_from(server: LlamaCppServer, config: LlamaCppServerConfig) -> bool {
    &&& server.url@ == llama_cpp_server::without_slash(config.url@)
    &&& server.api_key == config.api_key
    &&& server.mode is None
    &&& server.models@.len() == 0
}

/// Whether a server offers the model `id`.
pub open spec fn offers(server: LlamaCppServer, id: Seq<char>) -> bool {
    exists|j: int| 0 <= j < server.models@.len() && (#[trigger] server.models@[j]).id@ == id
}

/// An object with the one member `key`.
pub open spec fn single_member(value: Json, key: Seq<char>, member: Json) -> bool {
    value matches Json::Object(members) && members@.len() == 1 && members@[0].0@ == key
        && members@[0].1 == member
}

/// A key is carried as a bearer token by the one header for it, and without a key there is no
/// header. A provider with keys sends the key of its pool that is in use.
pub proof fn law_requests_carry_the_key(key: Seq<char>, provider: LlamaCpp)
    ensures
        key_headers(Some(key)) == seq![("authorization"@, "Bearer "@ + key)],
        key_headers(None).len() == 0,
        provider.carries_key() && provider.key_pool is Some ==> ({
            let pool = provider.key_pool->0;
            &&& 0 <= pool.at < pool.keys@.len()
            &&& llama_cpp_server::header_views(provider.auth.headers@) == seq![
                ("authorization"@, "Bearer "@ + pool.keys@[pool.at as int]@),
            ]
        }),
{
}

/// A server made from its configuration has the configured key, and the configured address less
/// the slash that may end it. Nothing is known of its models.
pub proof fn law_made_server_is_the_configured_one(
    server: LlamaCppServer,
    config: LlamaCppServerConfig,
)
    requires
        made_from(server, config),
    ensures
        server.url@ == config.url@ || server.url@ + "/"@ == config.url@,
        !"/"@.is_suffix_of(config.url@) ==> server.url@ == config.url@,
        server.api_key == config.api_key,
        server.mode is None,
        server.models@.len() == 0,
{
    llama_cpp_server::law_address_loses_one_slash(config.url@);
}

/// A server offers the models it lists, whatever their status, and no others.
pub proof fn law_server_offers_what_it_lists(server: LlamaCppServer, id: Seq<char>)
    ensures
        offers(server, id) ==> exists|j: int|
            0 <= j < server.models@.len() && (#[trigger] server.models@[j]).id@ == id,
        forall|j: int|
            0 <= j < server.models@.len() ==> offers(server, (#[trigger] server.models@[j]).id@),
{
}

/// Of the servers' answers every model is listed, and no other; a server without an answer lists
/// none.
pub proof fn law_answered_models_are_listed(
    answers: Seq<Option<Vec<ServerModel>>>,
    id: Seq<char>,
)
    ensures
        listed(answers, id) ==> exists|i: int, j: int|
            0 <= i < answers.len() && answers[i] is Some && 0 <= j < answers[i]->0@.len() && (
            #[trigger] answers[i]->0@[j]).id@ == id,
        forall|i: int, j: int|
            0 <= i < answers.len() && answers[i] is Some && 0 <= j < answers[i]->0@.len()
                ==> listed(answers, (#[trigger] answers[i]->0@[j]).id@),
{
    if listed(answers, id) {
        let i = choose|i: int| 0 <= i < answers.len() && in_answer(#[trigger] answers[i], id);
        let models = answers[i]->0;
        let j = choose|j: int| 0 <= j < models@.len() && (#[trigger] models@[j]).id@ == id;
        assert(answers[i]->0@[j].id@ == id);
    }
    assert forall|i: int, j: int|
        0 <= i < answers.len() && answers[i] is Some && 0 <= j < answers[i]->0@.len() implies listed(
        answers,
        (#[trigger] answers[i]->0@[j]).id@,
    ) by {
        assert(in_answer(answers[i], answers[i]->0@[j].id@));
    }
}

fn server_offers(server: &LlamaCppServer, id: &str) -> (found: bool)
    ensures
        found == offers(*server, id@),
{
    let mut j: usize = 0;
    while j < server.models.len()
        invariant
            j <= server.models.len(),
            forall|k: int| 0 <= k < j ==> (#[trigger] server.models@[k]).id@ != id@,
        decreases server.models.len() - j,
    {
        if same_text(server.models[j].id.as_str(), id) {
            return true;
        }
        j += 1;
    }
    false
}

impl LlamaCpp {
    /// The provider for configured servers; requests go to the first of them, with its key.
    pub fn from_config(
        config: &LlamaCppConfig,
        servers: Vec<LlamaCppServerConfig>,
        timeouts: Timeouts,
    ) -> (provider: Result<Self, AgentError>)
        ensures
            match provider {
                Ok(p) => {
                    &&& servers@.len() > 0
                    &&& p.carries_key()
                    &&& p.timeouts == timeouts
                    &&& message::opt_text(p.auth.base_url) == Some(servers@[0].url@ + "/v1"@)
                    &&& llama_cpp_server::header_views(p.auth.headers@) == key_headers(
                        message::opt_text(servers@[0].api_key),
                    )
                    &&& p.key_pool is None
                    &&& p.system_prefix is None
                    &&& p.servers@.len() == servers@.len()
                    &&& forall|i: int|
                        0 <= i < servers@.len() ==> made_from(#[trigger] p.servers@[i], servers@[i])
                    &&& p.thinking_budgets.minimal == config.thinking_budgets.minimal
                    &&& p.thinking_budgets.low == config.thinking_budgets.low
                    &&& p.thinking_budgets.medium == config.thinking_budgets.medium
                    &&& p.thinking_budgets.high == config.thinking_budgets.high
                    &&& p.auto_load == config.auto_load
                },
                Err(e) => servers@.len() == 0 && e@ == (message::ErrorView::Config {
                    message: "no llama-cpp servers configured"@,
                }),
            },
    {
        if servers.len() == 0 {
            return Err(
                AgentError::Config { message: "no llama-cpp servers configured".to_owned() },
            );
        }
        let base_url: String = cat(servers[0].url.as_str(), "/v1");
        let headers: Vec<(String, String)> = match &servers[0].api_key {
            Some(key) => headers_with_key(Some(key.as_str())),
            None => headers_with_key(None),
        };
        let mut made: Vec<LlamaCppServer> = Vec::new();
        let mut i: usize = 0;
        while i < servers.len()
            invariant
                i <= servers.len(),
                made@.len() == i,
                forall|k: int| 0 <= k < i ==> made_from(#[trigger] made@[k], servers@[k]),
            decreases servers.len() - i,
        {
            let api_key: Option<String> = match &servers[i].api_key {
                Some(key) => Some(key.clone()),
                None => None,
            };
            made.push(LlamaCppServer::new(servers[i].url.as_str(), api_key));
            i += 1;
        }
        Ok(
            LlamaCpp {
                timeouts,
                auth: ResolvedAuth { base_url: Some(base_url), headers },
                key_pool: None,
                system_prefix: None,
                servers: made,
                thinking_budgets: ThinkingBudgets::from_config(&config.thinking_budgets),
                auto_load: config.auto_load,
            },
        )
    }

    /// The provider for an address and headers that others keep. It knows no server that could
    /// load a model.
    pub fn with_auth(auth: ResolvedAuth, timeouts: Timeouts) -> (provider: Self)
        ensures
            provider.carries_key(),
            provider.timeouts == timeouts,
            provider.auth == auth,
            provider.key_pool is None,
            provider.system_prefix is None,
            provider.servers@.len() == 0,
            provider.thinking_budgets == (ThinkingBudgets {
                minimal: 1024,
                low: 2048,
                medium: 8192,
                high: 16384,
            }),
            provider.auto_load,
    {
        LlamaCpp {
            timeouts,
            auth,
            key_pool: None,
            system_prefix: None,
            servers: Vec::new(),
            thinking_budgets: ThinkingBudgets::default(),
            auto_load: true,
        }
    }

    /// The same provider with another prefix for system prompts.
    pub fn with_system_prefix(self, prefix: Option<String>) -> (provider: Self)
        ensures
            provider == (LlamaCpp { system_prefix: prefix, ..self }),
    {
        let mut provider = self;
        provider.system_prefix = prefix;
        provider
    }

    /// The provider for the address that the environment names, with the key in use, where there
    /// are keys.
    pub fn from_env(timeouts: Timeouts, key_pool: Option<KeyPool>, host: Option<String>) -> (provider:
        Result<Self, AgentError>)
        requires
            key_pool matches Some(pool) ==> pool.well_formed(),
        ensures
            match provider {
                Ok(p) => {
                    &&& host is Some
                    &&& p.carries_key()
                    &&& p.timeouts == timeouts
                    &&& message::opt_text(p.auth.base_url) == Some(host->0@ + "/v1"@)
                    &&& llama_cpp_server::header_views(p.auth.headers@) == key_headers(
                        match key_pool {
                            Some(pool) => Some(pool.key()),
                            None => None,
                        },
                    )
                    &&& p.key_pool == key_pool
                    &&& p.system_prefix is None
                    &&& p.servers@.len() == 0
                    &&& p.thinking_budgets == (ThinkingBudgets {
                        minimal: 1024,
                        low: 2048,
                        medium: 8192,
                        high: 16384,
                    })
                    &&& p.auto_load
                },
                Err(e) => host is None && e@ == (message::ErrorView::Config {
                    message: HOST_NOT_SET@,
                }),
            },
    {
        let base_url: String = match host {
            Some(h) => cat(h.as_str(), "/v1"),
            None => {
                return Err(AgentError::Config { message: HOST_NOT_SET.to_owned() });
            },
        };
        let headers: Vec<(String, String)> = match &key_pool {
            Some(pool) => headers_with_key(Some(pool.current())),
            None => headers_with_key(None),
        };
        Ok(
            LlamaCpp {
                timeouts,
                auth: ResolvedAuth { base_url: Some(base_url), headers },
                key_pool,
                system_prefix: None,
                servers: Vec::new(),
                thinking_budgets: ThinkingBudgets::default(),
                auto_load: true,
            },
        )
    }

    /// The first server that offers the model; where none does, the first server.
    pub fn resolve_server_for_model(&self, model: &Model) -> (server: Option<&LlamaCppServer>)
        ensures
            match server {
                None => self.servers@.len() == 0,
                Some(s) => {
                    ||| exists|i: int|
                        0 <= i < self.servers@.len() && #[trigger] self.servers@[i] == *s && offers(
                            *s,
                            model.id@,
                        ) && forall|k: int|
                            0 <= k < i ==> !offers(#[trigger] self.servers@[k], model.id@)
                    ||| self.servers@.len() > 0 && *s == self.servers@[0] && forall|k: int|
                        0 <= k < self.servers@.len() ==> !offers(
                            #[trigger] self.servers@[k],
                            model.id@,
                        )
                },
            },
    {
        let mut i: usize = 0;
        while i < self.servers.len()
            invariant
                i <= self.servers.len(),
                forall|k: int| 0 <= k < i ==> !offers(#[trigger] self.servers@[k], model.id@),
            decreases self.servers.len() - i,
        {
            if server_offers(&self.servers[i], model.id.as_str()) {
                assert(offers(self.servers@[i as int], model.id@));
                return Some(&self.servers[i]);
            }
            i += 1;
        }
        if self.servers.len() > 0 {
            Some(&self.servers[0])
        } else {
            None
        }
    }

    /// Tells a request how the model is to think.
    pub fn inject_thinking_config(&self, body: &mut Json, thinking: ThinkingConfig)
        requires
            *old(body) is Object || *old(body) is Null || thinking is Adaptive,
        ensures
            match thinking {
                ThinkingConfig::Off => {
                    &&& json::member(*final(body), "chat_template_kwargs"@) matches Some(kwargs)
                    &&& single_member(kwargs, "enable_thinking"@, Json::Bool(false))
                    &&& *final(body) is Object
                    &&& json::member_views(json::held(*final(body))) == json::with_member(
                        json::held(*old(body)),
                        "chat_template_kwargs"@,
                        kwargs,
                    )
                    &&& forall|key: Seq<char>|
                        key != "chat_template_kwargs"@ ==> #[trigger] json::member(
                            *final(body),
                            key,
                        ) == json::member(*old(body), key)
                },
                ThinkingConfig::Budget(n) => {
                    &&& json::member(*final(body), "thinking_budget_tokens"@) matches Some(tokens)
                    &&& *final(body) is Object
                    &&& json::member_views(json::held(*final(body))) == json::with_member(
                        json::held(*old(body)),
                        "thinking_budget_tokens"@,
                        tokens,
                    )
                    &&& tokens matches Json::Number { text, single_bits }
                    &&& text@ == text::decimal(n as nat)
                    &&& single_bits == number::single_bits(n as nat)
                    &&& forall|key: Seq<char>|
                        key != "thinking_budget_tokens"@ ==> #[trigger] json::member(
                            *final(body),
                            key,
                        ) == json::member(*old(body), key)
                },
                ThinkingConfig::Adaptive => *final(body) == *old(body),
            },
    {
        match thinking {
            ThinkingConfig::Off => {
                let mut members: Vec<(String, Json)> = Vec::new();
                members.push(("enable_thinking".to_owned(), Json::Bool(false)));
                body.set_member("chat_template_kwargs", Json::Object(members));
            },
            ThinkingConfig::Budget(n) => {
                body.set_member("thinking_budget_tokens", Json::integer(n));
            },
            ThinkingConfig::Adaptive => {},
        }
    }

    /// What to do before a request to a model, of which `status` is known once the first server
    /// has been asked for it. Only a model that the server says is unloaded is loaded, and only
    /// where that is wanted and there is a server.
    pub fn ensure_model_loaded(&self, status: Option<ModelStatus>) -> (step: LoadStep)
        ensures
            step == (if !self.auto_load || self.servers@.len() == 0 {
                LoadStep::Done
            } else {
                match status {
                    None => LoadStep::AskStatus,
                    Some(ModelStatus::Unloaded) => LoadStep::Load {
                        timeout_secs: AUTO_LOAD_TIMEOUT_SECS,
                    },
                    Some(_) => LoadStep::Done,
                }
            }),
    {
        if !self.auto_load || self.servers.len() == 0 {
            return LoadStep::Done;
        }
        match status {
            None => LoadStep::AskStatus,
            Some(ModelStatus::Unloaded) => LoadStep::Load { timeout_secs: AUTO_LOAD_TIMEOUT_SECS },
            Some(_) => LoadStep::Done,
        }
    }
}

/// Whether the texts of a list come one after the other in order, none of them twice.
pub open spec fn ascending(list: Seq<Seq<char>>) -> bool {
    forall|i: int, j: int|
        0 <= i < j < list.len() ==> order::before(#[trigger] list[i], #[trigger] list[j])
}

/// Whether a server's answer holds the model `id`.
pub open spec fn in_answer(answer: Option<Vec<ServerModel>>, id: Seq<char>) -> bool {
    answer matches Some(models) && exists|j: int|
        0 <= j < models@.len() && (#[trigger] models@[j]).id@ == id
}

/// Whether one of the servers' answers holds the model `id`.
pub open spec fn listed(answers: Seq<Option<Vec<ServerModel>>>, id: Seq<char>) -> bool {
    exists|i: int| 0 <= i < answers.len() && in_answer(#[trigger] answers[i], id)
}

/// Adds `id` at its place, unless it is there.
fn insert_id(list: &mut Vec<String>, id: &str)
    requires
        ascending(text::texts(old(list)@)),
    ensures
        ascending(text::texts(final(list)@)),
        forall|x: Seq<char>| #[trigger]
            text::texts(final(list)@).contains(x) <==> (text::texts(old(list)@).contains(x) || x
                == id@),
{
    if among(list, id) {
        return;
    }
    let ghost before = text::texts(list@);
    let mut at: usize = list.len();
    while at > 0 && text_less(id, list[at - 1].as_str())
        invariant
            at <= list.len(),
            before == text::texts(list@),
            forall|k: int| at <= k < before.len() ==> order::before(id@, #[trigger] before[k]),
        decreases at,
    {
        assert(before[at - 1] == list@[at - 1]@);
        at -= 1;
    }
    let owned: String = id.to_owned();
    let ghost after = before.insert(at as int, id@);
    proof {
        assert(text::texts(list@.insert(at as int, owned)) =~= after);
        if at > 0 {
            assert(before[at - 1] == list@[at - 1]@);
            assert(before.contains(before[at - 1]));
            order::lemma_before_total(before[at - 1], id@);
        }
        assert forall|k: int| 0 <= k < at implies order::before(#[trigger] before[k], id@) by {
            if k < at - 1 {
                order::lemma_before_transitive(before[k], before[at - 1], id@);
            }
        }
        assert forall|i: int, j: int| 0 <= i < j < after.len() implies order::before(
            #[trigger] after[i],
            #[trigger] after[j],
        ) by {
            let bi = if i < at { i } else { i - 1 };
            let bj = if j < at { j } else { j - 1 };
            if i != at && j != at {
                assert(after[i] == before[bi] && after[j] == before[bj]);
            } else if i == at {
                assert(after[j] == before[bj]);
            } else {
                assert(after[i] == before[bi]);
            }
        }
        assert forall|x: Seq<char>| #[trigger] after.contains(x) <==> (before.contains(x) || x
            == id@) by {
            if before.contains(x) {
                let k = choose|k: int| 0 <= k < before.len() && before[k] == x;
                assert(after[if k < at { k } else { k + 1 }] == x);
            }
            if x == id@ {
                assert(after[at as int] == x);
            }
            if after.contains(x) {
                let k = choose|k: int| 0 <= k < after.len() && after[k] == x;
                if k != at {
                    assert(before[if k < at { k } else { k - 1 }] == x);
                }
            }
        }
    }
    list.insert(at, owned);
}

/// Adds the ids of a server's models, each at its place unless it is there.
fn insert_ids(list: &mut Vec<String>, models: &Vec<ServerModel>)
    requires
        ascending(text::texts(old(list)@)),
    ensures
        ascending(text::texts(final(list)@)),
        forall|x: Seq<char>| #[trigger]
            text::texts(final(list)@).contains(x) <==> (text::texts(old(list)@).contains(x)
                || in_answer(Some(*models), x)),
{
    let ghost before = text::texts(list@);
    let mut j: usize = 0;
    while j < models.len()
        invariant
            j <= models.len(),
            ascending(text::texts(list@)),
            forall|x: Seq<char>| #[trigger]
                text::texts(list@).contains(x) <==> (before.contains(x) || exists|k: int|
                    0 <= k < j && (#[trigger] models@[k]).id@ == x),
        decreases models.len() - j,
    {
        let ghost known = text::texts(list@);
        insert_id(list, models[j].id.as_str());
        proof {
            assert forall|x: Seq<char>| #[trigger] text::texts(list@).contains(x) <==> (
            before.contains(x) || exists|k: int|
                0 <= k < j + 1 && (#[trigger] models@[k]).id@ == x) by {
                assert(known.contains(x) <==> (before.contains(x) || exists|k: int|
                    0 <= k < j && (#[trigger] models@[k]).id@ == x));
                if x == models@[j as int].id@ {
                    assert(exists|k: int| 0 <= k < j + 1 && (#[trigger] models@[k]).id@ == x);
                }
            }
        }
        j += 1;
    }
}

impl LlamaCpp {
    /// The ids of the models that the servers offer, in order and each once, from the servers'
    /// answers. A server without an answer adds nothing.
    pub fn list_models(answers: &Vec<Option<Vec<ServerModel>>>) -> (ids: Vec<String>)
        ensures
            ascending(text::texts(ids@)),
            forall|id: Seq<char>| #[trigger]
                text::texts(ids@).contains(id) <==> listed(answers@, id),
    {
        let mut ids: Vec<String> = Vec::new();
        let mut i: usize = 0;
        while i < answers.len()
            invariant
                i <= answers.len(),
                ascending(text::texts(ids@)),
                forall|id: Seq<char>| #[trigger]
                    text::texts(ids@).contains(id) <==> listed(answers@.take(i as int), id),
            decreases answers.len() - i,
        {
            let ghost known = text::texts(ids@);
            if let Some(models) = &answers[i] {
                insert_ids(&mut ids, models);
            }
            proof {
                assert forall|id: Seq<char>| #[trigger] text::texts(ids@).contains(id) <==> listed(
                    answers@.take(i + 1),
                    id,
                ) by {
                    assert(known.contains(id) <==> listed(answers@.take(i as int), id));
                    lemma_listed_next(answers@, i as int, id);
                }
            }
            i += 1;
        }
        assert(answers@.take(i as int) =~= answers@);
        ids
    }

    /// Turns to the key at `next`, where there are keys and another one is to be used. Tells
    /// whether it did.
    pub fn rotate_key(&mut self, next: Option<usize>) -> (rotated: bool)
        requires
            old(self).key_pool matches Some(pool) && next matches Some(at) ==> at
                < pool.keys@.len(),
        ensures
            rotated == (old(self).key_pool is Some && next is Some),
            !rotated ==> *final(self) == *old(self),
            old(self).carries_key() ==> final(self).carries_key(),
            rotated ==> {
                &&& final(self).key_pool == Some(
                    KeyPool { keys: old(self).key_pool->0.keys, at: next->0 },
                )
                &&& llama_cpp_server::header_views(final(self).auth.headers@) == key_headers(
                    Some(old(self).key_pool->0.keys@[next->0 as int]@),
                )
                &&& final(self).auth.base_url == old(self).auth.base_url
                &&& final(self).timeouts == old(self).timeouts
                &&& final(self).system_prefix == old(self).system_prefix
                &&& final(self).servers == old(self).servers
                &&& final(self).thinking_budgets == old(self).thinking_budgets
                &&& final(self).auto_load == old(self).auto_load
            },
    {
        let at: usize = match next {
            Some(at) => at,
            None => {
                return false;
            },
        };
        match &mut self.key_pool {
            None => false,
            Some(pool) => {
                pool.at = at;
                self.auth.headers = headers_with_key(Some(pool.current()));
                true
            },
        }
    }
}

proof fn lemma_listed_next(answers: Seq<Option<Vec<ServerModel>>>, i: int, id: Seq<char>)
    requires
        0 <= i < answers.len(),
    ensures
        listed(answers.take(i + 1), id) <==> (listed(answers.take(i), id) || in_answer(
            answers[i],
            id,
        )),
{
    let a = answers.take(i);
    let b = answers.take(i + 1);
    if listed(a, id) {
        let k = choose|k: int| 0 <= k < a.len() && in_answer(#[trigger] a[k], id);
        assert(in_answer(b[k], id));
    }
    if in_answer(answers[i], id) {
        assert(in_answer(b[i], id));
    }
    if listed(b, id) {
        let k = choose|k: int| 0 <= k < b.len() && in_answer(#[trigger] b[k], id);
        if k < i {
            assert(in_answer(a[k], id));
        }
    }
}

/// There is one list in order with given texts: what `list_models` yields is determined by the
/// models in the answers, whatever server they come from and however often.
pub proof fn law_one_ascending_list(a: Seq<Seq<char>>, b: Seq<Seq<char>>)
    requires
        ascending(a),
        ascending(b),
        forall|x: Seq<char>| #[trigger] a.contains(x) <==> b.contains(x),
    ensures
        a == b,
    decreases a.len(),
{
    if a.len() == 0 {
        if b.len() > 0 {
            assert(b.contains(b[0]) && !a.contains(b[0]));
        }
        assert(a =~= b);
    } else {
        assert(a.contains(a.last()));
        let k = choose|k: int| 0 <= k < b.len() && b[k] == a.last();
        assert(b.contains(b.last()) && a.contains(b.last()));
        let j = choose|j: int| 0 <= j < a.len() && a[j] == b.last();
        if k < b.len() - 1 {
            if j < a.len() - 1 {
                order::lemma_before_asymmetric(a.last(), b.last());
            } else {
                order::lemma_before_irreflexive(a.last());
            }
        }
        let x = a.drop_last();
        let y = b.drop_last();
        assert forall|t: Seq<char>| #[trigger] x.contains(t) <==> y.contains(t) by {
            if x.contains(t) {
                let i = choose|i: int| 0 <= i < x.len() && x[i] == t;
                assert(a[i] == t);
                order::lemma_before_irreflexive(t);
                assert(a.contains(t));
                let m = choose|m: int| 0 <= m < b.len() && b[m] == t;
                assert(y[m] == t);
            }
            if y.contains(t) {
                let i = choose|i: int| 0 <= i < y.len() && y[i] == t;
                assert(b[i] == t);
                order::lemma_before_irreflexive(t);
                assert(b.contains(t) && a.contains(t));
                let m = choose|m: int| 0 <= m < a.len() && a[m] == t;
                assert(x[m] == t);
            }
        }
        law_one_ascending_list(x, y);
        assert(a =~= x.push(a.last()));
        assert(b =~= y.push(b.last()));
    }
}

/// The provider of configured servers sends requests below the address of the first one, with the
/// key of the first one, and keeps all servers in order with the configured budgets. Without a
/// server there is none.
pub proof fn law_configured_provider_uses_the_first_server(
    config: &LlamaCppConfig,
    servers: Vec<LlamaCppServerConfig>,
    timeouts: Timeouts,
    provider: Result<LlamaCpp, AgentError>,
    i: int,
)
    requires
        call_ensures(LlamaCpp::from_config, (config, servers, timeouts), provider),
    ensures
        provider is Ok <==> servers@.len() > 0,
        provider matches Err(e) ==> e@ is Config,
        provider matches Ok(p) ==> {
            &&& p.auth.base_url is Some && p.auth.base_url->0@ == servers@[0].url@ + "/v1"@
            &&& servers@[0].api_key matches Some(key) ==> llama_cpp_server::header_views(
                p.auth.headers@,
            ) == seq![("authorization"@, "Bearer "@ + key@)]
            &&& servers@[0].api_key is None ==> p.auth.headers@.len() == 0
            &&& p.servers@.len() == servers@.len()
            &&& 0 <= i < servers@.len() ==> p.servers@[i].api_key == servers@[i].api_key && (
            p.servers@[i].url@ == servers@[i].url@ || p.servers@[i].url@ + "/"@
                == servers@[i].url@)
            &&& p.thinking_budgets.minimal == config.thinking_budgets.minimal
            &&& p.thinking_budgets.low == config.thinking_budgets.low
            &&& p.thinking_budgets.medium == config.thinking_budgets.medium
            &&& p.thinking_budgets.high == config.thinking_budgets.high
            &&& p.auto_load == config.auto_load
            &&& p.timeouts == timeouts
            &&& p.key_pool is None && p.system_prefix is None
        },
{
    if let Ok(p) = provider {
        assert(llama_cpp_server::header_views(p.auth.headers@).len() == p.auth.headers@.len());
        if 0 <= i < servers@.len() {
            law_made_server_is_the_configured_one(p.servers@[i], servers@[i]);
        }
    }
}

/// The provider of the environment sends requests below the named address, with the key in use,
/// where there are keys. Without a named address there is none.
pub proof fn law_environment_provider_uses_the_host(
    timeouts: Timeouts,
    key_pool: Option<KeyPool>,
    host: Option<String>,
    provider: Result<LlamaCpp, AgentError>,
)
    requires
        key_pool matches Some(pool) ==> pool.at < pool.keys@.len(),
        call_ensures(LlamaCpp::from_env, (timeouts, key_pool, host), provider),
    ensures
        provider is Ok <==> host is Some,
        provider matches Err(e) ==> e@ == (message::ErrorView::Config {
            message: "LLAMA_CPP_HOST not set"@,
        }),
        provider matches Ok(p) ==> {
            &&& p.auth.base_url is Some && p.auth.base_url->0@ == host->0@ + "/v1"@
            &&& key_pool matches Some(pool) ==> llama_cpp_server::header_views(p.auth.headers@)
                == seq![("authorization"@, "Bearer "@ + pool.keys@[pool.at as int]@)]
            &&& key_pool is None ==> p.auth.headers@.len() == 0
            &&& p.key_pool == key_pool
            &&& p.servers@.len() == 0 && p.auto_load && p.system_prefix is None
            &&& p.timeouts == timeouts
        },
{
    if let Ok(p) = provider {
        assert(llama_cpp_server::header_views(p.auth.headers@).len() == p.auth.headers@.len());
    }
}

/// A provider is given its prefix and else stays as it is, and one that is given its address and
/// headers keeps them.
pub proof fn law_given_parts_are_kept(
    auth: ResolvedAuth,
    timeouts: Timeouts,
    provider: LlamaCpp,
    prefix: Option<String>,
    prefixed: LlamaCpp,
)
    requires
        call_ensures(LlamaCpp::with_auth, (auth, timeouts), provider),
        call_ensures(LlamaCpp::with_system_prefix, (provider, prefix), prefixed),
    ensures
        prefixed.system_prefix == prefix,
        prefixed.auth == auth,
        prefixed.timeouts == timeouts,
        prefixed.key_pool is None,
        prefixed.servers@.len() == 0,
        prefixed.auto_load == provider.auto_load,
        prefixed.thinking_budgets == provider.thinking_budgets,
{
}

/// The server for a model is one of the provider's, and the first that lists the model if any does;
/// if none does it is the first of all. There is none only where there are no servers.
pub proof fn law_server_lists_the_model(
    provider: &LlamaCpp,
    model: &Model,
    server: Option<&LlamaCppServer>,
    i: int,
    j: int,
)
    requires
        call_ensures(LlamaCpp::resolve_server_for_model, (provider, model), server),
    ensures
        server is None <==> provider.servers@.len() == 0,
        server matches Some(s) ==> provider.servers@.contains(*s),
        server matches Some(s) ==> (0 <= i < provider.servers@.len() && 0 <= j
            < provider.servers@[i].models@.len() && provider.servers@[i].models@[j].id@ == model.id@
            ==> exists|k: int|
            0 <= k < s.models@.len() && (#[trigger] s.models@[k]).id@ == model.id@),
        server matches Some(s) ==> ((forall|k: int|
            0 <= k < provider.servers@.len() ==> !offers(
                #[trigger] provider.servers@[k],
                model.id@,
            )) ==> *s == provider.servers@[0]),
{
    if 0 <= i < provider.servers@.len() && 0 <= j < provider.servers@[i].models@.len() {
        law_server_offers_what_it_lists(provider.servers@[i], model.id@);
    }
    if let Some(s) = server {
        if exists|k: int|
            0 <= k < provider.servers@.len() && #[trigger] provider.servers@[k] == *s && offers(
                *s,
                model.id@,
            ) && forall|l: int|
                0 <= l < k ==> !offers(#[trigger] provider.servers@[l], model.id@) {
            let k = choose|k: int|
                0 <= k < provider.servers@.len() && #[trigger] provider.servers@[k] == *s && offers(
                    *s,
                    model.id@,
                ) && forall|l: int|
                    0 <= l < k ==> !offers(#[trigger] provider.servers@[l], model.id@);
            assert(provider.servers@.contains(provider.servers@[k]));
        } else {
            assert(provider.servers@.contains(provider.servers@[0]));
        }
    }
}

/// How a model is to think adds one member to a request and leaves the others: for no thinking the
/// template is told so, for a budget the number of tokens is told, and else nothing changes.
pub proof fn law_thinking_adds_one_member(
    provider: &LlamaCpp,
    body: &mut Json,
    thinking: ThinkingConfig,
    key: Seq<char>,
)
    requires
        *old(body) is Object || *old(body) is Null,
        call_ensures(LlamaCpp::inject_thinking_config, (provider, body, thinking), ()),
    ensures
        thinking is Adaptive ==> *final(body) == *old(body),
        key != "chat_template_kwargs"@ && key != "thinking_budget_tokens"@ ==> json::member(
            *final(body),
            key,
        ) == json::member(*old(body), key),
        thinking is Off ==> ({
            let kwargs = json::member(*final(body), "chat_template_kwargs"@);
            kwargs is Some && json::member(kwargs->0, "enable_thinking"@) == Some(Json::Bool(false))
                && kwargs->0 is Object && kwargs->0->Object_0@.len() == 1
        }),
        thinking matches ThinkingConfig::Budget(n) ==> (json::member(
            *final(body),
            "thinking_budget_tokens"@,
        ) matches Some(Json::Number { text, .. }) && text::number_read(text@) == n),
{
    if thinking is Off {
        let kwargs = json::member(*final(body), "chat_template_kwargs"@)->0;
        let members = kwargs->Object_0;
        assert(members@.drop_last() =~= Seq::empty());
        reveal_with_fuel(json::member_place, 2);
    }
    if let ThinkingConfig::Budget(n) = thinking {
        text::law_decimal_is_read_back(n as nat);
    }
}

/// A model is loaded for a request only where that is wanted, there is a server, and the server says
/// that it is not loaded. The server is asked for its status only where that can lead to loading it.
pub proof fn law_only_an_unloaded_model_is_loaded(
    provider: &LlamaCpp,
    status: Option<ModelStatus>,
    step: LoadStep,
)
    requires
        call_ensures(LlamaCpp::ensure_model_loaded, (provider, status), step),
    ensures
        step is Load <==> provider.auto_load && provider.servers@.len() > 0 && status == Some(
            ModelStatus::Unloaded,
        ),
        step is AskStatus <==> provider.auto_load && provider.servers@.len() > 0 && status is None,
        step matches LoadStep::Load { timeout_secs } ==> timeout_secs == 120,
{
}

/// The list of models names every model of every answer, once, in order, and no other.
pub proof fn law_list_names_every_model(
    answers: &Vec<Option<Vec<ServerModel>>>,
    ids: Vec<String>,
    i: int,
    j: int,
    id: Seq<char>,
)
    requires
        call_ensures(LlamaCpp::list_models, (answers,), ids),
    ensures
        0 <= i < answers@.len() && answers@[i] is Some && 0 <= j < answers@[i]->0@.len()
            ==> text::texts(ids@).contains(answers@[i]->0@[j].id@),
        text::texts(ids@).contains(id) ==> exists|a: int, b: int|
            0 <= a < answers@.len() && answers@[a] is Some && 0 <= b < answers@[a]->0@.len() && (
            #[trigger] answers@[a]->0@[b]).id@ == id,
        forall|a: int, b: int|
            0 <= a < b < ids@.len() ==> order::before(
                (#[trigger] ids@[a])@,
                (#[trigger] ids@[b])@,
            ),
{
    if 0 <= i < answers@.len() && answers@[i] is Some && 0 <= j < answers@[i]->0@.len() {
        let own = answers@[i]->0@[j].id@;
        law_answered_models_are_listed(answers@, own);
        assert(listed(answers@, own));
    }
    if text::texts(ids@).contains(id) {
        law_answered_models_are_listed(answers@, id);
    }
    assert forall|a: int, b: int| 0 <= a < b < ids@.len() implies order::before(
        (#[trigger] ids@[a])@,
        (#[trigger] ids@[b])@,
    ) by {
        assert(text::texts(ids@)[a] == ids@[a]@ && text::texts(ids@)[b] == ids@[b]@);
    }
}

/// Turning to another key keeps the keys and changes the one header that carries the key in use;
/// the address, the servers and all else stay. Without keys, or without another one, nothing
/// changes.
pub proof fn law_rotation_changes_only_the_key(
    provider: &mut LlamaCpp,
    next: Option<usize>,
    rotated: bool,
)
    requires
        old(provider).key_pool matches Some(pool) && next matches Some(at) ==> at
            < pool.keys@.len(),
        call_ensures(LlamaCpp::rotate_key, (provider, next), rotated),
    ensures
        rotated <==> old(provider).key_pool is Some && next is Some,
        !rotated ==> *final(provider) == *old(provider),
        rotated ==> final(provider).key_pool is Some && final(provider).key_pool->0.keys
            == old(provider).key_pool->0.keys && final(provider).key_pool->0.at == next->0
            && llama_cpp_server::header_views(final(provider).auth.headers@) == seq![
            ("authorization"@, "Bearer "@ + old(provider).key_pool->0.keys@[next->0 as int]@),
        ],
        final(provider).auth.base_url == old(provider).auth.base_url,
        final(provider).servers == old(provider).servers,
        final(provider).thinking_budgets == old(provider).thinking_budgets,
        final(provider).auto_load == old(provider).auto_load,
        final(provider).system_prefix == old(provider).system_prefix,
        final(provider).timeouts == old(provider).timeouts,
{
}

/// The protocol's address is the local one, with its version, and the provider needs no key of its
/// own; usage is asked for in streams.
pub proof fn law_protocol_of_the_local_server(config: OpenAiCompatConfig)
    requires
        call_ensures(compat_config, (), config),
    ensures
        config.base_url@ == "http://localhost:8080/v1"@,
        config.api_key_env@ == ""@,
        config.max_tokens_field@ == "max_tokens"@,
        config.provider_name@ == "LlamaCpp"@,
        config.include_stream_usage,
{
}

/// A pool begins with its first key, and keeps all.
pub proof fn law_pool_begins_with_its_first_key(keys: Vec<String>, pool: KeyPool, key: &str)
    requires
        keys@.len() > 0,
        call_ensures(KeyPool::from_keys, (keys,), pool),
        call_ensures(KeyPool::current, (&pool,), key),
    ensures
        pool.keys@ == keys@,
        key@ == keys@[0]@,
{
}

/// Configured budgets are taken over level by level.
pub proof fn law_budgets_are_taken_over(
    budgets: &config::ThinkingBudgets,
    own: ThinkingBudgets,
)
    requires
        call_ensures(ThinkingBudgets::from_config, (budgets,), own),
    ensures
        own.minimal == budgets.minimal,
        own.low == budgets.low,
        own.medium == budgets.medium,
        own.high == budgets.high,
{
}

} // verus!
