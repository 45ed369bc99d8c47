use std::time::Duration;

use maki::config;
use maki::config::{LlamaCppConfig, LlamaCppServerConfig};
use maki::context_windows::{
    get_context_window, set_context_window, ContextWindows, ProviderKind,
};
use maki::json::Json;
use maki::llama_cpp::{
    compat_config, KeyPool, LlamaCpp, LoadStep, ResolvedAuth, ThinkingBudgets, ThinkingConfig,
    Timeouts, HOST_NOT_SET,
};
use maki::llama_cpp_server::{LlamaCppServer, ModelStatus, ServerModel};
use maki::message::{AgentError, Model};

const TEST_TIMEOUTS: Timeouts = Timeouts {
    connect: Duration::from_secs(10),
    low_speed: Duration::from_secs(30),
    stream: Duration::from_secs(300),
};

fn server(url: &str, api_key: Option<&str>) -> LlamaCppServerConfig {
    LlamaCppServerConfig { url: url.to_string(), api_key: api_key.map(String::from) }
}

fn from_config(config: &LlamaCppConfig) -> Result<LlamaCpp, AgentError> {
    LlamaCpp::from_config(config, config.resolve_servers(None, None), TEST_TIMEOUTS)
}

fn from_host() -> LlamaCpp {
    LlamaCpp::from_env(TEST_TIMEOUTS, None, Some("http://x:1234".into())).unwrap()
}

fn body() -> Json {
    Json::Object(vec![("model".to_string(), Json::Str("test".to_string()))])
}

fn model(id: &str) -> Model {
    Model {
        id: id.to_string(),
        provider: "llama-cpp".to_string(),
        context_window: 8192,
        max_output_tokens: None,
    }
}

fn offered(id: &str) -> ServerModel {
    ServerModel {
        id: id.to_string(),
        name: id.to_string(),
        status: ModelStatus::Loaded,
        capabilities: Vec::new(),
        context_size: 128_000,
    }
}

#[test]
fn from_env_without_host_or_api_key_errors() {
    match LlamaCpp::from_env(TEST_TIMEOUTS, None, None) {
        Err(AgentError::Config { message }) => assert_eq!(message, HOST_NOT_SET),
        Err(other) => panic!("expected Config error, got {other:?}"),
        Ok(_) => panic!("expected error when host and api_key are None"),
    }
}

#[test]
fn from_env_with_host_builds_auth() {
    let llama = from_host();
    assert_eq!(llama.auth.base_url.as_deref(), Some("http://x:1234/v1"));
    assert!(llama.auth.headers.is_empty());
}

#[test]
fn from_env_with_api_key_uses_host_with_auth() {
    let pool = KeyPool::from_keys(vec!["test-key".into()]);
    let llama =
        LlamaCpp::from_env(TEST_TIMEOUTS, Some(pool), Some("http://local:1234".into())).unwrap();
    assert_eq!(llama.auth.base_url.as_deref(), Some("http://local:1234/v1"));
    assert_eq!(llama.auth.headers.len(), 1);
    assert_eq!(llama.auth.headers[0].0, "authorization");
    assert_eq!(llama.auth.headers[0].1, "Bearer test-key");
}

#[test]
fn thinking_budgets_defaults() {
    let budgets = ThinkingBudgets::default();
    assert_eq!(budgets.minimal, 1024);
    assert_eq!(budgets.low, 2048);
    assert_eq!(budgets.medium, 8192);
    assert_eq!(budgets.high, 16384);
}

#[test]
fn inject_thinking_config_off() {
    let mut body = body();
    from_host().inject_thinking_config(&mut body, ThinkingConfig::Off);
    let kwargs = body.get("chat_template_kwargs").unwrap();
    assert!(matches!(kwargs.get("enable_thinking"), Some(Json::Bool(false))));
    assert!(body.get("thinking_budget_tokens").is_none());
    assert_eq!(body.str_member("model"), Some("test"));
}

#[test]
fn inject_thinking_config_budget() {
    let mut body = body();
    from_host().inject_thinking_config(&mut body, ThinkingConfig::Budget(4096));
    match body.get("thinking_budget_tokens") {
        Some(Json::Number { text, single_bits }) => {
            assert_eq!(text, "4096");
            assert_eq!(*single_bits, 4096f32.to_bits());
        }
        other => panic!("unexpected budget {other:?}"),
    }
    assert!(body.get("chat_template_kwargs").is_none());
}

#[test]
fn inject_thinking_config_adaptive() {
    let mut body = body();
    from_host().inject_thinking_config(&mut body, ThinkingConfig::Adaptive);
    assert!(body.get("chat_template_kwargs").is_none());
    assert!(body.get("thinking_budget_tokens").is_none());
}

#[test]
fn an_injected_member_takes_the_place_of_an_earlier_one() {
    let llama = from_host();
    let mut body = Json::Null;
    llama.inject_thinking_config(&mut body, ThinkingConfig::Budget(1));
    llama.inject_thinking_config(&mut body, ThinkingConfig::Budget(2));
    match body {
        Json::Object(members) => {
            assert_eq!(members.len(), 1);
            assert!(matches!(&members[0].1, Json::Number { text, .. } if text == "2"));
        }
        other => panic!("unexpected body {other:?}"),
    }
}

#[test]
fn from_config_with_servers() {
    let config = LlamaCppConfig {
        servers: vec![server("http://server1:8080", Some("key1"))],
        thinking_budgets: config::ThinkingBudgets {
            minimal: 512,
            low: 1024,
            medium: 4096,
            high: 8192,
        },
        auto_load: false,
    };
    let llama = from_config(&config).unwrap();
    assert_eq!(llama.servers.len(), 1);
    assert_eq!(llama.servers[0].url, "http://server1:8080");
    assert_eq!(llama.thinking_budgets.minimal, 512);
    assert!(!llama.auto_load);
    assert_eq!(llama.auth.base_url.as_deref(), Some("http://server1:8080/v1"));
    assert_eq!(llama.auth.headers[0].1, "Bearer key1");
}

#[test]
fn from_config_with_multiple_servers() {
    let config = LlamaCppConfig {
        servers: vec![
            server("http://server1:8080", None),
            server("http://server2:9090", Some("key2")),
        ],
        thinking_budgets: config::ThinkingBudgets::default(),
        auto_load: true,
    };
    let llama = from_config(&config).unwrap();
    assert_eq!(llama.servers.len(), 2);
    assert_eq!(llama.servers[0].url, "http://server1:8080");
    assert_eq!(llama.servers[1].url, "http://server2:9090");
    assert!(llama.auto_load);
    assert!(llama.auth.headers.is_empty());
}

#[test]
fn from_config_strips_trailing_slash() {
    let config = LlamaCppConfig {
        servers: vec![server("http://server1:8080/", None)],
        thinking_budgets: config::ThinkingBudgets::default(),
        auto_load: true,
    };
    let llama = from_config(&config).unwrap();
    assert_eq!(llama.servers[0].url, "http://server1:8080");
}

#[test]
fn from_config_no_servers_falls_back_to_default() {
    let config = LlamaCppConfig {
        servers: vec![],
        thinking_budgets: config::ThinkingBudgets::default(),
        auto_load: true,
    };
    let llama = from_config(&config).unwrap();
    assert_eq!(llama.servers[0].url, "http://127.0.0.1:8080");
    let named = config.resolve_servers(None, Some("http://h".to_string()));
    assert_eq!(named[0].url, "http://h");
    let both = config.resolve_servers(Some("http://s".to_string()), Some("http://h".to_string()));
    assert_eq!(both[0].url, "http://s");
    assert!(both[0].api_key.is_none());
}

#[test]
fn from_config_needs_a_server() {
    let config = LlamaCppConfig {
        servers: vec![],
        thinking_budgets: config::ThinkingBudgets::default(),
        auto_load: true,
    };
    match LlamaCpp::from_config(&config, Vec::new(), TEST_TIMEOUTS) {
        Err(AgentError::Config { message }) => {
            assert_eq!(message, "no llama-cpp servers configured")
        }
        other => panic!("unexpected provider {other:?}"),
    }
}

#[test]
fn resolve_server_for_model_returns_first_when_no_match() {
    let llama = from_host();
    assert!(llama.servers.is_empty(), "no servers configured via env");
    assert!(llama.resolve_server_for_model(&model("m")).is_none());
}

#[test]
fn resolve_server_for_model_finds_the_first_that_offers_it() {
    let mut llama = from_host();
    for url in ["http://a", "http://b", "http://c"] {
        llama.servers.push(LlamaCppServer::new(url, None));
    }
    assert_eq!(llama.resolve_server_for_model(&model("m")).unwrap().url, "http://a");
    llama.servers[1].models.push(offered("x"));
    llama.servers[1].models.push(offered("m"));
    llama.servers[2].models.push(offered("m"));
    assert_eq!(llama.resolve_server_for_model(&model("m")).unwrap().url, "http://b");
    assert_eq!(llama.resolve_server_for_model(&model("y")).unwrap().url, "http://a");
}

#[test]
fn only_an_unloaded_model_is_loaded() {
    let mut llama = from_host();
    assert_eq!(llama.ensure_model_loaded(None), LoadStep::Done);
    llama.servers.push(LlamaCppServer::new("http://a", None));
    assert_eq!(llama.ensure_model_loaded(None), LoadStep::AskStatus);
    assert_eq!(
        llama.ensure_model_loaded(Some(ModelStatus::Unloaded)),
        LoadStep::Load { timeout_secs: 120 }
    );
    assert_eq!(llama.ensure_model_loaded(Some(ModelStatus::Loading)), LoadStep::Done);
    llama.auto_load = false;
    assert_eq!(llama.ensure_model_loaded(None), LoadStep::Done);
}

#[test]
fn models_are_listed_once_and_in_order() {
    let answers = vec![
        Some(vec![offered("b"), offered("d")]),
        None,
        Some(vec![offered("a"), offered("b"), offered("B"), offered("é"), offered("z")]),
    ];
    assert_eq!(LlamaCpp::list_models(&answers), ["B", "a", "b", "d", "z", "é"]);
    assert!(LlamaCpp::list_models(&vec![None]).is_empty());
}

#[test]
fn a_rotated_key_is_carried_by_requests() {
    let pool = KeyPool::from_keys(vec!["one".to_string(), "two".to_string()]);
    let mut llama =
        LlamaCpp::from_env(TEST_TIMEOUTS, Some(pool), Some("http://x".to_string())).unwrap();
    assert!(!llama.rotate_key(None));
    assert_eq!(llama.auth.headers[0].1, "Bearer one");
    assert!(llama.rotate_key(Some(1)));
    assert_eq!(llama.auth.headers.len(), 1);
    assert_eq!(llama.auth.headers[0].1, "Bearer two");
    assert_eq!(llama.auth.base_url.as_deref(), Some("http://x/v1"));
    assert_eq!(llama.key_pool.as_ref().unwrap().current(), "two");
    assert!(!from_host().rotate_key(Some(0)));
}

#[test]
fn with_auth_knows_no_servers() {
    let auth = ResolvedAuth { base_url: None, headers: Vec::new() };
    let llama = LlamaCpp::with_auth(auth, TEST_TIMEOUTS).with_system_prefix(Some("p".to_string()));
    assert!(llama.servers.is_empty());
    assert!(llama.auto_load);
    assert_eq!(llama.system_prefix.as_deref(), Some("p"));
}

#[test]
fn the_protocol_is_that_of_openai() {
    let config = compat_config();
    assert_eq!(config.api_key_env, "");
    assert_eq!(config.base_url, "http://localhost:8080/v1");
    assert_eq!(config.max_tokens_field, "max_tokens");
    assert!(config.include_stream_usage);
    assert_eq!(config.provider_name, "LlamaCpp");
}

#[test]
fn the_last_window_of_a_model_is_known() {
    let mut windows = ContextWindows::new();
    assert_eq!(get_context_window(&windows, ProviderKind::LlamaCpp, "m"), None);
    set_context_window(&mut windows, ProviderKind::LlamaCpp, "m".to_string(), 1);
    set_context_window(&mut windows, ProviderKind::Ollama, "m".to_string(), 2);
    set_context_window(&mut windows, ProviderKind::LlamaCpp, "m".to_string(), 3);
    assert_eq!(get_context_window(&windows, ProviderKind::LlamaCpp, "m"), Some(3));
    assert_eq!(get_context_window(&windows, ProviderKind::Ollama, "m"), Some(2));
    assert_eq!(get_context_window(&windows, ProviderKind::Ollama, "n"), None);
}
