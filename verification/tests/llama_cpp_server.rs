use maki::llama_cpp_server::{
    LlamaCppServer, ModelCapability, ModelData, ModelMeta, ModelStatus, ModelsResponse, PollStep,
    PropError, PropsResponse, ServerMode, ServerModel, SingleModelData,
};
use maki::message::AgentError;

fn default_props() -> PropsResponse {
    PropsResponse {
        role: String::new(),
        error: None,
        modalities: Vec::new(),
        is_sleeping: false,
        chat_template_caps: Vec::new(),
        n_ctx: None,
    }
}

fn refused(code: u16, message: &str) -> PropsResponse {
    PropsResponse {
        error: Some(PropError { code, message: message.to_string() }),
        ..default_props()
    }
}

fn described(model: &str) -> ModelData {
    ModelData {
        model: model.to_string(),
        aliases: Vec::new(),
        meta: ModelMeta { n_ctx: None },
        status: String::new(),
        architecture: None,
    }
}

fn nothing() -> ModelsResponse {
    ModelsResponse { data: Vec::new(), models: Vec::new() }
}

fn offered(id: &str, context_size: u32) -> ServerModel {
    ServerModel {
        id: id.to_string(),
        name: id.to_string(),
        status: ModelStatus::Loaded,
        capabilities: vec![ModelCapability::Text, ModelCapability::Image],
        context_size,
    }
}

#[test]
fn new_strips_trailing_slash() {
    let server = LlamaCppServer::new("http://localhost:8080/", None);
    assert_eq!(server.url, "http://localhost:8080");
}

#[test]
fn new_preserves_url_without_trailing_slash() {
    let server = LlamaCppServer::new("http://localhost:8080", Some("key".into()));
    assert_eq!(server.url, "http://localhost:8080");
    assert_eq!(server.api_key.as_deref(), Some("key"));
}

#[test]
fn new_strips_one_slash_only() {
    assert_eq!(LlamaCppServer::new("http://x//", None).url, "http://x/");
    assert_eq!(LlamaCppServer::new("", None).url, "");
}

#[test]
fn model_status_from_props_loaded() {
    let props = PropsResponse {
        role: String::new(),
        error: None,
        modalities: vec!["text".into()],
        is_sleeping: false,
        chat_template_caps: vec![],
        n_ctx: Some(8192),
    };
    assert!(props.error.is_none());
    assert!(!props.is_sleeping);
    assert_eq!(LlamaCppServer::model_status(&props), ModelStatus::Loaded);
}

#[test]
fn model_status_from_props_sleeping() {
    let props = PropsResponse { is_sleeping: true, ..default_props() };
    assert!(props.is_sleeping);
    assert_eq!(LlamaCppServer::model_status(&props), ModelStatus::Sleeping);
    let asleep = PropsResponse { is_sleeping: true, ..refused(503, "Loading") };
    assert_eq!(LlamaCppServer::model_status(&asleep), ModelStatus::Sleeping);
}

#[test]
fn model_status_from_props_unauthorized() {
    let props = refused(401, "Unauthorized");
    assert_eq!(props.error.as_ref().unwrap().code, 401);
    assert_eq!(LlamaCppServer::model_status(&props), ModelStatus::Unauthorized);
}

#[test]
fn model_status_from_props_loading() {
    let props = refused(503, "Loading");
    assert_eq!(props.error.as_ref().unwrap().code, 503);
    assert_eq!(LlamaCppServer::model_status(&props), ModelStatus::Loading);
}

#[test]
fn model_status_from_props_unloaded() {
    let props = refused(400, "model is not loaded");
    let err = props.error.as_ref().unwrap();
    assert_eq!(err.code, 400);
    assert!(err.message.contains("model is not loaded"));
    assert_eq!(LlamaCppServer::model_status(&props), ModelStatus::Unloaded);
}

#[test]
fn model_status_from_props_failed() {
    assert_eq!(LlamaCppServer::model_status(&refused(400, "bad")), ModelStatus::Failed);
    assert_eq!(
        LlamaCppServer::model_status(&refused(500, "model is not loaded")),
        ModelStatus::Failed
    );
}

#[test]
fn server_mode_router() {
    let props = PropsResponse { role: "router".into(), ..default_props() };
    assert_eq!(props.role, "router");
    assert_eq!(LlamaCppServer::detect_mode(&props, None), Some(ServerMode::Router));
}

#[test]
fn server_mode_single() {
    let props = PropsResponse { role: String::new(), ..default_props() };
    assert_eq!(props.role, "");
    assert_eq!(LlamaCppServer::detect_mode(&props, None), None);
    let models = [offered("a", 128_000), offered("b", 128_000)];
    assert_eq!(LlamaCppServer::detect_mode(&props, Some(&models)), Some(ServerMode::Single));
    assert_eq!(LlamaCppServer::detect_mode(&props, Some(&[])), Some(ServerMode::Single));
}

#[test]
fn server_mode_legacy() {
    let models = [offered("a", 128_000), offered("b", 4096)];
    assert_eq!(
        LlamaCppServer::detect_mode(&default_props(), Some(&models)),
        Some(ServerMode::Legacy)
    );
}

#[test]
fn model_capability_text_only() {
    let caps: Vec<ModelCapability> = vec![ModelCapability::Text];
    assert_eq!(caps.len(), 1);
    assert!(!caps.contains(&ModelCapability::Image));
}

#[test]
fn model_capability_multimodal() {
    let caps: Vec<ModelCapability> = vec![ModelCapability::Text, ModelCapability::Image];
    assert_eq!(caps.len(), 2);
    assert!(caps.contains(&ModelCapability::Image));
}

#[test]
fn model_status_enum_variants() {
    assert_eq!(ModelStatus::Loaded, ModelStatus::Loaded);
    assert_eq!(ModelStatus::Loading, ModelStatus::Loading);
    assert_eq!(ModelStatus::Failed, ModelStatus::Failed);
    assert_eq!(ModelStatus::Sleeping, ModelStatus::Sleeping);
    assert_eq!(ModelStatus::Unloaded, ModelStatus::Unloaded);
    assert_eq!(ModelStatus::Unauthorized, ModelStatus::Unauthorized);
    assert_ne!(ModelStatus::Loaded, ModelStatus::Unloaded);
}

#[test]
fn server_mode_enum_variants() {
    assert_eq!(ServerMode::Router, ServerMode::Router);
    assert_eq!(ServerMode::Single, ServerMode::Single);
    assert_eq!(ServerMode::Legacy, ServerMode::Legacy);
}

#[test]
fn health_by_status() {
    assert_eq!(LlamaCppServer::health(Some(200)), ModelStatus::Loaded);
    assert_eq!(LlamaCppServer::health(Some(401)), ModelStatus::Unauthorized);
    assert_eq!(LlamaCppServer::health(Some(503)), ModelStatus::Unloaded);
    assert_eq!(LlamaCppServer::health(None), ModelStatus::Unloaded);
}

#[test]
fn models_are_described_and_sorted() {
    let body = ModelsResponse {
        data: vec![
            ModelData {
                aliases: vec!["zed".to_string(), "zz".to_string()],
                status: "loading".to_string(),
                architecture: Some("big-clip-1".to_string()),
                ..described("z")
            },
            ModelData { status: "loaded".to_string(), ..described("a") },
            ModelData {
                meta: ModelMeta { n_ctx: Some(32_768) },
                architecture: Some("llama".to_string()),
                ..described("m")
            },
        ],
        models: vec![SingleModelData { model: "ignored".to_string() }],
    };
    let models = LlamaCppServer::fetch_models(200, body);
    let ids: Vec<&str> = models.iter().map(|m| m.id.as_str()).collect();
    assert_eq!(ids, ["a", "m", "z"]);
    assert_eq!(models[0].name, "a");
    assert_eq!(models[0].status, ModelStatus::Loaded);
    assert_eq!(models[0].context_size, 128_000);
    assert_eq!(models[1].context_size, 32_768);
    assert_eq!(models[1].status, ModelStatus::Unloaded);
    assert_eq!(models[1].capabilities, vec![ModelCapability::Text]);
    assert_eq!(models[2].name, "zed");
    assert_eq!(models[2].status, ModelStatus::Loading);
    assert_eq!(models[2].capabilities, vec![ModelCapability::Text, ModelCapability::Image]);
}

#[test]
fn models_with_one_id_keep_their_order() {
    let first = ModelData { status: "failed".to_string(), ..described("b") };
    let second = ModelData { status: "sleeping".to_string(), ..described("b") };
    let third = ModelData { architecture: Some("mllama".to_string()), ..described("a") };
    let body = ModelsResponse { data: vec![first, second, third], models: Vec::new() };
    let models = LlamaCppServer::fetch_models(200, body);
    assert_eq!(models[0].capabilities.len(), 2);
    assert_eq!(models[1].status, ModelStatus::Failed);
    assert_eq!(models[2].status, ModelStatus::Sleeping);
}

#[test]
fn named_models_stand_in_for_described_ones() {
    let body = ModelsResponse {
        data: Vec::new(),
        models: vec![
            SingleModelData { model: "model-2".to_string() },
            SingleModelData { model: "model-1".to_string() },
        ],
    };
    let models = LlamaCppServer::fetch_models(200, body);
    assert_eq!(models.len(), 2);
    assert_eq!(models[0].id, "model-1");
    assert_eq!(models[0].name, "model-1");
    assert_eq!(models[0].status, ModelStatus::Loaded);
    assert_eq!(models[0].context_size, 128_000);
}

#[test]
fn a_failed_list_offers_nothing() {
    let body = ModelsResponse { data: vec![described("a")], models: Vec::new() };
    assert!(LlamaCppServer::fetch_models(404, body).is_empty());
    assert!(LlamaCppServer::fetch_models(200, nothing()).is_empty());
}

#[test]
fn unreadable_props_are_an_error() {
    let props = LlamaCppServer::fetch_props(None, 400, "model is not loaded: x".to_string());
    assert_eq!(LlamaCppServer::model_status(&props), ModelStatus::Unloaded);
    assert_eq!(props.error.unwrap().code, 400);
    let read = LlamaCppServer::fetch_props(
        Some(PropsResponse { n_ctx: Some(7), ..default_props() }),
        200,
        String::new(),
    );
    assert_eq!(read.n_ctx, Some(7));
}

#[test]
fn context_size_by_props_and_by_list() {
    let models = [offered("a", 1), offered("b", 2), offered("b", 3)];
    let told = PropsResponse { n_ctx: Some(131_072), ..default_props() };
    assert_eq!(LlamaCppServer::context_size("b", &told, None), Some(131_072));
    assert_eq!(LlamaCppServer::context_size("b", &default_props(), None), None);
    assert_eq!(LlamaCppServer::context_size("b", &default_props(), Some(&models)), Some(2));
    assert_eq!(LlamaCppServer::context_size("c", &default_props(), Some(&models)), Some(128_000));
}

#[test]
fn capabilities_by_list_and_by_props() {
    let models = [offered("a", 1)];
    let both = vec![ModelCapability::Text, ModelCapability::Image];
    assert_eq!(LlamaCppServer::capabilities("a", &models, None), Some(both.clone()));
    assert_eq!(LlamaCppServer::capabilities("b", &models, None), None);
    assert_eq!(
        LlamaCppServer::capabilities("b", &models, Some(&default_props())),
        Some(vec![ModelCapability::Text])
    );
    let sees = PropsResponse {
        modalities: vec!["text".to_string(), "image".to_string()],
        ..default_props()
    };
    assert_eq!(LlamaCppServer::capabilities("b", &models, Some(&sees)), Some(both));
}

#[test]
fn requests_carry_the_key() {
    let open = LlamaCppServer::new("http://localhost:8080/", None);
    let health = open.health_request();
    assert_eq!(health.method, "GET");
    assert_eq!(health.uri, "http://localhost:8080/health");
    assert!(health.headers.is_empty());
    assert!(health.body.is_empty());
    assert_eq!(open.models_request().uri, "http://localhost:8080/v1/models");
    assert_eq!(open.props_request(None).uri, "http://localhost:8080/props");
    assert_eq!(
        open.props_request(Some("a%2Fb")).uri,
        "http://localhost:8080/props?model=a%2Fb&autoload=false"
    );
    let closed = LlamaCppServer::new("http://x", Some("k".to_string()));
    assert_eq!(
        closed.models_request().headers,
        vec![("Authorization".to_string(), "Bearer k".to_string())]
    );
}

#[test]
fn commands_name_the_model_in_json() {
    let server = LlamaCppServer::new("http://x", Some("k".to_string()));
    let load = server.load_model("a \"b\"");
    assert_eq!(load.method, "POST");
    assert_eq!(load.uri, "http://x/models/load");
    assert_eq!(load.headers.len(), 2);
    assert_eq!(load.headers[1], ("Content-Type".to_string(), "application/json".to_string()));
    assert_eq!(load.body, b"{\"model\":\"a \\\"b\\\"\"}".to_vec());
    let unload = server.unload_model("m");
    assert_eq!(unload.uri, "http://x/models/unload");
    assert_eq!(unload.body, b"{\"model\":\"m\"}".to_vec());
    let odd = server.load_model("\u{0}\u{1f}\u{8}\t\n\u{c}\r\\/\u{7f}\u{e9}\u{1f600}");
    assert_eq!(
        odd.body,
        "{\"model\":\"\\u0000\\u001f\\b\\t\\n\\f\\r\\\\/\u{7f}\u{e9}\u{1f600}\"}".as_bytes().to_vec()
    );
}

#[test]
fn commands_succeed_or_tell_why() {
    assert!(LlamaCppServer::command_outcome(200, String::new()).is_ok());
    assert!(LlamaCppServer::command_outcome(299, String::new()).is_ok());
    for status in [199u16, 300, 500] {
        match LlamaCppServer::command_outcome(status, "no".to_string()) {
            Err(AgentError::Api { status: told, message }) => {
                assert_eq!(told, status);
                assert_eq!(message, "no");
            }
            other => panic!("unexpected outcome {other:?}"),
        }
    }
}

#[test]
fn polling_ends_as_the_model_does() {
    let step = |status, late| LlamaCppServer::poll_until_loaded("m", status, late, 120);
    assert!(matches!(step(ModelStatus::Loaded, true), PollStep::Ready));
    assert!(matches!(step(ModelStatus::Sleeping, false), PollStep::Ready));
    assert!(matches!(step(ModelStatus::Loading, false), PollStep::Wait));
    assert!(matches!(step(ModelStatus::Unloaded, false), PollStep::Wait));
    assert!(matches!(
        step(ModelStatus::Unloaded, true),
        PollStep::Failed { error: AgentError::Timeout { secs: 120 } }
    ));
    match step(ModelStatus::Failed, false) {
        PollStep::Failed { error: AgentError::Api { status, message } } => {
            assert_eq!(status, 500);
            assert_eq!(message, "model m failed to load");
        }
        other => panic!("unexpected step {other:?}"),
    }
    match step(ModelStatus::Unauthorized, true) {
        PollStep::Failed { error: AgentError::Api { status, message } } => {
            assert_eq!(status, 401);
            assert_eq!(message, "model m unauthorized");
        }
        other => panic!("unexpected step {other:?}"),
    }
}
