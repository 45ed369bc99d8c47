use maki::json::Json;
use maki::llama_cpp_sse::{
    event_update, health_loading, health_url, is_open, process_event, reset_state, sse_url, LoadingStatus,
    LoadingUpdate, ModelLoadingState, SseEnvelope, SseLines,
};

fn text(s: &str) -> Json {
    Json::Str(s.to_string())
}

fn number(written: &str, value: f32) -> Json {
    Json::Number { text: written.to_string(), single_bits: value.to_bits() }
}

fn object(members: Vec<(&str, Json)>) -> Json {
    Json::Object(members.into_iter().map(|(k, v)| (k.to_string(), v)).collect())
}

fn make_envelope(event: &str, data: Json) -> SseEnvelope {
    SseEnvelope { model: "test-model".into(), event_type: event.into(), data: Some(data) }
}

fn progress(state: &ModelLoadingState) -> f32 {
    f32::from_bits(state.progress_bits)
}

#[test]
fn sse_url_builds_correctly() {
    let cases: [(Option<&str>, &str, &str); 3] = [
        (
            Some("http://localhost:8080/v1"),
            "http://localhost:8080/v1",
            "http://localhost:8080/models/sse",
        ),
        (
            Some("http://localhost:8080"),
            "http://localhost:8080/v1",
            "http://localhost:8080/models/sse",
        ),
        (None, "http://localhost:8080/v1", "http://localhost:8080/models/sse"),
    ];
    for (base_url, compat, expected) in cases {
        assert_eq!(sse_url(base_url, compat).as_deref(), Some(expected));
        assert_eq!(health_url(expected), "http://localhost:8080/health");
    }
}

#[test]
fn model_loading_state_defaults_to_idle() {
    let state = ModelLoadingState::default();
    assert_eq!(state.status, LoadingStatus::Idle);
    assert_eq!(progress(&state), 0.0);
    assert!(state.model.is_empty());
}

#[test]
fn model_loading_state_clone_works() {
    let state = ModelLoadingState {
        model: "test".into(),
        stage: "text_model".into(),
        stages: vec!["text_model".into()],
        progress_bits: 0.5f32.to_bits(),
        status: LoadingStatus::Loading,
    };
    let cloned = state.clone();
    assert_eq!(cloned.model, "test");
    assert_eq!(cloned.status, LoadingStatus::Loading);
    assert_eq!(cloned.stages, ["text_model"]);
}

#[test]
fn model_status_loading_sets_loading() {
    let mut state = ModelLoadingState::default();
    let envelope = make_envelope("model_status", object(vec![("status", text("loading"))]));
    process_event(&envelope, &mut state);
    assert_eq!(state.status, LoadingStatus::Loading);
    assert_eq!(state.model, "test-model");
    assert_eq!(progress(&state), 0.0);
}

#[test]
fn status_change_loading_updates_progress() {
    let mut state = ModelLoadingState::default();
    let envelope = make_envelope(
        "status_change",
        object(vec![
            ("status", text("loading")),
            (
                "progress",
                object(vec![
                    ("stages", Json::Array(vec![text("text_model"), text("spec_model")])),
                    ("current", text("text_model")),
                    ("value", number("0.45", 0.45)),
                ]),
            ),
        ]),
    );
    process_event(&envelope, &mut state);
    assert_eq!(state.status, LoadingStatus::Loading);
    assert_eq!(progress(&state), 0.45);
    assert_eq!(state.stage, "text_model");
    assert_eq!(state.stages.len(), 2);
}

#[test]
fn status_change_loaded_sets_ready() {
    let mut state = ModelLoadingState::default();
    let envelope = make_envelope(
        "status_change",
        object(vec![("status", text("loaded")), ("info", object(vec![]))]),
    );
    process_event(&envelope, &mut state);
    assert_eq!(state.status, LoadingStatus::Ready);
    assert_eq!(progress(&state), 1.0);
}

#[test]
fn status_change_unloaded_sets_failed() {
    let mut state = ModelLoadingState::default();
    let envelope = make_envelope(
        "status_change",
        object(vec![("status", text("unloaded")), ("exit_code", number("1", 1.0))]),
    );
    process_event(&envelope, &mut state);
    assert_eq!(state.status, LoadingStatus::Failed);
}

#[test]
fn unknown_event_ignored() {
    let mut state = ModelLoadingState::default();
    let envelope = make_envelope("unknown_event", object(vec![("foo", text("bar"))]));
    process_event(&envelope, &mut state);
    assert_eq!(state.status, LoadingStatus::Idle);
}

#[test]
fn missing_data_ignored() {
    let mut state = ModelLoadingState::default();
    let envelope =
        SseEnvelope { model: "test".into(), event_type: "model_status".into(), data: None };
    process_event(&envelope, &mut state);
    assert_eq!(state.status, LoadingStatus::Idle);
}

#[test]
fn status_change_loading_missing_progress_ignored() {
    let mut state = ModelLoadingState::default();
    let envelope = make_envelope("status_change", object(vec![("status", text("loading"))]));
    process_event(&envelope, &mut state);
    assert_eq!(state.status, LoadingStatus::Idle);
}

#[test]
fn resets_to_idle_preserving_model() {
    let mut state = ModelLoadingState {
        model: "test".into(),
        stage: "text_model".into(),
        stages: vec![],
        progress_bits: 0.5f32.to_bits(),
        status: LoadingStatus::Loading,
    };
    reset_state(&mut state);
    assert_eq!(state.status, LoadingStatus::Idle);
    assert_eq!(state.model, "test");
}

#[test]
fn health_tells_whether_a_model_is_ready() {
    assert_eq!(health_loading(Some(200)), Some(LoadingStatus::Ready));
    assert_eq!(health_loading(Some(299)), Some(LoadingStatus::Ready));
    assert_eq!(health_loading(Some(503)), Some(LoadingStatus::Loading));
    assert_eq!(health_loading(None), None);
    assert!(is_open(Some(204)));
    assert!(!is_open(Some(404)));
    assert!(!is_open(None));
}

#[test]
fn lines_make_events() {
    let mut lines = SseLines::new();
    assert_eq!(lines.feed(": comment"), None);
    assert_eq!(lines.feed("event: status_change"), None);
    assert_eq!(lines.feed("data:{\"a\":"), None);
    assert_eq!(lines.feed("data: 1}\r"), None);
    assert_eq!(lines.feed("  ").as_deref(), Some("{\"a\":\n1}"));
    let event = lines.accept(SseEnvelope {
        model: "m".to_string(),
        event_type: "own".to_string(),
        data: None,
    });
    assert_eq!(event.event_type, "status_change");
    assert_eq!(event.model, "m");
    assert_eq!(lines.feed(""), None);
    assert_eq!(lines.feed("data: x"), None);
    assert_eq!(lines.feed("").as_deref(), Some("x"));
    let event = lines.accept(SseEnvelope {
        model: "m".to_string(),
        event_type: "own".to_string(),
        data: None,
    });
    assert_eq!(event.event_type, "own");
}

#[test]
fn a_payload_that_is_not_accepted_stays() {
    let mut lines = SseLines::new();
    lines.feed("data: broken");
    assert_eq!(lines.feed("").as_deref(), Some("broken"));
    assert_eq!(lines.feed("data: more"), None);
    assert_eq!(lines.feed("").as_deref(), Some("broken\nmore"));
}

#[test]
fn updates_change_what_they_tell_of() {
    let state = ModelLoadingState {
        model: "m".to_string(),
        stage: "s".to_string(),
        stages: vec!["s".to_string()],
        progress_bits: 0.25f32.to_bits(),
        status: LoadingStatus::Loading,
    };
    let healthy = LoadingUpdate::Health { status: LoadingStatus::Ready }.apply(&state);
    assert_eq!(healthy.status, LoadingStatus::Ready);
    assert_eq!(healthy.model, "m");
    let gone = LoadingUpdate::Unloaded.apply(&state);
    assert_eq!(gone.status, LoadingStatus::Failed);
    assert_eq!(progress(&gone), 0.25);
    assert!(event_update(&make_envelope("status_change", Json::Null)).is_none());
}
