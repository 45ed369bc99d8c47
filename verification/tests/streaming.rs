use maki::message::{
    AgentError, ContentBlock, Message, Model, Role, StopReason, StreamResponse, TokenUsage,
};
use maki::streaming::{
    after_backoff, api_error, api_request, canonical_tool_name, canonicalize_tool_names,
    error_description, forward_event, AgentEvent, Attempt, Directive, Failure, ProviderEvent,
    StreamError, StreamRetry,
};
use serde_json::Value;

const SECRET_BODY: &str = "messages.0.content: \"my private prompt\", key sk-abc";

fn empty_object() -> Value {
    Value::Object(serde_json::Map::new())
}

fn model() -> Model {
    Model {
        id: "gpt-4o".to_string(),
        provider: "openai".to_string(),
        context_window: 262_144,
        max_output_tokens: Some(100_000),
    }
}

fn failure() -> Failure {
    Failure {
        retryable: false,
        timeout: false,
        rotates_key: false,
        context_overflow: false,
        reported_prompt_tokens: None,
    }
}

#[test]
fn tool_use_names_canonicalized() {
    let mut message = Message {
        role: Role::Assistant,
        content: vec![
            ContentBlock::Text { text: "hi".to_string() },
            ContentBlock::tool_use("t1", "functions.bash", &empty_object()),
            ContentBlock::tool_use("t2", "read", &empty_object()),
            ContentBlock::tool_use("t3", "my_functions.x", &empty_object()),
        ],
    };
    canonicalize_tool_names(&mut message);
    let names: Vec<&str> = message
        .content
        .iter()
        .filter_map(|b| match b {
            ContentBlock::ToolUse { name, .. } => Some(name.as_str()),
            _ => None,
        })
        .collect();
    assert_eq!(names, ["bash", "read", "my_functions.x"]);
}

#[test]
fn one_prefix_is_stripped_from_a_tool_name() {
    assert_eq!(canonical_tool_name("functions.functions.x"), "functions.x");
    assert_eq!(canonical_tool_name("functions."), "");
    assert_eq!(canonical_tool_name("bash"), "bash");
}

#[test]
fn a_tool_call_holds_its_input_as_compact_text() {
    let mut members = serde_json::Map::new();
    members.insert("path".to_string(), Value::from("a\"b"));
    members.insert("lines".to_string(), Value::Array(vec![Value::from(1), Value::from(true)]));
    let input = Value::Object(members);
    match ContentBlock::tool_use("t1", "read", &input) {
        ContentBlock::ToolUse { id, name, input: text } => {
            assert_eq!(id, "t1");
            assert_eq!(name, "read");
            assert_eq!(text, "{\"lines\":[1,true],\"path\":\"a\\\"b\"}");
        }
        other => panic!("unexpected block {other:?}"),
    }
}

#[test]
fn a_reported_api_error_leaves_the_provider_body_behind() {
    let error = AgentError::Api { status: 400, message: SECRET_BODY.to_string() };
    let reported = error_description(&error);
    assert!(!reported.contains("private"));
    assert_eq!(reported, "API error (400)");
}

#[test]
fn overflow_rejection_reclamps_and_retries_once() {
    let model = model();
    let mut budgets = vec![model.with_output_budget(0).max_output_tokens];
    let mut retry = StreamRetry::new(0, 0, 5);
    let rejected = Attempt::Failed(Failure {
        context_overflow: true,
        reported_prompt_tokens: Some(162_145),
        ..failure()
    });
    match retry.after(rejected) {
        Directive::Reclamp { prompt_tokens } => {
            budgets.push(model.with_output_budget(prompt_tokens).max_output_tokens);
        }
        other => panic!("unexpected directive {other:?}"),
    }
    let mut answered = retry;
    assert_eq!(answered.after(Attempt::Answered), Directive::Return);
    assert_eq!(budgets, vec![Some(100_000), Some(97_378)]);
    // A second rejection is final.
    let again = Attempt::Failed(Failure {
        context_overflow: true,
        reported_prompt_tokens: Some(200_000),
        ..failure()
    });
    assert_eq!(retry.after(again), Directive::Fail { attempt: 1 });
}

#[test]
fn a_shorter_reported_prompt_is_no_reason_to_try_again() {
    let mut retry = StreamRetry::new(170_000, 10, 5);
    assert_eq!(retry.measured_prompt, 170_000);
    let rejected = Attempt::Failed(Failure {
        context_overflow: true,
        reported_prompt_tokens: Some(162_145),
        ..failure()
    });
    assert_eq!(retry.after(rejected), Directive::Fail { attempt: 1 });
}

#[test]
fn timeouts_are_retried_as_often_as_allowed() {
    let mut retry = StreamRetry::new(0, 7, 2);
    let late = Attempt::Failed(Failure { retryable: true, timeout: true, ..failure() });
    assert_eq!(retry.after(late), Directive::Retry { attempt: 1, rotate_key: false });
    assert_eq!(retry.after(late), Directive::Retry { attempt: 2, rotate_key: false });
    assert_eq!(retry.after(late), Directive::GiveUp { attempt: 3, rotate_key: false });
}

#[test]
fn other_failures_are_retried_without_end() {
    let mut retry = StreamRetry::new(0, 0, 0);
    let busy = Attempt::Failed(Failure { retryable: true, rotates_key: true, ..failure() });
    for attempt in 1..=20 {
        assert_eq!(retry.after(busy), Directive::Retry { attempt, rotate_key: true });
    }
    assert_eq!(retry.after(Attempt::Cancelled), Directive::Cancel);
}

#[test]
fn a_cancelled_wait_carries_no_text() {
    assert!(after_backoff(false).is_ok());
    match after_backoff(true) {
        Err(StreamError::Cancelled { streamed }) => assert!(streamed.is_empty()),
        other => panic!("unexpected result {other:?}"),
    }
}

#[test]
fn stream_errors_turn_into_agent_errors_and_back() {
    let cancelled = StreamError::Cancelled { streamed: "half".to_string() };
    assert!(matches!(AgentError::from(cancelled), AgentError::Cancelled));
    let error = StreamError::from(AgentError::Timeout { secs: 3 });
    assert!(matches!(AgentError::from(error), AgentError::Timeout { secs: 3 }));
}

#[test]
fn events_are_passed_on_and_text_is_kept() {
    let mut streamed = String::new();
    let events = vec![
        ProviderEvent::TextDelta { text: "Hel".to_string() },
        ProviderEvent::ThinkingDelta { text: "hm".to_string() },
        ProviderEvent::TextDelta { text: "lo".to_string() },
        ProviderEvent::ToolUseStart { id: "t".to_string(), name: "functions.bash".to_string() },
        ProviderEvent::PromptProgress { processed: 1, total: 2, cache: 3 },
    ];
    let out: Vec<AgentEvent> =
        events.into_iter().map(|e| forward_event(e, &mut streamed)).collect();
    assert_eq!(streamed, "Hello");
    assert!(matches!(&out[0], AgentEvent::TextDelta { text } if text == "Hel"));
    assert!(matches!(&out[1], AgentEvent::ThinkingDelta { text } if text == "hm"));
    assert!(matches!(&out[3], AgentEvent::ToolPending { id, name } if id == "t" && name == "bash"));
    assert!(matches!(&out[4], AgentEvent::PromptProgress { processed: 1, total: 2, cache: 3 }));
}

#[test]
fn a_budget_leaves_a_hundredth_of_the_window() {
    let clamped = model().with_output_budget(162_145);
    assert_eq!(clamped.max_output_tokens, Some(262_144 - 162_145 - 2_621));
    assert_eq!(model().with_output_budget(300_000).max_output_tokens, Some(0));
    let open = Model { max_output_tokens: None, ..model() };
    assert_eq!(open.with_output_budget(162_145).max_output_tokens, None);
}

#[test]
fn records_hold_what_was_counted() {
    let response = StreamResponse {
        message: Message { role: Role::Assistant, content: Vec::new() },
        usage: TokenUsage { input: 1, output: 2, cache_read: 3, cache_creation: 4 },
        stop_reason: Some(StopReason::EndTurn),
    };
    let record = api_request(&model(), &response);
    assert_eq!(record.model, "gpt-4o");
    assert_eq!(record.provider, "openai");
    assert_eq!(record.input_tokens, 1);
    assert_eq!(record.output_tokens, 2);
    assert_eq!(record.cache_read_tokens, 3);
    assert_eq!(record.cache_creation_tokens, 4);
    assert_eq!(record.stop_reason, Some(StopReason::EndTurn));

    let error = AgentError::Api { status: 529, message: SECRET_BODY.to_string() };
    let record = api_error(&model(), &error, 4);
    assert_eq!(record.error, "API error (529)");
    assert_eq!(record.status_code, Some(529));
    assert_eq!(record.attempt, 4);
    let record = api_error(&model(), &AgentError::Timeout { secs: 30 }, 1);
    assert_eq!(record.status_code, None);
}

#[test]
fn errors_describe_themselves() {
    assert_eq!(AgentError::Cancelled.describe(), "cancelled");
    assert_eq!(
        AgentError::Config { message: "no key".to_string() }.describe(),
        "config error: no key"
    );
    assert_eq!(
        AgentError::Api { status: 500, message: "oops".to_string() }.describe(),
        "API error (500): oops"
    );
    assert_eq!(AgentError::Timeout { secs: 120 }.describe(), "timed out after 120s");
    assert_eq!(AgentError::Http { message: "x".to_string() }.describe(), "HTTP error: x");
    assert_eq!(AgentError::Json { message: "x".to_string() }.describe(), "JSON error: x");
    assert_eq!(AgentError::Channel.describe(), "channel closed");
}

#[test]
fn a_clamped_request_fits_the_window() {
    for prompt in (0..=262_144).step_by(4_096) {
        let output = model().with_output_budget(prompt).max_output_tokens.unwrap();
        assert!(prompt + output <= 262_144);
    }
}
