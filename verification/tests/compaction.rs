use maki::compaction::{
    answer_summary, auto_compact_enabled, split_into_chunks, strip_images, strip_thinking, Compaction,
    PassOutcome, IMAGE_PLACEHOLDER,
};
use maki::estimate::{
    checked_messages_tokens, compaction_history_budget, estimate_message_tokens, estimate_messages_tokens, is_overflow,
    SUMMARY_OVERHEAD_ESTIMATE,
};
use maki::message::{
    AgentError, ContentBlock, History, ImageMediaType, ImageSource, Message, Model, Role, StopReason,
    StreamResponse, TokenUsage,
};
use maki::streaming::{compact_done, AgentEvent};

const COMPACTION_BUFFER: u32 = 40_000;

fn system_prompt() -> String {
    "s".repeat(167 * 4)
}

fn user_prompt() -> String {
    "u".repeat(184 * 4)
}

fn user(text: &str) -> Message {
    Message::user(text.to_string())
}

fn assistant(text: &str) -> Message {
    Message { role: Role::Assistant, content: vec![ContentBlock::Text { text: text.to_string() }] }
}

fn model(context_window: u32, max_output_tokens: u32) -> Model {
    Model {
        id: "sonnet".to_string(),
        provider: "anthropic".to_string(),
        context_window,
        max_output_tokens: Some(max_output_tokens),
    }
}

fn response(text: &str, input: u32, output: u32) -> StreamResponse {
    StreamResponse {
        message: assistant(text),
        usage: TokenUsage { input, output, cache_read: 0, cache_creation: 0 },
        stop_reason: Some(StopReason::EndTurn),
    }
}

fn text_of(block: &ContentBlock) -> &str {
    match block {
        ContentBlock::Text { text } => text.as_str(),
        other => panic!("not a text: {other:?}"),
    }
}

/// Runs a compaction with the given answers, and returns the requests that were made.
fn run(
    model: &Model,
    history: &mut History,
    answers: Vec<StreamResponse>,
) -> (Vec<Vec<Message>>, TokenUsage) {
    let system = system_prompt();
    let prompt = user_prompt();
    let mut compaction = Compaction::plan(
        history.as_slice(),
        model.context_window,
        COMPACTION_BUFFER,
        &system,
        &prompt,
    );
    let mut requests = Vec::new();
    for answer in answers {
        requests.push(compaction.next_pass(false).unwrap());
        match compaction.finish_pass(answer, &model.id) {
            PassOutcome::More => {}
            PassOutcome::Done { turn, history: after, usage } => {
                assert_eq!(turn.usage, usage);
                assert_eq!(turn.model, model.id);
                assert_eq!(turn.context_size, Some(usage.output));
                history.replace(after);
                return (requests, usage);
            }
        }
    }
    panic!("no more answers");
}

#[test]
fn compact_replaces_history_with_summary() {
    let mut history = History::new(vec![user("first"), assistant("reply")]);
    let (requests, usage) =
        run(&model(200_000, 64_000), &mut history, vec![response("response", 0, 0)]);
    assert_eq!(requests.len(), 1);
    let msgs = history.as_slice();
    assert_eq!(msgs.len(), 2);
    assert!(matches!(msgs[0].role, Role::User));
    assert!(matches!(msgs[1].role, Role::Assistant));
    assert_eq!(text_of(&msgs[0].content[0]), "What did we do so far?");
    assert_eq!(text_of(&msgs[1].content[0]), "response");
    match compact_done(usage) {
        AgentEvent::Done { num_turns, stop_reason, .. } => {
            assert_eq!(num_turns, 1);
            assert!(stop_reason.is_none());
        }
        other => panic!("unexpected event {other:?}"),
    }
}

#[test]
fn overflow_detection() {
    let cases: [(u32, u32, u32, u32, u32, u32, bool); 6] = [
        (143_999, 0, 0, 0, 200_000, 20_000, false),
        (144_000, 0, 0, 0, 200_000, 20_000, true),
        (190_000, 0, 0, 0, 200_000, 10_000, true),
        (100, 0, 0, 0, 100, 20_000, true),
        (5_000, 165_000, 10_000, 0, 200_000, 20_000, true),
        (100_000, 0, 0, 80_000, 200_000, 20_000, true),
    ];
    for (input, cache_read, cache_creation, output, ctx_window, max_out, expected) in cases {
        let usage = TokenUsage { input, output, cache_read, cache_creation };
        assert_eq!(is_overflow(&usage, &model(ctx_window, max_out), COMPACTION_BUFFER), expected);
    }
}

#[test]
fn overflow_agrees_with_floating_point() {
    for window in [0u32, 1, 7, 99_999, 200_000, 262_144, 4_294_967_295] {
        for reserve in [0u32, 1, 13, 40_000, 100_001] {
            let usable = (window as f64 - reserve.min(40_000) as f64).max(0.0) * 0.8;
            let around = usable as u32;
            for tokens in [around.saturating_sub(1), around, around.saturating_add(1)] {
                let usage = TokenUsage { input: tokens, output: 0, cache_read: 0, cache_creation: 0 };
                assert_eq!(
                    is_overflow(&usage, &model(window, reserve), COMPACTION_BUFFER),
                    tokens as f64 >= usable
                );
            }
        }
    }
}

#[test]
fn budget_agrees_with_floating_point() {
    for window in [0u32, 3, 41_000, 50_000, 100_003, 200_000, 4_294_967_295] {
        for reserve in [0u32, 1, 40_000, 300_000] {
            for overhead in [0u32, 1, 351, 5_351] {
                let available = (window as f64 - reserve as f64).max(0.0);
                let expected = (available * 0.8 - overhead as f64).max(0.0) as u32;
                assert_eq!(
                    compaction_history_budget(window, reserve, overhead, 0, 0),
                    expected
                );
            }
        }
    }
    assert_eq!(compaction_history_budget(50_000, 40_000, 167, 184, 0), 7_649);
    assert_eq!(compaction_history_budget(50_000, 40_000, 167, 184, 5_000), 2_649);
    assert_eq!(compaction_history_budget(41_000, 40_000, 167, 184, 5_000), 0);
}

#[test]
fn strip_images_replaces_with_placeholder() {
    let source = ImageSource::new(ImageMediaType::Png, "abc".to_string());
    let mut messages = vec![Message::user_with_images("hello".to_string(), vec![source])];
    strip_images(&mut messages);
    assert_eq!(messages[0].content.len(), 2);
    assert!(
        matches!(&messages[0].content[0], ContentBlock::Text { text } if text == IMAGE_PLACEHOLDER)
    );
    assert!(matches!(&messages[0].content[1], ContentBlock::Text { text } if text == "hello"));
}

#[test]
fn strip_thinking_removes_thinking_blocks() {
    let mut messages = vec![Message {
        role: Role::Assistant,
        content: vec![
            ContentBlock::Thinking {
                thinking: "hmm".to_string(),
                signature: Some("sig".to_string()),
            },
            ContentBlock::Text { text: "hello".to_string() },
            ContentBlock::RedactedThinking { data: "opaque".to_string() },
        ],
    }];
    strip_thinking(&mut messages);
    assert_eq!(messages[0].content.len(), 1);
    assert!(matches!(&messages[0].content[0], ContentBlock::Text { text } if text == "hello"));
}

#[test]
fn estimate_message_tokens_text_is_chars_div_4() {
    // 40 chars → 10 tokens
    let msg = Message::user("A".repeat(40));
    assert_eq!(estimate_message_tokens(&msg), 10);
}

#[test]
fn estimate_message_tokens_empty_text_is_one_token() {
    let msg = Message::user(String::new());
    assert_eq!(estimate_message_tokens(&msg), 1);
}

#[test]
fn estimate_message_tokens_image_is_768() {
    let source = ImageSource::new(ImageMediaType::Png, "abc".to_string());
    let msg = Message::user_with_images(String::new(), vec![source]);
    assert_eq!(estimate_message_tokens(&msg), 768);
}

#[test]
fn estimate_messages_tokens_sums_all_messages() {
    // "abcd" → 1 token, "efghijkl" → 2 tokens
    let msgs = vec![user("abcd"), user("efghijkl")];
    assert_eq!(estimate_messages_tokens(&msgs), 3);
    assert_eq!(checked_messages_tokens(&msgs), Some(3));
}

#[test]
fn split_into_chunks_empty_input() {
    let chunks = split_into_chunks(&[], 1000);
    assert!(chunks.is_empty());
}

#[test]
fn split_into_chunks_single_chunk_when_fits() {
    let msgs = vec![user("hello"), user("world")];
    let chunks = split_into_chunks(&msgs, 10_000);
    assert_eq!(chunks.len(), 1);
    assert_eq!(chunks[0].len(), 2);
}

#[test]
fn split_into_chunks_splits_when_too_large() {
    // Each message is 1000 chars → 250 tokens. Budget = 500 → 2 messages per chunk.
    let big = "X".repeat(1000);
    let msgs: Vec<Message> = (0..5).map(|i| Message::user(format!("msg-{i}: {big}"))).collect();
    let chunks = split_into_chunks(&msgs, 500);
    assert!(chunks.len() >= 2, "should split into multiple chunks, got {}", chunks.len());
    // Every message should appear in exactly one chunk.
    let total: usize = chunks.iter().map(|c| c.len()).sum();
    assert_eq!(total, msgs.len(), "all messages accounted for");
}

#[test]
fn split_into_chunks_giant_message_gets_own_chunk() {
    // A single message that exceeds the budget.
    let giant = "Z".repeat(100_000); // 25_000 tokens
    let msgs = vec![user("small"), user(&giant), user("small2")];
    let chunks = split_into_chunks(&msgs, 100);
    // The giant message gets its own chunk.
    assert!(
        chunks.iter().any(|c| c.len() == 1 && estimate_message_tokens(&c[0]) > 100),
        "giant message should be in its own chunk"
    );
}

#[test]
fn a_giant_message_does_not_count_toward_the_next_chunk() {
    // 2, 5, 2 and 1 tokens
    let msgs = vec![
        Message::user("a".repeat(8)),
        Message::user("b".repeat(20)),
        Message::user("c".repeat(8)),
        Message::user("d".repeat(4)),
    ];
    let chunks = split_into_chunks(&msgs, 3);
    let texts: Vec<Vec<&str>> =
        chunks.iter().map(|c| c.iter().map(|m| text_of(&m.content[0])).collect()).collect();
    assert_eq!(
        texts,
        vec![vec!["aaaaaaaa"], vec!["bbbbbbbbbbbbbbbbbbbb"], vec!["cccccccc", "dddd"]]
    );
}

#[test]
fn split_keeps_messages_in_order() {
    let msgs: Vec<Message> = (0..7).map(|i| Message::user(format!("{i}{}", "y".repeat(397)))).collect();
    let chunks = split_into_chunks(&msgs, 250);
    let firsts: Vec<String> =
        chunks.iter().flatten().map(|m| text_of(&m.content[0])[..1].to_string()).collect();
    assert_eq!(firsts, ["0", "1", "2", "3", "4", "5", "6"]);
    for chunk in &chunks {
        assert!(estimate_messages_tokens(chunk) <= 250);
    }
}

#[test]
fn multi_pass_compaction_accumulates_summary() {
    let model = model(50_000, 10_000);
    let big = "X".repeat(10000);
    let messages: Vec<Message> =
        (0..4).map(|i| Message::user(format!("msg-{i}: {big}"))).collect();

    let history_tokens = estimate_messages_tokens(&messages);
    let system_tokens = estimate_message_tokens(&Message::user(system_prompt()));
    let user_prompt_tokens = estimate_message_tokens(&Message::user(user_prompt()));
    let single_pass_budget = compaction_history_budget(
        model.context_window,
        COMPACTION_BUFFER,
        system_tokens,
        user_prompt_tokens,
        0,
    );
    let chunk_budget = compaction_history_budget(
        model.context_window,
        COMPACTION_BUFFER,
        system_tokens,
        user_prompt_tokens,
        SUMMARY_OVERHEAD_ESTIMATE,
    );
    assert!(history_tokens > single_pass_budget);

    let chunks = split_into_chunks(&messages, chunk_budget);
    assert!(chunks.len() > 1, "should need multiple chunks, got {}", chunks.len());

    let answers: Vec<StreamResponse> =
        chunks.iter().map(|_| response("summary", 100, 50)).collect();
    let mut history = History::new(messages);
    let (requests, usage) = run(&model, &mut history, answers);

    // Verify usage is accumulated across passes.
    assert_eq!(usage.input, (chunks.len() as u32) * 100);
    assert_eq!(usage.output, (chunks.len() as u32) * 50);

    // Each pass but the first sends the summary of the passes before it.
    assert_eq!(requests.len(), chunks.len());
    assert!(text_of(&requests[0][0].content[0]).starts_with("msg-0: "));
    for request in &requests[1..] {
        assert_eq!(
            text_of(&request[0].content[0]),
            "[Earlier conversation summary, to be merged with the conversation below:]\nsummary"
        );
    }
    for request in &requests {
        assert_eq!(text_of(&request[request.len() - 1].content[0]), user_prompt());
    }

    // History should be replaced with 2 messages.
    let msgs = history.as_slice();
    assert_eq!(msgs.len(), 2);
}

#[test]
fn single_pass_when_history_fits() {
    // Small history that definitely fits.
    let mut history = History::new(vec![user("hello"), assistant("hi")]);
    let (requests, usage) =
        run(&model(200_000, 64_000), &mut history, vec![response("response", 0, 0)]);

    // Should have used exactly one API call.
    assert_eq!(requests.len(), 1);
    assert_eq!(requests[0].len(), 3);
    assert_eq!(usage.input, 0);
    let msgs = history.as_slice();
    assert_eq!(msgs.len(), 2);
}

#[test]
fn a_cancel_ends_a_compaction_in_passes_only() {
    let big = "X".repeat(10000);
    let long: Vec<Message> = (0..4).map(|_| Message::user(big.clone())).collect();
    let split = Compaction::plan(&long, 50_000, COMPACTION_BUFFER, &system_prompt(), &user_prompt());
    assert!(matches!(split.next_pass(true), Err(AgentError::Cancelled)));
    assert!(split.next_pass(false).is_ok());
    let whole =
        Compaction::plan(&[user("hi")], 200_000, COMPACTION_BUFFER, &system_prompt(), &user_prompt());
    assert!(whole.next_pass(true).is_ok());
}

#[test]
fn an_ordinary_history_can_be_planned() {
    let long = vec![user("hi"), Message::user("x".repeat(300_000))];
    assert!(Compaction::can_plan(&long, 50_000, COMPACTION_BUFFER, "sys", "sum up"));
    assert!(Compaction::can_plan(&[], 0, 0, "", ""));
}

#[test]
fn a_plan_leaves_images_and_thinking_out() {
    let source = ImageSource::new(ImageMediaType::Jpeg, "data".to_string());
    let history = vec![
        Message::user_with_images("look".to_string(), vec![source]),
        Message {
            role: Role::Assistant,
            content: vec![ContentBlock::Thinking { thinking: "hm".to_string(), signature: None }],
        },
    ];
    let plan = Compaction::plan(&history, 200_000, COMPACTION_BUFFER, "sys", "sum up");
    let request = plan.next_pass(false).unwrap();
    assert_eq!(request.len(), 3);
    assert_eq!(text_of(&request[0].content[0]), IMAGE_PLACEHOLDER);
    assert_eq!(text_of(&request[0].content[1]), "look");
    assert!(request[1].content.is_empty());
    assert_eq!(text_of(&request[2].content[0]), "sum up");
}

#[test]
fn a_summary_joins_the_texts_of_an_answer() {
    let answer = Message {
        role: Role::Assistant,
        content: vec![
            ContentBlock::Text { text: "one".to_string() },
            ContentBlock::RedactedThinking { data: "x".to_string() },
            ContentBlock::Text { text: "two".to_string() },
        ],
    };
    let summary = answer_summary(&answer);
    assert!(summary.starts_with("one"));
    assert!(summary.ends_with("two"));
    assert!(!summary.contains('x'));
}

#[test]
fn automatic_compaction_can_be_switched_off() {
    assert!(auto_compact_enabled(None));
    assert!(auto_compact_enabled(Some("0")));
    assert!(auto_compact_enabled(Some("")));
    assert!(!auto_compact_enabled(Some("1")));
    assert!(!auto_compact_enabled(Some("true")));
}

#[test]
fn more_tokens_never_end_an_overflow() {
    let model = model(200_000, 20_000);
    let mut before = false;
    for input in (0..200_000).step_by(1_000) {
        let usage = TokenUsage { input, output: 0, cache_read: 0, cache_creation: 0 };
        let now = is_overflow(&usage, &model, COMPACTION_BUFFER);
        assert!(now || !before);
        if !now {
            // A quarter more than what was counted still fits.
            assert!(u64::from(input) * 5 / 4 + 20_000 <= 200_000);
        }
        before = now;
    }
}

#[test]
fn a_larger_window_never_shrinks_the_budget() {
    let mut before = 0;
    for window in (0..300_000).step_by(777) {
        let budget = compaction_history_budget(window, 40_000, 167, 184, 5_000);
        assert!(budget >= before);
        assert!(compaction_history_budget(window, 40_000, 167, 184, 0) >= budget);
        before = budget;
    }
}

#[test]
fn every_pass_leaves_room_for_the_answer() {
    let messages: Vec<Message> =
        (0..9).map(|i| Message::user("w".repeat(3_000 + 500 * i))).collect();
    let mut plan =
        Compaction::plan(&messages, 50_000, COMPACTION_BUFFER, &system_prompt(), &user_prompt());
    let mut seen = 0;
    loop {
        let request = plan.next_pass(false).unwrap();
        let sent = estimate_messages_tokens(&request) + 167;
        assert!(sent * 5 / 4 + COMPACTION_BUFFER <= 50_000);
        seen += request.iter().filter(|m| text_of(&m.content[0]).starts_with('w')).count();
        if let PassOutcome::Done { .. } = plan.finish_pass(response("short", 1, 1), "m") {
            break;
        }
    }
    assert_eq!(seen, messages.len());
}
