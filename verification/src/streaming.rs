//! Streaming a request: what becomes of the provider's events, of its answer and of its errors.

use vstd::prelude::*;
use vstd::string::*;
use crate::compaction::TurnComplete;
use crate::message;
use crate::message::{
    AgentError, ContentBlock, Message, Model, StopReason, StreamResponse, TokenUsage,
};
use crate::text;
use crate::text::{cat3, decimal_text, strip_prefix};

verus! {

/// The name of a tool without the prefix `functions.`.
pub open spec fn canonical_name(name: Seq<char>) -> Seq<char> {
    if "functions."@.is_prefix_of(name) {
        name.skip("functions."@.len() as int)
    } else {
        name
    }
}

/// The name of a tool without the prefix `functions.`, which some models put before it.
pub fn canonical_tool_name(name: &str) -> (canonical: &str)
    ensures
        canonical@ == canonical_name(name@),
{
    match strip_prefix(name, "functions.") {
        Some(rest) => rest,
        None => name,
    }
}

/// A block whose tool, where it calls one, has its canonical name.
pub open spec fn canonical_block(block: message::BlockView) -> message::BlockView {
    match block {
        message::BlockView::ToolUse { id, name, input } => message::BlockView::ToolUse {
            id,
            name: canonical_name(name),
            input,
        },
        other => other,
    }
}

/// Gives each tool that a message calls its canonical name.
pub fn canonicalize_tool_names(m: &mut Message)
    ensures
        final(m)@.role == old(m)@.role,
        final(m)@.content == old(m)@.content.map_values(
            |b: message::BlockView| canonical_block(b),
        ),
{
    let ghost before = m@;
    let mut i: usize = 0;
    while i < m.content.len()
        invariant
            i <= m.content.len(),
            m.role == before.role,
            m.content.len() == before.content.len(),
            forall|k: int|
                0 <= k < i ==> (#[trigger] m.content@[k])@ == canonical_block(before.content[k]),
            forall|k: int|
                i <= k < m.content.len() ==> (#[trigger] m.content@[k])@ == before.content[k],
        decreases m.content.len() - i,
    {
        let renamed: Option<ContentBlock> = match &m.content[i] {
            ContentBlock::ToolUse { id, name, input } => Some(
                ContentBlock::ToolUse {
                    id: id.clone(),
                    name: canonical_tool_name(name.as_str()).to_owned(),
                    input: input.clone(),
                },
            ),
            _ => None,
        };
        if let Some(block) = renamed {
            m.content.set(i, block);
        }
        i += 1;
    }
    assert(m@.content =~= before.content.map_values(|b: message::BlockView| canonical_block(b)));
}

/// The prefix is what is taken off: a name that gets it is given back.
pub proof fn law_canonical_name_undoes_prefix(name: Seq<char>)
    ensures
        canonical_name("functions."@ + name) == name,
{
    let full = "functions."@ + name;
    assert(full.subrange(0, "functions."@.len() as int) =~= "functions."@);
    assert(full.skip("functions."@.len() as int) =~= name);
}

/// Giving tools their canonical names changes nothing but names. Each block stays at its place, a
/// tool call keeps its id and its input, and a block that calls no tool is kept as it is. A name
/// behind the prefix loses it, once; a name without it stays, so blocks whose tool names have no
/// prefix are kept as they are.
pub proof fn law_canonical_names_change_only_names(content: Seq<message::BlockView>)
    ensures
        content.map_values(|b: message::BlockView| canonical_block(b)).len() == content.len(),
        forall|k: int|
            0 <= k < content.len() && !(content[k] is ToolUse) ==> #[trigger] canonical_block(
                content[k],
            ) == content[k],
        forall|k: int|
            0 <= k < content.len() && content[k] is ToolUse ==> {
                let after = #[trigger] canonical_block(content[k]);
                &&& after is ToolUse
                &&& after->id == content[k]->id
                &&& after->input == content[k]->input
                &&& after->name == content[k]->name || "functions."@ + after->name
                    == content[k]->name
                &&& !"functions."@.is_prefix_of(content[k]->name) ==> after->name
                    == content[k]->name
                &&& "functions."@.is_prefix_of(content[k]->name) ==> "functions."@ + after->name
                    == content[k]->name
            },
        (forall|k: int|
            0 <= k < content.len() && (#[trigger] content[k]) is ToolUse
                ==> !"functions."@.is_prefix_of(content[k]->name)) ==> content.map_values(
            |b: message::BlockView| canonical_block(b),
        ) == content,
{
    assert forall|name: Seq<char>|
        #![trigger canonical_name(name)]
        "functions."@.is_prefix_of(name) implies "functions."@ + canonical_name(name) == name by {
        assert(name.subrange(0, "functions."@.len() as int) == "functions."@);
        assert("functions."@ + canonical_name(name) =~= name);
    }
    if forall|k: int|
        0 <= k < content.len() && (#[trigger] content[k]) is ToolUse
            ==> !"functions."@.is_prefix_of(content[k]->name) {
        assert(content.map_values(|b: message::BlockView| canonical_block(b)) =~= content);
    }
}

/// What a provider reports while it streams an answer.
#[derive(Debug)]
pub enum ProviderEvent {
    TextDelta { text: String },
    ThinkingDelta { text: String },
    ToolUseStart { id: String, name: String },
    PromptProgress { processed: u32, total: u32, cache: u32 },
}

/// What the agent reports of its work.
#[derive(Debug)]
pub enum AgentEvent {
    TextDelta { text: String },
    ThinkingDelta { text: String },
    ToolPending { id: String, name: String },
    PromptProgress { processed: u32, total: u32, cache: u32 },
    Retry { attempt: u32, message: String, delay_ms: u64 },
    TurnComplete(TurnComplete),
    Done { usage: TokenUsage, num_turns: u32, stop_reason: Option<StopReason> },
}

/// The text that an event adds to the streamed answer.
pub open spec fn added_text(event: ProviderEvent) -> Seq<char> {
    match event {
        ProviderEvent::TextDelta { text } => text@,
        _ => Seq::empty(),
    }
}

/// Whether the agent's event `out` passes the provider's event `event` on: unchanged, but for the
/// canonical name of a tool.
pub open spec fn passes_on(event: ProviderEvent, out: AgentEvent) -> bool {
    match event {
        ProviderEvent::TextDelta { text } => out matches AgentEvent::TextDelta { text: t } && t@
            == text@,
        ProviderEvent::ThinkingDelta { text } => out matches AgentEvent::ThinkingDelta { text: t }
            && t@ == text@,
        ProviderEvent::ToolUseStart { id, name } => out matches AgentEvent::ToolPending {
            id: i,
            name: n,
        } && i@ == id@ && n@ == canonical_name(name@),
        ProviderEvent::PromptProgress { processed, total, cache } => out
            == (AgentEvent::PromptProgress { processed, total, cache }),
    }
}

/// Turns a provider's event into the agent's, and keeps the text of the answer in `streamed`.
pub fn forward_event(event: ProviderEvent, streamed: &mut String) -> (out: AgentEvent)
    ensures
        passes_on(event, out),
        final(streamed)@ == old(streamed)@ + added_text(event),
{
    match event {
        ProviderEvent::TextDelta { text } => {
            streamed.append(text.as_str());
            AgentEvent::TextDelta { text }
        },
        ProviderEvent::ThinkingDelta { text } => {
            assert(streamed@ =~= old(streamed)@ + Seq::<char>::empty());
            AgentEvent::ThinkingDelta { text }
        },
        ProviderEvent::ToolUseStart { id, name } => {
            assert(streamed@ =~= old(streamed)@ + Seq::<char>::empty());
            AgentEvent::ToolPending { id, name: canonical_tool_name(name.as_str()).to_owned() }
        },
        ProviderEvent::PromptProgress { processed, total, cache } => {
            assert(streamed@ =~= old(streamed)@ + Seq::<char>::empty());
            AgentEvent::PromptProgress { processed, total, cache }
        },
    }
}

/// The text that is kept after some events, where `streamed` was kept before.
pub open spec fn streamed_after(streamed: Seq<char>, events: Seq<ProviderEvent>) -> Seq<char>
    decreases events.len(),
{
    if events.len() == 0 {
        streamed
    } else {
        streamed_after(streamed, events.drop_last()) + added_text(events.last())
    }
}

/// The text deltas among some events of a provider, in order.
pub open spec fn text_deltas(events: Seq<ProviderEvent>) -> Seq<Seq<char>>
    decreases events.len(),
{
    if events.len() == 0 {
        Seq::empty()
    } else {
        match events.last() {
            ProviderEvent::TextDelta { text } => text_deltas(events.drop_last()).push(text@),
            _ => text_deltas(events.drop_last()),
        }
    }
}

/// The text deltas among some events of the agent, in order: the text on the screen.
pub open spec fn shown_deltas(events: Seq<AgentEvent>) -> Seq<Seq<char>>
    decreases events.len(),
{
    if events.len() == 0 {
        Seq::empty()
    } else {
        match events.last() {
            AgentEvent::TextDelta { text } => shown_deltas(events.drop_last()).push(text@),
            _ => shown_deltas(events.drop_last()),
        }
    }
}

proof fn lemma_joined_push(list: Seq<Seq<char>>, last: Seq<char>)
    ensures
        text::joined(list.push(last), Seq::empty()) == text::joined(list, Seq::empty()) + last,
{
    assert(list.push(last).drop_last() =~= list);
    assert(Seq::<char>::empty() + last =~= last);
    let front = text::joined(list, Seq::empty());
    assert(front + Seq::<char>::empty() + last =~= front + last);
}

/// The text that is kept of a stream, and that a cancel in the middle of it carries, is the text on
/// the screen: the text deltas that were passed on, one behind the other.
pub proof fn law_kept_text_is_on_the_screen(events: Seq<ProviderEvent>, outs: Seq<AgentEvent>)
    requires
        events.len() == outs.len(),
        forall|i: int|
            0 <= i < events.len() ==> passes_on(#[trigger] events[i], #[trigger] outs[i]),
    ensures
        shown_deltas(outs) == text_deltas(events),
        streamed_after(Seq::empty(), events) == text::joined(shown_deltas(outs), Seq::empty()),
    decreases events.len(),
{
    if events.len() > 0 {
        let front = events.drop_last();
        let shown = outs.drop_last();
        assert forall|i: int| 0 <= i < front.len() implies passes_on(
            #[trigger] front[i],
            #[trigger] shown[i],
        ) by {
            assert(front[i] == events[i] && shown[i] == outs[i]);
        }
        law_kept_text_is_on_the_screen(front, shown);
        assert(passes_on(events[events.len() - 1], outs[outs.len() - 1]));
        let kept = streamed_after(Seq::empty(), front);
        if let ProviderEvent::TextDelta { text } = events.last() {
            lemma_joined_push(text_deltas(front), text@);
        } else {
            assert(kept + Seq::<char>::empty() =~= kept);
        }
    }
}

/// What is passed on to the agent holds what the provider sent: the same text, the same thinking,
/// the same tool under its canonical name, the same progress. Text alone is kept of the answer.
pub proof fn law_events_are_passed_on_whole(event: ProviderEvent, out: AgentEvent)
    requires
        passes_on(event, out),
    ensures
        event matches ProviderEvent::TextDelta { text } ==> {
            &&& out is TextDelta
            &&& out->TextDelta_text@ == text@
            &&& added_text(event) == text@
        },
        event matches ProviderEvent::ThinkingDelta { text } ==> {
            &&& out is ThinkingDelta
            &&& out->ThinkingDelta_text@ == text@
        },
        event matches ProviderEvent::ToolUseStart { id, name } ==> {
            &&& out is ToolPending
            &&& out->id@ == id@
            &&& !"functions."@.is_prefix_of(name@) ==> out->name@ == name@
            &&& "functions."@.is_prefix_of(name@) ==> "functions."@ + out->name@ == name@
        },
        event matches ProviderEvent::PromptProgress { processed, total, cache } ==> {
            &&& out is PromptProgress
            &&& out->processed == processed
            &&& out->total == total
            &&& out->cache == cache
        },
        !(event is TextDelta) ==> added_text(event).len() == 0,
{
    if let ProviderEvent::ToolUseStart { id, name } = event {
        if "functions."@.is_prefix_of(name@) {
            assert(name@.subrange(0, "functions."@.len() as int) == "functions."@);
            assert("functions."@ + canonical_name(name@) =~= name@);
        }
    }
}

/// The report that a compaction on its own is done: one turn, without a stop reason.
pub fn compact_done(usage: TokenUsage) -> (event: AgentEvent)
    ensures
        event == (AgentEvent::Done { usage, num_turns: 1, stop_reason: None }),
{
    AgentEvent::Done { usage, num_turns: 1, stop_reason: None }
}

/// Why a stream ended without an answer. A cancel in the middle of a stream carries the text that
/// is still on the screen; one while waiting to try again carries nothing, since the screen has
/// dropped the text of the failed attempt.
#[derive(Debug)]
pub enum StreamError {
    Cancelled { streamed: String },
    Other(AgentError),
}

impl From<AgentError> for StreamError {
    fn from(e: AgentError) -> (r: Self) {
        StreamError::Other(e)
    }
}

impl vstd::std_specs::convert::FromSpecImpl<AgentError> for StreamError {
    open spec fn obeys_from_spec() -> bool {
        true
    }

    open spec fn from_spec(e: AgentError) -> Self {
        StreamError::Other(e)
    }
}

impl From<StreamError> for AgentError {
    fn from(e: StreamError) -> (r: Self) {
        match e {
            StreamError::Cancelled { .. } => AgentError::Cancelled,
            StreamError::Other(e) => e,
        }
    }
}

impl vstd::std_specs::convert::FromSpecImpl<StreamError> for AgentError {
    open spec fn obeys_from_spec() -> bool {
        true
    }

    open spec fn from_spec(e: StreamError) -> Self {
        match e {
            StreamError::Cancelled { .. } => AgentError::Cancelled,
            StreamError::Other(e) => e,
        }
    }
}

/// What is known of an error that ended an attempt.
#[derive(Debug, Clone, Copy, PartialEq, Eq, Structural)]
pub struct Failure {
    /// The request may succeed if it is sent again.
    pub retryable: bool,
    /// The request took too long.
    pub timeout: bool,
    /// Another key may help.
    pub rotates_key: bool,
    /// The prompt and the output asked for do not fit in the context window.
    pub context_overflow: bool,
    /// The length of the prompt that the server has counted.
    pub reported_prompt_tokens: Option<u32>,
}

/// How an attempt ended.
#[derive(Debug, Clone, Copy, PartialEq, Eq, Structural)]
pub enum Attempt {
    Answered,
    Cancelled,
    Failed(Failure),
}

/// What to do after an attempt.
#[derive(Debug, Clone, Copy, PartialEq, Eq, Structural)]
pub enum Directive {
    /// Return the answer.
    Return,
    /// Return that the stream was cancelled, with the text streamed so far.
    Cancel,
    /// Report the error as that of `attempt`, rotate the key if so asked, announce the retry, wait
    /// and try again.
    Retry { attempt: u32, rotate_key: bool },
    /// Report the error as that of `attempt`, rotate the key if so asked, and return the error.
    GiveUp { attempt: u32, rotate_key: bool },
    /// Try again at once, with the output that a prompt of this length leaves room for.
    Reclamp { prompt_tokens: u32 },
    /// Report the error as that of `attempt`, and return it.
    Fail { attempt: u32 },
}

/// Where the attempts at a request stand.
#[derive(Debug, Clone, Copy, PartialEq, Eq, Structural)]
pub struct StreamRetry {
    /// The tokens of the prompt, as far as they are known.
    pub measured_prompt: u32,
    /// Whether a rejected prompt length may still be corrected.
    pub overflow_recovery: bool,
    /// The retries so far.
    pub attempts: u32,
    /// The retries after which a timeout is final.
    pub max_timeout_retries: u32,
}

/// Whether a failure shows that the server counts a longer prompt than was known, and the output
/// may still be clamped to it.
pub open spec fn reclamps(s: StreamRetry, f: Failure) -> bool {
    &&& s.overflow_recovery
    &&& f.context_overflow
    &&& f.reported_prompt_tokens matches Some(n)
    &&& n > s.measured_prompt
}

/// Whether an attempt ended with an error that is reported under its number.
pub open spec fn is_reported(s: StreamRetry, a: Attempt) -> bool {
    a matches Attempt::Failed(f) && (f.retryable || !reclamps(s, f))
}

/// What to do after an attempt.
pub open spec fn directive(s: StreamRetry, a: Attempt) -> Directive {
    match a {
        Attempt::Answered => Directive::Return,
        Attempt::Cancelled => Directive::Cancel,
        Attempt::Failed(f) => {
            let attempt = (s.attempts + 1) as u32;
            if f.retryable {
                if f.timeout && attempt > s.max_timeout_retries {
                    Directive::GiveUp { attempt, rotate_key: f.rotates_key }
                } else {
                    Directive::Retry { attempt, rotate_key: f.rotates_key }
                }
            } else if reclamps(s, f) {
                Directive::Reclamp { prompt_tokens: f.reported_prompt_tokens->0 }
            } else {
                Directive::Fail { attempt }
            }
        },
    }
}

/// Where the attempts stand after one more. A retry is counted; a longer prompt is remembered,
/// and corrected once only.
pub open spec fn after_attempt(s: StreamRetry, a: Attempt) -> StreamRetry {
    match directive(s, a) {
        Directive::Retry { attempt, .. } => StreamRetry { attempts: attempt, ..s },
        Directive::GiveUp { attempt, .. } => StreamRetry { attempts: attempt, ..s },
        Directive::Reclamp { prompt_tokens } => StreamRetry {
            measured_prompt: prompt_tokens,
            overflow_recovery: false,
            ..s
        },
        _ => s,
    }
}

impl StreamRetry {
    /// Before the first attempt. The prompt is taken to be as long as the last one measured, or as
    /// the estimate of what is about to be sent where that is longer.
    pub fn new(context_floor: u32, estimated_prompt: u32, max_timeout_retries: u32) -> (s: Self)
        ensures
            s == (StreamRetry {
                measured_prompt: if context_floor > estimated_prompt {
                    context_floor
                } else {
                    estimated_prompt
                },
                overflow_recovery: true,
                attempts: 0,
                max_timeout_retries,
            }),
    {
        StreamRetry {
            measured_prompt: if context_floor > estimated_prompt {
                context_floor
            } else {
                estimated_prompt
            },
            overflow_recovery: true,
            attempts: 0,
            max_timeout_retries,
        }
    }

    /// Takes in how an attempt ended, and says what to do.
    pub fn after(&mut self, a: Attempt) -> (d: Directive)
        requires
            is_reported(*old(self), a) ==> old(self).attempts < u32::MAX,
        ensures
            d == directive(*old(self), a),
            *final(self) == after_attempt(*old(self), a),
    {
        match a {
            Attempt::Answered => Directive::Return,
            Attempt::Cancelled => Directive::Cancel,
            Attempt::Failed(f) => {
                if f.retryable {
                    let attempt: u32 = self.attempts + 1;
                    self.attempts = attempt;
                    if f.timeout && attempt > self.max_timeout_retries {
                        return Directive::GiveUp { attempt, rotate_key: f.rotates_key };
                    }
                    return Directive::Retry { attempt, rotate_key: f.rotates_key };
                }
                if self.overflow_recovery && f.context_overflow {
                    if let Some(n) = f.reported_prompt_tokens {
                        if n > self.measured_prompt {
                            self.measured_prompt = n;
                            self.overflow_recovery = false;
                            return Directive::Reclamp { prompt_tokens: n };
                        }
                    }
                }
                Directive::Fail { attempt: self.attempts + 1 }
            },
        }
    }
}

/// Whether the wait before the next attempt was cancelled: then the stream ends, without text.
pub fn after_backoff(cancelled: bool) -> (r: Result<(), StreamError>)
    ensures
        r is Err <==> cancelled,
        r matches Err(e) ==> (e matches StreamError::Cancelled { streamed } && streamed@.len()
            == 0),
{
    if cancelled {
        Err(StreamError::Cancelled { streamed: String::new() })
    } else {
        Ok(())
    }
}

/// The attempts at a request, one after the other.
pub open spec fn after_attempts(s: StreamRetry, list: Seq<Attempt>) -> StreamRetry
    decreases list.len(),
{
    if list.len() == 0 {
        s
    } else {
        after_attempt(after_attempts(s, list.drop_last()), list.last())
    }
}

/// The known length of the prompt never shrinks, and once it has been corrected it is not
/// corrected again, whatever the attempts bring.
pub proof fn law_reclamp_happens_once(s: StreamRetry, list: Seq<Attempt>, a: Attempt)
    ensures
        after_attempts(s, list).measured_prompt >= s.measured_prompt,
        !s.overflow_recovery ==> !after_attempts(s, list).overflow_recovery,
        !s.overflow_recovery ==> !(directive(after_attempts(s, list), a) is Reclamp),
    decreases list.len(),
{
    if list.len() > 0 {
        law_reclamp_happens_once(s, list.drop_last(), list.last());
    }
}

/// Timeouts are retried as often as allowed and no more: the next one ends the request.
pub proof fn law_timeouts_end(s: StreamRetry, f: Failure)
    requires
        f.retryable,
        f.timeout,
        s.attempts < u32::MAX,
    ensures
        directive(s, Attempt::Failed(f)) is Retry <==> s.attempts < s.max_timeout_retries,
        directive(s, Attempt::Failed(f)) is GiveUp <==> s.attempts >= s.max_timeout_retries,
{
}

/// Where a failure that is not worth a retry is a context overflow that reports a longer prompt
/// than was known, and no correction has been made yet, the request is tried again with exactly
/// the reported length, whatever length was known before. That is then the known length, and
/// nothing else changes. The prompt that the server counted and the output that is asked for next
/// fit in the window, if the prompt alone does.
pub proof fn law_reclamp_takes_the_reported_length(
    s: StreamRetry,
    f: Failure,
    n: u32,
    context_window: u32,
    max_output_tokens: Option<u32>,
)
    requires
        !f.retryable,
        f.context_overflow,
        f.reported_prompt_tokens == Some(n),
        n > s.measured_prompt,
        s.overflow_recovery,
    ensures
        directive(s, Attempt::Failed(f)) == (Directive::Reclamp { prompt_tokens: n }),
        forall|known: u32|
            known < n ==> #[trigger] directive(
                StreamRetry { measured_prompt: known, ..s },
                Attempt::Failed(f),
            ) == directive(s, Attempt::Failed(f)),
        after_attempt(s, Attempt::Failed(f)).measured_prompt == n,
        after_attempt(s, Attempt::Failed(f)).overflow_recovery == false,
        after_attempt(s, Attempt::Failed(f)).attempts == s.attempts,
        after_attempt(s, Attempt::Failed(f)).max_timeout_retries == s.max_timeout_retries,
        n <= context_window ==> (output_budget(
            context_window,
            max_output_tokens,
            directive(s, Attempt::Failed(f))->prompt_tokens,
        ) matches Some(output) ==> n + output <= context_window),
{
}

/// A rejected length is corrected for no other reason: a failure that is no context overflow, that
/// reports no length or none above the one known, or that comes after a correction, fails the
/// request under the number of the attempt and leaves all as it was.
pub proof fn law_other_failures_end_the_request(s: StreamRetry, f: Failure)
    requires
        !f.retryable,
        !f.context_overflow || f.reported_prompt_tokens is None || (
        f.reported_prompt_tokens matches Some(n) && n <= s.measured_prompt) || !s.overflow_recovery,
        s.attempts < u32::MAX,
    ensures
        directive(s, Attempt::Failed(f)) is Fail,
        directive(s, Attempt::Failed(f))->Fail_attempt == s.attempts + 1,
        after_attempt(s, Attempt::Failed(f)) == s,
{
}

/// A retryable failure is counted and changes nothing else. The attempt is reported under its
/// number, the key is rotated exactly where the failure asks for it, and only a timeout is ever
/// given up on. An answer and a cancel end the request and change nothing.
pub proof fn law_retries_are_counted(s: StreamRetry, f: Failure)
    requires
        f.retryable,
        s.attempts < u32::MAX,
    ensures
        directive(s, Attempt::Failed(f)) matches Directive::Retry { attempt, rotate_key } ==> attempt
            == s.attempts + 1 && rotate_key == f.rotates_key,
        directive(s, Attempt::Failed(f)) matches Directive::GiveUp { attempt, rotate_key }
            ==> attempt == s.attempts + 1 && rotate_key == f.rotates_key && f.timeout,
        directive(s, Attempt::Failed(f)) is Retry || directive(s, Attempt::Failed(f)) is GiveUp,
        after_attempt(s, Attempt::Failed(f)).attempts == s.attempts + 1,
        after_attempt(s, Attempt::Failed(f)).measured_prompt == s.measured_prompt,
        after_attempt(s, Attempt::Failed(f)).overflow_recovery == s.overflow_recovery,
        after_attempt(s, Attempt::Failed(f)).max_timeout_retries == s.max_timeout_retries,
        directive(s, Attempt::Answered) is Return,
        after_attempt(s, Attempt::Answered) == s,
        directive(s, Attempt::Cancelled) is Cancel,
        after_attempt(s, Attempt::Cancelled) == s,
{
}

/// The output that a prompt leaves room for: no more than the model's limit, and no more than the
/// context window less the prompt and one hundredth of the window.
pub open spec fn output_budget(
    context_window: u32,
    max_output_tokens: Option<u32>,
    prompt_tokens: u32,
) -> Option<u32> {
    match max_output_tokens {
        Some(max) => {
            let left = context_window - prompt_tokens - context_window / 100;
            let left = if left < 0 {
                0
            } else {
                left
            };
            Some(
                if max <= left {
                    max
                } else {
                    left as u32
                },
            )
        },
        None => None,
    }
}

impl Model {
    /// The model with its output clamped to what a prompt of `prompt_tokens` leaves room for.
    pub fn with_output_budget(&self, prompt_tokens: u32) -> (model: Model)
        ensures
            model.id@ == self.id@,
            model.provider@ == self.provider@,
            model.context_window == self.context_window,
            model.max_output_tokens == output_budget(
                self.context_window,
                self.max_output_tokens,
                prompt_tokens,
            ),
    {
        let max_output_tokens: Option<u32> = match self.max_output_tokens {
            Some(max) => {
                let margin: u32 = self.context_window / 100;
                let usable: u32 = self.context_window - margin;
                let left: u32 = if usable >= prompt_tokens {
                    usable - prompt_tokens
                } else {
                    0
                };
                Some(
                    if max <= left {
                        max
                    } else {
                        left
                    },
                )
            },
            None => None,
        };
        Model {
            id: self.id.clone(),
            provider: self.provider.clone(),
            context_window: self.context_window,
            max_output_tokens,
        }
    }
}

/// A clamped request fits: the prompt and the output asked for stay within the context window, as
/// long as the prompt alone does.
pub proof fn law_output_budget_fits(
    context_window: u32,
    max_output_tokens: Option<u32>,
    prompt_tokens: u32,
)
    requires
        prompt_tokens <= context_window,
    ensures
        output_budget(context_window, max_output_tokens, prompt_tokens) matches Some(n)
            ==> prompt_tokens + n <= context_window,
{
}

/// The output asked for is the most that fits. It is within the model's limit, and where it is
/// below the limit the window is used up: prompt, output and a hundredth of the window as a margin
/// make the window, unless prompt and margin fill it already and nothing is asked for. A longer
/// prompt never gets more. Without a limit of the model none is set.
pub proof fn law_output_budget_is_the_most_that_fits(
    context_window: u32,
    max_output_tokens: Option<u32>,
    prompt_tokens: u32,
    longer_prompt: u32,
)
    requires
        prompt_tokens <= longer_prompt,
    ensures
        max_output_tokens is None <==> output_budget(
            context_window,
            max_output_tokens,
            prompt_tokens,
        ) is None,
        max_output_tokens matches Some(max) ==> {
            let output = output_budget(context_window, max_output_tokens, prompt_tokens)->0;
            &&& output <= max
            &&& 0 < output ==> prompt_tokens + output + context_window / 100 <= context_window
            &&& 0 < output < max ==> prompt_tokens + output + context_window / 100
                == context_window
            &&& output == 0 && max > 0 ==> prompt_tokens + context_window / 100 >= context_window
            &&& output_budget(context_window, max_output_tokens, longer_prompt)->0 <= output
        },
{
}

/// The description of an error that may be reported: of an error of the provider only the status,
/// since its message often echoes what was sent.
pub open spec fn reported_text(error: message::ErrorView) -> Seq<char> {
    match error {
        message::ErrorView::Api { status, .. } => "API error ("@ + text::decimal(status as nat)
            + ")"@,
        other => message::error_text(other),
    }
}

/// The description of an error that may be reported.
pub fn error_description(error: &AgentError) -> (s: String)
    ensures
        s@ == reported_text(error@),
{
    match error {
        AgentError::Api { status, .. } => cat3(
            "API error (",
            decimal_text(*status as u64).as_str(),
            ")",
        ),
        other => other.describe(),
    }
}

/// What is reported of a provider's error does not depend on its message.
pub proof fn law_report_leaves_the_body_behind(status: u16, one: Seq<char>, other: Seq<char>)
    ensures
        reported_text(message::ErrorView::Api { status, message: one }) == reported_text(
            message::ErrorView::Api { status, message: other },
        ),
{
}

/// The record of an answered request.
#[derive(Debug)]
pub struct ApiRequest {
    pub model: String,
    pub provider: String,
    pub input_tokens: u64,
    pub output_tokens: u64,
    pub cache_read_tokens: u64,
    pub cache_creation_tokens: u64,
    pub stop_reason: Option<StopReason>,
}

/// The record of an answered request.
pub fn api_request(model: &Model, response: &StreamResponse) -> (record: ApiRequest)
    ensures
        record.model@ == model.id@,
        record.provider@ == model.provider@,
        record.input_tokens == response.usage.input,
        record.output_tokens == response.usage.output,
        record.cache_read_tokens == response.usage.cache_read,
        record.cache_creation_tokens == response.usage.cache_creation,
        record.stop_reason == response.stop_reason,
{
    ApiRequest {
        model: model.id.clone(),
        provider: model.provider.clone(),
        input_tokens: response.usage.input as u64,
        output_tokens: response.usage.output as u64,
        cache_read_tokens: response.usage.cache_read as u64,
        cache_creation_tokens: response.usage.cache_creation as u64,
        stop_reason: response.stop_reason,
    }
}

/// The record of a failed request.
#[derive(Debug)]
pub struct ApiError {
    pub model: String,
    pub provider: String,
    pub error: String,
    pub status_code: Option<u16>,
    pub attempt: u32,
}

/// The record of a failed request.
pub fn api_error(model: &Model, error: &AgentError, attempt: u32) -> (record: ApiError)
    ensures
        record.model@ == model.id@,
        record.provider@ == model.provider@,
        record.error@ == reported_text(error@),
        record.status_code == (match error@ {
            message::ErrorView::Api { status, .. } => Some(status),
            _ => None,
        }),
        record.attempt == attempt,
{
    ApiError {
        model: model.id.clone(),
        provider: model.provider.clone(),
        error: error_description(error),
        status_code: match error {
            AgentError::Api { status, .. } => Some(*status),
            _ => None,
        },
        attempt,
    }
}

/// A message that has been given canonical tool names is the message that it was but for the names:
/// as many blocks, from the same side, each tool call with its id and its input, every other block
/// as it was. Where no tool name had the prefix the message is what it was.
pub proof fn law_canonicalized_message_keeps_all_but_names(m: &mut Message)
    requires
        call_ensures(canonicalize_tool_names, (m,), ()),
    ensures
        final(m)@.role == old(m)@.role,
        final(m)@.content.len() == old(m)@.content.len(),
        forall|k: int|
            #![trigger final(m)@.content[k]]
            #![trigger old(m)@.content[k]]
            0 <= k < old(m)@.content.len() ==> match old(m)@.content[k] {
                message::BlockView::ToolUse { id, name, input } => {
                    &&& final(m)@.content[k] is ToolUse
                    &&& final(m)@.content[k]->id == id
                    &&& final(m)@.content[k]->input == input
                    &&& final(m)@.content[k]->name == name || "functions."@
                        + final(m)@.content[k]->name == name
                },
                other => final(m)@.content[k] == other,
            },
        (forall|k: int|
            0 <= k < old(m)@.content.len() && (#[trigger] old(m)@.content[k]) is ToolUse
                ==> !"functions."@.is_prefix_of(old(m)@.content[k]->name)) ==> final(m)@
            == old(m)@,
{
    law_canonical_names_change_only_names(old(m)@.content);
    assert forall|k: int|
        #![trigger final(m)@.content[k]]
        #![trigger old(m)@.content[k]]
        0 <= k < old(m)@.content.len() implies match old(m)@.content[k] {
        message::BlockView::ToolUse { id, name, input } => {
            &&& final(m)@.content[k] is ToolUse
            &&& final(m)@.content[k]->id == id
            &&& final(m)@.content[k]->input == input
            &&& final(m)@.content[k]->name == name || "functions."@ + final(m)@.content[k]->name
                == name
        },
        other => final(m)@.content[k] == other,
    } by {
        assert(final(m)@.content[k] == canonical_block(old(m)@.content[k]));
    }
}

/// The prompt is taken to be no shorter than the last one measured and than the estimate, and as
/// long as one of them; its length may be corrected, and no attempt has been made.
pub proof fn law_first_attempt_knows_the_longer_length(
    context_floor: u32,
    estimated_prompt: u32,
    max_timeout_retries: u32,
    s: StreamRetry,
)
    requires
        call_ensures(
            StreamRetry::new,
            (context_floor, estimated_prompt, max_timeout_retries),
            s,
        ),
    ensures
        s.measured_prompt >= context_floor,
        s.measured_prompt >= estimated_prompt,
        s.measured_prompt == context_floor || s.measured_prompt == estimated_prompt,
        s.overflow_recovery,
        s.attempts == 0,
        s.max_timeout_retries == max_timeout_retries,
{
}

/// After a context overflow that reports a longer prompt than was known, the next request is made
/// for exactly the reported length, whatever was known; a second report is not followed. Whatever
/// an attempt brings, the known length never shrinks and the number of attempts grows by one at
/// most.
pub proof fn law_attempt_moves_the_state_as_told(s: &mut StreamRetry, a: Attempt, d: Directive)
    requires
        old(s).attempts < u32::MAX,
        call_ensures(StreamRetry::after, (s, a), d),
    ensures
        d matches Directive::Reclamp { prompt_tokens } ==> {
            &&& a is Failed
            &&& a->0.reported_prompt_tokens == Some(prompt_tokens)
            &&& a->0.context_overflow && !a->0.retryable
            &&& old(s).overflow_recovery && !final(s).overflow_recovery
            &&& prompt_tokens > old(s).measured_prompt
            &&& final(s).measured_prompt == prompt_tokens
            &&& final(s).attempts == old(s).attempts
        },
        !(d is Reclamp) ==> final(s).measured_prompt == old(s).measured_prompt
            && final(s).overflow_recovery == old(s).overflow_recovery,
        d matches Directive::Retry { attempt, rotate_key } ==> a is Failed && a->0.retryable
            && attempt == old(s).attempts + 1 && final(s).attempts == attempt && rotate_key
            == a->0.rotates_key,
        d matches Directive::GiveUp { attempt, rotate_key } ==> a is Failed && a->0.retryable
            && a->0.timeout && attempt == old(s).attempts + 1 && attempt
            > old(s).max_timeout_retries && rotate_key == a->0.rotates_key,
        d matches Directive::Fail { attempt } ==> a is Failed && !a->0.retryable && attempt
            == old(s).attempts + 1 && *final(s) == *old(s),
        d is Return <==> a is Answered,
        d is Cancel <==> a is Cancelled,
        final(s).max_timeout_retries == old(s).max_timeout_retries,
        final(s).measured_prompt >= old(s).measured_prompt,
        old(s).attempts <= final(s).attempts <= old(s).attempts + 1,
        a is Failed && !a->0.retryable && a->0.context_overflow && a->0.reported_prompt_tokens is Some
            && a->0.reported_prompt_tokens->0 > old(s).measured_prompt && old(s).overflow_recovery
            ==> d == (Directive::Reclamp {
            prompt_tokens: a->0.reported_prompt_tokens->0,
        }),
{
}

/// What is forwarded is what came, and what is kept grows by the text that came and by nothing
/// else.
pub proof fn law_forwarding_keeps_the_text(
    event: ProviderEvent,
    streamed: &mut String,
    out: AgentEvent,
)
    requires
        call_ensures(forward_event, (event, streamed), out),
    ensures
        event matches ProviderEvent::TextDelta { text } ==> final(streamed)@ == old(streamed)@ + text@
            && out is TextDelta && out->TextDelta_text@ == text@,
        !(event is TextDelta) ==> final(streamed)@ == old(streamed)@,
        event matches ProviderEvent::ThinkingDelta { text } ==> out is ThinkingDelta
            && out->ThinkingDelta_text@ == text@,
        event matches ProviderEvent::ToolUseStart { id, name } ==> out is ToolPending && out->id@
            == id@ && (out->name@ == name@ || "functions."@ + out->name@ == name@),
        event matches ProviderEvent::PromptProgress { processed, total, cache } ==> out
            == (AgentEvent::PromptProgress { processed, total, cache }),
{
    law_events_are_passed_on_whole(event, out);
    if !(event is TextDelta) {
        assert(old(streamed)@ + added_text(event) =~= old(streamed)@);
    }
}

/// A cancelled wait ends the stream without text, and any other goes on.
pub proof fn law_cancelled_wait_carries_no_text(cancelled: bool, r: Result<(), StreamError>)
    requires
        call_ensures(after_backoff, (cancelled,), r),
    ensures
        !cancelled ==> r is Ok,
        cancelled ==> r is Err,
        r matches Err(StreamError::Cancelled { streamed }) ==> streamed@.len() == 0,
        r matches Err(e) ==> e is Cancelled,
{
}

/// Clamping the output changes nothing else of a model, and never raises its limit. With the prompt
/// that it is clamped for the output fits in the window, if the prompt does. To clamp again for the
/// same prompt changes nothing.
pub proof fn law_clamped_model_fits(
    model: &Model,
    prompt_tokens: u32,
    clamped: Model,
    again: Model,
)
    requires
        call_ensures(Model::with_output_budget, (model, prompt_tokens), clamped),
        call_ensures(Model::with_output_budget, (&clamped, prompt_tokens), again),
    ensures
        clamped.id@ == model.id@,
        clamped.provider@ == model.provider@,
        clamped.context_window == model.context_window,
        clamped.max_output_tokens is Some <==> model.max_output_tokens is Some,
        clamped.max_output_tokens matches Some(n) ==> n <= model.max_output_tokens->0 && (
        prompt_tokens <= model.context_window ==> prompt_tokens + n <= model.context_window),
        again.max_output_tokens == clamped.max_output_tokens,
{
}

/// The record of an answer names the model and its provider, and counts what the answer counts.
pub proof fn law_request_record_is_the_answer(
    model: &Model,
    response: &StreamResponse,
    record: ApiRequest,
)
    requires
        call_ensures(api_request, (model, response), record),
    ensures
        record.model@ == model.id@,
        record.provider@ == model.provider@,
        record.input_tokens + record.output_tokens + record.cache_read_tokens
            + record.cache_creation_tokens == response.usage.input + response.usage.output
            + response.usage.cache_read + response.usage.cache_creation,
        record.input_tokens == response.usage.input,
        record.output_tokens == response.usage.output,
        record.cache_read_tokens == response.usage.cache_read,
        record.stop_reason == response.stop_reason,
{
}

/// The record of a failure names the model, its provider and the attempt. It has a status exactly
/// for an error of the provider, and of that error nothing else: two such errors with the same
/// status leave the same record, whatever their messages.
pub proof fn law_error_record_leaves_the_message_behind(
    model: &Model,
    error: &AgentError,
    other: &AgentError,
    attempt: u32,
    record: ApiError,
    other_record: ApiError,
)
    requires
        call_ensures(api_error, (model, error, attempt), record),
        call_ensures(api_error, (model, other, attempt), other_record),
    ensures
        record.model@ == model.id@,
        record.provider@ == model.provider@,
        record.attempt == attempt,
        error matches AgentError::Api { status, .. } ==> record.status_code == Some(*status)
            && record.error@ == "API error ("@ + text::decimal(*status as nat) + ")"@,
        !(*error is Api) ==> record.status_code is None && record.error@ == message::error_text(
            error@,
        ),
        (*error is Api && *other is Api && error->Api_status == other->Api_status) ==> record.error@
            == other_record.error@ && record.status_code == other_record.status_code,
{
}

/// A compaction on its own is reported as one turn with the usage it had.
pub proof fn law_compaction_is_one_turn(usage: TokenUsage, event: AgentEvent)
    requires
        call_ensures(compact_done, (usage,), event),
    ensures
        event is Done,
        event->usage == usage,
        event->num_turns == 1,
        event->stop_reason is None,
{
}

/// An error of the agent is kept whole on its way through the stream's error and back, and a cancel
/// stays a cancel, whatever text it carries.
pub proof fn law_errors_survive_the_stream(
    e: AgentError,
    s: StreamError,
    back: AgentError,
    streamed: String,
    cancelled: AgentError,
)
    requires
        call_ensures(<StreamError as From<AgentError>>::from, (e,), s),
        call_ensures(<AgentError as From<StreamError>>::from, (s,), back),
        call_ensures(
            <AgentError as From<StreamError>>::from,
            (StreamError::Cancelled { streamed },),
            cancelled,
        ),
    ensures
        back == e,
        cancelled is Cancelled,
{
}

} // verus!
