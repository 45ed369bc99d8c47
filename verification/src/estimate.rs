//! Estimates of the tokens that messages take, and the budgets that rest on them.
//!
//! The estimate counts one token for four bytes. Some tokenizers produce about a quarter more
//! tokens than that, so budgets use four fifths of the room that a context window offers.

use vstd::prelude::*;
use crate::message;
use crate::message::{ContentBlock, Message, Model, TokenUsage};
use crate::text;
use crate::text::text_bytes;

verus! {

/// The tokens that an image is taken to cost.
pub const IMAGE_TOKENS: u32 = 768;

/// The tokens that the summary of earlier passes is taken to cost in a request.
pub const SUMMARY_OVERHEAD_ESTIMATE: u32 = 5_000;

/// The estimated tokens of a text of `bytes` bytes: a quarter of them, rounded up, and one for an
/// empty text. The byte count is taken modulo 2^32.
pub open spec fn text_tokens(bytes: nat) -> nat {
    let counted: nat = if bytes == 0 { 1 } else { bytes % 0x1_0000_0000 };
    (counted + 3) / 4
}

/// The estimated tokens of a content block.
pub open spec fn block_tokens(block: message::BlockView) -> nat {
    match block {
        message::BlockView::Text { text } => text_tokens(text::byte_len(text)),
        message::BlockView::ToolResult { content, .. } => text_tokens(text::byte_len(content)),
        message::BlockView::ToolUse { input, .. } => text_tokens(text::byte_len(input)),
        message::BlockView::Thinking { thinking, .. } => text_tokens(text::byte_len(thinking)),
        message::BlockView::RedactedThinking { data } => text_tokens(text::byte_len(data)),
        message::BlockView::Image { .. } => IMAGE_TOKENS as nat,
    }
}

/// The estimated tokens of a list of content blocks.
pub open spec fn blocks_tokens(blocks: Seq<message::BlockView>) -> nat
    decreases blocks.len(),
{
    if blocks.len() == 0 {
        0
    } else {
        blocks_tokens(blocks.drop_last()) + block_tokens(blocks.last())
    }
}

/// The estimated tokens of a message.
pub open spec fn message_tokens(m: message::MessageView) -> nat {
    blocks_tokens(m.content)
}

/// The estimated tokens of a list of messages.
pub open spec fn messages_tokens(list: Seq<message::MessageView>) -> nat
    decreases list.len(),
{
    if list.len() == 0 {
        0
    } else {
        messages_tokens(list.drop_last()) + message_tokens(list.last())
    }
}

/// The first blocks of a list cost no more than all of them.
pub proof fn lemma_blocks_tokens_take(blocks: Seq<message::BlockView>, n: int)
    requires
        0 <= n <= blocks.len(),
    ensures
        blocks_tokens(blocks.take(n)) <= blocks_tokens(blocks),
    decreases blocks.len(),
{
    if n == blocks.len() {
        assert(blocks.take(n) =~= blocks);
    } else {
        assert(blocks.drop_last().take(n) =~= blocks.take(n));
        lemma_blocks_tokens_take(blocks.drop_last(), n);
    }
}

/// The first messages of a list cost no more than all of them.
pub proof fn lemma_messages_tokens_take(list: Seq<message::MessageView>, n: int)
    requires
        0 <= n <= list.len(),
    ensures
        messages_tokens(list.take(n)) <= messages_tokens(list),
    decreases list.len(),
{
    if n == list.len() {
        assert(list.take(n) =~= list);
    } else {
        assert(list.drop_last().take(n) =~= list.take(n));
        lemma_messages_tokens_take(list.drop_last(), n);
    }
}

/// Two lists of messages, one behind the other, cost what both cost.
pub proof fn lemma_messages_tokens_concat(
    a: Seq<message::MessageView>,
    b: Seq<message::MessageView>,
)
    ensures
        messages_tokens(a + b) == messages_tokens(a) + messages_tokens(b),
    decreases b.len(),
{
    if b.len() == 0 {
        assert(a + b =~= a);
    } else {
        assert((a + b).drop_last() =~= a + b.drop_last());
        lemma_messages_tokens_concat(a, b.drop_last());
    }
}

fn estimate_text_tokens(s: &str) -> (n: u32)
    ensures
        n == text_tokens(text::byte_len(s@)),
        n <= 0x4000_0000,
{
    let bytes: usize = text_bytes(s);
    let counted: u64 = if bytes == 0 { 1 } else { bytes as u64 % 0x1_0000_0000 };
    ((counted + 3) / 4) as u32
}

fn estimate_block_tokens(block: &ContentBlock) -> (n: u32)
    ensures
        n == block_tokens(block@),
{
    match block {
        ContentBlock::Text { text } => estimate_text_tokens(text.as_str()),
        ContentBlock::ToolResult { content, .. } => estimate_text_tokens(content.as_str()),
        ContentBlock::ToolUse { input, .. } => estimate_text_tokens(input.as_str()),
        ContentBlock::Thinking { thinking, .. } => estimate_text_tokens(thinking.as_str()),
        ContentBlock::RedactedThinking { data } => estimate_text_tokens(data.as_str()),
        ContentBlock::Image { .. } => IMAGE_TOKENS,
    }
}

/// A rough estimate of the tokens in a message, unless it does not fit in 32 bits.
pub fn checked_message_tokens(msg: &Message) -> (n: Option<u32>)
    ensures
        match n {
            Some(tokens) => tokens == message_tokens(msg@),
            None => message_tokens(msg@) > u32::MAX,
        },
{
    let ghost blocks = msg@.content;
    let mut n: u32 = 0;
    let mut i: usize = 0;
    while i < msg.content.len()
        invariant
            i <= msg.content.len(),
            blocks == message::block_views(msg.content@),
            n == blocks_tokens(blocks.take(i as int)),
            blocks == msg@.content,
        decreases msg.content.len() - i,
    {
        proof {
            assert(blocks.take(i + 1).drop_last() =~= blocks.take(i as int));
            lemma_blocks_tokens_take(blocks, i + 1);
        }
        n = match n.checked_add(estimate_block_tokens(&msg.content[i])) {
            Some(sum) => sum,
            None => {
                return None;
            },
        };
        i += 1;
    }
    assert(blocks.take(i as int) =~= blocks);
    Some(n)
}

/// A rough estimate of the tokens in a list of messages, unless it does not fit in 32 bits.
pub fn checked_messages_tokens(messages: &[Message]) -> (n: Option<u32>)
    ensures
        match n {
            Some(tokens) => tokens == messages_tokens(message::message_views(messages@)),
            None => messages_tokens(message::message_views(messages@)) > u32::MAX,
        },
{
    let ghost list = message::message_views(messages@);
    let mut n: u32 = 0;
    let mut i: usize = 0;
    while i < messages.len()
        invariant
            i <= messages.len(),
            list == message::message_views(messages@),
            n == messages_tokens(list.take(i as int)),
        decreases messages.len() - i,
    {
        proof {
            assert(list.take(i + 1).drop_last() =~= list.take(i as int));
            assert(list.take(i + 1).last() == messages@[i as int]@);
            lemma_messages_tokens_take(list, i + 1);
        }
        let tokens: u32 = match checked_message_tokens(&messages[i]) {
            Some(tokens) => tokens,
            None => {
                return None;
            },
        };
        n = match n.checked_add(tokens) {
            Some(sum) => sum,
            None => {
                return None;
            },
        };
        i += 1;
    }
    assert(list.take(i as int) =~= list);
    Some(n)
}

/// A rough estimate of the tokens in a message: one for four bytes of text, and a fixed number
/// for an image.
pub fn estimate_message_tokens(msg: &Message) -> (n: u32)
    requires
        message_tokens(msg@) <= u32::MAX,
    ensures
        n == message_tokens(msg@),
{
    checked_message_tokens(msg).unwrap()
}

/// A rough estimate of the tokens in a list of messages.
pub fn estimate_messages_tokens(messages: &[Message]) -> (n: u32)
    requires
        messages_tokens(message::message_views(messages@)) <= u32::MAX,
    ensures
        n == messages_tokens(message::message_views(messages@)),
{
    checked_messages_tokens(messages).unwrap()
}

/// The tokens of the context window that are left for a request when `reserve` of them are kept
/// for the answer.
pub open spec fn room(context_window: u32, reserve: u32) -> nat {
    if context_window >= reserve {
        (context_window - reserve) as nat
    } else {
        0
    }
}

/// The estimated tokens that the history may take in a request: four fifths of the room, less
/// the overhead of the prompts around it, and never less than nothing.
pub open spec fn history_budget(context_window: u32, reserve: u32, overhead: nat) -> nat {
    let scaled = 4 * room(context_window, reserve) / 5;
    if scaled >= overhead {
        (scaled - overhead) as nat
    } else {
        0
    }
}

/// The largest estimated token budget for the history portion of a compaction request, given the
/// model's context window and the overhead of the surrounding prompts.
///
/// `output_reserve` is kept for the model's summary. `summary_overhead` is the estimated cost of
/// the summary of earlier passes, nothing in a single pass.
pub fn compaction_history_budget(
    context_window: u32,
    output_reserve: u32,
    system_tokens: u32,
    user_prompt_tokens: u32,
    summary_overhead: u32,
) -> (budget: u32)
    requires
        system_tokens + user_prompt_tokens + summary_overhead <= u32::MAX,
    ensures
        budget == history_budget(
            context_window,
            output_reserve,
            (system_tokens + user_prompt_tokens + summary_overhead) as nat,
        ),
{
    let available: u64 = if context_window >= output_reserve {
        (context_window - output_reserve) as u64
    } else {
        0
    };
    let scaled: u64 = available * 4 / 5;
    let overhead: u64 = (system_tokens + user_prompt_tokens + summary_overhead) as u64;
    if scaled >= overhead {
        (scaled - overhead) as u32
    } else {
        0
    }
}

/// The tokens that are kept for the answer: the compaction buffer, or the model's largest output
/// where that is less.
pub open spec fn reserved_output(max_output_tokens: Option<u32>, compaction_buffer: u32) -> u32 {
    match max_output_tokens {
        Some(max) => if max < compaction_buffer {
            max
        } else {
            compaction_buffer
        },
        None => compaction_buffer,
    }
}

/// Whether `used` tokens fill four fifths of the room or more.
pub open spec fn overflows(used: nat, context_window: u32, reserve: u32) -> bool {
    5 * used >= 4 * room(context_window, reserve)
}

/// Whether the accumulated token usage has crossed the overflow threshold: four fifths of what
/// the context window leaves beside the answer.
pub fn is_overflow(usage: &TokenUsage, model: &Model, compaction_buffer: u32) -> (overflow: bool)
    requires
        usage.total() <= u32::MAX,
    ensures
        overflow == overflows(
            usage.total(),
            model.context_window,
            reserved_output(model.max_output_tokens, compaction_buffer),
        ),
{
    let reserve: u32 = match model.max_output_tokens {
        Some(max) => if max < compaction_buffer {
            max
        } else {
            compaction_buffer
        },
        None => compaction_buffer,
    };
    let available: u64 = if model.context_window >= reserve {
        (model.context_window - reserve) as u64
    } else {
        0
    };
    usage.context_tokens() as u64 * 5 >= available * 4
}

/// Below 2^32 bytes the estimate of a block is a quarter of the bytes of the text that it sends,
/// rounded up, and at least one. For a tool result that text is its content, for a tool call its
/// input. All kinds of blocks that send the same text have the same estimate, whatever else they
/// hold, and a longer text never has a smaller one.
pub proof fn law_estimate_covers_what_is_sent(sent: Seq<char>, longer: Seq<char>, id: Seq<char>)
    requires
        vstd::utf8::encode_utf8(sent).len() <= vstd::utf8::encode_utf8(longer).len() < 0x1_0000_0000,
    ensures
        4 * block_tokens(message::BlockView::Text { text: sent }) >= vstd::utf8::encode_utf8(
            sent,
        ).len(),
        block_tokens(message::BlockView::Text { text: sent }) > 1 ==> 4 * block_tokens(
            message::BlockView::Text { text: sent },
        ) < vstd::utf8::encode_utf8(sent).len() + 4,
        block_tokens(message::BlockView::Text { text: sent }) >= 1,
        block_tokens(message::BlockView::Text { text: sent }) <= block_tokens(
            message::BlockView::Text { text: longer },
        ),
        forall|is_error: bool|
            #[trigger] block_tokens(
                message::BlockView::ToolResult { tool_use_id: id, content: sent, is_error },
            ) == block_tokens(message::BlockView::Text { text: sent }),
        forall|name: Seq<char>|
            #[trigger] block_tokens(message::BlockView::ToolUse { id, name, input: sent })
                == block_tokens(message::BlockView::Text { text: sent }),
        forall|signature: Option<Seq<char>>|
            #[trigger] block_tokens(message::BlockView::Thinking { thinking: sent, signature })
                == block_tokens(message::BlockView::Text { text: sent }),
        block_tokens(message::BlockView::RedactedThinking { data: sent }) == block_tokens(
            message::BlockView::Text { text: sent },
        ),
{
}

/// All images cost the same, whatever their data.
pub proof fn law_images_cost_the_same(
    media_type: message::ImageMediaType,
    data: Seq<char>,
)
    ensures
        block_tokens(message::BlockView::Image { media_type, data }) == 768,
{
}

/// Estimates add up. Blocks that follow one another, and messages that follow one another, cost
/// what they cost apart; a message costs what its blocks cost, whoever it comes from.
pub proof fn law_estimates_add_up(
    role: message::Role,
    blocks: Seq<message::BlockView>,
    more: Seq<message::BlockView>,
    block: message::BlockView,
    list: Seq<message::MessageView>,
    later: Seq<message::MessageView>,
)
    ensures
        message_tokens(message::MessageView { role, content: Seq::empty() }) == 0,
        message_tokens(message::MessageView { role, content: seq![block] }) == block_tokens(block),
        message_tokens(message::MessageView { role, content: blocks + more }) == message_tokens(
            message::MessageView { role, content: blocks },
        ) + message_tokens(message::MessageView { role, content: more }),
        messages_tokens(Seq::empty()) == 0,
        messages_tokens(seq![message::MessageView { role, content: blocks }]) == message_tokens(
            message::MessageView { role, content: blocks },
        ),
        messages_tokens(list + later) == messages_tokens(list) + messages_tokens(later),
{
    assert(seq![block].drop_last() =~= Seq::<message::BlockView>::empty());
    reveal_with_fuel(blocks_tokens, 2);
    lemma_blocks_tokens_concat(blocks, more);
    let one = seq![message::MessageView { role, content: blocks }];
    assert(one.drop_last() =~= Seq::<message::MessageView>::empty());
    reveal_with_fuel(messages_tokens, 2);
    lemma_messages_tokens_concat(list, later);
}

proof fn lemma_blocks_tokens_concat(a: Seq<message::BlockView>, b: Seq<message::BlockView>)
    ensures
        blocks_tokens(a + b) == blocks_tokens(a) + blocks_tokens(b),
    decreases b.len(),
{
    if b.len() == 0 {
        assert(a + b =~= a);
    } else {
        assert((a + b).drop_last() =~= a + b.drop_last());
        lemma_blocks_tokens_concat(a, b.drop_last());
    }
}

/// The budget of a history is the most that four fifths of the window beside the reserve hold
/// together with the overhead: one token more would not fit. Where reserve or overhead leave
/// nothing, it is nothing.
pub proof fn law_budget_is_the_most_that_fits(context_window: u32, reserve: u32, overhead: nat)
    ensures
        history_budget(context_window, reserve, overhead) > 0 ==> 5 * (history_budget(
            context_window,
            reserve,
            overhead,
        ) + overhead) <= 4 * (context_window - reserve),
        5 * (history_budget(context_window, reserve, overhead) + 1 + overhead) > 4 * (
        context_window - reserve),
{
}

/// Usage overflows exactly where it reaches four fifths of the window beside what is kept for the
/// answer. That is no more than the compaction buffer and no more than the model's largest
/// output, and one of the two.
pub proof fn law_overflow_threshold(
    used: nat,
    context_window: u32,
    max_output_tokens: Option<u32>,
    compaction_buffer: u32,
)
    ensures
        overflows(
            used,
            context_window,
            reserved_output(max_output_tokens, compaction_buffer),
        ) <==> 5 * used >= 4 * (context_window - reserved_output(
            max_output_tokens,
            compaction_buffer,
        )),
        reserved_output(max_output_tokens, compaction_buffer) <= compaction_buffer,
        max_output_tokens matches Some(max) ==> reserved_output(
            max_output_tokens,
            compaction_buffer,
        ) <= max,
        max_output_tokens is None ==> reserved_output(max_output_tokens, compaction_buffer)
            == compaction_buffer,
        reserved_output(max_output_tokens, compaction_buffer) == compaction_buffer
            || max_output_tokens == Some(reserved_output(max_output_tokens, compaction_buffer)),
{
}

/// A history within its budget, together with the prompts around it, stays within the room even
/// if the true count of tokens is a quarter above the estimate.
pub proof fn law_budget_leaves_room(
    context_window: u32,
    reserve: u32,
    overhead: nat,
    history: nat,
)
    requires
        history <= history_budget(context_window, reserve, overhead),
        5 * overhead <= 4 * room(context_window, reserve),
    ensures
        5 * (history + overhead) <= 4 * room(context_window, reserve),
{
}

/// Usage that does not overflow stays under the room that the answer leaves even if the true
/// count of tokens is a quarter above it.
pub proof fn law_no_overflow_leaves_headroom(used: nat, context_window: u32, reserve: u32)
    requires
        !overflows(used, context_window, reserve),
    ensures
        used + used / 4 < room(context_window, reserve),
{
}

/// More usage never takes back an overflow.
pub proof fn law_overflow_monotone(less: nat, more: nat, context_window: u32, reserve: u32)
    requires
        less <= more,
        overflows(less, context_window, reserve),
    ensures
        overflows(more, context_window, reserve),
{
}

/// A larger overhead never enlarges the budget, and a larger context window never shrinks it.
pub proof fn law_budget_monotone(
    small_window: u32,
    large_window: u32,
    reserve: u32,
    small_overhead: nat,
    large_overhead: nat,
)
    requires
        small_window <= large_window,
        small_overhead <= large_overhead,
    ensures
        history_budget(small_window, reserve, large_overhead) <= history_budget(
            large_window,
            reserve,
            small_overhead,
        ),
{
}

/// The estimate of a message of one block is a quarter of the bytes that the block sends, rounded
/// up, as long as they are counted in 32 bits. For a tool result those are the bytes of its content,
/// whatever its id.
pub proof fn law_message_estimate_by_what_it_sends(m: &Message, n: u32, sent: Seq<char>)
    requires
        call_ensures(estimate_message_tokens, (m,), n),
        m@.content.len() == 1,
        match m@.content[0] {
            message::BlockView::Text { text } => text == sent,
            message::BlockView::ToolUse { id, name, input } => input == sent,
            message::BlockView::ToolResult { tool_use_id, content, is_error } => content == sent,
            message::BlockView::Thinking { thinking, signature } => thinking == sent,
            message::BlockView::RedactedThinking { data } => data == sent,
            message::BlockView::Image { media_type, data } => false,
        },
        vstd::utf8::encode_utf8(sent).len() < 0x1_0000_0000,
    ensures
        n >= 1,
        4 * n >= vstd::utf8::encode_utf8(sent).len(),
        n > 1 ==> 4 * n < vstd::utf8::encode_utf8(sent).len() + 4,
{
    let block = m@.content[0];
    assert(m@.content =~= seq![block]);
    let none = Seq::<message::BlockView>::empty();
    law_estimates_add_up(m@.role, none, none, block, Seq::empty(), Seq::empty());
    law_estimate_covers_what_is_sent(sent, sent, Seq::empty());
    assert(m@ == (message::MessageView { role: m@.role, content: seq![block] }));
}

/// The estimate of messages is the sum over them: that of messages that follow one another is the
/// sum of both, and that of one message is the message's own.
pub proof fn law_messages_estimate_is_the_sum(
    first: &[Message],
    rest: &[Message],
    all: &[Message],
    first_tokens: u32,
    rest_tokens: u32,
    tokens: u32,
    m: &Message,
    own_tokens: u32,
)
    requires
        all@ == first@ + rest@,
        call_ensures(estimate_messages_tokens, (first,), first_tokens),
        call_ensures(estimate_messages_tokens, (rest,), rest_tokens),
        call_ensures(estimate_messages_tokens, (all,), tokens),
        call_ensures(estimate_message_tokens, (m,), own_tokens),
    ensures
        tokens == first_tokens + rest_tokens,
        rest@ == seq![*m] ==> rest_tokens == own_tokens,
        rest@.len() == 0 ==> tokens == first_tokens,
{
    let a = message::message_views(first@);
    let b = message::message_views(rest@);
    assert(message::message_views(all@) =~= a + b);
    lemma_messages_tokens_concat(a, b);
    if rest@ == seq![*m] {
        assert(b =~= seq![m@]);
        assert(b.drop_last() =~= Seq::<message::MessageView>::empty());
        reveal_with_fuel(messages_tokens, 2);
    }
}

/// Usage is told to overflow exactly where tokens of all kinds together reach four fifths of the
/// window beside what is kept for the answer.
pub proof fn law_overflow_counts_all_kinds(
    usage: &TokenUsage,
    model: &Model,
    compaction_buffer: u32,
    overflow: bool,
)
    requires
        call_ensures(is_overflow, (usage, model, compaction_buffer), overflow),
    ensures
        model.max_output_tokens is None ==> (overflow <==> 5 * (usage.input + usage.output
            + usage.cache_read + usage.cache_creation) >= 4 * (model.context_window
            - compaction_buffer)),
        model.max_output_tokens matches Some(max) ==> max >= compaction_buffer ==> (overflow <==> 5
            * (usage.input + usage.output + usage.cache_read + usage.cache_creation) >= 4 * (
        model.context_window - compaction_buffer)),
        model.max_output_tokens matches Some(max) ==> max < compaction_buffer ==> (overflow <==> 5
            * (usage.input + usage.output + usage.cache_read + usage.cache_creation) >= 4 * (
        model.context_window - max)),
{
}

/// The history budget leaves room for all that stands around the history, the summary of earlier
/// passes included, and takes the rest of four fifths of the window beside the reserve.
pub proof fn law_history_budget_counts_all_overheads(
    context_window: u32,
    output_reserve: u32,
    system_tokens: u32,
    user_prompt_tokens: u32,
    summary_overhead: u32,
    budget: u32,
)
    requires
        call_ensures(
            compaction_history_budget,
            (
                context_window,
                output_reserve,
                system_tokens,
                user_prompt_tokens,
                summary_overhead,
            ),
            budget,
        ),
    ensures
        budget > 0 ==> 5 * (budget + system_tokens + user_prompt_tokens + summary_overhead) <= 4 * (
        context_window - output_reserve),
        5 * (budget + 1 + system_tokens + user_prompt_tokens + summary_overhead) > 4 * (
        context_window - output_reserve),
{
    law_budget_is_the_most_that_fits(
        context_window,
        output_reserve,
        (system_tokens + user_prompt_tokens + summary_overhead) as nat,
    );
}

/// Bytes are counted in 32 bits: 2^32 bytes more change nothing, except behind nothing, where they
/// take away the one token of an empty text.
pub proof fn law_bytes_are_counted_in_32_bits(bytes: nat)
    ensures
        bytes > 0 ==> text_tokens(bytes + 0x1_0000_0000) == text_tokens(bytes),
        text_tokens(0) == 1,
        text_tokens(0x1_0000_0000) == 0,
        0 < bytes < 0x1_0000_0000 ==> bytes <= 4 * text_tokens(bytes) < bytes + 4,
{
}

} // verus!
