//! Compaction: replacing a long history by a summary that the model writes of it.
//!
//! A history that fits goes to the model in one pass. A longer one is split into chunks, and each
//! pass after the first sends the summary of the passes before it along with its chunk.

use vstd::prelude::*;
use vstd::string::*;
use crate::estimate;
use crate::estimate::{
    checked_message_tokens, checked_messages_tokens, compaction_history_budget,
    estimate_message_tokens, estimate_messages_tokens, SUMMARY_OVERHEAD_ESTIMATE,
};
use crate::message;
use crate::message::{
    copy_messages, AgentError, ContentBlock, Message, StreamResponse, TokenUsage,
};
use crate::text;
use crate::text::{cat, join, same_text};

verus! {

/// The message that sets the agent going again after a compaction.
pub const CONTINUE_AFTER_COMPACT: &'static str = "Continue if you have next steps, or stop and ask for clarification if you are unsure how to proceed. If you learned important project context during this session, consider saving it to memory before it's lost.";

/// What stands for an image.
pub const IMAGE_PLACEHOLDER: &'static str = "[image]";

/// What a block of a message without images holds: a placeholder stands for an image.
pub open spec fn block_without_image(block: message::BlockView) -> message::BlockView {
    match block {
        message::BlockView::Image { .. } => message::BlockView::Text { text: IMAGE_PLACEHOLDER@ },
        other => other,
    }
}

/// A message whose images have become placeholders.
pub open spec fn without_images(m: message::MessageView) -> message::MessageView {
    message::MessageView {
        role: m.role,
        content: m.content.map_values(|b: message::BlockView| block_without_image(b)),
    }
}

/// Whether a block holds the model's thinking.
pub open spec fn is_thinking(block: message::BlockView) -> bool {
    block is Thinking || block is RedactedThinking
}

/// A message that has lost the blocks that hold thinking.
pub open spec fn without_thinking(m: message::MessageView) -> message::MessageView {
    message::MessageView {
        role: m.role,
        content: m.content.filter(|b: message::BlockView| !is_thinking(b)),
    }
}

/// The history as it goes to the model: without images and without thinking.
pub open spec fn prepared(history: Seq<message::MessageView>) -> Seq<message::MessageView> {
    history.map_values(|m: message::MessageView| without_thinking(without_images(m)))
}

fn strip_message_images(m: &mut Message)
    ensures
        final(m)@ == without_images(old(m)@),
{
    let ghost before = m@;
    let mut i: usize = 0;
    while i < m.content.len()
        invariant
            i <= m.content.len(),
            m.role == before.role,
            m.content.len() == before.content.len(),
            forall|k: int|
                0 <= k < i ==> (#[trigger] m.content@[k])@ == block_without_image(
                    before.content[k],
                ),
            forall|k: int|
                i <= k < m.content.len() ==> (#[trigger] m.content@[k])@ == before.content[k],
        decreases m.content.len() - i,
    {
        let image: bool = match m.content[i] {
            ContentBlock::Image { .. } => true,
            _ => false,
        };
        if image {
            m.content.set(i, ContentBlock::Text { text: IMAGE_PLACEHOLDER.to_owned() });
        }
        i += 1;
    }
    assert(m@.content =~= without_images(before).content);
}

/// Puts a placeholder in the place of each image.
pub fn strip_images(messages: &mut Vec<Message>)
    ensures
        message::message_views(final(messages)@) == message::message_views(
            old(messages)@,
        ).map_values(|m: message::MessageView| without_images(m)),
{
    let ghost before = messages@;
    let mut i: usize = 0;
    while i < messages.len()
        invariant
            i <= messages.len(),
            messages.len() == before.len(),
            forall|k: int|
                0 <= k < i ==> (#[trigger] messages@[k])@ == without_images(before[k]@),
            forall|k: int| i <= k < messages.len() ==> #[trigger] messages@[k] == before[k],
        decreases messages.len() - i,
    {
        strip_message_images(&mut messages[i]);
        i += 1;
    }
    assert(message::message_views(messages@) =~= message::message_views(before).map_values(
        |m: message::MessageView| without_images(m),
    ));
}

/// One more element of a list changes what a filter keeps of it by that element alone.
proof fn lemma_filter_take<A>(s: Seq<A>, keep: spec_fn(A) -> bool, n: int)
    requires
        0 <= n < s.len(),
    ensures
        s.take(n + 1).filter(keep) == (if keep(s[n]) {
            s.take(n).filter(keep).push(s[n])
        } else {
            s.take(n).filter(keep)
        }),
{
    reveal(Seq::filter);
    assert(s.take(n + 1).drop_last() =~= s.take(n));
}

fn strip_message_thinking(m: &mut Message)
    ensures
        final(m)@ == without_thinking(old(m)@),
{
    let ghost before = m@;
    let ghost keep = |b: message::BlockView| !is_thinking(b);
    let ghost mut seen: int = 0;
    let mut i: usize = 0;
    proof {
        reveal(Seq::filter);
        assert(before.content.take(0).filter(keep) =~= Seq::<message::BlockView>::empty());
        assert(m@.content =~= before.content.take(0).filter(keep) + before.content.skip(0));
    }
    while i < m.content.len()
        invariant
            m.role == before.role,
            keep == (|b: message::BlockView| !is_thinking(b)),
            0 <= seen <= before.content.len(),
            i == before.content.take(seen).filter(keep).len(),
            message::block_views(m.content@) == before.content.take(seen).filter(keep)
                + before.content.skip(seen),
        decreases m.content.len() - i,
    {
        let ghost held = m.content@;
        let ghost kept = before.content.take(seen).filter(keep);
        proof {
            lemma_filter_take(before.content, keep, seen);
            assert(message::block_views(held)[i as int] == before.content.skip(seen)[0]);
            assert(held[i as int]@ == before.content[seen]);
        }
        let thinking: bool = match m.content[i] {
            ContentBlock::Thinking { .. } => true,
            ContentBlock::RedactedThinking { .. } => true,
            _ => false,
        };
        if thinking {
            m.content.remove(i);
            proof {
                assert(message::block_views(m.content@) =~= message::block_views(held).remove(
                    i as int,
                ));
                assert((kept + before.content.skip(seen)).remove(i as int) =~= kept
                    + before.content.skip(seen + 1));
                seen = seen + 1;
            }
        } else {
            proof {
                assert(kept + before.content.skip(seen) =~= kept.push(before.content[seen])
                    + before.content.skip(seen + 1));
                seen = seen + 1;
            }
            i += 1;
        }
    }
    proof {
        assert(message::block_views(m.content@).len() == m.content.len());
        assert(before.content.skip(seen).len() == 0);
        assert(before.content.take(seen) =~= before.content);
        assert(message::block_views(m.content@) =~= before.content.filter(keep));
    }
}

/// Removes the blocks that hold thinking.
pub fn strip_thinking(messages: &mut Vec<Message>)
    ensures
        message::message_views(final(messages)@) == message::message_views(
            old(messages)@,
        ).map_values(|m: message::MessageView| without_thinking(m)),
{
    let ghost before = messages@;
    let mut i: usize = 0;
    while i < messages.len()
        invariant
            i <= messages.len(),
            messages.len() == before.len(),
            forall|k: int|
                0 <= k < i ==> (#[trigger] messages@[k])@ == without_thinking(before[k]@),
            forall|k: int| i <= k < messages.len() ==> #[trigger] messages@[k] == before[k],
        decreases messages.len() - i,
    {
        strip_message_thinking(&mut messages[i]);
        i += 1;
    }
    assert(message::message_views(messages@) =~= message::message_views(before).map_values(
        |m: message::MessageView| without_thinking(m),
    ));
}

/// How far a history has been split: the finished chunks, the open chunk, and the count of
/// tokens that decides when the open chunk is closed.
pub struct Splitting {
    pub chunks: Seq<Seq<message::MessageView>>,
    pub open: Seq<message::MessageView>,
    pub count: nat,
}

/// The open chunk closed, where it holds anything.
pub open spec fn close_chunk(s: Splitting) -> Seq<Seq<message::MessageView>> {
    if s.open.len() == 0 {
        s.chunks
    } else {
        s.chunks.push(s.open)
    }
}

/// One more message. A message over the budget closes the open chunk and makes a chunk of its own.
/// Any other message joins the open chunk, unless the count would pass the budget: then it begins
/// the next one.
pub open spec fn split_step(s: Splitting, m: message::MessageView, budget: nat) -> Splitting {
    let tokens = estimate::message_tokens(m);
    if tokens > budget {
        Splitting { chunks: close_chunk(s).push(seq![m]), open: Seq::empty(), count: 0 }
    } else if s.count + tokens > budget && s.open.len() > 0 {
        Splitting { chunks: s.chunks.push(s.open), open: seq![m], count: tokens }
    } else {
        Splitting { chunks: s.chunks, open: s.open.push(m), count: s.count + tokens }
    }
}

/// The messages of `list` split as far as they go, from the oldest to the newest.
pub open spec fn splitting(list: Seq<message::MessageView>, budget: nat) -> Splitting
    decreases list.len(),
{
    if list.len() == 0 {
        Splitting { chunks: Seq::empty(), open: Seq::empty(), count: 0 }
    } else {
        split_step(splitting(list.drop_last(), budget), list.last(), budget)
    }
}

/// The chunks that a history is split into.
pub open spec fn chunks_of(list: Seq<message::MessageView>, budget: nat) -> Seq<
    Seq<message::MessageView>,
> {
    close_chunk(splitting(list, budget))
}

/// Whether the counts that splitting `list` needs are within 32 bits.
pub open spec fn countable(list: Seq<message::MessageView>, budget: nat) -> bool {
    forall|i: int|
        0 <= i < list.len() ==> {
            let tokens = estimate::message_tokens(#[trigger] list[i]);
            &&& tokens <= u32::MAX
            &&& tokens <= budget ==> splitting(list.take(i), budget).count + tokens <= u32::MAX
        }
}

/// What the chunks of a list of lists of messages hold.
pub open spec fn chunk_views(chunks: Seq<Vec<Message>>) -> Seq<Seq<message::MessageView>> {
    chunks.map_values(|c: Vec<Message>| message::message_views(c@))
}

proof fn lemma_chunk_views_push(chunks: Seq<Vec<Message>>, chunk: Vec<Message>)
    ensures
        chunk_views(chunks.push(chunk)) == chunk_views(chunks).push(
            message::message_views(chunk@),
        ),
{
    assert(chunk_views(chunks.push(chunk)) =~= chunk_views(chunks).push(
        message::message_views(chunk@),
    ));
}

/// Splits `messages` into chunks that fit within `budget` tokens, from the oldest message to the
/// newest. A single message over the budget gets a chunk of its own. Nothing is dropped.
pub fn split_into_chunks(messages: &[Message], budget: u32) -> (chunks: Vec<Vec<Message>>)
    requires
        countable(message::message_views(messages@), budget as nat),
    ensures
        chunk_views(chunks@) == chunks_of(message::message_views(messages@), budget as nat),
{
    let ghost list = message::message_views(messages@);
    let mut chunks: Vec<Vec<Message>> = Vec::new();
    let mut current: Vec<Message> = Vec::new();
    let mut count: u32 = 0;
    let mut i: usize = 0;
    proof {
        assert(list.take(0) =~= Seq::<message::MessageView>::empty());
        assert(chunk_views(chunks@) =~= Seq::<Seq<message::MessageView>>::empty());
        assert(message::message_views(current@) =~= Seq::<message::MessageView>::empty());
    }
    while i < messages.len()
        invariant
            i <= messages.len(),
            list == message::message_views(messages@),
            countable(list, budget as nat),
            splitting(list.take(i as int), budget as nat) == (Splitting {
                chunks: chunk_views(chunks@),
                open: message::message_views(current@),
                count: count as nat,
            }),
        decreases messages.len() - i,
    {
        let ghost s = splitting(list.take(i as int), budget as nat);
        let ghost m = list[i as int];
        proof {
            assert(list.take(i + 1).drop_last() =~= list.take(i as int));
            assert(list.take(i + 1).last() == m);
            assert(s.open.len() == current.len());
        }
        let tokens: u32 = estimate_message_tokens(&messages[i]);
        let copy = messages[i].clone();
        let ghost empty = Seq::<message::MessageView>::empty();
        if tokens > budget {
            if current.len() > 0 {
                let mut full: Vec<Message> = Vec::new();
                std::mem::swap(&mut full, &mut current);
                proof {
                    lemma_chunk_views_push(chunks@, full);
                }
                chunks.push(full);
            }
            let mut alone: Vec<Message> = Vec::new();
            alone.push(copy);
            proof {
                assert(message::message_views(alone@) =~= seq![m]);
                assert(message::message_views(current@) =~= empty);
                lemma_chunk_views_push(chunks@, alone);
            }
            chunks.push(alone);
            count = 0;
        } else {
            if count + tokens > budget && current.len() > 0 {
                let mut full: Vec<Message> = Vec::new();
                std::mem::swap(&mut full, &mut current);
                proof {
                    lemma_chunk_views_push(chunks@, full);
                }
                chunks.push(full);
                count = 0;
                assert(message::message_views(current@) =~= empty);
                assert(empty.push(m) =~= seq![m]);
            }
            proof {
                message::lemma_message_views_push(current@, copy);
            }
            current.push(copy);
            count += tokens;
        }
        i += 1;
    }
    assert(list.take(i as int) =~= list);
    if current.len() > 0 {
        proof {
            assert(message::message_views(current@).len() == current.len());
            lemma_chunk_views_push(chunks@, current);
        }
        chunks.push(current);
    }
    chunks
}

/// The messages of all chunks, one chunk behind the other.
pub open spec fn flat(chunks: Seq<Seq<message::MessageView>>) -> Seq<message::MessageView>
    decreases chunks.len(),
{
    if chunks.len() == 0 {
        Seq::empty()
    } else {
        flat(chunks.drop_last()) + chunks.last()
    }
}

proof fn lemma_flat_push(
    chunks: Seq<Seq<message::MessageView>>,
    chunk: Seq<message::MessageView>,
)
    ensures
        flat(chunks.push(chunk)) == flat(chunks) + chunk,
{
    assert(chunks.push(chunk).drop_last() =~= chunks);
}

/// Whether a chunk holds something, and fits within the budget or is one message that does not.
pub open spec fn fitting_chunk(chunk: Seq<message::MessageView>, budget: nat) -> bool {
    &&& chunk.len() > 0
    &&& estimate::messages_tokens(chunk) <= budget || chunk.len() == 1
}

proof fn lemma_one_message_tokens(m: message::MessageView)
    ensures
        estimate::messages_tokens(seq![m]) == estimate::message_tokens(m),
{
    reveal_with_fuel(estimate::messages_tokens, 2);
    assert(seq![m].drop_last() =~= Seq::<message::MessageView>::empty());
}

proof fn lemma_splitting(list: Seq<message::MessageView>, budget: nat)
    ensures
        ({
            let s = splitting(list, budget);
            &&& flat(s.chunks) + s.open == list
            &&& forall|i: int|
                0 <= i < s.chunks.len() ==> fitting_chunk(#[trigger] s.chunks[i], budget)
            &&& estimate::messages_tokens(s.open) <= budget
            &&& estimate::messages_tokens(s.open) == s.count
            &&& s.count <= estimate::messages_tokens(list)
        }),
    decreases list.len(),
{
    if list.len() == 0 {
        assert(flat(Seq::empty()) + Seq::<message::MessageView>::empty() =~= list);
    } else {
        lemma_splitting(list.drop_last(), budget);
        let s = splitting(list.drop_last(), budget);
        let m = list.last();
        let after = splitting(list, budget);
        lemma_flat_push(s.chunks, s.open);
        lemma_flat_push(close_chunk(s), seq![m]);
        lemma_one_message_tokens(m);
        assert(list =~= list.drop_last().push(m));
        assert(s.open.push(m).drop_last() =~= s.open);
        assert(flat(s.chunks) + Seq::<message::MessageView>::empty() =~= flat(s.chunks));
        assert(flat(after.chunks) + after.open =~= list);
        if s.open.len() == 0 {
            assert(s.open.push(m) =~= seq![m]);
        }
    }
}

/// Splitting keeps every message, in order.
pub proof fn law_split_keeps_all(list: Seq<message::MessageView>, budget: nat)
    ensures
        flat(chunks_of(list, budget)) == list,
{
    lemma_splitting(list, budget);
    let s = splitting(list, budget);
    lemma_flat_push(s.chunks, s.open);
    assert(flat(s.chunks) + Seq::<message::MessageView>::empty() =~= flat(s.chunks));
}

/// No chunk is empty, and a chunk over the budget holds a single message.
pub proof fn law_split_chunks_fit(list: Seq<message::MessageView>, budget: nat)
    ensures
        forall|i: int|
            0 <= i < chunks_of(list, budget).len() ==> fitting_chunk(
                #[trigger] chunks_of(list, budget)[i],
                budget,
            ),
{
    lemma_splitting(list, budget);
}

/// Whether each chunk has no room for the message that begins the next one.
pub open spec fn no_room_for_next(chunks: Seq<Seq<message::MessageView>>, budget: nat) -> bool {
    forall|k: int|
        0 <= k < chunks.len() - 1 ==> estimate::messages_tokens(#[trigger] chunks[k])
            + estimate::message_tokens(chunks[k + 1][0]) > budget
}

proof fn lemma_no_room_push(
    chunks: Seq<Seq<message::MessageView>>,
    chunk: Seq<message::MessageView>,
    budget: nat,
)
    requires
        no_room_for_next(chunks, budget),
        chunks.len() > 0 ==> estimate::messages_tokens(chunks.last()) + estimate::message_tokens(
            chunk[0],
        ) > budget,
    ensures
        no_room_for_next(chunks.push(chunk), budget),
{
    let after = chunks.push(chunk);
    assert forall|k: int| 0 <= k < after.len() - 1 implies estimate::messages_tokens(
        #[trigger] after[k],
    ) + estimate::message_tokens(after[k + 1][0]) > budget by {
        assert(after[k] == chunks[k]);
        if k + 1 < chunks.len() {
            assert(after[k + 1] == chunks[k + 1]);
        }
    }
}

proof fn lemma_splitting_no_room(list: Seq<message::MessageView>, budget: nat)
    ensures
        ({
            let s = splitting(list, budget);
            &&& no_room_for_next(s.chunks, budget)
            &&& s.chunks.len() > 0 ==> estimate::messages_tokens(s.chunks.last()) + (
            if s.open.len() > 0 {
                estimate::message_tokens(s.open[0])
            } else {
                0
            }) > budget
        }),
    decreases list.len(),
{
    if list.len() > 0 {
        lemma_splitting_no_room(list.drop_last(), budget);
        lemma_splitting(list.drop_last(), budget);
        let s = splitting(list.drop_last(), budget);
        let m = list.last();
        lemma_one_message_tokens(m);
        if s.open.len() > 0 {
            lemma_no_room_push(s.chunks, s.open, budget);
        }
        if estimate::message_tokens(m) > budget {
            lemma_no_room_push(close_chunk(s), seq![m], budget);
        }
    }
}

/// A chunk is closed only where it has no room left: with the message that begins the next chunk
/// it would exceed the budget.
pub proof fn law_split_closes_full_chunks(list: Seq<message::MessageView>, budget: nat)
    ensures
        no_room_for_next(chunks_of(list, budget), budget),
{
    lemma_splitting_no_room(list, budget);
    let s = splitting(list, budget);
    if s.open.len() > 0 {
        lemma_no_room_push(s.chunks, s.open, budget);
    }
}

proof fn lemma_member_tokens(list: Seq<message::MessageView>, k: int)
    requires
        0 <= k < list.len(),
    ensures
        estimate::message_tokens(list[k]) <= estimate::messages_tokens(list),
    decreases list.len(),
{
    if k < list.len() - 1 {
        lemma_member_tokens(list.drop_last(), k);
    }
}

/// A message over the budget is alone in its chunk.
pub proof fn law_split_giant_is_alone(
    list: Seq<message::MessageView>,
    budget: nat,
    chunk: int,
    place: int,
)
    requires
        0 <= chunk < chunks_of(list, budget).len(),
        0 <= place < chunks_of(list, budget)[chunk].len(),
        estimate::message_tokens(chunks_of(list, budget)[chunk][place]) > budget,
    ensures
        chunks_of(list, budget)[chunk].len() == 1,
{
    law_split_chunks_fit(list, budget);
    lemma_member_tokens(chunks_of(list, budget)[chunk], place);
}

proof fn lemma_splitting_all_fits(list: Seq<message::MessageView>, budget: nat)
    requires
        estimate::messages_tokens(list) <= budget,
    ensures
        splitting(list, budget).chunks.len() == 0,
        splitting(list, budget).open == list,
        splitting(list, budget).count == estimate::messages_tokens(list),
    decreases list.len(),
{
    if list.len() > 0 {
        lemma_splitting_all_fits(list.drop_last(), budget);
        assert(list =~= list.drop_last().push(list.last()));
    } else {
        assert(splitting(list, budget).open =~= list);
    }
}

/// Messages that fit within the budget together make one chunk, and no message makes no chunk.
pub proof fn law_split_fitting_list_is_one_chunk(list: Seq<message::MessageView>, budget: nat)
    requires
        estimate::messages_tokens(list) <= budget,
    ensures
        list.len() > 0 ==> chunks_of(list, budget) == seq![list],
        list.len() == 0 ==> chunks_of(list, budget).len() == 0,
{
    lemma_splitting_all_fits(list, budget);
    let s = splitting(list, budget);
    assert(s.chunks =~= Seq::<Seq<message::MessageView>>::empty());
    if list.len() > 0 {
        assert(chunks_of(list, budget) =~= seq![list]);
    }
}

/// Messages whose estimates sum up within 32 bits can be split by any budget.
pub proof fn lemma_countable(list: Seq<message::MessageView>, budget: nat)
    requires
        estimate::messages_tokens(list) <= u32::MAX,
    ensures
        countable(list, budget),
{
    assert forall|i: int| 0 <= i < list.len() implies ({
        let tokens = estimate::message_tokens(#[trigger] list[i]);
        &&& tokens <= u32::MAX
        &&& tokens <= budget ==> splitting(list.take(i), budget).count + tokens <= u32::MAX
    }) by {
        lemma_member_tokens(list, i);
        lemma_splitting(list.take(i), budget);
        assert(list.take(i + 1).drop_last() =~= list.take(i));
        estimate::lemma_messages_tokens_take(list, i + 1);
    }
}

proof fn lemma_image_placeholder_tokens()
    ensures
        estimate::text_tokens(text::byte_len(IMAGE_PLACEHOLDER@)) == 2,
{
    reveal_strlit("[image]");
    vstd::utf8::is_ascii_chars_encode_utf8(IMAGE_PLACEHOLDER@);
}

proof fn lemma_blocks_without_images_cost(blocks: Seq<message::BlockView>)
    ensures
        estimate::blocks_tokens(
            blocks.map_values(|b: message::BlockView| block_without_image(b)),
        ) <= estimate::blocks_tokens(blocks),
    decreases blocks.len(),
{
    let after = blocks.map_values(|b: message::BlockView| block_without_image(b));
    if blocks.len() > 0 {
        lemma_image_placeholder_tokens();
        assert(after.drop_last() =~= blocks.drop_last().map_values(
            |b: message::BlockView| block_without_image(b),
        ));
        lemma_blocks_without_images_cost(blocks.drop_last());
    }
}

proof fn lemma_filtered_blocks_cost(
    blocks: Seq<message::BlockView>,
    keep: spec_fn(message::BlockView) -> bool,
)
    ensures
        estimate::blocks_tokens(blocks.filter(keep)) <= estimate::blocks_tokens(blocks),
    decreases blocks.len(),
{
    reveal(Seq::filter);
    if blocks.len() > 0 {
        lemma_filtered_blocks_cost(blocks.drop_last(), keep);
        let rest = blocks.drop_last().filter(keep);
        assert(rest.push(blocks.last()).drop_last() =~= rest);
    }
}

/// Stripping images and thinking never adds to the estimate of a message.
pub proof fn law_preparing_never_costs(m: message::MessageView)
    ensures
        estimate::message_tokens(without_images(m)) <= estimate::message_tokens(m),
        estimate::message_tokens(without_thinking(m)) <= estimate::message_tokens(m),
{
    lemma_blocks_without_images_cost(m.content);
    lemma_filtered_blocks_cost(m.content, |b: message::BlockView| !is_thinking(b));
}

/// A prepared message holds neither an image nor thinking, and preparing it again changes
/// nothing.
pub proof fn law_prepared_is_clean(m: message::MessageView)
    ensures
        forall|k: int|
            0 <= k < without_thinking(without_images(m)).content.len() ==> {
                let b = #[trigger] without_thinking(without_images(m)).content[k];
                !(b is Image) && !is_thinking(b)
            },
        without_thinking(without_images(without_thinking(without_images(m))))
            == without_thinking(without_images(m)),
{
    let once = without_images(m).content;
    let keep = |b: message::BlockView| !is_thinking(b);
    lemma_filter_elements(once, keep);
    let p = once.filter(keep);
    assert(p.map_values(|b: message::BlockView| block_without_image(b)) =~= p);
    lemma_filter_all_kept(p, keep);
}

/// Placeholders take the place of images and of nothing else: a message keeps its role and the
/// number of its blocks, each image is a text block with the placeholder, and every other block
/// is what it was.
pub proof fn law_only_images_are_replaced(m: message::MessageView)
    ensures
        without_images(m).role == m.role,
        without_images(m).content.len() == m.content.len(),
        forall|k: int|
            0 <= k < m.content.len() && m.content[k] is Image
                ==> #[trigger] without_images(m).content[k] == (message::BlockView::Text {
                text: "[image]"@,
            }),
        forall|k: int|
            0 <= k < m.content.len() && !(m.content[k] is Image)
                ==> #[trigger] without_images(m).content[k] == m.content[k],
{
}

/// Stripping thinking loses nothing but thinking. What it makes of blocks that follow one another
/// is what it makes of the first ones and behind it what it makes of the others; it empties a
/// message of one thinking block, and keeps a message of one other block as it is. So every other
/// block is still there, in its order.
pub proof fn law_only_thinking_is_lost(
    m: message::MessageView,
    first: Seq<message::BlockView>,
    rest: Seq<message::BlockView>,
    block: message::BlockView,
)
    ensures
        without_thinking(m).role == m.role,
        without_thinking(message::MessageView { role: m.role, content: first + rest }).content
            == without_thinking(message::MessageView { role: m.role, content: first }).content
            + without_thinking(message::MessageView { role: m.role, content: rest }).content,
        block is Thinking || block is RedactedThinking ==> without_thinking(
            message::MessageView { role: m.role, content: seq![block] },
        ).content.len() == 0,
        block is Text || block is ToolUse || block is ToolResult || block is Image
            ==> without_thinking(message::MessageView { role: m.role, content: seq![block] })
            == (message::MessageView { role: m.role, content: seq![block] }),
        block is Text || block is ToolUse || block is ToolResult || block is Image ==> (
        without_thinking(m).content.contains(block) <==> m.content.contains(block)),
{
    let keep = |b: message::BlockView| !is_thinking(b);
    Seq::filter_distributes_over_add(first, rest, keep);
    let one = seq![block];
    assert(one.drop_last() =~= Seq::<message::BlockView>::empty());
    assert(one.filter(keep) =~= (if keep(block) {
        one
    } else {
        Seq::empty()
    })) by {
        reveal_with_fuel(Seq::filter, 2);
    }
    lemma_filter_elements(m.content, keep);
    if keep(block) && m.content.contains(block) {
        let k = choose|k: int| 0 <= k < m.content.len() && m.content[k] == block;
        m.content.lemma_filter_contains(keep, k);
    }
}

/// Preparing a history loses nothing but images and thinking. It keeps the messages, their order
/// and their roles. A message of text, tool calls and tool results alone is prepared to itself,
/// and of any message, what the prepared one holds beside placeholders is what it held beside
/// images, thinking and the text of a placeholder, in the same order.
pub proof fn law_preparing_loses_only_images_and_thinking(
    history: Seq<message::MessageView>,
    i: int,
)
    requires
        0 <= i < history.len(),
    ensures
        prepared(history).len() == history.len(),
        prepared(history)[i].role == history[i].role,
        prepared(history)[i].content.len() <= history[i].content.len(),
        (forall|k: int|
            0 <= k < history[i].content.len() ==> (#[trigger] history[i].content[k]) is Text
                || history[i].content[k] is ToolUse || history[i].content[k] is ToolResult)
            ==> prepared(history)[i] == history[i],
        prepared(history)[i].content.filter(
            |b: message::BlockView| b != (message::BlockView::Text { text: "[image]"@ }),
        ) == history[i].content.filter(
            |b: message::BlockView|
                !(b is Image) && !(b is Thinking) && !(b is RedactedThinking) && b != (
                message::BlockView::Text { text: "[image]"@ }),
        ),
{
    let m = history[i];
    let keep = |b: message::BlockView| !is_thinking(b);
    let once = without_images(m).content;
    once.lemma_filter_len(keep);
    if forall|k: int|
        0 <= k < m.content.len() ==> (#[trigger] m.content[k]) is Text || m.content[k] is ToolUse
            || m.content[k] is ToolResult {
        assert(once =~= m.content);
        lemma_filter_all_kept(once, keep);
    }
    lemma_prepared_blocks(m.content);
}

proof fn lemma_prepared_blocks(blocks: Seq<message::BlockView>)
    ensures
        blocks.map_values(|b: message::BlockView| block_without_image(b)).filter(
            |b: message::BlockView| !is_thinking(b),
        ).filter(|b: message::BlockView| b != (message::BlockView::Text { text: "[image]"@ }))
            == blocks.filter(
            |b: message::BlockView|
                !(b is Image) && !(b is Thinking) && !(b is RedactedThinking) && b != (
                message::BlockView::Text { text: "[image]"@ }),
        ),
    decreases blocks.len(),
{
    reveal(Seq::filter);
    let strip = |b: message::BlockView| block_without_image(b);
    let keep = |b: message::BlockView| !is_thinking(b);
    let other = |b: message::BlockView| b != (message::BlockView::Text { text: "[image]"@ });
    if blocks.len() > 0 {
        let front = blocks.drop_last();
        lemma_prepared_blocks(front);
        assert(blocks.map_values(strip).drop_last() =~= front.map_values(strip));
        let kept = front.map_values(strip).filter(keep);
        assert(kept.push(strip(blocks.last())).drop_last() =~= kept);
    }
}

proof fn lemma_filter_elements<A>(s: Seq<A>, keep: spec_fn(A) -> bool)
    ensures
        forall|k: int|
            0 <= k < s.filter(keep).len() ==> keep(#[trigger] s.filter(keep)[k]) && s.contains(
                s.filter(keep)[k],
            ),
    decreases s.len(),
{
    reveal(Seq::filter);
    if s.len() > 0 {
        lemma_filter_elements(s.drop_last(), keep);
        let rest = s.drop_last().filter(keep);
        assert forall|k: int| 0 <= k < s.filter(keep).len() implies keep(
            #[trigger] s.filter(keep)[k],
        ) && s.contains(s.filter(keep)[k]) by {
            if k < rest.len() {
                assert(s.filter(keep)[k] == rest[k]);
                let j = choose|j: int| 0 <= j < s.drop_last().len() && s.drop_last()[j] == rest[k];
                assert(s[j] == rest[k]);
            } else {
                assert(s[s.len() - 1] == s.filter(keep)[k]);
            }
        }
    }
}

proof fn lemma_filter_all_kept<A>(s: Seq<A>, keep: spec_fn(A) -> bool)
    requires
        forall|k: int| 0 <= k < s.len() ==> keep(#[trigger] s[k]),
    ensures
        s.filter(keep) == s,
    decreases s.len(),
{
    reveal(Seq::filter);
    if s.len() > 0 {
        lemma_filter_all_kept(s.drop_last(), keep);
        assert(s.drop_last().push(s.last()) =~= s);
    } else {
        assert(s.filter(keep) =~= s);
    }
}

/// The texts of the text blocks of a list, in order.
pub open spec fn text_blocks(blocks: Seq<message::BlockView>) -> Seq<Seq<char>>
    decreases blocks.len(),
{
    if blocks.len() == 0 {
        Seq::empty()
    } else {
        match blocks.last() {
            message::BlockView::Text { text } => text_blocks(blocks.drop_last()).push(text),
            _ => text_blocks(blocks.drop_last()),
        }
    }
}

/// The summary that an answer holds: its text blocks, one line break between every two.
pub open spec fn summary_of(answer: message::MessageView) -> Seq<char> {
    text::joined(text_blocks(answer.content), "\n"@)
}

/// The summary of an answer is its text, whole and in order, and nothing else: an answer without
/// text has an empty one, a block of text alone is its own summary, blocks that are no text add
/// nothing wherever they stand, and texts that follow one another stand on lines of their own.
pub proof fn law_summary_is_the_text(
    role: message::Role,
    blocks: Seq<message::BlockView>,
    first: Seq<char>,
    text: Seq<char>,
    other: message::BlockView,
)
    requires
        !(other is Text),
    ensures
        summary_of(message::MessageView { role, content: Seq::empty() }).len() == 0,
        summary_of(
            message::MessageView { role, content: seq![message::BlockView::Text { text }] },
        ) == text,
        summary_of(message::MessageView { role, content: blocks.push(other) }) == summary_of(
            message::MessageView { role, content: blocks },
        ),
        summary_of(
            message::MessageView {
                role,
                content: blocks.push(message::BlockView::Text { text: first }).push(
                    message::BlockView::Text { text },
                ),
            },
        ) == summary_of(
            message::MessageView {
                role,
                content: blocks.push(message::BlockView::Text { text: first }),
            },
        ) + "\n"@ + text,
{
    let one = seq![message::BlockView::Text { text }];
    assert(one.drop_last() =~= Seq::<message::BlockView>::empty());
    reveal_with_fuel(text_blocks, 2);
    assert(text_blocks(one) =~= seq![text]);
    assert(blocks.push(other).drop_last() =~= blocks);
    let begun = blocks.push(message::BlockView::Text { text: first });
    let both = begun.push(message::BlockView::Text { text });
    assert(begun.drop_last() =~= blocks);
    assert(both.drop_last() =~= begun);
    let texts = text_blocks(begun);
    assert(texts =~= text_blocks(blocks).push(first));
    assert(text_blocks(both) =~= texts.push(text));
    assert(texts.push(text).drop_last() =~= texts);
}

/// The summary that an answer holds.
pub fn answer_summary(answer: &Message) -> (summary: String)
    ensures
        summary@ == summary_of(answer@),
{
    let ghost blocks = answer@.content;
    let mut found: Vec<String> = Vec::new();
    let mut i: usize = 0;
    assert(text::texts(found@) =~= text_blocks(blocks.take(0)));
    while i < answer.content.len()
        invariant
            i <= answer.content.len(),
            blocks == message::block_views(answer.content@),
            text::texts(found@) == text_blocks(blocks.take(i as int)),
        decreases answer.content.len() - i,
    {
        assert(blocks.take(i + 1).drop_last() =~= blocks.take(i as int));
        assert(blocks.take(i + 1).last() == answer.content@[i as int]@);
        let ghost before = found@;
        match &answer.content[i] {
            ContentBlock::Text { text } => {
                let copy: String = text.clone();
                found.push(copy);
                assert(text::texts(found@) =~= text::texts(before).push(copy@));
            },
            _ => {},
        }
        i += 1;
    }
    assert(blocks.take(i as int) =~= blocks);
    join(&found, "\n")
}

/// A compaction under way: the chunks of the prepared history, and what the passes so far have
/// brought.
#[derive(Debug)]
pub struct Compaction {
    chunks: Vec<Vec<Message>>,
    cancellable: bool,
    passes: usize,
    summary: Option<String>,
    usage: TokenUsage,
    user_prompt: String,
}

/// What a compaction under way holds. `passes` counts the finished passes; `cancellable` says
/// whether a cancel ends the compaction between passes.
pub struct CompactionView {
    pub chunks: Seq<Seq<message::MessageView>>,
    pub cancellable: bool,
    pub passes: nat,
    pub summary: Option<Seq<char>>,
    pub usage: TokenUsage,
    pub user_prompt: Seq<char>,
}

impl View for Compaction {
    type V = CompactionView;

    closed spec fn view(&self) -> CompactionView {
        CompactionView {
            chunks: chunk_views(self.chunks@),
            cancellable: self.cancellable,
            passes: self.passes as nat,
            summary: message::opt_text(self.summary),
            usage: self.usage,
            user_prompt: self.user_prompt@,
        }
    }
}

/// The estimated tokens of the two prompts around a history.
pub open spec fn prompt_overhead(system_prompt: Seq<char>, user_prompt: Seq<char>) -> nat {
    estimate::message_tokens(message::user_message(system_prompt)) + estimate::message_tokens(
        message::user_message(user_prompt),
    )
}

/// Whether a prepared history goes to the model in one pass.
pub open spec fn fits_one_pass(
    list: Seq<message::MessageView>,
    context_window: u32,
    reserve: u32,
    overhead: nat,
) -> bool {
    estimate::messages_tokens(list) <= estimate::history_budget(context_window, reserve, overhead)
}

/// The chunks of a prepared history: all of it where it fits in one pass, else the parts that
/// leave room for the summary of the passes before.
pub open spec fn planned_chunks(
    list: Seq<message::MessageView>,
    context_window: u32,
    reserve: u32,
    overhead: nat,
) -> Seq<Seq<message::MessageView>> {
    if fits_one_pass(list, context_window, reserve, overhead) {
        seq![list]
    } else {
        chunks_of(
            list,
            estimate::history_budget(
                context_window,
                reserve,
                overhead + SUMMARY_OVERHEAD_ESTIMATE as nat,
            ),
        )
    }
}

/// Whether the counts that planning a compaction needs are within 32 bits.
pub open spec fn plannable(
    list: Seq<message::MessageView>,
    context_window: u32,
    reserve: u32,
    overhead: nat,
) -> bool {
    &&& overhead <= u32::MAX
    &&& estimate::messages_tokens(list) <= u32::MAX
    &&& !fits_one_pass(list, context_window, reserve, overhead) ==> overhead
        + SUMMARY_OVERHEAD_ESTIMATE <= u32::MAX
}

/// The messages of the next pass: the summary of the passes before, where there is one, the
/// chunk, and the prompt that asks for the summary.
pub open spec fn pass_messages(c: CompactionView) -> Seq<message::MessageView> {
    (match c.summary {
        Some(summary) => seq![
            message::user_message(
                "[Earlier conversation summary, to be merged with the conversation below:]\n"@
                    + summary,
            ),
        ],
        None => Seq::empty(),
    }) + c.chunks[c.passes as int] + seq![message::user_message(c.user_prompt)]
}

/// A compaction after one more pass, which `answer` has answered at the cost of `usage`. The
/// summary is kept for the next pass, where there is one.
pub open spec fn after_pass(
    c: CompactionView,
    answer: message::MessageView,
    usage: TokenUsage,
) -> CompactionView {
    CompactionView {
        passes: c.passes + 1,
        summary: if c.passes + 1 < c.chunks.len() {
            Some(summary_of(answer))
        } else {
            c.summary
        },
        usage: c.usage.plus(usage),
        ..c
    }
}

/// The history that takes the place of the compacted one.
pub open spec fn compacted_history(answer: message::MessageView) -> Seq<message::MessageView> {
    seq![message::user_message("What did we do so far?"@), answer]
}

/// The report that a turn is complete.
#[derive(Debug)]
pub struct TurnComplete {
    pub message: Message,
    pub usage: TokenUsage,
    pub model: String,
    pub context_size: Option<u32>,
}

/// What a pass leads to: another pass, or the end of the compaction.
#[derive(Debug)]
pub enum PassOutcome {
    More,
    Done { turn: TurnComplete, history: Vec<Message>, usage: TokenUsage },
}

impl Compaction {
    /// Whether the compaction has passes left.
    pub open spec fn active(&self) -> bool {
        self@.passes < self@.chunks.len()
    }

    /// Whether a compaction of `history` can be planned: the counts that it needs are within 32
    /// bits.
    pub fn can_plan(
        history: &[Message],
        context_window: u32,
        compaction_buffer: u32,
        system_prompt: &str,
        user_prompt: &str,
    ) -> (can: bool)
        ensures
            can == plannable(
                prepared(message::message_views(history@)),
                context_window,
                compaction_buffer,
                prompt_overhead(system_prompt@, user_prompt@),
            ),
    {
        let ghost list = prepared(message::message_views(history@));
        let mut copy: Vec<Message> = copy_messages(history);
        strip_images(&mut copy);
        strip_thinking(&mut copy);
        assert(message::message_views(copy@) =~= list);
        let history_tokens: u32 = match checked_messages_tokens(copy.as_slice()) {
            Some(n) => n,
            None => {
                return false;
            },
        };
        let system_tokens: u32 = match checked_message_tokens(
            &Message::user(system_prompt.to_owned()),
        ) {
            Some(n) => n,
            None => {
                return false;
            },
        };
        let user_tokens: u32 = match checked_message_tokens(
            &Message::user(user_prompt.to_owned()),
        ) {
            Some(n) => n,
            None => {
                return false;
            },
        };
        let overhead: u32 = match system_tokens.checked_add(user_tokens) {
            Some(n) => n,
            None => {
                return false;
            },
        };
        let single_budget: u32 = compaction_history_budget(
            context_window,
            compaction_buffer,
            system_tokens,
            user_tokens,
            0,
        );
        history_tokens <= single_budget || overhead <= u32::MAX - SUMMARY_OVERHEAD_ESTIMATE
    }

    /// Plans the compaction of `history` for a model with the given context window.
    ///
    /// The answer's share of the window is `compaction_buffer`. The history is copied without
    /// images and thinking. Where its estimate is within the budget it makes one pass; else it is
    /// split.
    pub fn plan(
        history: &[Message],
        context_window: u32,
        compaction_buffer: u32,
        system_prompt: &str,
        user_prompt: &str,
    ) -> (c: Self)
        requires
            plannable(
                prepared(message::message_views(history@)),
                context_window,
                compaction_buffer,
                prompt_overhead(system_prompt@, user_prompt@),
            ),
        ensures
            c@.chunks == planned_chunks(
                prepared(message::message_views(history@)),
                context_window,
                compaction_buffer,
                prompt_overhead(system_prompt@, user_prompt@),
            ),
            c@.cancellable == !fits_one_pass(
                prepared(message::message_views(history@)),
                context_window,
                compaction_buffer,
                prompt_overhead(system_prompt@, user_prompt@),
            ),
            c@.passes == 0,
            c@.summary is None,
            c@.usage == (TokenUsage { input: 0, output: 0, cache_read: 0, cache_creation: 0 }),
            c@.user_prompt == user_prompt@,
            c.active(),
    {
        let ghost views = message::message_views(history@);
        let ghost list = prepared(views);
        let ghost overhead = prompt_overhead(system_prompt@, user_prompt@);
        let mut copy: Vec<Message> = copy_messages(history);
        strip_images(&mut copy);
        strip_thinking(&mut copy);
        assert(message::message_views(copy@) =~= list);
        let system_tokens: u32 = estimate_message_tokens(&Message::user(system_prompt.to_owned()));
        let user_tokens: u32 = estimate_message_tokens(&Message::user(user_prompt.to_owned()));
        let single_budget: u32 = compaction_history_budget(
            context_window,
            compaction_buffer,
            system_tokens,
            user_tokens,
            0,
        );
        let history_tokens: u32 = estimate_messages_tokens(copy.as_slice());
        if history_tokens <= single_budget {
            let mut chunks: Vec<Vec<Message>> = Vec::new();
            chunks.push(copy);
            assert(chunk_views(chunks@) =~= seq![list]);
            return Compaction {
                chunks,
                cancellable: false,
                passes: 0,
                summary: None,
                usage: TokenUsage::default(),
                user_prompt: user_prompt.to_owned(),
            };
        }
        let chunk_budget: u32 = compaction_history_budget(
            context_window,
            compaction_buffer,
            system_tokens,
            user_tokens,
            SUMMARY_OVERHEAD_ESTIMATE,
        );
        proof {
            lemma_countable(list, chunk_budget as nat);
        }
        let chunks: Vec<Vec<Message>> = split_into_chunks(copy.as_slice(), chunk_budget);
        proof {
            law_split_keeps_all(list, chunk_budget as nat);
            if chunks@.len() == 0 {
                assert(chunk_views(chunks@).len() == 0);
                assert(list.len() == 0);
            }
        }
        Compaction {
            chunks,
            cancellable: true,
            passes: 0,
            summary: None,
            usage: TokenUsage::default(),
            user_prompt: user_prompt.to_owned(),
        }
    }

    /// The messages of the next pass. Before a pass of a split history a cancel ends the
    /// compaction.
    pub fn next_pass(&self, cancelled: bool) -> (request: Result<Vec<Message>, AgentError>)
        requires
            self.active(),
        ensures
            match request {
                Ok(messages) => !(self@.cancellable && cancelled) && message::message_views(
                    messages@,
                ) == pass_messages(self@),
                Err(error) => self@.cancellable && cancelled && error@
                    == message::ErrorView::Cancelled,
            },
    {
        if self.cancellable && cancelled {
            return Err(AgentError::Cancelled);
        }
        let mut messages: Vec<Message> = Vec::new();
        let ghost mut views = Seq::<message::MessageView>::empty();
        assert(message::message_views(messages@) =~= views);
        if let Some(summary) = &self.summary {
            let first = Message::user(
                cat(
                    "[Earlier conversation summary, to be merged with the conversation below:]\n",
                    summary.as_str(),
                ),
            );
            proof {
                message::lemma_message_views_push(messages@, first);
                views = seq![first@];
            }
            messages.push(first);
            assert(message::message_views(messages@) =~= views);
        }
        let ghost chunk = self@.chunks[self@.passes as int];
        let mut copy: Vec<Message> = copy_messages(self.chunks[self.passes].as_slice());
        let ghost head = messages@;
        let ghost tail = copy@;
        messages.append(&mut copy);
        proof {
            assert(message::message_views(head + tail) =~= message::message_views(head)
                + message::message_views(tail));
        }
        let last = Message::user(self.user_prompt.clone());
        proof {
            message::lemma_message_views_push(messages@, last);
            assert((views + chunk).push(last@) =~= views + chunk + seq![last@]);
        }
        messages.push(last);
        Ok(messages)
    }

    /// Takes the answer to a pass. The last one ends the compaction: the answer is reported as a
    /// turn, with the tokens of all passes, and becomes the history.
    pub fn finish_pass(&mut self, response: StreamResponse, model_id: &str) -> (outcome: PassOutcome)
        requires
            old(self).active(),
            old(self)@.usage.summable(response.usage),
        ensures
            final(self)@ == after_pass(old(self)@, response.message@, response.usage),
            match outcome {
                PassOutcome::More => final(self).active(),
                PassOutcome::Done { turn, history, usage } => {
                    &&& !final(self).active()
                    &&& turn.message@ == response.message@
                    &&& turn.usage == final(self)@.usage
                    &&& turn.model@ == model_id@
                    &&& turn.context_size == Some(final(self)@.usage.output)
                    &&& message::message_views(history@) == compacted_history(response.message@)
                    &&& usage == final(self)@.usage
                },
            },
    {
        assert(self.passes < self.chunks.len());
        self.usage = TokenUsage {
            input: self.usage.input + response.usage.input,
            output: self.usage.output + response.usage.output,
            cache_read: self.usage.cache_read + response.usage.cache_read,
            cache_creation: self.usage.cache_creation + response.usage.cache_creation,
        };
        self.passes = self.passes + 1;
        if self.passes < self.chunks.len() {
            self.summary = Some(answer_summary(&response.message));
            return PassOutcome::More;
        }
        let turn = TurnComplete {
            message: response.message.clone(),
            usage: self.usage,
            model: model_id.to_owned(),
            context_size: Some(self.usage.output),
        };
        let mut history: Vec<Message> = Vec::new();
        history.push(Message::user("What did we do so far?".to_owned()));
        history.push(response.message);
        assert(message::message_views(history@) =~= compacted_history(response.message@));
        PassOutcome::Done { turn, history, usage: self.usage }
    }
}

/// Whether the value of the variable that switches automatic compaction off leaves it on.
pub fn auto_compact_enabled(disable: Option<&str>) -> (enabled: bool)
    ensures
        enabled == match disable {
            Some(value) => value@ != "1"@ && value@ != "true"@,
            None => true,
        },
{
    match disable {
        Some(value) => !same_text(value, "1") && !same_text(value, "true"),
        None => true,
    }
}

/// The chunks of a plan hold the whole prepared history, in order.
pub proof fn law_plan_keeps_all(
    list: Seq<message::MessageView>,
    context_window: u32,
    reserve: u32,
    overhead: nat,
)
    ensures
        flat(planned_chunks(list, context_window, reserve, overhead)) == list,
{
    if fits_one_pass(list, context_window, reserve, overhead) {
        let none = Seq::<Seq<message::MessageView>>::empty();
        lemma_flat_push(none, list);
        assert(none.push(list) =~= seq![list]);
        assert(flat(none) + list =~= list);
    } else {
        law_split_keeps_all(
            list,
            estimate::history_budget(
                context_window,
                reserve,
                overhead + SUMMARY_OVERHEAD_ESTIMATE as nat,
            ),
        );
    }
}

/// The estimate of what a pass sends beside its chunk: the prompts, and in a split history the
/// summary of the passes before.
pub open spec fn pass_overhead(
    list: Seq<message::MessageView>,
    context_window: u32,
    reserve: u32,
    overhead: nat,
) -> nat {
    if fits_one_pass(list, context_window, reserve, overhead) {
        overhead
    } else {
        overhead + SUMMARY_OVERHEAD_ESTIMATE as nat
    }
}

/// Every pass of a plan stays within the context window, even if the true count of tokens is a
/// quarter above the estimate: unless it sends a single message over the budget, or what it
/// sends beside its chunk takes up the room already.
pub proof fn law_plan_leaves_room(
    list: Seq<message::MessageView>,
    context_window: u32,
    reserve: u32,
    overhead: nat,
    pass: int,
)
    requires
        0 <= pass < planned_chunks(list, context_window, reserve, overhead).len(),
        planned_chunks(list, context_window, reserve, overhead)[pass].len() == 1
            ==> estimate::messages_tokens(
            planned_chunks(list, context_window, reserve, overhead)[pass],
        ) <= estimate::history_budget(
            context_window,
            reserve,
            pass_overhead(list, context_window, reserve, overhead),
        ),
        5 * pass_overhead(list, context_window, reserve, overhead) <= 4 * estimate::room(
            context_window,
            reserve,
        ),
    ensures
        5 * (estimate::messages_tokens(
            planned_chunks(list, context_window, reserve, overhead)[pass],
        ) + pass_overhead(list, context_window, reserve, overhead)) <= 4 * estimate::room(
            context_window,
            reserve,
        ),
{
    let beside = pass_overhead(list, context_window, reserve, overhead);
    let budget = estimate::history_budget(context_window, reserve, beside);
    if !fits_one_pass(list, context_window, reserve, overhead) {
        law_split_chunks_fit(list, budget);
    }
    estimate::law_budget_leaves_room(
        context_window,
        reserve,
        beside,
        estimate::messages_tokens(planned_chunks(list, context_window, reserve, overhead)[pass]),
    );
}

/// A history goes to the model in one pass exactly where its estimate and that of the two prompts
/// take no more than four fifths of the window beside the reserve, or where the history costs
/// nothing. Then the one chunk is the history.
pub proof fn law_one_pass_where_it_fits(
    list: Seq<message::MessageView>,
    context_window: u32,
    reserve: u32,
    overhead: nat,
)
    ensures
        fits_one_pass(list, context_window, reserve, overhead) <==> 5 * (estimate::messages_tokens(
            list,
        ) + overhead) <= 4 * (context_window - reserve) || estimate::messages_tokens(list) == 0,
        fits_one_pass(list, context_window, reserve, overhead) ==> planned_chunks(
            list,
            context_window,
            reserve,
            overhead,
        ) == seq![list],
{
}

/// A history that does not fit in one pass is split so that a pass leaves room for its prompts and
/// for five thousand tokens of summary within four fifths of the window beside the reserve, unless
/// it sends a single message or messages that cost nothing. It is split no further than that asks:
/// with the first message of the next pass a pass would not leave the room.
pub proof fn law_split_passes_leave_room_for_the_summary(
    list: Seq<message::MessageView>,
    context_window: u32,
    reserve: u32,
    overhead: nat,
    pass: int,
)
    requires
        !fits_one_pass(list, context_window, reserve, overhead),
        0 <= pass < planned_chunks(list, context_window, reserve, overhead).len(),
    ensures
        ({
            let chunks = planned_chunks(list, context_window, reserve, overhead);
            let tokens = estimate::messages_tokens(chunks[pass]);
            &&& chunks[pass].len() > 0
            &&& chunks[pass].len() == 1 || tokens == 0 || 5 * (tokens + overhead + 5_000) <= 4 * (
            context_window - reserve)
            &&& pass + 1 < chunks.len() ==> 5 * (tokens + estimate::message_tokens(
                chunks[pass + 1][0],
            ) + overhead + 5_000) > 4 * (context_window - reserve)
        }),
{
    let budget = estimate::history_budget(context_window, reserve, overhead + 5_000);
    law_split_chunks_fit(list, budget);
    law_split_closes_full_chunks(list, budget);
    estimate::law_budget_is_the_most_that_fits(context_window, reserve, overhead + 5_000);
    let chunks = planned_chunks(list, context_window, reserve, overhead);
    assert(fitting_chunk(chunks[pass], budget));
}

/// A compaction can be planned wherever the history, the prompts and the room for a summary are
/// counted in 32 bits together, and never where the history or the prompts alone are not. The room
/// for a summary counts only where the history does not fit in one pass.
pub proof fn law_plannable_where_countable(
    list: Seq<message::MessageView>,
    context_window: u32,
    reserve: u32,
    overhead: nat,
)
    ensures
        estimate::messages_tokens(list) + overhead + 5_000 <= u32::MAX ==> plannable(
            list,
            context_window,
            reserve,
            overhead,
        ),
        plannable(list, context_window, reserve, overhead) ==> estimate::messages_tokens(list)
            <= u32::MAX && overhead <= u32::MAX,
        estimate::messages_tokens(list) <= u32::MAX && overhead <= u32::MAX ==> (plannable(
            list,
            context_window,
            reserve,
            overhead,
        ) <==> overhead + 5_000 <= u32::MAX || 5 * (estimate::messages_tokens(list) + overhead) <= 4
            * (context_window - reserve) || estimate::messages_tokens(list) == 0),
{
}

/// The prompts around a history cost what they cost as texts, one as much as the other.
pub proof fn law_prompts_cost_their_texts(
    role: message::Role,
    system_prompt: Seq<char>,
    user_prompt: Seq<char>,
)
    ensures
        prompt_overhead(system_prompt, user_prompt) == estimate::message_tokens(
            message::MessageView {
                role,
                content: seq![
                    message::BlockView::Text { text: system_prompt },
                    message::BlockView::Text { text: user_prompt },
                ],
            },
        ),
{
    let one = seq![message::BlockView::Text { text: system_prompt }];
    let other = seq![message::BlockView::Text { text: user_prompt }];
    let none = Seq::<message::MessageView>::empty();
    estimate::law_estimates_add_up(role, one, other, one[0], none, none);
    assert(one + other =~= seq![
        message::BlockView::Text { text: system_prompt },
        message::BlockView::Text { text: user_prompt },
    ]);
}

/// What a pass sends is its chunk, whole and in order, before it the summary of the passes before,
/// where there is one, and behind it the prompt as the last message, from the user.
pub proof fn law_pass_sends_its_chunk(c: CompactionView)
    requires
        c.passes < c.chunks.len(),
    ensures
        ({
            let sent = pass_messages(c);
            let chunk = c.chunks[c.passes as int];
            let before: int = if c.summary is Some { 1 } else { 0 };
            &&& sent.len() == before + chunk.len() + 1
            &&& sent.subrange(before, before + chunk.len()) == chunk
            &&& sent.last().role == message::Role::User
            &&& sent.last().content == seq![message::BlockView::Text { text: c.user_prompt }]
            &&& c.summary matches Some(summary) ==> {
                &&& sent[0].role == message::Role::User
                &&& sent[0].content == seq![
                    message::BlockView::Text {
                        text:
                            "[Earlier conversation summary, to be merged with the conversation below:]\n"@
                            + summary,
                    },
                ]
            }
        }),
{
    let before: int = if c.summary is Some { 1 } else { 0 };
    let chunk = c.chunks[c.passes as int];
    assert(pass_messages(c).subrange(before, before + chunk.len()) =~= chunk);
}

/// A pass moves the compaction on by one and changes nothing else of the plan: the chunks, the
/// prompt and whether it can be cancelled stay. The summary handed on is that of the answer alone,
/// whatever was handed on before.
pub proof fn law_pass_keeps_the_plan(
    c: CompactionView,
    answer: message::MessageView,
    usage: TokenUsage,
)
    ensures
        after_pass(c, answer, usage).passes == c.passes + 1,
        after_pass(c, answer, usage).chunks == c.chunks,
        after_pass(c, answer, usage).cancellable == c.cancellable,
        after_pass(c, answer, usage).user_prompt == c.user_prompt,
        c.passes + 1 < c.chunks.len() ==> after_pass(c, answer, usage).summary == Some(
            summary_of(answer),
        ),
        c.passes + 1 >= c.chunks.len() ==> after_pass(c, answer, usage).summary == c.summary,
{
}

/// What is left of a compacted history is the question what was done, from the user, and the
/// answer to the last pass as it is.
pub proof fn law_compacted_history_is_the_answer(answer: message::MessageView)
    ensures
        compacted_history(answer).len() == 2,
        compacted_history(answer)[0].role == message::Role::User,
        compacted_history(answer)[0].content == seq![
            message::BlockView::Text { text: "What did we do so far?"@ },
        ],
        compacted_history(answer)[1] == answer,
{
}

/// A pass that is followed by another hands its summary on: the next request begins with it.
pub proof fn law_summary_is_handed_on(
    c: CompactionView,
    answer: message::MessageView,
    usage: TokenUsage,
)
    requires
        c.passes + 1 < c.chunks.len(),
    ensures
        pass_messages(after_pass(c, answer, usage)) == seq![
            message::user_message(
                "[Earlier conversation summary, to be merged with the conversation below:]\n"@
                    + summary_of(answer),
            ),
        ] + c.chunks[(c.passes + 1) as int] + seq![message::user_message(c.user_prompt)],
{
}

/// A compaction after the passes that `answers` have answered.
pub open spec fn after_passes(
    c: CompactionView,
    answers: Seq<(message::MessageView, TokenUsage)>,
) -> CompactionView
    decreases answers.len(),
{
    if answers.len() == 0 {
        c
    } else {
        let last = answers.last();
        after_pass(after_passes(c, answers.drop_last()), last.0, last.1)
    }
}

/// The tokens of one kind that all `answers` have cost.
pub open spec fn tokens_of(
    answers: Seq<(message::MessageView, TokenUsage)>,
    kind: spec_fn(TokenUsage) -> nat,
) -> nat
    decreases answers.len(),
{
    if answers.len() == 0 {
        0
    } else {
        tokens_of(answers.drop_last(), kind) + kind(answers.last().1)
    }
}

/// The usage of a compaction is the sum over its passes, for each kind of token, as long as the
/// sums are within 32 bits.
pub proof fn law_usage_sums_up(
    c: CompactionView,
    answers: Seq<(message::MessageView, TokenUsage)>,
)
    requires
        c.usage.input + tokens_of(answers, |u: TokenUsage| u.input as nat) <= u32::MAX,
        c.usage.output + tokens_of(answers, |u: TokenUsage| u.output as nat) <= u32::MAX,
        c.usage.cache_read + tokens_of(answers, |u: TokenUsage| u.cache_read as nat) <= u32::MAX,
        c.usage.cache_creation + tokens_of(answers, |u: TokenUsage| u.cache_creation as nat)
            <= u32::MAX,
    ensures
        after_passes(c, answers).passes == c.passes + answers.len(),
        after_passes(c, answers).usage.input == c.usage.input + tokens_of(
            answers,
            |u: TokenUsage| u.input as nat,
        ),
        after_passes(c, answers).usage.output == c.usage.output + tokens_of(
            answers,
            |u: TokenUsage| u.output as nat,
        ),
        after_passes(c, answers).usage.cache_read == c.usage.cache_read + tokens_of(
            answers,
            |u: TokenUsage| u.cache_read as nat,
        ),
        after_passes(c, answers).usage.cache_creation == c.usage.cache_creation + tokens_of(
            answers,
            |u: TokenUsage| u.cache_creation as nat,
        ),
    decreases answers.len(),
{
    if answers.len() > 0 {
        law_usage_sums_up(c, answers.drop_last());
    }
}

/// Stripping images from messages leaves each message at its place, from the same side, and each
/// block at its place: an image as a text with the placeholder, any other block as it was.
pub proof fn law_stripped_images_leave_the_rest(messages: &mut Vec<Message>, i: int, k: int)
    requires
        call_ensures(strip_images, (messages,), ()),
        0 <= i < old(messages)@.len(),
        0 <= k < old(messages)@[i]@.content.len(),
    ensures
        final(messages)@.len() == old(messages)@.len(),
        final(messages)@[i]@.role == old(messages)@[i]@.role,
        final(messages)@[i]@.content.len() == old(messages)@[i]@.content.len(),
        old(messages)@[i]@.content[k] is Image ==> final(messages)@[i]@.content[k] == (
        message::BlockView::Text { text: "[image]"@ }),
        !(old(messages)@[i]@.content[k] is Image) ==> final(messages)@[i]@.content[k]
            == old(messages)@[i]@.content[k],
{
    let before = message::message_views(old(messages)@);
    let after = message::message_views(final(messages)@);
    assert(after.len() == before.len());
    assert(after[i] == final(messages)@[i]@ && before[i] == old(messages)@[i]@);
    law_only_images_are_replaced(before[i]);
}

/// Stripping thinking from messages leaves each message at its place, from the same side. No text,
/// tool call, tool result or image is lost or added, no thinking is left, and a message without
/// thinking is what it was.
pub proof fn law_stripped_thinking_leaves_the_rest(
    messages: &mut Vec<Message>,
    i: int,
    block: message::BlockView,
)
    requires
        call_ensures(strip_thinking, (messages,), ()),
        0 <= i < old(messages)@.len(),
    ensures
        final(messages)@.len() == old(messages)@.len(),
        final(messages)@[i]@.role == old(messages)@[i]@.role,
        block is Text || block is ToolUse || block is ToolResult || block is Image ==> (
        final(messages)@[i]@.content.contains(block) <==> old(messages)@[i]@.content.contains(
            block,
        )),
        block is Thinking || block is RedactedThinking ==> !final(messages)@[i]@.content.contains(
            block,
        ),
        (forall|k: int|
            0 <= k < old(messages)@[i]@.content.len() ==> !((
            #[trigger] old(messages)@[i]@.content[k]) is Thinking)
                && !(old(messages)@[i]@.content[k] is RedactedThinking)) ==> final(messages)@[i]@
            == old(messages)@[i]@,
{
    let before = message::message_views(old(messages)@);
    let after = message::message_views(final(messages)@);
    assert(after.len() == before.len());
    assert(after[i] == final(messages)@[i]@ && before[i] == old(messages)@[i]@);
    law_only_thinking_is_lost(before[i], Seq::empty(), Seq::empty(), block);
    let keep = |b: message::BlockView| !is_thinking(b);
    lemma_filter_elements(before[i].content, keep);
    if forall|k: int|
        0 <= k < before[i].content.len() ==> !((#[trigger] before[i].content[k]) is Thinking)
            && !(before[i].content[k] is RedactedThinking) {
        lemma_filter_all_kept(before[i].content, keep);
    }
}

/// A compaction is planned over the whole history: its passes hold the messages in their order, as
/// many as there are and from the same sides, and a history of text, tool calls and tool results
/// alone as it is. It begins with no pass done, no summary and no usage. It can be cancelled exactly
/// where it takes more than the one pass that history and prompts would fit in.
pub proof fn law_plan_covers_the_history(
    history: &[Message],
    context_window: u32,
    compaction_buffer: u32,
    system_prompt: &str,
    user_prompt: &str,
    c: Compaction,
    i: int,
)
    requires
        call_ensures(
            Compaction::plan,
            (history, context_window, compaction_buffer, system_prompt, user_prompt),
            c,
        ),
        0 <= i < history@.len(),
    ensures
        flat(c@.chunks).len() == history@.len(),
        flat(c@.chunks)[i].role == history@[i]@.role,
        (forall|k: int|
            0 <= k < history@[i]@.content.len() ==> (#[trigger] history@[i]@.content[k]) is Text
                || history@[i]@.content[k] is ToolUse || history@[i]@.content[k] is ToolResult)
            ==> flat(c@.chunks)[i] == history@[i]@,
        c@.passes == 0,
        c@.summary is None,
        c@.usage.input == 0 && c@.usage.output == 0 && c@.usage.cache_read == 0
            && c@.usage.cache_creation == 0,
        c@.user_prompt == user_prompt@,
        !c@.cancellable ==> c@.chunks.len() == 1,
        c@.cancellable <==> 5 * (estimate::messages_tokens(flat(c@.chunks)) + prompt_overhead(
            system_prompt@,
            user_prompt@,
        )) > 4 * (context_window - compaction_buffer) && estimate::messages_tokens(flat(c@.chunks))
            > 0,
{
    let views = message::message_views(history@);
    let list = prepared(views);
    let overhead = prompt_overhead(system_prompt@, user_prompt@);
    assert(views[i] == history@[i]@);
    law_plan_keeps_all(list, context_window, compaction_buffer, overhead);
    law_one_pass_where_it_fits(list, context_window, compaction_buffer, overhead);
    law_preparing_loses_only_images_and_thinking(views, i);
}

/// A pass is asked for unless a cancel stops a compaction that can be cancelled. The messages it
/// sends hold its chunk whole and end with the prompt.
pub proof fn law_next_pass_sends_the_chunk(
    c: &Compaction,
    cancelled: bool,
    request: Result<Vec<Message>, AgentError>,
)
    requires
        c@.passes < c@.chunks.len(),
        call_ensures(Compaction::next_pass, (c, cancelled), request),
    ensures
        request is Err <==> c@.cancellable && cancelled,
        request matches Err(e) ==> e@ is Cancelled,
        request matches Ok(messages) ==> {
            let sent = message::message_views(messages@);
            let chunk = c@.chunks[c@.passes as int];
            &&& sent.len() == chunk.len() + (if c@.summary is Some { 2int } else { 1 })
            &&& sent.last().role == message::Role::User
            &&& sent.last().content == seq![message::BlockView::Text { text: c@.user_prompt }]
            &&& sent.drop_last().skip(sent.len() - 1 - chunk.len()) == chunk
        },
{
    law_pass_sends_its_chunk(c@);
    if let Ok(messages) = request {
        let sent = message::message_views(messages@);
        let chunk = c@.chunks[c@.passes as int];
        assert(sent.drop_last().skip(sent.len() - 1 - chunk.len()) =~= chunk);
    }
}

/// A finished pass counts its tokens and moves on. The last one, and no other, ends the compaction:
/// its answer is the turn that is reported and all of the new history but a question before it, and
/// the turn costs what all passes did.
pub proof fn law_finished_pass_moves_on(
    c: &mut Compaction,
    response: StreamResponse,
    model_id: &str,
    outcome: PassOutcome,
)
    requires
        old(c)@.passes < old(c)@.chunks.len(),
        old(c)@.usage.input + response.usage.input <= u32::MAX,
        old(c)@.usage.output + response.usage.output <= u32::MAX,
        old(c)@.usage.cache_read + response.usage.cache_read <= u32::MAX,
        old(c)@.usage.cache_creation + response.usage.cache_creation <= u32::MAX,
        call_ensures(Compaction::finish_pass, (c, response, model_id), outcome),
    ensures
        final(c)@.passes == old(c)@.passes + 1,
        final(c)@.chunks == old(c)@.chunks,
        final(c)@.user_prompt == old(c)@.user_prompt,
        final(c)@.cancellable == old(c)@.cancellable,
        final(c)@.usage.input == old(c)@.usage.input + response.usage.input,
        final(c)@.usage.output == old(c)@.usage.output + response.usage.output,
        final(c)@.usage.cache_read == old(c)@.usage.cache_read + response.usage.cache_read,
        final(c)@.usage.cache_creation == old(c)@.usage.cache_creation
            + response.usage.cache_creation,
        outcome is More <==> old(c)@.passes + 1 < old(c)@.chunks.len(),
        outcome is More ==> final(c)@.summary == Some(summary_of(response.message@)),
        outcome matches PassOutcome::Done { turn, history, usage } ==> {
            &&& turn.message@ == response.message@
            &&& turn.model@ == model_id@
            &&& turn.usage == final(c)@.usage
            &&& turn.context_size == Some(final(c)@.usage.output)
            &&& usage == final(c)@.usage
            &&& history@.len() == 2
            &&& history@[0]@.role == message::Role::User
            &&& history@[0]@.content == seq![
                message::BlockView::Text { text: "What did we do so far?"@ },
            ]
            &&& history@[1]@ == response.message@
        },
{
    law_pass_keeps_the_plan(old(c)@, response.message@, response.usage);
    if let PassOutcome::Done { turn, history, usage } = outcome {
        let views = message::message_views(history@);
        law_compacted_history_is_the_answer(response.message@);
        assert(views.len() == history@.len());
        assert(views[0] == history@[0]@ && views[1] == history@[1]@);
    }
}

/// Automatic compaction is on unless it is switched off by one of the two words for that.
pub proof fn law_compaction_is_on_unless_disabled(disable: Option<&str>, enabled: bool)
    requires
        call_ensures(auto_compact_enabled, (disable,), enabled),
    ensures
        disable is None ==> enabled,
        disable matches Some(value) ==> (enabled <==> !(value@ == "1"@ || value@ == "true"@)),
{
}

} // verus!
