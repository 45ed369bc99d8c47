//! Conversations with a model: messages, token usage, models and errors.

use vstd::prelude::*;
use vstd::string::*;
use crate::text;
use crate::text::{cat, cat3, decimal_text};

verus! {

/// Who a message comes from.
#[derive(Debug, Clone, Copy, PartialEq, Eq, Structural)]
pub enum Role {
    User,
    Assistant,
}

#[derive(Debug, Clone, Copy, PartialEq, Eq, Structural)]
pub enum ImageMediaType {
    Png,
    Jpeg,
    Gif,
    Webp,
}

/// An image as it is sent: its type and its data in base64.
#[derive(Debug)]
pub struct ImageSource {
    pub media_type: ImageMediaType,
    pub data: String,
}

impl ImageSource {
    pub fn new(media_type: ImageMediaType, data: String) -> (source: Self)
        ensures
            source.media_type == media_type,
            source.data == data,
    {
        ImageSource { media_type, data }
    }
}

impl View for ImageSource {
    type V = (ImageMediaType, Seq<char>);

    open spec fn view(&self) -> (ImageMediaType, Seq<char>) {
        (self.media_type, self.data@)
    }
}

impl Clone for ImageSource {
    fn clone(&self) -> (copy: Self)
        ensures
            copy@ == self@,
    {
        ImageSource { media_type: self.media_type, data: self.data.clone() }
    }
}

/// One part of a message. The input of a tool call is held as compact JSON text.
#[derive(Debug)]
pub enum ContentBlock {
    Text { text: String },
    ToolUse { id: String, name: String, input: String },
    ToolResult { tool_use_id: String, content: String, is_error: bool },
    Thinking { thinking: String, signature: Option<String> },
    RedactedThinking { data: String },
    Image { source: ImageSource },
}

/// What a content block holds.
pub enum BlockView {
    Text { text: Seq<char> },
    ToolUse { id: Seq<char>, name: Seq<char>, input: Seq<char> },
    ToolResult { tool_use_id: Seq<char>, content: Seq<char>, is_error: bool },
    Thinking { thinking: Seq<char>, signature: Option<Seq<char>> },
    RedactedThinking { data: Seq<char> },
    Image { media_type: ImageMediaType, data: Seq<char> },
}

/// The text that an optional string holds.
pub open spec fn opt_text(s: Option<String>) -> Option<Seq<char>> {
    match s {
        Some(t) => Some(t@),
        None => None,
    }
}

impl View for ContentBlock {
    type V = BlockView;

    open spec fn view(&self) -> BlockView {
        match *self {
            ContentBlock::Text { text } => BlockView::Text { text: text@ },
            ContentBlock::ToolUse { id, name, input } => BlockView::ToolUse {
                id: id@,
                name: name@,
                input: input@,
            },
            ContentBlock::ToolResult { tool_use_id, content, is_error } => BlockView::ToolResult {
                tool_use_id: tool_use_id@,
                content: content@,
                is_error,
            },
            ContentBlock::Thinking { thinking, signature } => BlockView::Thinking {
                thinking: thinking@,
                signature: opt_text(signature),
            },
            ContentBlock::RedactedThinking { data } => BlockView::RedactedThinking { data: data@ },
            ContentBlock::Image { source } => BlockView::Image {
                media_type: source.media_type,
                data: source.data@,
            },
        }
    }
}

impl Clone for ContentBlock {
    fn clone(&self) -> (copy: Self)
        ensures
            copy@ == self@,
    {
        match self {
            ContentBlock::Text { text } => ContentBlock::Text { text: text.clone() },
            ContentBlock::ToolUse { id, name, input } => ContentBlock::ToolUse {
                id: id.clone(),
                name: name.clone(),
                input: input.clone(),
            },
            ContentBlock::ToolResult { tool_use_id, content, is_error } => ContentBlock::ToolResult {
                tool_use_id: tool_use_id.clone(),
                content: content.clone(),
                is_error: *is_error,
            },
            ContentBlock::Thinking { thinking, signature } => ContentBlock::Thinking {
                thinking: thinking.clone(),
                signature: match signature {
                    Some(s) => Some(s.clone()),
                    None => None,
                },
            },
            ContentBlock::RedactedThinking { data } => ContentBlock::RedactedThinking {
                data: data.clone(),
            },
            ContentBlock::Image { source } => ContentBlock::Image { source: source.clone() },
        }
    }
}

/// One message of a conversation.
#[derive(Debug)]
pub struct Message {
    pub role: Role,
    pub content: Vec<ContentBlock>,
}

/// What a message holds.
pub struct MessageView {
    pub role: Role,
    pub content: Seq<BlockView>,
}

/// What the blocks of a list hold.
pub open spec fn block_views(blocks: Seq<ContentBlock>) -> Seq<BlockView> {
    blocks.map_values(|b: ContentBlock| b@)
}

/// What the messages of a list hold.
pub open spec fn message_views(messages: Seq<Message>) -> Seq<MessageView> {
    messages.map_values(|m: Message| m@)
}

pub proof fn lemma_block_views_push(blocks: Seq<ContentBlock>, block: ContentBlock)
    ensures
        block_views(blocks.push(block)) == block_views(blocks).push(block@),
{
    assert(block_views(blocks.push(block)) =~= block_views(blocks).push(block@));
}

pub proof fn lemma_message_views_push(messages: Seq<Message>, message: Message)
    ensures
        message_views(messages.push(message)) == message_views(messages).push(message@),
{
    assert(message_views(messages.push(message)) =~= message_views(messages).push(message@));
}

impl View for Message {
    type V = MessageView;

    open spec fn view(&self) -> MessageView {
        MessageView { role: self.role, content: block_views(self.content@) }
    }
}

impl Clone for Message {
    fn clone(&self) -> (copy: Self)
        ensures
            copy@ == self@,
    {
        let mut content: Vec<ContentBlock> = Vec::new();
        let mut i: usize = 0;
        while i < self.content.len()
            invariant
                i <= self.content.len(),
                block_views(content@) == block_views(self.content@).take(i as int),
            decreases self.content.len() - i,
        {
            let block = self.content[i].clone();
            proof {
                lemma_block_views_push(content@, block);
            }
            content.push(block);
            assert(block_views(content@) =~= block_views(self.content@).take(i + 1));
            i += 1;
        }
        assert(block_views(self.content@).take(i as int) =~= block_views(self.content@));
        Message { role: self.role, content }
    }
}

/// A copy of a list of messages.
pub fn copy_messages(messages: &[Message]) -> (copy: Vec<Message>)
    ensures
        message_views(copy@) == message_views(messages@),
{
    let mut copy: Vec<Message> = Vec::new();
    let mut i: usize = 0;
    while i < messages.len()
        invariant
            i <= messages.len(),
            message_views(copy@) == message_views(messages@).take(i as int),
        decreases messages.len() - i,
    {
        let message = messages[i].clone();
        proof {
            lemma_message_views_push(copy@, message);
        }
        copy.push(message);
        assert(message_views(copy@) =~= message_views(messages@).take(i + 1));
        i += 1;
    }
    assert(message_views(messages@).take(i as int) =~= message_views(messages@));
    copy
}

/// A user message that holds the one text `text`.
pub open spec fn user_message(text: Seq<char>) -> MessageView {
    MessageView { role: Role::User, content: seq![BlockView::Text { text }] }
}

/// What the image blocks of `images` hold.
pub open spec fn image_blocks(images: Seq<ImageSource>) -> Seq<BlockView> {
    images.map_values(
        |s: ImageSource| BlockView::Image { media_type: s.media_type, data: s.data@ },
    )
}

impl Message {
    /// A user message that holds one text.
    pub fn user(text: String) -> (m: Self)
        ensures
            m@ == user_message(text@),
    {
        let mut content: Vec<ContentBlock> = Vec::new();
        content.push(ContentBlock::Text { text });
        let m = Message { role: Role::User, content };
        assert(m@.content =~= user_message(text@).content);
        m
    }

    /// A user message that holds images, and behind them the text where it is not empty.
    pub fn user_with_images(text: String, images: Vec<ImageSource>) -> (m: Self)
        ensures
            m@.role == Role::User,
            m@.content == image_blocks(images@) + (if text@.len() == 0 {
                Seq::empty()
            } else {
                seq![BlockView::Text { text: text@ }]
            }),
    {
        let mut content: Vec<ContentBlock> = Vec::new();
        let mut i: usize = 0;
        while i < images.len()
            invariant
                i <= images.len(),
                block_views(content@) == image_blocks(images@).take(i as int),
            decreases images.len() - i,
        {
            let block = ContentBlock::Image { source: images[i].clone() };
            proof {
                lemma_block_views_push(content@, block);
            }
            content.push(block);
            assert(block_views(content@) =~= image_blocks(images@).take(i + 1));
            i += 1;
        }
        assert(image_blocks(images@).take(i as int) =~= image_blocks(images@));
        if !text.as_str().is_empty() {
            let ghost held = text@;
            content.push(ContentBlock::Text { text });
            assert(block_views(content@) =~= image_blocks(images@) + seq![
                BlockView::Text { text: held },
            ]);
        } else {
            assert(block_views(content@) =~= image_blocks(images@) + Seq::empty());
        }
        Message { role: Role::User, content }
    }
}

/// The messages of a conversation, from the oldest to the newest.
#[derive(Debug)]
pub struct History {
    messages: Vec<Message>,
}

impl View for History {
    type V = Seq<MessageView>;

    closed spec fn view(&self) -> Seq<MessageView> {
        message_views(self.messages@)
    }
}

impl History {
    pub fn new(messages: Vec<Message>) -> (history: Self)
        ensures
            history@ == message_views(messages@),
    {
        History { messages }
    }

    pub fn as_slice(&self) -> (messages: &[Message])
        ensures
            message_views(messages@) == self@,
    {
        self.messages.as_slice()
    }

    /// Puts `messages` in the place of all that the history holds.
    pub fn replace(&mut self, messages: Vec<Message>)
        ensures
            final(self)@ == message_views(messages@),
    {
        self.messages = messages;
    }
}

/// The tokens that requests have used.
#[derive(Debug, Clone, Copy, PartialEq, Eq, Structural)]
pub struct TokenUsage {
    pub input: u32,
    pub output: u32,
    pub cache_read: u32,
    pub cache_creation: u32,
}

impl Default for TokenUsage {
    fn default() -> (usage: Self)
        ensures
            usage == (TokenUsage { input: 0, output: 0, cache_read: 0, cache_creation: 0 }),
    {
        TokenUsage { input: 0, output: 0, cache_read: 0, cache_creation: 0 }
    }
}

impl TokenUsage {
    /// The tokens of all kinds, which together fill the context.
    pub open spec fn total(self) -> nat {
        (self.input + self.output + self.cache_read + self.cache_creation) as nat
    }

    /// Whether each kind of token can be summed with that of `other`.
    pub open spec fn summable(self, other: TokenUsage) -> bool {
        &&& self.input + other.input <= u32::MAX
        &&& self.output + other.output <= u32::MAX
        &&& self.cache_read + other.cache_read <= u32::MAX
        &&& self.cache_creation + other.cache_creation <= u32::MAX
    }

    /// The sum of two usages, kind by kind.
    pub open spec fn plus(self, other: TokenUsage) -> TokenUsage {
        TokenUsage {
            input: (self.input + other.input) as u32,
            output: (self.output + other.output) as u32,
            cache_read: (self.cache_read + other.cache_read) as u32,
            cache_creation: (self.cache_creation + other.cache_creation) as u32,
        }
    }

    /// The tokens that fill the context: those of all kinds.
    pub fn context_tokens(&self) -> (n: u32)
        requires
            self.total() <= u32::MAX,
        ensures
            n == self.total(),
    {
        self.input + self.output + self.cache_read + self.cache_creation
    }
}

/// Every token counts once, of whatever kind it is: the total is the sum of the four kinds, and the
/// total of a sum of usages is the sum of their totals.
pub proof fn law_every_token_counts_once(usage: TokenUsage, other: TokenUsage)
    requires
        usage.input + other.input <= u32::MAX,
        usage.output + other.output <= u32::MAX,
        usage.cache_read + other.cache_read <= u32::MAX,
        usage.cache_creation + other.cache_creation <= u32::MAX,
    ensures
        usage.total() == usage.input + usage.output + usage.cache_read + usage.cache_creation,
        usage.summable(other),
        usage.plus(other).input == usage.input + other.input,
        usage.plus(other).output == usage.output + other.output,
        usage.plus(other).cache_read == usage.cache_read + other.cache_read,
        usage.plus(other).cache_creation == usage.cache_creation + other.cache_creation,
        usage.plus(other).total() == usage.total() + other.total(),
{
}

/// A model and its limits. Without `max_output_tokens` the server sets the limit.
#[derive(Debug)]
pub struct Model {
    pub id: String,
    pub provider: String,
    pub context_window: u32,
    pub max_output_tokens: Option<u32>,
}

#[derive(Debug, Clone, Copy, PartialEq, Eq, Structural)]
pub enum StopReason {
    EndTurn,
    ToolUse,
    MaxTokens,
}

/// A complete answer of a model.
#[derive(Debug)]
pub struct StreamResponse {
    pub message: Message,
    pub usage: TokenUsage,
    pub stop_reason: Option<StopReason>,
}

/// What can go wrong with a request.
#[derive(Debug)]
pub enum AgentError {
    Cancelled,
    Config { message: String },
    Api { status: u16, message: String },
    Timeout { secs: u64 },
    Http { message: String },
    Json { message: String },
    Channel,
}

/// What an error holds.
pub enum ErrorView {
    Cancelled,
    Config { message: Seq<char> },
    Api { status: u16, message: Seq<char> },
    Timeout { secs: u64 },
    Http { message: Seq<char> },
    Json { message: Seq<char> },
    Channel,
}

impl View for AgentError {
    type V = ErrorView;

    open spec fn view(&self) -> ErrorView {
        match *self {
            AgentError::Cancelled => ErrorView::Cancelled,
            AgentError::Config { message } => ErrorView::Config { message: message@ },
            AgentError::Api { status, message } => ErrorView::Api { status, message: message@ },
            AgentError::Timeout { secs } => ErrorView::Timeout { secs },
            AgentError::Http { message } => ErrorView::Http { message: message@ },
            AgentError::Json { message } => ErrorView::Json { message: message@ },
            AgentError::Channel => ErrorView::Channel,
        }
    }
}

/// The sentence that describes an error.
pub open spec fn error_text(error: ErrorView) -> Seq<char> {
    match error {
        ErrorView::Cancelled => "cancelled"@,
        ErrorView::Config { message } => "config error: "@ + message,
        ErrorView::Api { status, message } => "API error ("@ + text::decimal(status as nat) + "): "@
            + message,
        ErrorView::Timeout { secs } => "timed out after "@ + text::decimal(secs as nat) + "s"@,
        ErrorView::Http { message } => "HTTP error: "@ + message,
        ErrorView::Json { message } => "JSON error: "@ + message,
        ErrorView::Channel => "channel closed"@,
    }
}

/// The description of an error ends with what it holds: with the whole message, or with the time
/// that was waited. Of an error of the provider the status stands before it.
pub proof fn law_description_holds_the_message(message: Seq<char>, status: u16, secs: u64)
    ensures
        error_text(ErrorView::Config { message }) == "config error: "@ + message,
        error_text(ErrorView::Http { message }) == "HTTP error: "@ + message,
        error_text(ErrorView::Json { message }) == "JSON error: "@ + message,
        error_text(ErrorView::Api { status, message }) == "API error ("@ + text::decimal(
            status as nat,
        ) + "): "@ + message,
        error_text(ErrorView::Timeout { secs }) == "timed out after "@ + text::decimal(secs as nat)
            + "s"@,
{
}

impl AgentError {
    /// The sentence that describes the error.
    pub fn describe(&self) -> (s: String)
        ensures
            s@ == error_text(self@),
    {
        match self {
            AgentError::Cancelled => "cancelled".to_owned(),
            AgentError::Config { message } => cat("config error: ", message.as_str()),
            AgentError::Api { status, message } => {
                let mut s: String = "API error (".to_owned();
                s.append(decimal_text(*status as u64).as_str());
                s.append("): ");
                s.append(message.as_str());
                s
            },
            AgentError::Timeout { secs } => cat3(
                "timed out after ",
                decimal_text(*secs).as_str(),
                "s",
            ),
            AgentError::Http { message } => cat("HTTP error: ", message.as_str()),
            AgentError::Json { message } => cat("JSON error: ", message.as_str()),
            AgentError::Channel => "channel closed".to_owned(),
        }
    }
}

/// A message from the user holds what it is given: its text, and images before it each with type
/// and data. An empty text adds no block.
pub proof fn law_user_message_holds_what_it_is_given(
    text: String,
    images: Vec<ImageSource>,
    plain: Message,
    m: Message,
    k: int,
)
    requires
        call_ensures(Message::user, (text,), plain),
        call_ensures(Message::user_with_images, (text, images), m),
    ensures
        plain@.role == Role::User && m@.role == Role::User,
        plain@.content == seq![BlockView::Text { text: text@ }],
        m@.content.len() == images@.len() + (if text@.len() > 0 {
            1int
        } else {
            0
        }),
        0 <= k < images@.len() ==> m@.content[k] == (BlockView::Image {
            media_type: images@[k].media_type,
            data: images@[k].data@,
        }),
        text@.len() > 0 ==> m@.content.last() == (BlockView::Text { text: text@ }),
{
}

/// A history gives back the messages it was made of, and once replaced those it was given.
pub proof fn law_history_gives_back_its_messages(
    messages: Vec<Message>,
    history: History,
    slice: &[Message],
    replaced: &mut History,
    others: Vec<Message>,
)
    requires
        call_ensures(History::new, (messages,), history),
        call_ensures(History::as_slice, (&history,), slice),
        call_ensures(History::replace, (replaced, others), ()),
    ensures
        message_views(slice@) == message_views(messages@),
        final(replaced)@ == message_views(others@),
{
}

/// The tokens that fill the context are those of all four kinds.
pub proof fn law_context_holds_all_kinds(usage: &TokenUsage, n: u32)
    requires
        call_ensures(TokenUsage::context_tokens, (usage,), n),
    ensures
        n == usage.input + usage.output + usage.cache_read + usage.cache_creation,
{
}

/// The sentence that describes an error tells its kind, and its message whole at the end.
pub proof fn law_described_error_tells_the_message(error: &AgentError, s: String)
    requires
        call_ensures(AgentError::describe, (error,), s),
    ensures
        error@ matches ErrorView::Config { message } ==> s@ == "config error: "@ + message,
        error@ matches ErrorView::Http { message } ==> s@ == "HTTP error: "@ + message,
        error@ matches ErrorView::Json { message } ==> s@ == "JSON error: "@ + message,
        error@ matches ErrorView::Api { status, message } ==> s@ == "API error ("@ + text::decimal(
            status as nat,
        ) + "): "@ + message,
        error@ matches ErrorView::Timeout { secs } ==> s@ == "timed out after "@ + text::decimal(
            secs as nat,
        ) + "s"@,
        error@ is Cancelled ==> s@ == "cancelled"@,
        error@ is Channel ==> s@ == "channel closed"@,
{
}

} // verus!
