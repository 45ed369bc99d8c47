//! The bar that tells what the agent is doing, for which model and at what cost.

use vstd::prelude::*;
use vstd::string::*;
use crate::llama_cpp_sse::{LoadingStatus, ModelLoadingState};
use crate::message;
use crate::number;
use crate::number::{percent_of, tenths_of};
use crate::span;
use crate::span::{add_span, copy_spans, span_width, spans_width, split_row, Area, Color, Extent, Span, Style};
use crate::text;
use crate::text::{cat, cat3, decimal_text, first_bytes, strip_prefix, trim};

verus! {

/// A number of tokens as the bar shows it: whole up to a thousand, and then with one decimal in
/// thousands or in millions.
pub open spec fn token_text(n: nat) -> Seq<char> {
    if n < 1_000 {
        text::decimal(n)
    } else if n < 1_000_000 {
        tenths_text(number::tenths(n, 1_000)) + "k"@
    } else {
        tenths_text(number::tenths(n, 1_000_000)) + "m"@
    }
}

/// A number of tenths, with a decimal point.
pub open spec fn tenths_text(n: nat) -> Seq<char> {
    text::decimal(n / 10) + "."@ + text::decimal(n % 10)
}

/// A number of tokens as the bar shows it.
pub fn format_tokens(n: u32) -> (s: String)
    ensures
        s@ == token_text(n as nat),
{
    if n < 1_000 {
        return decimal_text(n as u64);
    }
    let unit: u32 = if n < 1_000_000 { 1_000 } else { 1_000_000 };
    let q: u64 = tenths_of(n, unit);
    let mut s: String = cat3(
        decimal_text(q / 10).as_str(),
        ".",
        decimal_text(q % 10).as_str(),
    );
    s.append(if n < 1_000_000 { "k" } else { "m" });
    s
}

/// What has been spent, in dollars with three decimals: here, and everywhere.
#[derive(Debug)]
pub struct Costs {
    pub own: String,
    pub global: String,
}

/// How full the context is and, where the model has a price, what was spent.
#[derive(Debug)]
pub struct UsageStats {
    pub context_size: u32,
    pub context_window: u32,
    pub costs: Option<Costs>,
    pub show_global: bool,
}

/// What the agent is doing.
#[derive(Debug)]
pub enum Status {
    Idle,
    Streaming,
    Error { message: String },
}

/// A request that is made again at `deadline`, in nanoseconds.
#[derive(Debug)]
pub struct RetryInfo {
    pub attempt: u32,
    pub message: String,
    pub deadline: u128,
}

/// What the bar tells of.
#[derive(Debug)]
pub struct StatusBarContext {
    pub status: Status,
    pub spinner: String,
    pub mode_label: String,
    pub model_id: String,
    pub stats: UsageStats,
    pub auto_scroll: bool,
    pub chat_name: Option<String>,
    pub retry_info: Option<RetryInfo>,
    pub thinking_label: Option<String>,
    pub fast: bool,
    pub workflow: bool,
    pub restoring: bool,
    pub model_loading: Option<ModelLoadingState>,
}

/// The bar, with a message that is flashed since a time, in nanoseconds.
#[derive(Debug)]
pub struct StatusBar {
    pub flash: Option<(String, u128)>,
    pub cwd_branch: String,
    pub flash_duration: u128,
}

/// Whether a message that is flashed since `since` has been there for `duration`. Time does not
/// run backwards: before `since`, no time has passed.
pub open spec fn is_stale(since: u128, now: u128, duration: u128) -> bool {
    (if now >= since {
        now - since
    } else {
        0
    }) >= duration
}

impl StatusBar {
    /// A bar without a message, for the directory and branch `cwd_branch`.
    pub fn new(flash_duration: u128, cwd_branch: String) -> (bar: Self)
        ensures
            bar.flash is None,
            bar.cwd_branch == cwd_branch,
            bar.flash_duration == flash_duration,
    {
        StatusBar { flash: None, cwd_branch, flash_duration }
    }

    /// Flashes a message from now on.
    pub fn flash(&mut self, msg: String, now: u128)
        ensures
            *final(self) == (StatusBar { flash: Some((msg, now)), ..*old(self) }),
    {
        self.flash = Some((msg, now));
    }

    /// The message that is flashed.
    pub fn flash_text(&self) -> (s: Option<&str>)
        ensures
            match s {
                Some(t) => self.flash matches Some(f) && t@ == f.0@,
                None => self.flash is None,
            },
    {
        match &self.flash {
            Some(f) => Some(f.0.as_str()),
            None => None,
        }
    }

    /// Shows another directory and branch.
    pub fn refresh_cwd(&mut self, cwd_branch: String)
        ensures
            *final(self) == (StatusBar { cwd_branch, ..*old(self) }),
    {
        self.cwd_branch = cwd_branch;
    }

    /// Shows the directory and branch as they are now, where the branch has been reported to
    /// change.
    pub fn poll_branch_update(&mut self, has_changed: bool, cwd_branch: String)
        ensures
            *final(self) == (if has_changed {
                StatusBar { cwd_branch, ..*old(self) }
            } else {
                *old(self)
            }),
    {
        if has_changed {
            self.cwd_branch = cwd_branch;
        }
    }

    /// Takes the message away.
    pub fn clear_flash(&mut self)
        ensures
            *final(self) == (StatusBar { flash: None, ..*old(self) }),
    {
        self.flash = None;
    }

    /// Takes the message away once it has been there for as long as it should.
    pub fn clear_expired_hint(&mut self, now: u128)
        ensures
            *final(self) == (match old(self).flash {
                Some(f) => if is_stale(f.1, now, old(self).flash_duration) {
                    StatusBar { flash: None, ..*old(self) }
                } else {
                    *old(self)
                },
                None => *old(self),
            }),
    {
        let expired: bool = match &self.flash {
            Some(f) => now.saturating_sub(f.1) >= self.flash_duration,
            None => false,
        };
        if expired {
            self.flash = None;
        }
    }
}

/// A path with `~` for the home directory that it begins with.
pub open spec fn collapsed(path: Seq<char>, home: Seq<char>) -> Seq<char> {
    if home.is_prefix_of(path) {
        "~"@ + path.skip(home.len() as int)
    } else {
        path
    }
}

/// A path with `~` for the home directory that it begins with.
pub fn collapse_home_with(path: &str, home: &str) -> (s: String)
    ensures
        s@ == collapsed(path@, home@),
{
    match strip_prefix(path, home) {
        Some(rest) => cat("~", rest),
        None => path.to_owned(),
    }
}

/// A path with `~` for the home directory, where one is known.
pub fn collapse_home(path: &str, home: Option<&str>) -> (s: String)
    ensures
        s@ == (match home {
            Some(h) => collapsed(path@, h@),
            None => path@,
        }),
{
    match home {
        Some(h) => collapse_home_with(path, h),
        None => path.to_owned(),
    }
}

/// The label of a directory, with its branch, where it has one.
pub fn cwd_branch_label(cwd: &str, home: Option<&str>, branch: Option<&str>) -> (s: String)
    ensures
        ({
            let label = match home {
                Some(h) => collapsed(cwd@, h@),
                None => cwd@,
            };
            s@ == (match branch {
                Some(b) => label + ":"@ + b@,
                None => label,
            })
        }),
{
    let label: String = collapse_home(cwd, home);
    match branch {
        Some(b) => cat3(label.as_str(), ":", b),
        None => label,
    }
}

/// The nearest directory that holds a repository, of a directory and those above it, from the
/// inside to the outside, where `has_git` tells which of them do.
pub fn nearest_git_dir(has_git: &[bool]) -> (place: Option<usize>)
    ensures
        match place {
            Some(i) => i < has_git@.len() && has_git@[i as int] && forall|k: int|
                0 <= k < i ==> !#[trigger] has_git@[k],
            None => forall|k: int| 0 <= k < has_git@.len() ==> !#[trigger] has_git@[k],
        },
        place is Some <==> has_git@.contains(true),
{
    let mut i: usize = 0;
    while i < has_git.len()
        invariant
            i <= has_git@.len(),
            forall|k: int| 0 <= k < i ==> !#[trigger] has_git@[k],
        decreases has_git@.len() - i,
    {
        if has_git[i] {
            return Some(i);
        }
        i += 1;
    }
    None
}

/// The branch that the text of a `HEAD` file names: that of a reference to a branch; else, of the
/// commit that it holds, the seven bytes at the beginning, where there are as many.
pub fn detect_branch(head: Option<&str>) -> (branch: Option<String>)
    ensures
        match head {
            None => branch is None,
            Some(content) => {
                let line = text::trimmed(content@);
                if "ref: refs/heads/"@.is_prefix_of(line) {
                    branch matches Some(b) && b@ == line.skip("ref: refs/heads/"@.len() as int)
                } else {
                    match branch {
                        Some(b) => b@.is_prefix_of(line) && text::byte_len(b@) == 7,
                        None => forall|k: int|
                            0 <= k <= line.len() ==> text::byte_len(#[trigger] line.take(k)) != 7,
                    }
                }
            },
        },
{
    match head {
        None => None,
        Some(content) => {
            let line: &str = trim(content);
            match strip_prefix(line, "ref: refs/heads/") {
                Some(name) => Some(name.to_owned()),
                None => match first_bytes(line, 7) {
                    Some(commit) => Some(commit.to_owned()),
                    None => None,
                },
            }
        },
    }
}

/// What lies in the home directory is shown with `~` in its place.
pub proof fn law_home_collapses(home: Seq<char>, rest: Seq<char>)
    ensures
        collapsed(home + rest, home) == "~"@ + rest,
{
    assert((home + rest).take(home.len() as int) =~= home);
    assert((home + rest).skip(home.len() as int) =~= rest);
}

/// The line of a `HEAD` file that refers to the branch `name`, once the white space around it is
/// gone, is the reference: what `detect_branch` gives back of it is the name. A name does not end
/// with white space.
pub proof fn law_branch_is_read_back(name: Seq<char>)
    requires
        name.len() == 0 || !text::is_white(name.last()),
    ensures
        ({
            let line = text::trimmed("ref: refs/heads/"@ + name + "\n"@);
            &&& "ref: refs/heads/"@.is_prefix_of(line)
            &&& line.skip("ref: refs/heads/"@.len() as int) == name
        }),
{
    reveal_strlit("ref: refs/heads/");
    reveal_strlit("\n");
    let head = "ref: refs/heads/"@;
    let reference = head + name;
    let content = reference + "\n"@;
    assert(content =~= head + name + "\n"@);
    assert(content[0] == 'r');
    assert(text::trimmed_start(content) == content);
    assert(content.drop_last() =~= reference);
    if name.len() > 0 {
        assert(reference.last() == name.last());
    } else {
        assert(reference.last() == '/');
    }
    assert(text::trimmed_end(reference) == reference);
    assert(reference.take(head.len() as int) =~= head);
    assert(reference.skip(head.len() as int) =~= name);
}

/// A piece of text, where there is one.
pub open spec fn piece(text: Option<Seq<char>>, style: Style) -> Seq<span::SpanView> {
    match text {
        Some(t) => seq![span::span(t, style)],
        None => Seq::empty(),
    }
}

fn add_piece(spans: &mut Vec<Span>, text: Option<String>, style: Style)
    ensures
        span::span_views(final(spans)@) == span::span_views(old(spans)@) + piece(
            message::opt_text(text),
            style,
        ),
{
    let ghost before = span::span_views(spans@);
    let ghost added = piece(message::opt_text(text), style);
    if let Some(t) = text {
        add_span(spans, t, style);
    }
    assert(span::span_views(spans@) =~= before + added);
}

/// A text, where `shown` says so.
pub open spec fn text_if(shown: bool, text: Seq<char>) -> Option<Seq<char>> {
    if shown {
        Some(text)
    } else {
        None
    }
}

/// The text ` [name]`, where there is a name.
pub open spec fn bracketed(name: Option<String>) -> Option<Seq<char>> {
    match name {
        Some(n) => Some(" ["@ + n@ + "]"@),
        None => None,
    }
}

/// The seconds that are left until `deadline`.
pub open spec fn seconds_left(deadline: u128, now: u128) -> nat {
    (if deadline >= now {
        deadline - now
    } else {
        0
    }) as nat / 1_000_000_000
}

/// How a retry is told.
pub open spec fn retry_text(retry: RetryInfo, now: u128) -> Seq<char> {
    " · retrying in "@ + text::decimal(seconds_left(retry.deadline, now)) + "s (#"@ + text::decimal(
        retry.attempt as nat,
    ) + ")"@
}

/// What the bar tells on the left: what the agent is doing.
pub open spec fn left_spans(bar: StatusBar, ctx: StatusBarContext, now: u128) -> Seq<span::SpanView> {
    piece(text_if(ctx.status is Streaming, " "@ + ctx.spinner@), Style::Spinner) + piece(
        text_if(ctx.restoring, " "@ + ctx.spinner@),
        Style::Notice,
    ) + piece(Some(" "@ + ctx.mode_label@), Style::Mode) + piece(
        bracketed(ctx.chat_name),
        Style::Dim,
    ) + piece(text_if(!ctx.auto_scroll, " auto-scroll paused"@), Style::Dim) + piece(
        match ctx.retry_info {
            Some(retry) => Some(" "@ + retry.message@),
            None => None,
        },
        Style::RetryError,
    ) + piece(
        match ctx.retry_info {
            Some(retry) => Some(retry_text(retry, now)),
            None => None,
        },
        Style::RetryInfo,
    ) + piece(
        match ctx.status {
            Status::Error { message } => Some(" "@ + message@),
            _ => None,
        },
        Style::Error,
    ) + piece(
        match bar.flash {
            Some(f) => Some(" "@ + f.0@),
            None => None,
        },
        Style::Notice,
    )
}

/// Whether the model is in the state `status` of loading.
pub open spec fn loads(state: Option<ModelLoadingState>, status: LoadingStatus) -> bool {
    state matches Some(s) && s.status == status
}

/// How full the context is, in percent, as far as an integer of 32 bits goes.
pub open spec fn context_percent(stats: UsageStats) -> nat {
    let p = number::percent(stats.context_size as nat, stats.context_window as nat);
    if p > u32::MAX {
        u32::MAX as nat
    } else {
        p
    }
}

/// How full the context is, and what was spent here.
pub open spec fn usage_text(stats: UsageStats) -> Seq<char> {
    "  "@ + token_text(stats.context_size as nat) + "/"@ + token_text(stats.context_window as nat)
        + " ("@ + text::decimal(context_percent(stats)) + "%)"@ + (match stats.costs {
        Some(costs) => " $"@ + costs.own@,
        None => Seq::empty(),
    }) + " "@
}

/// What the bar tells on the right: where the agent works, with which model and at what cost.
/// There is nothing where an error is told.
pub open spec fn right_spans(bar: StatusBar, ctx: StatusBarContext) -> Seq<span::SpanView> {
    if ctx.status is Error {
        Seq::empty()
    } else {
        piece(Some(bar.cwd_branch@), Style::Dim) + piece(Some("  "@), Style::Plain) + piece(
            Some(
                if loads(ctx.model_loading, LoadingStatus::Loading) {
                    " Loading model "@
                } else {
                    ctx.model_id@
                },
            ),
            Style::Dim,
        ) + piece(bracketed(ctx.thinking_label), Style::Dim) + piece(
            text_if(ctx.fast, " [fast]"@),
            Style::Dim,
        ) + piece(text_if(ctx.workflow, " [workflow]"@), Style::Dim) + piece(
            Some(usage_text(ctx.stats)),
            Style::Tinted(Color::Foreground),
        ) + piece(
            match ctx.stats.costs {
                Some(costs) => text_if(ctx.stats.show_global, " \u{03a3}$"@ + costs.global@ + " "@),
                None => None,
            },
            Style::Tinted(Color::Foreground),
        )
    }
}

fn in_brackets(name: &Option<String>) -> (s: Option<String>)
    ensures
        message::opt_text(s) == bracketed(*name),
{
    match name {
        Some(n) => Some(cat3(" [", n.as_str(), "]")),
        None => None,
    }
}

fn is_in(state: &Option<ModelLoadingState>, status: LoadingStatus) -> (is: bool)
    ensures
        is == loads(*state, status),
{
    match state {
        Some(s) => s.status == status,
        None => false,
    }
}

/// How full the context is, and what was spent here.
pub fn format_usage(stats: &UsageStats) -> (s: String)
    ensures
        s@ == usage_text(*stats),
{
    let mut s: String = "  ".to_owned();
    s.append(format_tokens(stats.context_size).as_str());
    s.append("/");
    s.append(format_tokens(stats.context_window).as_str());
    s.append(" (");
    s.append(decimal_text(percent_of(stats.context_size, stats.context_window) as u64).as_str());
    s.append("%)");
    let ghost head = s@;
    match &stats.costs {
        Some(costs) => {
            s.append(" $");
            s.append(costs.own.as_str());
            assert(s@ =~= head + (" $"@ + costs.own@));
        },
        None => {
            assert(s@ =~= head + Seq::<char>::empty());
        },
    }
    s.append(" ");
    s
}

/// How a retry is told.
pub fn format_retry(retry: &RetryInfo, now: u128) -> (s: String)
    ensures
        s@ == retry_text(*retry, now),
{
    let secs: u128 = retry.deadline.saturating_sub(now) / 1_000_000_000;
    let mut s: String = " · retrying in ".to_owned();
    s.append(long_decimal(secs).as_str());
    s.append("s (#");
    s.append(decimal_text(retry.attempt as u64).as_str());
    s.append(")");
    s
}

fn long_decimal(n: u128) -> (s: String)
    ensures
        s@ == text::decimal(n as nat),
    decreases n,
{
    if n < 10 {
        decimal_text(n as u64)
    } else {
        let mut s: String = long_decimal(n / 10);
        s.append(decimal_text((n % 10) as u64).as_str());
        assert(s@ =~= text::decimal(n as nat));
        s
    }
}

impl StatusBar {
    /// What the bar tells on the left.
    pub fn left(&self, ctx: &StatusBarContext, now: u128) -> (spans: Vec<Span>)
        ensures
            span::span_views(spans@) == left_spans(*self, *ctx, now),
    {
        let mut spans: Vec<Span> = Vec::new();
        assert(span::span_views(spans@) =~= Seq::empty());
        let streaming: bool = match &ctx.status {
            Status::Streaming => true,
            _ => false,
        };
        add_piece(
            &mut spans,
            if streaming { Some(cat(" ", ctx.spinner.as_str())) } else { None },
            Style::Spinner,
        );
        assert(span::span_views(spans@) =~= piece(
            text_if(ctx.status is Streaming, " "@ + ctx.spinner@),
            Style::Spinner,
        ));
        add_piece(
            &mut spans,
            if ctx.restoring { Some(cat(" ", ctx.spinner.as_str())) } else { None },
            Style::Notice,
        );
        add_piece(&mut spans, Some(cat(" ", ctx.mode_label.as_str())), Style::Mode);
        add_piece(&mut spans, in_brackets(&ctx.chat_name), Style::Dim);
        add_piece(
            &mut spans,
            if !ctx.auto_scroll { Some(" auto-scroll paused".to_owned()) } else { None },
            Style::Dim,
        );
        let (told, left): (Option<String>, Option<String>) = match &ctx.retry_info {
            Some(retry) => (
                Some(cat(" ", retry.message.as_str())),
                Some(format_retry(retry, now)),
            ),
            None => (None, None),
        };
        add_piece(&mut spans, told, Style::RetryError);
        add_piece(&mut spans, left, Style::RetryInfo);
        add_piece(
            &mut spans,
            match &ctx.status {
                Status::Error { message } => Some(cat(" ", message.as_str())),
                _ => None,
            },
            Style::Error,
        );
        add_piece(
            &mut spans,
            match &self.flash {
                Some(f) => Some(cat(" ", f.0.as_str())),
                None => None,
            },
            Style::Notice,
        );
        spans
    }

    /// What the bar tells on the right.
    pub fn right(&self, ctx: &StatusBarContext) -> (spans: Vec<Span>)
        ensures
            span::span_views(spans@) == right_spans(*self, *ctx),
    {
        let mut spans: Vec<Span> = Vec::new();
        assert(span::span_views(spans@) =~= Seq::empty());
        if let Status::Error { .. } = &ctx.status {
            return spans;
        }
        add_piece(&mut spans, Some(self.cwd_branch.clone()), Style::Dim);
        assert(span::span_views(spans@) =~= piece(Some(self.cwd_branch@), Style::Dim));
        add_piece(&mut spans, Some("  ".to_owned()), Style::Plain);
        add_piece(
            &mut spans,
            Some(
                if is_in(&ctx.model_loading, LoadingStatus::Loading) {
                    " Loading model ".to_owned()
                } else {
                    ctx.model_id.clone()
                },
            ),
            Style::Dim,
        );
        add_piece(&mut spans, in_brackets(&ctx.thinking_label), Style::Dim);
        add_piece(
            &mut spans,
            if ctx.fast { Some(" [fast]".to_owned()) } else { None },
            Style::Dim,
        );
        add_piece(
            &mut spans,
            if ctx.workflow { Some(" [workflow]".to_owned()) } else { None },
            Style::Dim,
        );
        add_piece(&mut spans, Some(format_usage(&ctx.stats)), Style::Tinted(Color::Foreground));
        add_piece(
            &mut spans,
            match &ctx.stats.costs {
                Some(costs) => if ctx.stats.show_global {
                    Some(cat3(" \u{03a3}$", costs.global.as_str(), " "))
                } else {
                    None
                },
                None => None,
            },
            Style::Tinted(Color::Foreground),
        );
        spans
    }
}

/// How wide the gauge is that shows how far a model has been loaded.
pub const LOADING_BAR_WIDTH: u16 = 20;

/// How wide the words are that say that a model could not be loaded.
pub const LOAD_FAILED_WIDTH: u16 = 14;

/// The width that the right part asks for: that of its text and, while a model is loaded or once
/// that has failed, of what tells so.
pub open spec fn asked_width(width: u16, state: Option<ModelLoadingState>) -> u16 {
    let more = if loads(state, LoadingStatus::Loading) {
        LOADING_BAR_WIDTH
    } else if loads(state, LoadingStatus::Failed) {
        LOAD_FAILED_WIDTH
    } else {
        0
    };
    if width + more > u16::MAX {
        u16::MAX
    } else {
        (width + more) as u16
    }
}

/// The width that the right part asks for, where its text is `width` wide.
pub fn right_alloc(width: u16, state: &Option<ModelLoadingState>) -> (alloc: u16)
    ensures
        alloc == asked_width(width, *state),
{
    if is_in(state, LoadingStatus::Loading) {
        width.saturating_add(LOADING_BAR_WIDTH)
    } else if is_in(state, LoadingStatus::Failed) {
        width.saturating_add(LOAD_FAILED_WIDTH)
    } else {
        width
    }
}

/// While a model is loaded, the parts of the right side ask together for as much as it asks for.
pub proof fn law_loading_parts_fill_right(
    spans: Seq<span::SpanView>,
    state: Option<ModelLoadingState>,
)
    requires
        spans.len() > 0,
        loads(state, LoadingStatus::Loading),
        span::width_sum(spans) + LOADING_BAR_WIDTH <= u16::MAX,
    ensures
        asked_width(span::width_sum(spans) as u16, state) == span::width_sum(spans.drop_last())
            + LOADING_BAR_WIDTH + (span::shown_width(spans.last().text) as nat) % 65536,
{
}

/// Something to draw: text on an area, from the left or from the right, or a gauge. How full the
/// gauge is stands in the bits of a single-precision number.
#[derive(Debug)]
pub enum Draw {
    Text { spans: Vec<Span>, area: Area, from_right: bool },
    Gauge { area: Area, progress_bits: u32 },
}

/// What something to draw holds.
pub enum DrawView {
    Text { spans: Seq<span::SpanView>, area: Area, from_right: bool },
    Gauge { area: Area, progress_bits: u32 },
}

impl View for Draw {
    type V = DrawView;

    open spec fn view(&self) -> DrawView {
        match *self {
            Draw::Text { spans, area, from_right } => DrawView::Text {
                spans: span::span_views(spans@),
                area,
                from_right,
            },
            Draw::Gauge { area, progress_bits } => DrawView::Gauge { area, progress_bits },
        }
    }
}

/// What a list of things to draw holds.
pub open spec fn draw_views(draws: Seq<Draw>) -> Seq<DrawView> {
    draws.map_values(|d: Draw| d@)
}

fn add_draw(draws: &mut Vec<Draw>, draw: Draw)
    ensures
        draw_views(final(draws)@) == draw_views(old(draws)@).push(draw@),
{
    let ghost before = draws@;
    draws.push(draw);
    assert(draw_views(draws@) =~= draw_views(before).push(draw@));
}

/// Text from the left on an area, unless there is no text or no area.
pub open spec fn text_on(spans: Seq<span::SpanView>, area: Area) -> Seq<DrawView> {
    if area.is_flat() || spans.len() == 0 {
        Seq::empty()
    } else {
        seq![DrawView::Text { spans, area, from_right: false }]
    }
}

/// A gauge on an area, unless there is no area.
pub open spec fn gauge_on(area: Area, progress_bits: u32) -> Seq<DrawView> {
    if area.is_flat() {
        Seq::empty()
    } else {
        seq![DrawView::Gauge { area, progress_bits }]
    }
}

/// The right part while a model is loaded: the text, the gauge, and behind it the last piece of
/// the text.
pub open spec fn loading_draws(
    spans: Seq<span::SpanView>,
    progress_bits: u32,
    content: Area,
    bar: Area,
    context: Area,
) -> Seq<DrawView> {
    let (front, last) = if spans.len() == 0 {
        (spans, spans)
    } else {
        (spans.drop_last(), seq![spans.last()])
    };
    text_on(front, content) + gauge_on(bar, progress_bits) + text_on(last, context)
}

/// The right part while a model is loaded, on the areas for the text, the gauge and the last piece
/// of the text.
pub fn render_loading_bar(
    spans: &Vec<Span>,
    progress_bits: u32,
    content: Area,
    bar: Area,
    context: Area,
) -> (draws: Vec<Draw>)
    ensures
        draw_views(draws@) == loading_draws(
            span::span_views(spans@),
            progress_bits,
            content,
            bar,
            context,
        ),
{
    let ghost views = span::span_views(spans@);
    let mut draws: Vec<Draw> = Vec::new();
    let n: usize = spans.len();
    if !content.is_empty() && n > 1 {
        let front: Vec<Span> = copy_spans(spans, 0, n - 1);
        assert(span::span_views(front@) =~= views.drop_last());
        add_draw(&mut draws, Draw::Text { spans: front, area: content, from_right: false });
    }
    if !bar.is_empty() {
        add_draw(&mut draws, Draw::Gauge { area: bar, progress_bits });
    }
    if n > 0 && !context.is_empty() {
        let last: Vec<Span> = copy_spans(spans, n - 1, n);
        assert(span::span_views(last@) =~= seq![views.last()]);
        add_draw(&mut draws, Draw::Text { spans: last, area: context, from_right: false });
    }
    assert(draw_views(draws@) =~= loading_draws(views, progress_bits, content, bar, context));
    draws
}

/// The widths of some text without its last piece, and of that piece.
pub open spec fn front_and_last(spans: Seq<span::SpanView>) -> (nat, nat) {
    if spans.len() == 0 {
        (0, 0)
    } else {
        (
            span::width_sum(spans.drop_last()),
            (span::shown_width(spans.last().text) as nat) % 65536,
        )
    }
}

/// The widths that the text and its last piece ask for while a model is loaded, unless the text's
/// does not fit in 16 bits.
pub fn loading_widths(spans: &Vec<Span>) -> (widths: Option<(u16, u16)>)
    ensures
        ({
            let (front, last) = front_and_last(span::span_views(spans@));
            widths == (if front <= u16::MAX {
                Some((front as u16, last as u16))
            } else {
                None
            })
        }),
{
    let n: usize = spans.len();
    if n == 0 {
        return Some((0, 0));
    }
    assert(span::span_views(spans@).take(n - 1) =~= span::span_views(spans@).drop_last());
    match spans_width(spans, n - 1) {
        Some(front) => Some((front, span_width(&spans[n - 1]))),
        None => None,
    }
}

/// The right part, on its area: as `loading_draws` says while a model is loaded, and else all its
/// text from the right, with a word on a model that could not be loaded behind the directory.
pub open spec fn right_draws(
    spans: Seq<span::SpanView>,
    state: Option<ModelLoadingState>,
    area: Area,
    parts: Seq<Area>,
) -> Seq<DrawView> {
    if loads(state, LoadingStatus::Loading) {
        loading_draws(spans, state->0.progress_bits, parts[0], parts[1], parts[2])
    } else if loads(state, LoadingStatus::Failed) {
        seq![
            DrawView::Text {
                spans: spans.insert(2, span::span(" (load failed)"@, Style::Error)),
                area,
                from_right: true,
            },
        ]
    } else {
        seq![DrawView::Text { spans, area, from_right: true }]
    }
}

/// The right part, on its area, and on its three parts while a model is loaded.
pub fn place_right(
    spans: Vec<Span>,
    state: &Option<ModelLoadingState>,
    area: Area,
    parts: &Vec<Area>,
) -> (draws: Vec<Draw>)
    requires
        loads(*state, LoadingStatus::Loading) ==> parts@.len() == 3,
        loads(*state, LoadingStatus::Failed) ==> spans@.len() >= 2,
    ensures
        draw_views(draws@) == right_draws(span::span_views(spans@), *state, area, parts@),
{
    let mut spans = spans;
    let ghost views = span::span_views(spans@);
    if let Some(s) = state {
        if s.status == LoadingStatus::Loading {
            return render_loading_bar(&spans, s.progress_bits, parts[0], parts[1], parts[2]);
        }
        if s.status == LoadingStatus::Failed {
            let word = Span { text: " (load failed)".to_owned(), style: Style::Error };
            let ghost before = spans@;
            spans.insert(2, word);
            assert(span::span_views(before.insert(2, word)) =~= views.insert(2, word@));
        }
    }
    let mut draws: Vec<Draw> = Vec::new();
    add_draw(&mut draws, Draw::Text { spans, area, from_right: true });
    assert(draw_views(draws@) =~= right_draws(views, *state, area, parts@));
    draws
}

/// The whole bar, on the areas of its two parts.
pub open spec fn bar_draws(
    left: Seq<span::SpanView>,
    right: Seq<span::SpanView>,
    state: Option<ModelLoadingState>,
    left_area: Area,
    right_area: Area,
    parts: Seq<Area>,
) -> Seq<DrawView> {
    seq![DrawView::Text { spans: left, area: left_area, from_right: false }] + right_draws(
        right,
        state,
        right_area,
        parts,
    )
}

/// The areas of the two parts of the bar: the right one as wide as it asks, up to the whole row,
/// and the left one what is left.
pub open spec fn two_areas(area: Area, asked: u16) -> (Area, Area) {
    let width = if asked <= area.width {
        asked as int
    } else {
        area.width as int
    };
    (
        Area { width: (area.width - width) as u16, ..area },
        Area { x: (area.x + area.width - width) as u16, width: width as u16, ..area },
    )
}

/// The areas of the parts of the right side while a model is loaded, where there is room for them:
/// the text, the gauge and the last piece of the text, one behind the other.
pub open spec fn three_areas(area: Area, front: nat, last: nat) -> Seq<Area> {
    seq![
        Area { width: front as u16, ..area },
        Area { x: (area.x + front) as u16, width: LOADING_BAR_WIDTH, ..area },
        Area { x: (area.x + front + LOADING_BAR_WIDTH) as u16, width: last as u16, ..area },
    ]
}

/// The extents that the parts of the right side ask for while a model is loaded.
pub open spec fn three_extents(front: nat, last: nat) -> Seq<Extent> {
    seq![
        Extent::Length(front as u16),
        Extent::Length(LOADING_BAR_WIDTH),
        Extent::Length(last as u16),
    ]
}

/// Whether these can be the areas of the two parts and, while a model is loaded, those of the
/// right one. Each lies on its row, and those of the right one within it; on an area within the
/// screen there is one way to place the two parts and, where there is room, the parts of the right
/// one. Without room these fill the right one, none wider than it asks.
pub open spec fn areas_fit(
    area: Area,
    right: Seq<span::SpanView>,
    state: Option<ModelLoadingState>,
    left_area: Area,
    right_area: Area,
    parts: Seq<Area>,
) -> bool {
    let asked = asked_width(span::width_sum(right) as u16, state);
    let (front, last) = front_and_last(right);
    &&& span::on_row(left_area, area)
    &&& span::on_row(right_area, area)
    &&& area.x + area.width <= u16::MAX ==> (left_area, right_area) == two_areas(area, asked)
    &&& loads(state, LoadingStatus::Loading) ==> {
        &&& parts.len() == 3
        &&& forall|i: int| 0 <= i < 3 ==> span::on_row(#[trigger] parts[i], right_area)
        &&& front + LOADING_BAR_WIDTH + last <= right_area.width ==> parts == three_areas(
            right_area,
            front,
            last,
        )
        &&& front + LOADING_BAR_WIDTH + last > right_area.width ==> span::fills_row(
            parts,
            right_area,
            three_extents(front, last),
        )
    }
}

proof fn lemma_two_extents(area: Area, asked: u16)
    requires
        area.x + area.width <= u16::MAX,
    ensures
        ({
            let extents = seq![Extent::Min(0), Extent::Length(asked)];
            let (l, r) = two_areas(area, asked);
            &&& span::is_settled(area, extents)
            &&& span::settled_start(area, extents, 0) == l.x
            &&& span::settled_width(area, extents, 0) == l.width
            &&& span::settled_start(area, extents, 1) == r.x
            &&& span::settled_width(area, extents, 1) == r.width
        }),
{
    let extents = seq![Extent::Min(0), Extent::Length(asked)];
    let one = extents.drop_last();
    assert(one.drop_last() =~= Seq::empty());
    reveal_with_fuel(span::fixed_lengths, 3);
    reveal_with_fuel(span::fixed_count, 3);
    reveal_with_fuel(span::settled_start, 2);
}

proof fn lemma_three_extents(area: Area, front: u16, last: u16)
    requires
        area.x + area.width <= u16::MAX,
    ensures
        ({
            let extents = three_extents(front as nat, last as nat);
            let areas = three_areas(area, front as nat, last as nat);
            if front + LOADING_BAR_WIDTH + last <= area.width {
                &&& span::is_settled(area, extents)
                &&& forall|i: int|
                    0 <= i < 3 ==> span::settled_start(area, extents, i) == (
                    #[trigger] areas[i]).x && span::settled_width(area, extents, i)
                        == areas[i].width
            } else {
                span::is_crowded(area, extents)
            }
        }),
{
    let extents = three_extents(front as nat, last as nat);
    let two = extents.drop_last();
    let one = two.drop_last();
    assert(one.drop_last() =~= Seq::empty());
    reveal_with_fuel(span::fixed_lengths, 4);
    reveal_with_fuel(span::fixed_count, 4);
    reveal_with_fuel(span::settled_start, 3);
}

impl StatusBar {
    /// What to draw on `area`, unless the text on the right is wider than 16 bits can say.
    pub fn view(&self, area: Area, ctx: &StatusBarContext, now: u128) -> (draws: Option<Vec<Draw>>)
        requires
            !(ctx.status is Error && loads(ctx.model_loading, LoadingStatus::Failed)),
        ensures
            match draws {
                None => span::width_sum(right_spans(*self, *ctx)) > u16::MAX,
                Some(d) => span::width_sum(right_spans(*self, *ctx)) <= u16::MAX && exists|
                    left_area: Area,
                    right_area: Area,
                    parts: Seq<Area>,
                |
                    areas_fit(
                        area,
                        right_spans(*self, *ctx),
                        ctx.model_loading,
                        left_area,
                        right_area,
                        parts,
                    ) && #[trigger] bar_draws(
                        left_spans(*self, *ctx, now),
                        right_spans(*self, *ctx),
                        ctx.model_loading,
                        left_area,
                        right_area,
                        parts,
                    ) == draw_views(d@),
            },
    {
        let left: Vec<Span> = self.left(ctx, now);
        let right: Vec<Span> = self.right(ctx);
        let ghost left_views = span::span_views(left@);
        let ghost views = span::span_views(right@);
        assert(views.take(views.len() as int) =~= views);
        let width: u16 = match spans_width(&right, right.len()) {
            Some(w) => w,
            None => {
                return None;
            },
        };
        let mut extents: Vec<Extent> = Vec::new();
        extents.push(Extent::Min(0));
        extents.push(Extent::Length(right_alloc(width, &ctx.model_loading)));
        let areas: Vec<Area> = split_row(area, &extents);
        let (left_area, right_area): (Area, Area) = (areas[0], areas[1]);
        proof {
            let asked = asked_width(width, ctx.model_loading);
            assert(extents@ =~= seq![Extent::Min(0), Extent::Length(asked)]);
            if area.x + area.width <= u16::MAX {
                lemma_two_extents(area, asked);
            }
        }
        let mut parts: Vec<Area> = Vec::new();
        if is_in(&ctx.model_loading, LoadingStatus::Loading) {
            proof {
                if views.len() > 0 {
                    assert(span::width_sum(views.drop_last()) <= span::width_sum(views));
                }
            }
            let (front, last): (u16, u16) = match loading_widths(&right) {
                Some(widths) => widths,
                None => {
                    return None;
                },
            };
            let mut inner: Vec<Extent> = Vec::new();
            inner.push(Extent::Length(front));
            inner.push(Extent::Length(LOADING_BAR_WIDTH));
            inner.push(Extent::Length(last));
            parts = split_row(right_area, &inner);
            proof {
                assert(inner@ =~= three_extents(front as nat, last as nat));
                lemma_three_extents(right_area, front, last);
                if front + LOADING_BAR_WIDTH + last <= right_area.width {
                    assert(parts@ =~= three_areas(right_area, front as nat, last as nat));
                }
            }
        }
        let mut draws: Vec<Draw> = Vec::new();
        add_draw(&mut draws, Draw::Text { spans: left, area: left_area, from_right: false });
        let ghost first = draws@;
        let mut rest: Vec<Draw> = place_right(right, &ctx.model_loading, right_area, &parts);
        let ghost behind = rest@;
        draws.append(&mut rest);
        proof {
            assert(draw_views(first + behind) =~= draw_views(first) + draw_views(behind));
            assert(draw_views(draws@) =~= bar_draws(
                left_views,
                views,
                ctx.model_loading,
                left_area,
                right_area,
                parts@,
            ));
        }
        Some(draws)
    }
}

/// A message is shown for its time and no longer: it is stale from the end of that time on, and not
/// before, and once stale it stays so.
pub proof fn law_message_lasts_its_time(since: u128, now: u128, later: u128, duration: u128)
    ensures
        duration > 0 ==> (is_stale(since, now, duration) <==> now >= since + duration),
        duration == 0 ==> is_stale(since, now, duration),
        is_stale(since, now, duration) && later >= now ==> is_stale(since, later, duration),
{
}

/// A path outside the home directory is shown as it is.
pub proof fn law_other_paths_stay(path: Seq<char>, home: Seq<char>)
    requires
        !home.is_prefix_of(path),
    ensures
        collapsed(path, home) == path,
{
}

/// The wait for a retry is told in whole seconds, rounded down: none once the time has come. What
/// is told holds those seconds and the number of the attempt.
pub proof fn law_retry_counts_down(retry: RetryInfo, now: u128)
    ensures
        retry.deadline >= now ==> seconds_left(retry.deadline, now) * 1_000_000_000
            <= retry.deadline - now < (seconds_left(retry.deadline, now) + 1) * 1_000_000_000,
        retry.deadline <= now ==> seconds_left(retry.deadline, now) == 0,
        (" · retrying in "@ + text::decimal(seconds_left(retry.deadline, now))).is_prefix_of(
            retry_text(retry, now),
        ),
        ("s (#"@ + text::decimal(retry.attempt as nat) + ")"@).is_suffix_of(
            retry_text(retry, now),
        ),
        retry_text(retry, now).len() == " · retrying in "@.len() + text::decimal(
            seconds_left(retry.deadline, now),
        ).len() + "s (#"@.len() + text::decimal(retry.attempt as nat).len() + ")"@.len(),
{
    let told = retry_text(retry, now);
    let head = " · retrying in "@ + text::decimal(seconds_left(retry.deadline, now));
    let tail = "s (#"@ + text::decimal(retry.attempt as nat) + ")"@;
    assert(told =~= head + tail);
    assert(told.subrange(0, head.len() as int) =~= head);
    assert(told.subrange(told.len() - tail.len(), told.len() as int) =~= tail);
}

/// Up to a thousand, a number of tokens is shown whole, and from there on in thousands or, from a
/// million on, in millions, with one decimal.
pub proof fn law_tokens_are_shown_by_size(n: nat)
    ensures
        n < 1_000 ==> text::number_read(token_text(n)) == n,
        1_000 <= n < 1_000_000 ==> token_text(n).last() == 'k' && token_text(n).drop_last()
            == text::decimal(number::tenths(n, 1_000) / 10) + "."@ + text::decimal(
            number::tenths(n, 1_000) % 10,
        ),
        1_000_000 <= n ==> token_text(n).last() == 'm' && token_text(n).drop_last()
            == text::decimal(number::tenths(n, 1_000_000) / 10) + "."@ + text::decimal(
            number::tenths(n, 1_000_000) % 10,
        ),
{
    text::law_decimal_is_read_back(n);
    reveal_strlit("k");
    reveal_strlit("m");
    let k = tenths_text(number::tenths(n, 1_000));
    let m = tenths_text(number::tenths(n, 1_000_000));
    assert((k + "k"@).drop_last() =~= k);
    assert((m + "m"@).drop_last() =~= m);
}

/// The usage tells the size of the context before that of the window, then how full it is, and
/// ends with what was spent here where that is known. What was spent changes nothing before it.
pub proof fn law_usage_tells_size_window_and_cost(stats: UsageStats)
    ensures
        ("  "@ + token_text(stats.context_size as nat) + "/"@ + token_text(
            stats.context_window as nat,
        ) + " ("@ + text::decimal(context_percent(stats)) + "%)"@).is_prefix_of(usage_text(stats)),
        stats.costs matches Some(costs) ==> usage_text(stats) == "  "@ + token_text(
            stats.context_size as nat,
        ) + "/"@ + token_text(stats.context_window as nat) + " ("@ + text::decimal(
            context_percent(stats),
        ) + "%)"@ + (" $"@ + costs.own@) + " "@,
        stats.costs is None ==> usage_text(stats) == "  "@ + token_text(stats.context_size as nat)
            + "/"@ + token_text(stats.context_window as nat) + " ("@ + text::decimal(
            context_percent(stats),
        ) + "%) "@,
{
    reveal_strlit("%) ");
    reveal_strlit("%)");
    reveal_strlit(" ");
    let told = usage_text(stats);
    let open = "  "@ + token_text(stats.context_size as nat) + "/"@ + token_text(
        stats.context_window as nat,
    ) + " ("@ + text::decimal(context_percent(stats));
    let head = open + "%)"@;
    assert(told.subrange(0, head.len() as int) =~= head);
    if stats.costs is None {
        assert("%)"@ + " "@ =~= "%) "@);
        assert(told =~= open + "%) "@);
    }
}

/// What the bar tells on the left: always the mode, in its style; the spinner, in the one style
/// where an answer streams and in the other where a session is restored; the name of the chat;
/// that scrolling is paused; the message of a retry and how it counts down; an error; and last what
/// is flashed. Each is told where it is so and only there, once.
pub proof fn law_left_tells_what_is_so(bar: StatusBar, ctx: StatusBarContext, now: u128)
    ensures
        ({
            let told = left_spans(bar, ctx, now);
            let spins: int = if ctx.status is Streaming { 1 } else { 0 };
            let restores: int = if ctx.restoring { 1 } else { 0 };
            let named: int = if ctx.chat_name is Some { 1 } else { 0 };
            let paused: int = if ctx.auto_scroll { 0 } else { 1 };
            let retries: int = if ctx.retry_info is Some { 2 } else { 0 };
            let fails: int = if ctx.status is Error { 1 } else { 0 };
            let flashes: int = if bar.flash is Some { 1 } else { 0 };
            let mode = spins + restores;
            let retry = mode + 1 + named + paused;
            &&& told.len() == retry + retries + fails + flashes
            &&& ctx.status is Streaming ==> told[0].text == " "@ + ctx.spinner@ && told[0].style
                == Style::Spinner
            &&& ctx.restoring ==> told[spins].text == " "@ + ctx.spinner@ && told[spins].style
                == Style::Notice
            &&& told[mode].text == " "@ + ctx.mode_label@ && told[mode].style == Style::Mode
            &&& ctx.chat_name matches Some(name) ==> told[mode + 1].text == " ["@ + name@ + "]"@
                && told[mode + 1].style == Style::Dim
            &&& !ctx.auto_scroll ==> told[retry - 1].text == " auto-scroll paused"@ && told[retry
                - 1].style == Style::Dim
            &&& ctx.retry_info matches Some(info) ==> told[retry].text == " "@ + info.message@
                && told[retry].style == Style::RetryError && told[retry + 1].text == retry_text(
                info,
                now,
            ) && told[retry + 1].style == Style::RetryInfo
            &&& ctx.status matches Status::Error { message } ==> told[retry + retries].text == " "@
                + message@ && told[retry + retries].style == Style::Error
            &&& bar.flash matches Some(f) ==> told.last().text == " "@ + f.0@ && told.last().style
                == Style::Notice
        }),
{
}

/// What the bar tells on the right: nothing where an error is told; else the directory and behind a
/// gap the model, or that one is being loaded; how it thinks, and whether it is fast or runs a
/// workflow, where it is so; how full the context is; and last what was spent everywhere, where that
/// is known and to be shown.
pub proof fn law_right_tells_what_is_so(bar: StatusBar, ctx: StatusBarContext)
    ensures
        ctx.status is Error ==> right_spans(bar, ctx).len() == 0,
        !(ctx.status is Error) ==> ({
            let told = right_spans(bar, ctx);
            let thinks: int = if ctx.thinking_label is Some { 1 } else { 0 };
            let fast: int = if ctx.fast { 1 } else { 0 };
            let works: int = if ctx.workflow { 1 } else { 0 };
            let spent: int = if ctx.stats.costs is Some && ctx.stats.show_global { 1 } else { 0 };
            let usage = 3 + thinks + fast + works;
            let loading = ctx.model_loading matches Some(s) && s.status == LoadingStatus::Loading;
            &&& told.len() == usage + 1 + spent
            &&& told[0].text == bar.cwd_branch@ && told[0].style == Style::Dim
            &&& told[1].text == "  "@ && told[1].style == Style::Plain
            &&& told[2].style == Style::Dim
            &&& loading ==> told[2].text == " Loading model "@
            &&& !loading ==> told[2].text == ctx.model_id@
            &&& ctx.thinking_label matches Some(label) ==> told[3].text == " ["@ + label@ + "]"@
                && told[3].style == Style::Dim
            &&& ctx.fast ==> told[3 + thinks].text == " [fast]"@ && told[3 + thinks].style
                == Style::Dim
            &&& ctx.workflow ==> told[3 + thinks + fast].text == " [workflow]"@ && told[3 + thinks
                + fast].style == Style::Dim
            &&& told[usage].text == usage_text(ctx.stats) && told[usage].style == Style::Tinted(
                Color::Foreground,
            )
            &&& ctx.stats.costs matches Some(costs) ==> ctx.stats.show_global ==> told.last().text
                == " \u{03a3}$"@ + costs.global@ + " "@ && told.last().style == Style::Tinted(
                Color::Foreground,
            )
        }),
{
}

/// The right part asks for twenty columns more than its text while a model is loaded, for fourteen
/// more once that has failed, and else for its text alone, up to what a screen can have.
pub proof fn law_right_asks_for_room(width: u16, state: Option<ModelLoadingState>)
    ensures
        asked_width(width, state) >= width,
        state is None ==> asked_width(width, state) == width,
        state matches Some(s) ==> {
            &&& s.status == LoadingStatus::Loading && width + 20 <= u16::MAX ==> asked_width(
                width,
                state,
            ) == width + 20
            &&& s.status == LoadingStatus::Failed && width + 14 <= u16::MAX ==> asked_width(
                width,
                state,
            ) == width + 14
            &&& s.status == LoadingStatus::Loading && width + 20 > u16::MAX ==> asked_width(
                width,
                state,
            ) == u16::MAX
            &&& s.status == LoadingStatus::Failed && width + 14 > u16::MAX ==> asked_width(
                width,
                state,
            ) == u16::MAX
            &&& s.status != LoadingStatus::Loading && s.status != LoadingStatus::Failed
                ==> asked_width(width, state) == width
        },
{
}

/// The two parts of the bar share its row: they stand side by side from its beginning to its end,
/// as high as it, and the right one is as wide as it asks or takes the whole row.
pub proof fn law_two_areas_share_the_row(area: Area, asked: u16)
    requires
        area.x + area.width <= u16::MAX,
    ensures
        ({
            let (left, right) = two_areas(area, asked);
            &&& left.x == area.x
            &&& left.x + left.width == right.x
            &&& right.x + right.width == area.x + area.width
            &&& right.width == asked || right.width == area.width
            &&& right.width <= asked
            &&& left.y == area.y && right.y == area.y
            &&& left.height == area.height && right.height == area.height
        }),
{
}

/// Where there is room, the parts of the right side stand one behind the other from its beginning
/// on, as high as it: the text and its last piece as wide as they are, the gauge of twenty columns
/// between them.
pub proof fn law_three_areas_in_a_row(area: Area, front: nat, last: nat)
    requires
        area.x + area.width <= u16::MAX,
        front + 20 + last <= area.width,
    ensures
        ({
            let parts = three_areas(area, front, last);
            &&& parts.len() == 3
            &&& parts[0].x == area.x && parts[0].width == front
            &&& parts[1].x == parts[0].x + parts[0].width && parts[1].width == 20
            &&& parts[2].x == parts[1].x + parts[1].width && parts[2].width == last
            &&& forall|i: int|
                0 <= i < 3 ==> (#[trigger] parts[i]).y == area.y && parts[i].height == area.height
        }),
{
}

/// While a model is loaded, all the text is drawn, each piece once and in order: the last piece
/// behind the gauge and the others before it, each part on its own area, from the left. The gauge
/// is drawn on its area with the progress. Nothing is drawn on an area that has no columns or no
/// rows.
pub proof fn law_loading_draws_all(
    spans: Seq<span::SpanView>,
    progress_bits: u32,
    content: Area,
    bar: Area,
    context: Area,
)
    ensures
        spans.len() > 1 && content.width > 0 && content.height > 0 && bar.width > 0 && bar.height > 0
            && context.width > 0 && context.height > 0 ==> {
            let draws = loading_draws(spans, progress_bits, content, bar, context);
            &&& draws.len() == 3
            &&& draws[0] is Text && draws[0]->Text_area == content && !draws[0]->from_right
            &&& draws[1] == (DrawView::Gauge { area: bar, progress_bits })
            &&& draws[2] is Text && draws[2]->Text_area == context && !draws[2]->from_right
            &&& draws[0]->spans + draws[2]->spans == spans
            &&& draws[2]->spans.len() == 1
        },
        forall|k: int|
            0 <= k < loading_draws(spans, progress_bits, content, bar, context).len() ==> {
                match #[trigger] loading_draws(spans, progress_bits, content, bar, context)[k] {
                    DrawView::Text { spans, area, from_right } => spans.len() > 0 && area.width > 0
                        && area.height > 0,
                    DrawView::Gauge { area, progress_bits } => area.width > 0 && area.height > 0,
                }
            },
        bar.width > 0 && bar.height > 0 ==> loading_draws(
            spans,
            progress_bits,
            content,
            bar,
            context,
        ).contains(DrawView::Gauge { area: bar, progress_bits }),
        spans.len() > 1 && content.width > 0 && content.height > 0 ==> loading_draws(
            spans,
            progress_bits,
            content,
            bar,
            context,
        ).first() == (DrawView::Text { spans: spans.drop_last(), area: content, from_right: false }),
        spans.len() > 0 && context.width > 0 && context.height > 0 ==> loading_draws(
            spans,
            progress_bits,
            content,
            bar,
            context,
        ).last() == (DrawView::Text {
            spans: seq![spans.last()],
            area: context,
            from_right: false,
        }),
        loading_draws(spans, progress_bits, content, bar, context).len() <= 3,
        spans.len() == 0 ==> loading_draws(spans, progress_bits, content, bar, context).len() <= 1,
{
    let draws = loading_draws(spans, progress_bits, content, bar, context);
    if spans.len() > 1 {
        assert(spans.drop_last() + seq![spans.last()] =~= spans);
    }
    if bar.width > 0 && bar.height > 0 {
        let at: int = if content.is_flat() || spans.len() <= 1 {
            0
        } else {
            1
        };
        assert(draws[at] == (DrawView::Gauge { area: bar, progress_bits }));
    }
}

/// Where no model is being loaded, the right part is one row of text from the right, whole and in
/// order. After a failure one word more stands behind the directory and the gap.
pub proof fn law_right_is_drawn_whole(
    spans: Seq<span::SpanView>,
    state: Option<ModelLoadingState>,
    area: Area,
    parts: Seq<Area>,
)
    requires
        !(state matches Some(s) && s.status == LoadingStatus::Loading),
        spans.len() >= 2,
    ensures
        ({
            let draws = right_draws(spans, state, area, parts);
            &&& draws.len() == 1
            &&& draws[0] is Text
            &&& draws[0]->Text_area == area
            &&& draws[0]->from_right
            &&& !(state matches Some(s) && s.status == LoadingStatus::Failed) ==> draws[0]->spans
                == spans
            &&& (state matches Some(s) && s.status == LoadingStatus::Failed) ==> {
                &&& draws[0]->spans.len() == spans.len() + 1
                &&& draws[0]->spans[2].text == " (load failed)"@
                &&& draws[0]->spans[2].style == Style::Error
                &&& draws[0]->spans.remove(2) == spans
            }
        }),
{
    if state matches Some(s) && s.status == LoadingStatus::Failed {
        let word = span::span(" (load failed)"@, Style::Error);
        assert(spans.insert(2, word).remove(2) =~= spans);
    }
}

/// The bar draws its left part first, whole and from the left, and then the right one.
pub proof fn law_bar_draws_left_and_right(
    left: Seq<span::SpanView>,
    right: Seq<span::SpanView>,
    state: Option<ModelLoadingState>,
    left_area: Area,
    right_area: Area,
    parts: Seq<Area>,
)
    ensures
        bar_draws(left, right, state, left_area, right_area, parts)[0] == (DrawView::Text {
            spans: left,
            area: left_area,
            from_right: false,
        }),
        bar_draws(left, right, state, left_area, right_area, parts).skip(1) == right_draws(
            right,
            state,
            right_area,
            parts,
        ),
        (state matches Some(s) && s.status == LoadingStatus::Loading) ==> right_draws(
            right,
            state,
            right_area,
            parts,
        ) == loading_draws(right, state->0.progress_bits, parts[0], parts[1], parts[2]),
{
    assert(bar_draws(left, right, state, left_area, right_area, parts).skip(1) =~= right_draws(
        right,
        state,
        right_area,
        parts,
    ));
}

/// The widths of the text before its last piece and of that piece make up the width of the text.
pub proof fn law_front_and_last_make_the_text(spans: Seq<span::SpanView>)
    ensures
        front_and_last(spans).0 + front_and_last(spans).1 == span::width_sum(spans),
        spans.len() > 0 ==> front_and_last(spans).1 == (span::shown_width(spans.last().text) as nat)
            % 65536,
{
}

/// On an area within the screen the parts of the bar meet and fill its row, and the right one is as
/// wide as its text and what is told of loading ask, or takes the whole row. While a model is
/// loaded, its three parts follow one another from its beginning on, none of them beyond its end;
/// where there is room each is as wide as it asks, and else they fill it.
pub proof fn law_fitting_areas_fill_the_row(
    area: Area,
    right: Seq<span::SpanView>,
    state: Option<ModelLoadingState>,
    left_area: Area,
    right_area: Area,
    parts: Seq<Area>,
)
    requires
        areas_fit(area, right, state, left_area, right_area, parts),
        area.x + area.width <= u16::MAX,
        span::width_sum(right) <= u16::MAX,
    ensures
        left_area.x == area.x,
        left_area.x + left_area.width == right_area.x,
        right_area.x + right_area.width == area.x + area.width,
        left_area.y == area.y && right_area.y == area.y,
        left_area.height == area.height && right_area.height == area.height,
        right_area.width == asked_width(span::width_sum(right) as u16, state) || right_area.width
            == area.width,
        right_area.width <= asked_width(span::width_sum(right) as u16, state),
        (state matches Some(s) && s.status == LoadingStatus::Loading) ==> {
            &&& parts.len() == 3
            &&& parts[0].x == right_area.x
            &&& parts[1].x == parts[0].x + parts[0].width
            &&& parts[2].x == parts[1].x + parts[1].width
            &&& parts[2].x + parts[2].width <= right_area.x + right_area.width
            &&& parts[1].width <= 20
            &&& span::width_sum(right) + 20 <= right_area.width ==> parts[1].width == 20
                && parts[0].width + parts[2].width == span::width_sum(right)
            &&& span::width_sum(right) + 20 > right_area.width ==> parts[2].x + parts[2].width
                == right_area.x + right_area.width
        },
{
    law_two_areas_share_the_row(area, asked_width(span::width_sum(right) as u16, state));
    law_front_and_last_make_the_text(right);
    if loads(state, LoadingStatus::Loading) {
        let (front, last) = front_and_last(right);
        if front + LOADING_BAR_WIDTH + last > right_area.width {
            let extents = three_extents(front, last);
            assert(span::fills_row(parts, right_area, extents));
            assert(extents[1] is Length);
            assert(parts[1].x == parts[0].x + parts[0].width);
            assert(parts[2].x == parts[1].x + parts[1].width);
        } else {
            law_three_areas_in_a_row(right_area, front, last);
        }
    }
}

/// A message that is flashed is shown until its time is over, and its going changes nothing else. A
/// message that is not yet stale, and no message at all, are left as they are.
pub proof fn law_flashed_message_expires(
    bar: &mut StatusBar,
    msg: String,
    now: u128,
    flashed: &mut StatusBar,
    later: u128,
)
    requires
        call_ensures(StatusBar::flash, (bar, msg, now), ()),
        *old(flashed) == *final(bar),
        call_ensures(StatusBar::clear_expired_hint, (flashed, later), ()),
        now + old(bar).flash_duration <= u128::MAX,
    ensures
        final(bar).flash == Some((msg, now)),
        final(bar).cwd_branch == old(bar).cwd_branch,
        final(bar).flash_duration == old(bar).flash_duration,
        later >= now + old(bar).flash_duration ==> final(flashed).flash is None,
        later < now + old(bar).flash_duration && old(bar).flash_duration > 0 && later >= now
            ==> *final(flashed) == *final(bar),
        final(flashed).cwd_branch == old(bar).cwd_branch,
        final(flashed).flash_duration == old(bar).flash_duration,
{
    law_message_lasts_its_time(now, later, later, old(bar).flash_duration);
}

/// What is flashed can be read, and once it is taken away there is nothing to read. Taking it away
/// changes nothing else.
pub proof fn law_cleared_message_is_gone(
    bar: &mut StatusBar,
    before: &StatusBar,
    shown: Option<&str>,
)
    requires
        *before == *old(bar),
        call_ensures(StatusBar::flash_text, (before,), shown),
        call_ensures(StatusBar::clear_flash, (bar,), ()),
    ensures
        shown is Some <==> old(bar).flash is Some,
        old(bar).flash matches Some(f) ==> shown->0@ == f.0@,
        final(bar).flash is None,
        final(bar).cwd_branch == old(bar).cwd_branch,
        final(bar).flash_duration == old(bar).flash_duration,
{
}

/// The directory and branch are shown as they are told: at once where they are refreshed, and on a
/// poll where a change has been reported. What is flashed stays.
pub proof fn law_branch_is_shown_as_told(
    refreshed: &mut StatusBar,
    polled: &mut StatusBar,
    has_changed: bool,
    label: String,
)
    requires
        call_ensures(StatusBar::refresh_cwd, (refreshed, label), ()),
        call_ensures(StatusBar::poll_branch_update, (polled, has_changed, label), ()),
    ensures
        final(refreshed).cwd_branch == label,
        final(refreshed).flash == old(refreshed).flash,
        has_changed ==> final(polled).cwd_branch == label,
        !has_changed ==> *final(polled) == *old(polled),
        final(polled).flash == old(polled).flash,
        final(polled).flash_duration == old(polled).flash_duration,
{
}

/// The label of a directory ends with its branch behind a colon, where it has one, and is else the
/// directory alone, with `~` for the home directory that it begins with.
pub proof fn law_label_names_directory_and_branch(
    cwd: &str,
    home: Option<&str>,
    branch: Option<&str>,
    label: String,
    bare: String,
)
    requires
        call_ensures(cwd_branch_label, (cwd, home, branch), label),
        call_ensures(cwd_branch_label, (cwd, home, None), bare),
    ensures
        branch is None ==> label@ == bare@,
        branch matches Some(b) ==> label@ == bare@ + ":"@ + b@,
        home is None ==> bare@ == cwd@,
        home matches Some(h) ==> (!h@.is_prefix_of(cwd@) ==> bare@ == cwd@),
        home matches Some(h) ==> (h@.is_prefix_of(cwd@) ==> bare@[0] == '~' && h@ + bare@.skip(1)
            == cwd@),
{
    if let Some(h) = home {
        if h@.is_prefix_of(cwd@) {
            reveal_strlit("~");
            assert(cwd@.subrange(0, h@.len() as int) == h@);
            assert(bare@.skip(1) =~= cwd@.skip(h@.len() as int));
            assert(h@ + bare@.skip(1) =~= cwd@);
        }
    }
}

/// A file that refers to a branch gives the name of that branch, and none gives none. Any other
/// gives the first seven bytes of its line, where they end a character.
pub proof fn law_branch_is_the_one_referred_to(
    head: Option<&str>,
    branch: Option<String>,
    name: Seq<char>,
    k: int,
)
    requires
        call_ensures(detect_branch, (head,), branch),
        name.len() == 0 || !text::is_white(name.last()),
    ensures
        head is None ==> branch is None,
        head matches Some(content) ==> (content@ == "ref: refs/heads/"@ + name + "\n"@ ==> branch
            is Some && branch->0@ == name),
        head matches Some(content) ==> (!"ref: refs/heads/"@.is_prefix_of(text::trimmed(content@))
            ==> (branch matches Some(b) ==> b@.is_prefix_of(text::trimmed(content@))
            && vstd::utf8::encode_utf8(b@).len() == 7)),
        head matches Some(content) ==> (!"ref: refs/heads/"@.is_prefix_of(text::trimmed(content@))
            && 0 <= k <= text::trimmed(content@).len() && vstd::utf8::encode_utf8(
            text::trimmed(content@).take(k),
        ).len() == 7 ==> branch is Some),
{
    law_branch_is_read_back(name);
}

/// A repository is found wherever there is one, and it is the nearest one: the directory holds one,
/// and none inside it does.
pub proof fn law_nearest_repository_is_found(has_git: &[bool], place: Option<usize>, k: int)
    requires
        call_ensures(nearest_git_dir, (has_git,), place),
        0 <= k < has_git@.len(),
    ensures
        has_git@[k] ==> place is Some && place->0 <= k,
        place matches Some(i) ==> i < has_git@.len() && has_git@[i as int],
{
    if has_git@[k] {
        assert(has_git@.contains(has_git@[k]));
    }
}

/// How full the context is, is rounded down to whole percent, also beyond a hundred, as far as an
/// integer of 32 bits goes. Without a window it is nothing.
pub proof fn law_context_percent_rounds_down(stats: UsageStats)
    ensures
        context_percent(stats) * stats.context_window <= 100 * stats.context_size,
        stats.context_window > 0 && context_percent(stats) < u32::MAX ==> 100 * stats.context_size
            <= (context_percent(stats) + 1) * stats.context_window,
        stats.context_window == 0 ==> context_percent(stats) == 0,
{
    let p = number::percent(stats.context_size as nat, stats.context_window as nat);
    let window = stats.context_window as nat;
    number::law_percent_rounds_down(stats.context_size as nat, window);
    assert(context_percent(stats) * window <= p * window) by (nonlinear_arith)
        requires
            context_percent(stats) <= p,
    ;
}

/// The bar draws its left part and, unless a model is being loaded, one row of text for the right
/// one, on areas that fill its row side by side. What it draws tells what is so.
pub proof fn law_drawn_bar_tells_both_parts(
    bar: &StatusBar,
    area: Area,
    ctx: &StatusBarContext,
    now: u128,
    draws: Vec<Draw>,
)
    requires
        call_ensures(StatusBar::view, (bar, area, ctx, now), Some(draws)),
        area.x + area.width <= u16::MAX,
        !(ctx.status is Error),
        !(ctx.model_loading matches Some(s) && s.status == LoadingStatus::Loading),
    ensures
        draws@.len() == 2,
        draws@[0]@ is Text,
        draws@[0]@->spans == left_spans(*bar, *ctx, now),
        !draws@[0]@->from_right,
        draws@[1]@ is Text,
        draws@[1]@->from_right,
        ctx.model_loading is None ==> draws@[1]@->spans == right_spans(*bar, *ctx),
        draws@[0]@->Text_area.x == area.x,
        draws@[0]@->Text_area.x + draws@[0]@->Text_area.width == draws@[1]@->Text_area.x,
        draws@[1]@->Text_area.x + draws@[1]@->Text_area.width == area.x + area.width,
        draws@[0]@->Text_area.y == area.y && draws@[1]@->Text_area.y == area.y,
{
    let left = left_spans(*bar, *ctx, now);
    let right = right_spans(*bar, *ctx);
    let state = ctx.model_loading;
    let (left_area, right_area, parts): (Area, Area, Seq<Area>) = choose|
        left_area: Area,
        right_area: Area,
        parts: Seq<Area>,
    |
        areas_fit(area, right, state, left_area, right_area, parts) && #[trigger] bar_draws(
            left,
            right,
            state,
            left_area,
            right_area,
            parts,
        ) == draw_views(draws@);
    law_fitting_areas_fill_the_row(area, right, state, left_area, right_area, parts);
    law_right_tells_what_is_so(*bar, *ctx);
    law_right_is_drawn_whole(right, state, right_area, parts);
    let views = draw_views(draws@);
    assert(views.len() == draws@.len());
    assert(views == bar_draws(left, right, state, left_area, right_area, parts));
    assert(views[0] == draws@[0]@ && views[1] == draws@[1]@);
}

} // verus!
