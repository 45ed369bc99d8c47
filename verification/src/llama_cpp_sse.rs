//! The loading of a model by a llama.cpp server, as its stream of events tells it.

use vstd::prelude::*;
use vstd::string::*;
use crate::json;
use crate::json::{collect_strings, Json};
use crate::text;
use crate::text::{cat, join, same_text, strip_prefix, strip_suffix, trim};

verus! {

/// How far a model is loaded.
#[derive(Debug, Clone, Copy, PartialEq, Eq, Structural)]
pub enum LoadingStatus {
    Idle,
    Loading,
    Ready,
    Failed,
}

impl Default for LoadingStatus {
    fn default() -> (status: Self)
        ensures
            status == LoadingStatus::Idle,
    {
        LoadingStatus::Idle
    }
}

/// The progress of loading a model. The share that is done is held as the bits of a
/// single-precision number.
#[derive(Debug)]
pub struct ModelLoadingState {
    pub model: String,
    pub stage: String,
    pub stages: Vec<String>,
    pub progress_bits: u32,
    pub status: LoadingStatus,
}

/// What the progress of loading a model holds.
pub struct LoadingView {
    pub model: Seq<char>,
    pub stage: Seq<char>,
    pub stages: Seq<Seq<char>>,
    pub progress_bits: u32,
    pub status: LoadingStatus,
}

impl View for ModelLoadingState {
    type V = LoadingView;

    open spec fn view(&self) -> LoadingView {
        LoadingView {
            model: self.model@,
            stage: self.stage@,
            stages: text::texts(self.stages@),
            progress_bits: self.progress_bits,
            status: self.status,
        }
    }
}

/// The bits of the single-precision number nothing.
pub const NOTHING_BITS: u32 = 0;

/// The bits of the single-precision number one.
pub const WHOLE_BITS: u32 = 0x3f80_0000;

fn copy_texts(list: &Vec<String>) -> (copy: Vec<String>)
    ensures
        text::texts(copy@) == text::texts(list@),
{
    let mut copy: Vec<String> = Vec::new();
    let mut i: usize = 0;
    while i < list.len()
        invariant
            i <= list.len(),
            copy@ == list@.take(i as int),
        decreases list.len() - i,
    {
        copy.push(list[i].clone());
        assert(copy@ =~= list@.take(i + 1));
        i += 1;
    }
    assert(list@.take(i as int) =~= list@);
    copy
}

impl Clone for ModelLoadingState {
    fn clone(&self) -> (copy: Self)
        ensures
            copy@ == self@,
    {
        ModelLoadingState {
            model: self.model.clone(),
            stage: self.stage.clone(),
            stages: copy_texts(&self.stages),
            progress_bits: self.progress_bits,
            status: self.status,
        }
    }
}

impl Default for ModelLoadingState {
    fn default() -> (state: Self)
        ensures
            state@ == (LoadingView {
                model: Seq::empty(),
                stage: Seq::empty(),
                stages: Seq::empty(),
                progress_bits: NOTHING_BITS,
                status: LoadingStatus::Idle,
            }),
    {
        let state = ModelLoadingState {
            model: String::new(),
            stage: String::new(),
            stages: Vec::new(),
            progress_bits: NOTHING_BITS,
            status: LoadingStatus::Idle,
        };
        assert(state@.stages =~= Seq::empty());
        state
    }
}

/// The address before the API's version, where a version ends it.
pub open spec fn server_root(base: Seq<char>) -> Seq<char> {
    if "/v1"@.is_suffix_of(base) {
        base.take(base.len() - "/v1"@.len())
    } else {
        base
    }
}

/// The address of the event stream of the server at `base_url`, or at `compat_base_url` where
/// there is no such address.
pub fn sse_url(base_url: Option<&str>, compat_base_url: &str) -> (url: Option<String>)
    ensures
        url matches Some(u) && u@ == server_root(
            match base_url {
                Some(base) => base@,
                None => compat_base_url@,
            },
        ) + "/models/sse"@,
{
    let base: &str = match base_url {
        Some(base) => base,
        None => compat_base_url,
    };
    let root: &str = match strip_suffix(base, "/v1") {
        Some(root) => root,
        None => base,
    };
    Some(cat(root, "/models/sse"))
}

/// The address of the server that an event stream belongs to.
pub open spec fn stream_server(sse_url: Seq<char>) -> Seq<char> {
    if "/models/sse"@.is_suffix_of(sse_url) {
        sse_url.take(sse_url.len() - "/models/sse"@.len())
    } else {
        sse_url
    }
}

/// The address of the health check of the server that the event stream at `sse_url` belongs to.
pub fn health_url(sse_url: &str) -> (url: String)
    ensures
        url@ == stream_server(sse_url@) + "/health"@,
{
    let base: &str = match strip_suffix(sse_url, "/models/sse") {
        Some(base) => base,
        None => sse_url,
    };
    cat(base, "/health")
}

/// How long to wait before the stream is opened again.
pub const SSE_RECONNECT_SECS: u64 = 2;

/// Whether a request for the stream has opened it, by the status of the answer.
pub fn is_open(status: Option<u16>) -> (open: bool)
    ensures
        open == (status matches Some(code) && 200 <= code < 300),
{
    match status {
        Some(code) => 200 <= code && code < 300,
        None => false,
    }
}

/// The address for the health check is that of the server which the stream's address was made
/// from.
pub proof fn law_stream_address_names_its_server(base: Seq<char>)
    ensures
        stream_server(server_root(base) + "/models/sse"@) == server_root(base),
{
    let root = server_root(base);
    let url = root + "/models/sse"@;
    assert(url.subrange(url.len() - "/models/sse"@.len(), url.len() as int) =~= "/models/sse"@);
    assert(url.take(url.len() - "/models/sse"@.len()) =~= root);
}

/// The root of an address is the address less the version that ends it, and an address that no
/// version ends is its own root. The server of a stream is its address less the path of the
/// stream, and an address without that path is its own server.
pub proof fn law_addresses_lose_only_their_ending(address: Seq<char>)
    ensures
        "/v1"@.is_suffix_of(address) ==> server_root(address) + "/v1"@ == address,
        !"/v1"@.is_suffix_of(address) ==> server_root(address) == address,
        "/models/sse"@.is_suffix_of(address) ==> stream_server(address) + "/models/sse"@ == address,
        !"/models/sse"@.is_suffix_of(address) ==> stream_server(address) == address,
{
    if "/v1"@.is_suffix_of(address) {
        assert(address.subrange(address.len() - "/v1"@.len(), address.len() as int) == "/v1"@);
        assert(server_root(address) + "/v1"@ =~= address);
    }
    if "/models/sse"@.is_suffix_of(address) {
        assert(address.subrange(address.len() - "/models/sse"@.len(), address.len() as int)
            == "/models/sse"@);
        assert(stream_server(address) + "/models/sse"@ =~= address);
    }
}

/// What a health check says of the model: a status of success that it is ready, another status
/// that it is loading, no answer nothing.
pub fn health_loading(status: Option<u16>) -> (loading: Option<LoadingStatus>)
    ensures
        loading == match status {
            Some(code) => if 200 <= code < 300 {
                Some(LoadingStatus::Ready)
            } else {
                Some(LoadingStatus::Loading)
            },
            None => None,
        },
{
    match status {
        Some(code) => if 200 <= code && code < 300 {
            Some(LoadingStatus::Ready)
        } else {
            Some(LoadingStatus::Loading)
        },
        None => None,
    }
}

/// An event of the stream.
#[derive(Debug)]
pub struct SseEnvelope {
    pub model: String,
    pub event_type: String,
    pub data: Option<Json>,
}

/// A change of the loading state.
#[derive(Debug)]
pub enum LoadingUpdate {
    /// The health check has told the status.
    Health { status: LoadingStatus },
    /// A model begins to load.
    Started { model: String },
    /// The loading has come this far.
    Progress { progress_bits: u32, stage: String, stages: Vec<String> },
    /// The model is loaded.
    Loaded,
    /// The model is gone.
    Unloaded,
}

/// What a change of the loading state holds.
pub enum UpdateView {
    Health { status: LoadingStatus },
    Started { model: Seq<char> },
    Progress { progress_bits: u32, stage: Seq<char>, stages: Seq<Seq<char>> },
    Loaded,
    Unloaded,
}

impl View for LoadingUpdate {
    type V = UpdateView;

    open spec fn view(&self) -> UpdateView {
        match *self {
            LoadingUpdate::Health { status } => UpdateView::Health { status },
            LoadingUpdate::Started { model } => UpdateView::Started { model: model@ },
            LoadingUpdate::Progress { progress_bits, stage, stages } => UpdateView::Progress {
                progress_bits,
                stage: stage@,
                stages: text::texts(stages@),
            },
            LoadingUpdate::Loaded => UpdateView::Loaded,
            LoadingUpdate::Unloaded => UpdateView::Unloaded,
        }
    }
}

/// The loading state after a change.
pub open spec fn updated(s: LoadingView, u: UpdateView) -> LoadingView {
    match u {
        UpdateView::Health { status } => LoadingView { status, ..s },
        UpdateView::Started { model } => LoadingView {
            model,
            stage: Seq::empty(),
            stages: Seq::empty(),
            progress_bits: NOTHING_BITS,
            status: LoadingStatus::Loading,
        },
        UpdateView::Progress { progress_bits, stage, stages } => LoadingView {
            stage,
            stages,
            progress_bits,
            status: LoadingStatus::Loading,
            ..s
        },
        UpdateView::Loaded => LoadingView {
            progress_bits: WHOLE_BITS,
            status: LoadingStatus::Ready,
            ..s
        },
        UpdateView::Unloaded => LoadingView { status: LoadingStatus::Failed, ..s },
    }
}

impl LoadingUpdate {
    /// The loading state after this change of `state`.
    pub fn apply(&self, state: &ModelLoadingState) -> (after: ModelLoadingState)
        ensures
            after@ == updated(state@, self@),
    {
        let mut after: ModelLoadingState = state.clone();
        match self {
            LoadingUpdate::Health { status } => {
                after.status = *status;
            },
            LoadingUpdate::Started { model } => {
                after.model = model.clone();
                after.status = LoadingStatus::Loading;
                after.progress_bits = NOTHING_BITS;
                after.stage = String::new();
                after.stages = Vec::new();
                assert(after@.stages =~= Seq::empty());
            },
            LoadingUpdate::Progress { progress_bits, stage, stages } => {
                after.status = LoadingStatus::Loading;
                after.progress_bits = *progress_bits;
                after.stage = stage.clone();
                after.stages = copy_texts(stages);
            },
            LoadingUpdate::Loaded => {
                after.status = LoadingStatus::Ready;
                after.progress_bits = WHOLE_BITS;
            },
            LoadingUpdate::Unloaded => {
                after.status = LoadingStatus::Failed;
            },
        }
        after
    }
}

/// The share that the member `value` of a progress report gives, or nothing where it is no
/// number.
pub open spec fn reported_share(progress: Json) -> u32 {
    match json::member(progress, "value"@) {
        Some(Json::Number { single_bits, .. }) => single_bits,
        _ => NOTHING_BITS,
    }
}

/// The strings that the member `stages` of a progress report lists.
pub open spec fn reported_stages(progress: Json) -> Seq<Seq<char>> {
    match json::member(progress, "stages"@) {
        Some(Json::Array(items)) => json::strings_among(items@),
        _ => Seq::empty(),
    }
}

/// The change that a progress report makes.
pub open spec fn progress_update(progress: Json) -> UpdateView {
    UpdateView::Progress {
        progress_bits: reported_share(progress),
        stage: match json::string_member(progress, "current"@) {
            Some(stage) => stage,
            None => Seq::empty(),
        },
        stages: reported_stages(progress),
    }
}

/// The change that an event makes, where it makes one.
pub open spec fn event_change(envelope: SseEnvelope) -> Option<UpdateView> {
    match envelope.data {
        None => None,
        Some(data) => {
            let status = json::string_member(data, "status"@);
            if envelope.event_type@ == "model_status"@ {
                if status == Some("loading"@) {
                    Some(UpdateView::Started { model: envelope.model@ })
                } else {
                    None
                }
            } else if envelope.event_type@ == "status_change"@ {
                if status == Some("loading"@) {
                    match json::member(data, "progress"@) {
                        Some(progress) => Some(progress_update(progress)),
                        None => None,
                    }
                } else if status == Some("loaded"@) {
                    Some(UpdateView::Loaded)
                } else if status == Some("unloaded"@) {
                    Some(UpdateView::Unloaded)
                } else {
                    None
                }
            } else {
                None
            }
        },
    }
}

proof fn lemma_event_names_differ()
    ensures
        "model_status"@ != "status_change"@,
        "loading"@ != "loaded"@,
        "loading"@ != "unloaded"@,
        "loaded"@ != "unloaded"@,
{
    reveal_strlit("model_status");
    reveal_strlit("status_change");
    reveal_strlit("loading");
    reveal_strlit("loaded");
    reveal_strlit("unloaded");
    assert("model_status"@[0] != "status_change"@[0]);
    assert("loading"@.len() != "loaded"@.len());
    assert("loading"@.len() != "unloaded"@.len());
    assert("loaded"@.len() != "unloaded"@.len());
}

fn read_progress(progress: &Json) -> (u: LoadingUpdate)
    ensures
        u@ == progress_update(*progress),
{
    let progress_bits: u32 = match progress.get("value") {
        Some(Json::Number { single_bits, .. }) => *single_bits,
        _ => NOTHING_BITS,
    };
    let stage: String = match progress.str_member("current") {
        Some(stage) => stage.to_owned(),
        None => String::new(),
    };
    let stages: Vec<String> = match progress.get("stages") {
        Some(Json::Array(items)) => collect_strings(items),
        _ => {
            let none: Vec<String> = Vec::new();
            assert(text::texts(none@) =~= Seq::empty());
            none
        },
    };
    LoadingUpdate::Progress { progress_bits, stage, stages }
}

/// The change that an event makes, where it makes one.
pub fn event_update(envelope: &SseEnvelope) -> (update: Option<LoadingUpdate>)
    ensures
        match update {
            Some(u) => event_change(*envelope) == Some(u@),
            None => event_change(*envelope) is None,
        },
{
    proof {
        lemma_event_names_differ();
    }
    let data: &Json = match &envelope.data {
        Some(data) => data,
        None => {
            return None;
        },
    };
    let status: &str = match data.str_member("status") {
        Some(status) => status,
        None => {
            return None;
        },
    };
    if same_text(envelope.event_type.as_str(), "model_status") {
        if same_text(status, "loading") {
            Some(LoadingUpdate::Started { model: envelope.model.clone() })
        } else {
            None
        }
    } else if same_text(envelope.event_type.as_str(), "status_change") {
        if same_text(status, "loading") {
            match data.get("progress") {
                Some(progress) => Some(read_progress(progress)),
                None => None,
            }
        } else if same_text(status, "loaded") {
            Some(LoadingUpdate::Loaded)
        } else if same_text(status, "unloaded") {
            Some(LoadingUpdate::Unloaded)
        } else {
            None
        }
    } else {
        None
    }
}

/// The loading state after an event.
pub open spec fn after_event(s: LoadingView, envelope: SseEnvelope) -> LoadingView {
    match event_change(envelope) {
        Some(u) => updated(s, u),
        None => s,
    }
}

/// The loading state after some events, one behind the other.
pub open spec fn after_events(s: LoadingView, events: Seq<SseEnvelope>) -> LoadingView
    decreases events.len(),
{
    if events.len() == 0 {
        s
    } else {
        after_event(after_events(s, events.drop_last()), events.last())
    }
}

/// After a progress report the state holds what the report says, whatever it held before: the
/// value as the progress, or nothing where the report gives no number, the current stage, or no
/// text where it gives none, and its stages. The model is loading, and stays the one it was. So of
/// a series of events that ends with a report the report alone counts, but for the model.
pub proof fn law_report_sets_progress(
    s: LoadingView,
    earlier: Seq<SseEnvelope>,
    envelope: SseEnvelope,
    data: Json,
    report: Json,
)
    requires
        envelope.event_type@ == "status_change"@,
        envelope.data == Some(data),
        json::member(data, "status"@) matches Some(Json::Str(status)) && status@ == "loading"@,
        json::member(data, "progress"@) == Some(report),
    ensures
        json::member(report, "value"@) matches Some(Json::Number { single_bits, .. })
            ==> after_event(s, envelope).progress_bits == single_bits,
        !(json::member(report, "value"@) matches Some(Json::Number { .. })) ==> after_event(
            s,
            envelope,
        ).progress_bits == 0,
        json::member(report, "current"@) matches Some(Json::Str(stage)) ==> after_event(
            s,
            envelope,
        ).stage == stage@,
        !(json::member(report, "current"@) matches Some(Json::Str(_))) ==> after_event(
            s,
            envelope,
        ).stage.len() == 0,
        json::member(report, "stages"@) matches Some(Json::Array(items)) ==> after_event(
            s,
            envelope,
        ).stages == json::strings_among(items@),
        !(json::member(report, "stages"@) matches Some(Json::Array(_))) ==> after_event(
            s,
            envelope,
        ).stages.len() == 0,
        after_event(s, envelope).status == LoadingStatus::Loading,
        after_event(s, envelope).model == s.model,
        ({
            let last = after_events(s, earlier.push(envelope));
            &&& last.progress_bits == after_event(s, envelope).progress_bits
            &&& last.stage == after_event(s, envelope).stage
            &&& last.stages == after_event(s, envelope).stages
            &&& last.status == LoadingStatus::Loading
            &&& last.model == after_events(s, earlier).model
        }),
{
    lemma_event_names_differ();
    assert(earlier.push(envelope).drop_last() =~= earlier);
}

/// A model that begins to load takes the place of whatever was known: the state names it, with no
/// stage and no progress. A model that is loaded is ready and all of its progress done, one that is
/// unloaded has failed; stages and model stay, and of the one that is gone the progress too.
pub proof fn law_loading_begins_and_ends(s: LoadingView, envelope: SseEnvelope, data: Json)
    requires
        envelope.data == Some(data),
    ensures
        envelope.event_type@ == "model_status"@ && json::string_member(data, "status"@) == Some(
            "loading"@,
        ) ==> {
            let after = after_event(s, envelope);
            &&& after.model == envelope.model@
            &&& after.stage.len() == 0
            &&& after.stages.len() == 0
            &&& after.progress_bits == 0
            &&& after.status == LoadingStatus::Loading
        },
        envelope.event_type@ == "status_change"@ && json::string_member(data, "status"@) == Some(
            "loaded"@,
        ) ==> {
            let after = after_event(s, envelope);
            &&& after.progress_bits == 0x3f80_0000
            &&& after.status == LoadingStatus::Ready
            &&& after.model == s.model
            &&& after.stage == s.stage
            &&& after.stages == s.stages
        },
        envelope.event_type@ == "status_change"@ && json::string_member(data, "status"@) == Some(
            "unloaded"@,
        ) ==> {
            let after = after_event(s, envelope);
            &&& after.status == LoadingStatus::Failed
            &&& after.progress_bits == s.progress_bits
            &&& after.model == s.model
            &&& after.stage == s.stage
            &&& after.stages == s.stages
        },
{
    lemma_event_names_differ();
}

/// Any other event changes nothing: one without data or without a status, one of another type, one
/// with another status, and a report of loading that tells no progress.
pub proof fn law_other_events_change_nothing(s: LoadingView, envelope: SseEnvelope)
    ensures
        envelope.data is None ==> after_event(s, envelope) == s,
        envelope.event_type@ != "model_status"@ && envelope.event_type@ != "status_change"@
            ==> after_event(s, envelope) == s,
        envelope.data matches Some(data) ==> {
            let status = json::string_member(data, "status"@);
            &&& status is None ==> after_event(s, envelope) == s
            &&& envelope.event_type@ == "model_status"@ && status != Some("loading"@)
                ==> after_event(s, envelope) == s
            &&& envelope.event_type@ == "status_change"@ && status == Some("loading"@)
                && json::member(data, "progress"@) is None ==> after_event(s, envelope) == s
            &&& envelope.event_type@ == "status_change"@ && status != Some("loading"@) && status
                != Some("loaded"@) && status != Some("unloaded"@) ==> after_event(s, envelope) == s
        },
{
    lemma_event_names_differ();
}

/// A health check tells the status and nothing else.
pub proof fn law_health_tells_only_the_status(s: LoadingView, status: LoadingStatus)
    ensures
        updated(s, UpdateView::Health { status }).status == status,
        updated(s, UpdateView::Health { status }).model == s.model,
        updated(s, UpdateView::Health { status }).stage == s.stage,
        updated(s, UpdateView::Health { status }).stages == s.stages,
        updated(s, UpdateView::Health { status }).progress_bits == s.progress_bits,
{
}

/// Makes the change that an event asks for.
pub fn process_event(envelope: &SseEnvelope, state: &mut ModelLoadingState)
    ensures
        final(state)@ == match event_change(*envelope) {
            Some(u) => updated(old(state)@, u),
            None => old(state)@,
        },
        final(state)@ == after_event(old(state)@, *envelope),
{
    if let Some(u) = event_update(envelope) {
        let after: ModelLoadingState = u.apply(&*state);
        *state = after;
    }
}

/// Makes the state idle again. The model and its stages stay.
pub fn reset_state(state: &mut ModelLoadingState)
    ensures
        final(state)@ == (LoadingView { status: LoadingStatus::Idle, ..old(state)@ }),
{
    state.status = LoadingStatus::Idle;
}

/// The fields of an event that the lines of the stream have brought so far.
#[derive(Debug)]
pub struct SseLines {
    event_type: String,
    data: Vec<String>,
}

/// What the lines of the stream have brought so far.
pub struct LinesView {
    pub event_type: Seq<char>,
    pub data: Seq<Seq<char>>,
}

impl View for SseLines {
    type V = LinesView;

    closed spec fn view(&self) -> LinesView {
        LinesView { event_type: self.event_type@, data: text::texts(self.data@) }
    }
}

/// Nothing brought yet.
pub open spec fn no_lines() -> LinesView {
    LinesView { event_type: Seq::empty(), data: Seq::empty() }
}

/// The value of the field `name` that a line brings: what follows the name and a colon, less one
/// space.
pub open spec fn field_value(line: Seq<char>, name: Seq<char>) -> Option<Seq<char>> {
    if (name + ": "@).is_prefix_of(line) {
        Some(line.skip((name + ": "@).len() as int))
    } else if (name + ":"@).is_prefix_of(line) {
        Some(line.skip((name + ":"@).len() as int))
    } else {
        None
    }
}

/// The payload that a line completes: a blank line ends an event, and an event with data has
/// them as its payload.
pub open spec fn completed_payload(s: LinesView, line: Seq<char>) -> Option<Seq<char>> {
    if text::trimmed(line).len() == 0 && s.data.len() > 0 {
        Some(text::joined(s.data, "\n"@))
    } else {
        None
    }
}

/// What the lines have brought after one more. A blank line that completes a payload leaves all
/// in place until the payload is accepted; another blank line clears it.
pub open spec fn after_line(s: LinesView, line: Seq<char>) -> LinesView {
    let t = text::trimmed(line);
    if t.len() == 0 {
        if s.data.len() > 0 {
            s
        } else {
            no_lines()
        }
    } else {
        match field_value(t, "data"@) {
            Some(value) => LinesView { data: s.data.push(value), ..s },
            None => match field_value(t, "event"@) {
                Some(value) => LinesView { event_type: value, ..s },
                None => s,
            },
        }
    }
}

fn read_field<'a>(line: &'a str, name: &str) -> (value: Option<&'a str>)
    ensures
        match value {
            Some(v) => field_value(line@, name@) == Some(v@),
            None => field_value(line@, name@) is None,
        },
{
    let spaced: String = cat(name, ": ");
    if let Some(value) = strip_prefix(line, spaced.as_str()) {
        return Some(value);
    }
    let bare: String = cat(name, ":");
    strip_prefix(line, bare.as_str())
}

impl SseLines {
    /// Nothing brought yet.
    pub fn new() -> (s: Self)
        ensures
            s@ == no_lines(),
    {
        let s = SseLines { event_type: String::new(), data: Vec::new() };
        assert(s@.data =~= Seq::empty());
        s
    }

    fn clear(&mut self)
        ensures
            final(self)@ == no_lines(),
    {
        self.event_type = String::new();
        self.data = Vec::new();
        assert(self@.data =~= Seq::empty());
    }

    /// Takes in one line of the stream. Returns the payload that it completes, which stays in
    /// place until it is accepted.
    pub fn feed(&mut self, line: &str) -> (payload: Option<String>)
        ensures
            final(self)@ == after_line(old(self)@, line@),
            match payload {
                Some(p) => completed_payload(old(self)@, line@) == Some(p@),
                None => completed_payload(old(self)@, line@) is None,
            },
    {
        let t: &str = trim(line);
        assert(self@.data.len() == self.data.len());
        if t.is_empty() {
            if self.data.len() > 0 {
                return Some(join(&self.data, "\n"));
            }
            self.clear();
            return None;
        }
        let ghost before = self.data@;
        if let Some(value) = read_field(t, "data") {
            let owned: String = value.to_owned();
            self.data.push(owned);
            assert(text::texts(self.data@) =~= text::texts(before).push(owned@));
        } else if let Some(value) = read_field(t, "event") {
            self.event_type = value.to_owned();
        }
        None
    }

    /// Accepts the event that the payload was read as. The type that the stream gave it, where it
    /// gave one, takes the place of its own. Nothing is left of its lines.
    pub fn accept(&mut self, envelope: SseEnvelope) -> (event: SseEnvelope)
        ensures
            final(self)@ == no_lines(),
            event.model == envelope.model,
            event.data == envelope.data,
            event.event_type@ == (if old(self)@.event_type.len() > 0 {
                old(self)@.event_type
            } else {
                envelope.event_type@
            }),
    {
        let mut event: SseEnvelope = envelope;
        if !self.event_type.as_str().is_empty() {
            event.event_type = self.event_type.clone();
        }
        self.clear();
        event
    }
}

proof fn lemma_trimmed_solid(s: Seq<char>)
    requires
        s.len() > 0,
        !text::is_white(s[0]),
        !text::is_white(s.last()),
    ensures
        text::trimmed(s) == s,
{
}

proof fn lemma_bare_field_lines()
    ensures
        text::trimmed("event: "@) == "event:"@,
        text::trimmed("data: "@) == "data:"@,
{
    reveal_strlit("event: ");
    reveal_strlit("event:");
    reveal_strlit("data: ");
    reveal_strlit("data:");
    reveal_with_fuel(text::trimmed_end, 2);
    assert("event: "@.drop_last() =~= "event:"@);
    assert("data: "@.drop_last() =~= "data:"@);
}

proof fn lemma_event_line(s: LinesView, event_type: Seq<char>)
    requires
        event_type.len() > 0 ==> !text::is_white(event_type.last()),
    ensures
        after_line(s, "event: "@ + event_type) == (LinesView { event_type, ..s }),
{
    reveal_strlit("event: ");
    reveal_strlit("event:");
    reveal_strlit("data: ");
    reveal_strlit("data:");
    reveal_strlit("event");
    reveal_strlit("data");
    reveal_strlit(": ");
    reveal_strlit(":");
    lemma_bare_field_lines();
    let line = "event: "@ + event_type;
    let read = text::trimmed(line);
    if event_type.len() > 0 {
        lemma_trimmed_solid(line);
        assert(line.subrange(0, 7) =~= "event: "@);
        assert(line.skip(7) =~= event_type);
    } else {
        assert(line =~= "event: "@);
        assert("event:"@.subrange(0, 6) =~= "event:"@);
        assert("event:"@.skip(6) =~= event_type);
    }
    assert("event"@ + ": "@ =~= "event: "@);
    assert("event"@ + ":"@ =~= "event:"@);
    assert("data"@ + ": "@ =~= "data: "@);
    assert("data"@ + ":"@ =~= "data:"@);
    assert(read[0] == 'e');
    assert(!"data: "@.is_prefix_of(read)) by {
        if "data: "@.is_prefix_of(read) {
            assert(read.subrange(0, 6)[0] == 'd');
        }
    }
    assert(!"data:"@.is_prefix_of(read)) by {
        if "data:"@.is_prefix_of(read) {
            assert(read.subrange(0, 5)[0] == 'd');
        }
    }
}

proof fn lemma_data_line(s: LinesView, data: Seq<char>)
    requires
        data.len() > 0 ==> !text::is_white(data.last()),
    ensures
        after_line(s, "data: "@ + data) == (LinesView { data: s.data.push(data), ..s }),
{
    reveal_strlit("data: ");
    reveal_strlit("data:");
    reveal_strlit("data");
    reveal_strlit(": ");
    reveal_strlit(":");
    lemma_bare_field_lines();
    let line = "data: "@ + data;
    if data.len() > 0 {
        lemma_trimmed_solid(line);
        assert(line.subrange(0, 6) =~= "data: "@);
        assert(line.skip(6) =~= data);
    } else {
        assert(line =~= "data: "@);
        assert("data:"@.subrange(0, 5) =~= "data:"@);
        assert("data:"@.skip(5) =~= data);
    }
    assert("data"@ + ": "@ =~= "data: "@);
    assert("data"@ + ":"@ =~= "data:"@);
}

/// What the lines of the stream have brought after some more lines.
pub open spec fn after_lines(s: LinesView, lines: Seq<Seq<char>>) -> LinesView
    decreases lines.len(),
{
    if lines.len() == 0 {
        s
    } else {
        after_line(after_lines(s, lines.drop_last()), lines.last())
    }
}

/// The lines of an event: its type, where it is given one, and a line for each line of its data.
pub open spec fn written_event(event_type: Option<Seq<char>>, data: Seq<Seq<char>>) -> Seq<
    Seq<char>,
> {
    (match event_type {
        Some(t) => seq!["event: "@ + t],
        None => Seq::empty(),
    }) + data.map_values(|d: Seq<char>| "data: "@ + d)
}

/// An event that is written to the stream as its type, where it is given one, the lines of its data
/// and a blank line is read back as that type, which stays empty without a line for it, and those
/// data, as long as no line ends with white space.
pub proof fn law_written_event_is_read_back(event_type: Option<Seq<char>>, data: Seq<Seq<char>>)
    requires
        event_type matches Some(t) ==> t.len() > 0 ==> !text::is_white(t.last()),
        forall|i: int|
            0 <= i < data.len() && (#[trigger] data[i]).len() > 0 ==> !text::is_white(
                data[i].last(),
            ),
    ensures
        ({
            let s = after_lines(no_lines(), written_event(event_type, data));
            &&& s.event_type == (match event_type {
                Some(t) => t,
                None => Seq::empty(),
            })
            &&& s.data == data
            &&& data.len() > 0 ==> completed_payload(s, Seq::empty()) == Some(
                text::joined(data, "\n"@),
            )
        }),
    decreases data.len(),
{
    let lines = written_event(event_type, data);
    if data.len() == 0 {
        match event_type {
            Some(t) => {
                assert(lines =~= seq!["event: "@ + t]);
                assert(lines.drop_last() =~= Seq::empty());
                reveal_with_fuel(after_lines, 2);
                lemma_event_line(no_lines(), t);
            },
            None => {
                assert(lines =~= Seq::empty());
            },
        }
    } else {
        let front = data.drop_last();
        assert forall|i: int| 0 <= i < front.len() && (#[trigger] front[i]).len() > 0 implies
            !text::is_white(front[i].last()) by {
            assert(front[i] == data[i]);
        }
        law_written_event_is_read_back(event_type, front);
        assert(lines.drop_last() =~= written_event(event_type, front));
        assert(lines.last() == "data: "@ + data.last());
        lemma_data_line(after_lines(no_lines(), lines.drop_last()), data.last());
        assert(front.push(data.last()) =~= data);
    }
}

/// A field brings what follows its name and a colon, less one space where one follows: a value is
/// read back from both ways of writing it. A line that does not begin with the name and a colon
/// brings nothing.
pub proof fn law_field_value_is_read_back(name: Seq<char>, value: Seq<char>, line: Seq<char>)
    ensures
        field_value(name + ": "@ + value, name) == Some(value),
        value.len() == 0 || value[0] != ' ' ==> field_value(name + ":"@ + value, name) == Some(
            value,
        ),
        !(name + ":"@).is_prefix_of(line) ==> field_value(line, name) is None,
{
    reveal_strlit(": ");
    reveal_strlit(":");
    let n = name.len() as int;
    let spaced = name + ": "@ + value;
    assert(spaced.subrange(0, n + 2) =~= name + ": "@);
    assert(spaced.skip(n + 2) =~= value);
    let bare = name + ":"@ + value;
    assert(bare.subrange(0, n + 1) =~= name + ":"@);
    assert(bare.skip(n + 1) =~= value);
    if (name + ": "@).is_prefix_of(bare) {
        assert(bare.subrange(0, n + 2)[n + 1] == ' ');
        assert(bare[n + 1] == value[0]);
    }
    if (name + ": "@).is_prefix_of(line) {
        assert(line.subrange(0, n + 1) =~= (name + ": "@).take(n + 1));
        assert((name + ": "@).take(n + 1) =~= name + ":"@);
    }
}

proof fn lemma_blank(line: Seq<char>)
    ensures
        text::trimmed(line).len() == 0 <==> (forall|k: int|
            0 <= k < line.len() ==> text::is_white(#[trigger] line[k])),
{
    text::law_trim_takes_only_white_space(line);
    let t = text::trimmed(line);
    let (from, to) = choose|from: int, to: int|
        {
            &&& 0 <= from <= to <= line.len()
            &&& t == #[trigger] line.subrange(from, to)
            &&& forall|k: int|
                0 <= k < from || to <= k < line.len() ==> text::is_white(#[trigger] line[k])
        };
    if t.len() > 0 {
        assert(t[0] == line[from]);
    }
}

/// A payload is complete with a blank line and with no other, and only where data have come: it is
/// then all of them, one line each. The lines stay until the payload is accepted; without data a
/// blank line leaves nothing of them.
pub proof fn law_blank_line_completes_an_event(s: LinesView, line: Seq<char>)
    ensures
        (exists|k: int| 0 <= k < line.len() && !text::is_white(#[trigger] line[k]))
            ==> completed_payload(s, line) is None,
        (forall|k: int| 0 <= k < line.len() ==> text::is_white(#[trigger] line[k])) ==> {
            &&& s.data.len() > 0 ==> completed_payload(s, line) == Some(text::joined(s.data, "\n"@))
            &&& s.data.len() > 0 ==> after_line(s, line) == s
            &&& s.data.len() == 0 ==> completed_payload(s, line) is None
            &&& s.data.len() == 0 ==> after_line(s, line).event_type.len() == 0 && after_line(
                s,
                line,
            ).data.len() == 0
        },
{
    lemma_blank(line);
}

/// No line takes data away but a blank one, and a line with text on it adds one line of data or
/// gives the event its type, never both. A line of another field, or of none, is passed over.
pub proof fn law_lines_add_one_field_each(s: LinesView, line: Seq<char>)
    requires
        exists|k: int| 0 <= k < line.len() && !text::is_white(#[trigger] line[k]),
    ensures
        after_line(s, line).data == s.data || after_line(s, line).data.drop_last() == s.data
            && after_line(s, line).data.len() == s.data.len() + 1 && after_line(s, line).event_type
            == s.event_type,
        "data:"@.is_prefix_of(text::trimmed(line)) ==> after_line(s, line).data == s.data.push(
            field_value(text::trimmed(line), "data"@)->0,
        ),
        "event:"@.is_prefix_of(text::trimmed(line)) ==> after_line(s, line).event_type
            == field_value(text::trimmed(line), "event"@)->0,
        !"data:"@.is_prefix_of(text::trimmed(line)) ==> after_line(s, line).data == s.data,
        !"data:"@.is_prefix_of(text::trimmed(line)) && !"event:"@.is_prefix_of(
            text::trimmed(line),
        ) ==> after_line(s, line) == s,
{
    lemma_blank(line);
    reveal_strlit("data");
    reveal_strlit("data:");
    reveal_strlit("event");
    reveal_strlit("event:");
    reveal_strlit(":");
    assert("data"@ + ":"@ =~= "data:"@);
    assert("event"@ + ":"@ =~= "event:"@);
    let t = text::trimmed(line);
    law_field_value_is_read_back("data"@, Seq::empty(), t);
    law_field_value_is_read_back("event"@, Seq::empty(), t);
    if let Some(value) = field_value(t, "data"@) {
        assert(s.data.push(value).drop_last() =~= s.data);
    }
    if "event:"@.is_prefix_of(t) {
        assert(t.subrange(0, 6)[0] == 'e');
        if "data:"@.is_prefix_of(t) {
            assert(t.subrange(0, 5)[0] == 'd');
        }
    }
}

/// A progress report that is applied sets progress, stage and stages to what it says, whatever the
/// state was, and keeps the model. So applied to two states of the same model it makes them the
/// same.
pub proof fn law_applied_report_counts_alone(
    update: &LoadingUpdate,
    one: &ModelLoadingState,
    other: &ModelLoadingState,
    after_one: ModelLoadingState,
    after_other: ModelLoadingState,
)
    requires
        call_ensures(LoadingUpdate::apply, (update, one), after_one),
        call_ensures(LoadingUpdate::apply, (update, other), after_other),
        one.model@ == other.model@,
    ensures
        update matches LoadingUpdate::Progress { progress_bits, stage, stages } ==> {
            &&& after_one.progress_bits == *progress_bits
            &&& after_one.stage@ == stage@
            &&& text::texts(after_one.stages@) == text::texts(stages@)
            &&& after_one.status == LoadingStatus::Loading
            &&& after_one.model@ == one.model@
            &&& after_one@ == after_other@
        },
        update matches LoadingUpdate::Started { model } ==> {
            &&& after_one.model@ == model@
            &&& after_one.progress_bits == 0
            &&& after_one.stage@.len() == 0
            &&& after_one.stages@.len() == 0
            &&& after_one.status == LoadingStatus::Loading
            &&& after_one@ == after_other@
        },
        update is Loaded ==> after_one.progress_bits == 0x3f80_0000 && after_one.status
            == LoadingStatus::Ready && after_one.stage@ == one.stage@ && after_one@.stages
            == one@.stages && after_one.model@ == one.model@,
        update is Unloaded ==> after_one.status == LoadingStatus::Failed && after_one.progress_bits
            == one.progress_bits && after_one.stage@ == one.stage@ && after_one@.stages
            == one@.stages && after_one.model@ == one.model@,
        update matches LoadingUpdate::Health { status } ==> after_one.status == *status
            && after_one.progress_bits == one.progress_bits && after_one.stage@ == one.stage@
            && after_one@.stages == one@.stages && after_one.model@ == one.model@,
{
    if let LoadingUpdate::Started { model } = update {
        assert(after_one@.stages.len() == after_one.stages@.len());
    }
}

/// An event of the stream that reports progress leaves the state with that progress: the value,
/// the current stage and the stages that it gives, whatever the state was.
pub proof fn law_processed_report_sets_progress(
    envelope: &SseEnvelope,
    state: &mut ModelLoadingState,
    data: Json,
    report: Json,
    value: u32,
)
    requires
        call_ensures(process_event, (envelope, state), ()),
        envelope.event_type@ == "status_change"@,
        envelope.data == Some(data),
        json::member(data, "status"@) matches Some(Json::Str(status)) && status@ == "loading"@,
        json::member(data, "progress"@) == Some(report),
        json::member(report, "value"@) matches Some(Json::Number { single_bits, .. }) && single_bits
            == value,
    ensures
        final(state).progress_bits == value,
        final(state).status == LoadingStatus::Loading,
        final(state).model@ == old(state).model@,
        json::member(report, "current"@) matches Some(Json::Str(stage)) ==> final(state).stage@
            == stage@,
        json::member(report, "stages"@) matches Some(Json::Array(items)) ==> text::texts(
            final(state).stages@,
        ) == json::strings_among(items@),
{
    law_report_sets_progress(old(state)@, Seq::empty(), *envelope, data, report);
}

/// Making the state idle keeps the rest of it.
pub proof fn law_idle_state_keeps_the_rest(state: &mut ModelLoadingState)
    requires
        call_ensures(reset_state, (state,), ()),
    ensures
        final(state).status == LoadingStatus::Idle,
        final(state).model@ == old(state).model@,
        final(state).stage@ == old(state).stage@,
        final(state).progress_bits == old(state).progress_bits,
        final(state)@.stages == old(state)@.stages,
{
}

/// An accepted event keeps its model and its data. It has the type that the stream gave it, where
/// the stream gave one, and else its own. Nothing of its lines stays for the next event.
pub proof fn law_accepted_event_leaves_no_lines(
    lines: &mut SseLines,
    envelope: SseEnvelope,
    event: SseEnvelope,
)
    requires
        call_ensures(SseLines::accept, (lines, envelope), event),
    ensures
        event.model@ == envelope.model@,
        event.data == envelope.data,
        old(lines)@.event_type.len() > 0 ==> event.event_type@ == old(lines)@.event_type,
        old(lines)@.event_type.len() == 0 ==> event.event_type@ == envelope.event_type@,
        final(lines)@.data.len() == 0,
        final(lines)@.event_type.len() == 0,
{
}

/// A line with text on it completes no payload, and a blank line completes the data that have come
/// and keeps them.
pub proof fn law_fed_line_completes_the_data(
    lines: &mut SseLines,
    line: &str,
    payload: Option<String>,
)
    requires
        call_ensures(SseLines::feed, (lines, line), payload),
    ensures
        payload matches Some(p) ==> {
            &&& forall|k: int| 0 <= k < line@.len() ==> text::is_white(#[trigger] line@[k])
            &&& old(lines)@.data.len() > 0
            &&& p@ == text::joined(old(lines)@.data, "\n"@)
            &&& final(lines)@ == old(lines)@
        },
        line@.len() == 0 && old(lines)@.data.len() > 0 ==> payload is Some,
        line@.len() == 0 && old(lines)@.data.len() == 0 ==> payload is None
            && final(lines)@.event_type.len() == 0,
{
    law_blank_line_completes_an_event(old(lines)@, line@);
    lemma_blank(line@);
}

/// A stream is open, and a model ready, exactly on a status of success. A health check without an
/// answer says nothing, and one with another status that the model is loading.
pub proof fn law_success_opens_and_is_ready(
    status: Option<u16>,
    open: bool,
    loading: Option<LoadingStatus>,
)
    requires
        call_ensures(is_open, (status,), open),
        call_ensures(health_loading, (status,), loading),
    ensures
        open <==> loading == Some(LoadingStatus::Ready),
        status is None <==> loading is None,
        status matches Some(code) ==> (open <==> 200 <= code <= 299),
        status is Some && !open ==> loading == Some(LoadingStatus::Loading),
{
}

/// The stream of a server is found at its address, without the version that may end it, and the
/// health check of that server below the same address.
pub proof fn law_health_check_is_beside_the_stream(
    base_url: Option<&str>,
    compat_base_url: &str,
    url: Option<String>,
    stream: &str,
    health: String,
)
    requires
        call_ensures(sse_url, (base_url, compat_base_url), url),
        url is Some ==> stream@ == url->0@,
        call_ensures(health_url, (stream,), health),
    ensures
        url is Some,
        ({
            let base = match base_url {
                Some(base) => base@,
                None => compat_base_url@,
            };
            &&& "/v1"@.is_suffix_of(base) ==> exists|root: Seq<char>|
                #[trigger] (root + "/v1"@) == base && stream@ == root + "/models/sse"@ && health@
                    == root + "/health"@
            &&& !"/v1"@.is_suffix_of(base) ==> stream@ == base + "/models/sse"@ && health@ == base
                + "/health"@
        }),
{
    let base = match base_url {
        Some(base) => base@,
        None => compat_base_url@,
    };
    law_addresses_lose_only_their_ending(base);
    law_stream_address_names_its_server(base);
    if "/v1"@.is_suffix_of(base) {
        assert(server_root(base) + "/v1"@ == base);
    }
}

} // verus!
