//! A llama.cpp server: its models, and what its answers mean.

use vstd::prelude::*;
use vstd::string::*;
use vstd::utf8::*;
use crate::json;
use crate::json::member_object_bytes;
use crate::message;
use crate::message::AgentError;
use crate::order;
use crate::order::text_less;
use crate::text;
use crate::text::{among, cat, cat3, contains, same_text, strip_suffix};

verus! {

/// How a server serves models.
#[derive(Debug, Clone, Copy, PartialEq, Eq, Structural)]
pub enum ServerMode {
    Router,
    Single,
    Legacy,
}

/// Whether a model can be used.
#[derive(Debug, Clone, Copy, PartialEq, Eq, Structural)]
pub enum ModelStatus {
    Loaded,
    Loading,
    Failed,
    Sleeping,
    Unloaded,
    Unauthorized,
}

/// What a model takes as input.
#[derive(Debug, Clone, Copy, PartialEq, Eq, Structural)]
pub enum ModelCapability {
    Text,
    Image,
}

/// The context size of a model that does not tell its own.
pub const DEFAULT_CONTEXT_SIZE: u32 = 128_000;

/// A model that a server offers.
#[derive(Debug)]
pub struct ServerModel {
    pub id: String,
    pub name: String,
    pub status: ModelStatus,
    pub capabilities: Vec<ModelCapability>,
    pub context_size: u32,
}

/// What a model that a server offers holds.
pub struct ServerModelView {
    pub id: Seq<char>,
    pub name: Seq<char>,
    pub status: ModelStatus,
    pub capabilities: Seq<ModelCapability>,
    pub context_size: u32,
}

impl View for ServerModel {
    type V = ServerModelView;

    open spec fn view(&self) -> ServerModelView {
        ServerModelView {
            id: self.id@,
            name: self.name@,
            status: self.status,
            capabilities: self.capabilities@,
            context_size: self.context_size,
        }
    }
}

/// What the models of a list hold.
pub open spec fn model_views(models: Seq<ServerModel>) -> Seq<ServerModelView> {
    models.map_values(|m: ServerModel| m@)
}

/// A server, by its address without a slash at the end.
#[derive(Debug)]
pub struct LlamaCppServer {
    pub url: String,
    pub api_key: Option<String>,
    pub mode: Option<ServerMode>,
    pub models: Vec<ServerModel>,
}

/// An address without the slash that it ends with.
pub open spec fn without_slash(url: Seq<char>) -> Seq<char> {
    if "/"@.is_suffix_of(url) {
        url.take(url.len() - "/"@.len())
    } else {
        url
    }
}

/// A request to a server.
#[derive(Debug)]
pub struct ServerRequest {
    pub method: String,
    pub uri: String,
    pub headers: Vec<(String, String)>,
    pub body: Vec<u8>,
}

/// What a list of headers holds: names and values.
pub open spec fn header_views(headers: Seq<(String, String)>) -> Seq<(Seq<char>, Seq<char>)> {
    headers.map_values(|h: (String, String)| (h.0@, h.1@))
}

/// What a request to a server holds.
pub struct ServerRequestView {
    pub method: Seq<char>,
    pub uri: Seq<char>,
    pub headers: Seq<(Seq<char>, Seq<char>)>,
    pub body: Seq<u8>,
}

impl View for ServerRequest {
    type V = ServerRequestView;

    open spec fn view(&self) -> ServerRequestView {
        ServerRequestView {
            method: self.method@,
            uri: self.uri@,
            headers: header_views(self.headers@),
            body: self.body@,
        }
    }
}

impl LlamaCppServer {
    /// A server of which nothing but its address and key is known.
    pub fn new(url: &str, api_key: Option<String>) -> (server: Self)
        ensures
            server.url@ == without_slash(url@),
            server.api_key == api_key,
            server.mode is None,
            server.models@.len() == 0,
    {
        let url: &str = match strip_suffix(url, "/") {
            Some(rest) => rest,
            None => url,
        };
        LlamaCppServer { url: url.to_owned(), api_key, mode: None, models: Vec::new() }
    }

    /// A request without a body: to the server's address and `path`, with its key where it has
    /// one.
    pub open spec fn plain_request(&self, method: Seq<char>, path: Seq<char>) -> ServerRequestView {
        ServerRequestView {
            method,
            uri: self.url@ + "/"@ + path,
            headers: match self.api_key {
                Some(key) => seq![("Authorization"@, "Bearer "@ + key@)],
                None => Seq::empty(),
            },
            body: Seq::empty(),
        }
    }

    /// A request that tells the server to do something with the model `model_id`.
    pub open spec fn model_command(&self, path: Seq<char>, model_id: Seq<char>)
        -> ServerRequestView {
        let plain = self.plain_request("POST"@, path);
        ServerRequestView {
            headers: plain.headers.push(("Content-Type"@, "application/json"@)),
            body: encode_utf8(json::member_object("model"@, model_id)),
            ..plain
        }
    }

    fn request(&self, method: &str, path: &str) -> (request: ServerRequest)
        ensures
            request@ == self.plain_request(method@, path@),
    {
        let mut headers: Vec<(String, String)> = Vec::new();
        if let Some(key) = &self.api_key {
            headers.push(("Authorization".to_owned(), cat("Bearer ", key.as_str())));
        }
        let request = ServerRequest {
            method: method.to_owned(),
            uri: cat3(self.url.as_str(), "/", path),
            headers,
            body: Vec::new(),
        };
        assert(request@.headers =~= self.plain_request(method@, path@).headers);
        assert(request@.body =~= Seq::<u8>::empty());
        request
    }

    fn command(&self, path: &str, model_id: &str) -> (request: ServerRequest)
        ensures
            request@ == self.model_command(path@, model_id@),
    {
        let mut request: ServerRequest = self.request("POST", path);
        let ghost before = request.headers@;
        let name: String = "Content-Type".to_owned();
        let value: String = "application/json".to_owned();
        request.headers.push((name, value));
        assert(header_views(request.headers@) =~= header_views(before).push((name@, value@)));
        request.body = member_object_bytes("model", model_id);
        request
    }

    /// The request for the server's health.
    pub fn health_request(&self) -> (request: ServerRequest)
        ensures
            request@ == self.plain_request("GET"@, "health"@),
    {
        self.request("GET", "health")
    }

    /// The request for the list of models.
    pub fn models_request(&self) -> (request: ServerRequest)
        ensures
            request@ == self.plain_request("GET"@, "v1/models"@),
    {
        self.request("GET", "v1/models")
    }

    /// The request for the properties of the server, or of a model by its id as a query holds it.
    /// To ask for a model's properties does not load it.
    pub fn props_request(&self, encoded_id: Option<&str>) -> (request: ServerRequest)
        ensures
            request@ == self.plain_request(
                "GET"@,
                match encoded_id {
                    Some(id) => "props?model="@ + id@ + "&autoload=false"@,
                    None => "props"@,
                },
            ),
    {
        match encoded_id {
            Some(id) => {
                let path: String = cat3("props?model=", id, "&autoload=false");
                self.request("GET", path.as_str())
            },
            None => self.request("GET", "props"),
        }
    }

    /// The request to load the model `model_id`.
    pub fn load_model(&self, model_id: &str) -> (request: ServerRequest)
        ensures
            request@ == self.model_command("models/load"@, model_id@),
    {
        self.command("models/load", model_id)
    }

    /// The request to unload the model `model_id`.
    pub fn unload_model(&self, model_id: &str) -> (request: ServerRequest)
        ensures
            request@ == self.model_command("models/unload"@, model_id@),
    {
        self.command("models/unload", model_id)
    }

    /// What the answer to a request to load or unload a model means: success, or the status and
    /// the text as an error.
    pub fn command_outcome(status: u16, text: String) -> (outcome: Result<(), AgentError>)
        ensures
            match outcome {
                Ok(()) => 200 <= status < 300,
                Err(e) => !(200 <= status < 300) && e@ == (message::ErrorView::Api {
                    status,
                    message: text@,
                }),
            },
    {
        if 200 <= status && status < 300 {
            Ok(())
        } else {
            Err(AgentError::Api { status, message: text })
        }
    }

    /// What the status of a health check says: nothing but success and a missing key tell more
    /// than that the model is not loaded, and neither does a check without an answer.
    pub fn health(status: Option<u16>) -> (health: ModelStatus)
        ensures
            health == (match status {
                Some(200) => ModelStatus::Loaded,
                Some(401) => ModelStatus::Unauthorized,
                _ => ModelStatus::Unloaded,
            }),
    {
        match status {
            Some(200) => ModelStatus::Loaded,
            Some(401) => ModelStatus::Unauthorized,
            _ => ModelStatus::Unloaded,
        }
    }
}

/// A request goes to the path below the server's address. It carries the key as a bearer token and
/// no other header, and without a key none at all. A command differs from it in its body, which
/// names the model, and in the header behind the others that tells the form of the body.
pub proof fn law_requests_name_server_key_and_model(
    server: LlamaCppServer,
    method: Seq<char>,
    path: Seq<char>,
    model_id: Seq<char>,
)
    ensures
        server.plain_request(method, path).method == method,
        server.plain_request(method, path).uri == server.url@ + "/"@ + path,
        server.plain_request(method, path).body.len() == 0,
        server.api_key is None ==> server.plain_request(method, path).headers.len() == 0,
        server.api_key matches Some(key) ==> server.plain_request(method, path).headers == seq![
            ("Authorization"@, "Bearer "@ + key@),
        ],
        server.model_command(path, model_id).method == "POST"@,
        server.model_command(path, model_id).uri == server.url@ + "/"@ + path,
        server.model_command(path, model_id).headers.drop_last() == server.plain_request(
            method,
            path,
        ).headers,
        server.model_command(path, model_id).headers.last() == (
            "Content-Type"@,
            "application/json"@,
        ),
        server.model_command(path, model_id).body == encode_utf8(
            json::member_object("model"@, model_id),
        ),
{
    let plain = server.plain_request(method, path).headers;
    assert(plain.push(("Content-Type"@, "application/json"@)).drop_last() =~= plain);
}

/// An address loses the one slash that ends it and nothing else.
pub proof fn law_address_loses_one_slash(url: Seq<char>)
    ensures
        "/"@.is_suffix_of(url) ==> without_slash(url) + "/"@ == url,
        !"/"@.is_suffix_of(url) ==> without_slash(url) == url,
{
    if "/"@.is_suffix_of(url) {
        assert(url.subrange(url.len() - "/"@.len(), url.len() as int) == "/"@);
        assert(without_slash(url) + "/"@ =~= url);
    }
}

/// The answer to a request for the list of models.
#[derive(Debug)]
pub struct ModelsResponse {
    pub data: Vec<ModelData>,
    pub models: Vec<SingleModelData>,
}

/// A model as the list describes it.
#[derive(Debug)]
pub struct ModelData {
    pub model: String,
    pub aliases: Vec<String>,
    pub meta: ModelMeta,
    pub status: String,
    pub architecture: Option<String>,
}

#[derive(Debug)]
pub struct ModelMeta {
    pub n_ctx: Option<u32>,
}

/// A model as the short form of the list names it.
#[derive(Debug)]
pub struct SingleModelData {
    pub model: String,
}

/// The status that a word of the list stands for.
pub open spec fn named_status(word: Seq<char>) -> ModelStatus {
    if word == "loaded"@ {
        ModelStatus::Loaded
    } else if word == "loading"@ {
        ModelStatus::Loading
    } else if word == "failed"@ {
        ModelStatus::Failed
    } else if word == "sleeping"@ {
        ModelStatus::Sleeping
    } else {
        ModelStatus::Unloaded
    }
}

fn status_named(word: &str) -> (status: ModelStatus)
    ensures
        status == named_status(word@),
{
    if same_text(word, "loaded") {
        ModelStatus::Loaded
    } else if same_text(word, "loading") {
        ModelStatus::Loading
    } else if same_text(word, "failed") {
        ModelStatus::Failed
    } else if same_text(word, "sleeping") {
        ModelStatus::Sleeping
    } else {
        ModelStatus::Unloaded
    }
}

/// Text, and images too where `images` says so.
pub open spec fn capability_list(images: bool) -> Seq<ModelCapability> {
    if images {
        seq![ModelCapability::Text, ModelCapability::Image]
    } else {
        seq![ModelCapability::Text]
    }
}

fn list_capabilities(images: bool) -> (list: Vec<ModelCapability>)
    ensures
        list@ == capability_list(images),
{
    let mut list: Vec<ModelCapability> = Vec::new();
    list.push(ModelCapability::Text);
    if images {
        list.push(ModelCapability::Image);
    }
    assert(list@ =~= capability_list(images));
    list
}

/// Whether an architecture takes images.
pub open spec fn sees_images(architecture: Option<String>) -> bool {
    architecture matches Some(a) && (text::holds_part(a@, "clip"@) || text::holds_part(
        a@,
        "mllama"@,
    ))
}

/// The model that an entry of the list describes. Its name is the first alias, or its id.
pub open spec fn described_model(m: ModelData) -> ServerModelView {
    ServerModelView {
        id: m.model@,
        name: if m.aliases@.len() > 0 {
            m.aliases@[0]@
        } else {
            m.model@
        },
        status: named_status(m.status@),
        capabilities: capability_list(sees_images(m.architecture)),
        context_size: match m.meta.n_ctx {
            Some(n) => n,
            None => DEFAULT_CONTEXT_SIZE,
        },
    }
}

/// The model that an entry of the short form names: loaded, for text, of the default size.
pub open spec fn named_model(m: SingleModelData) -> ServerModelView {
    ServerModelView {
        id: m.model@,
        name: m.model@,
        status: ModelStatus::Loaded,
        capabilities: capability_list(false),
        context_size: DEFAULT_CONTEXT_SIZE,
    }
}

/// The models of an answer, in its order: those it describes, or where there are none those it
/// names.
pub open spec fn answered_models(body: ModelsResponse) -> Seq<ServerModelView> {
    if body.data@.len() > 0 {
        body.data@.map_values(|m: ModelData| described_model(m))
    } else {
        body.models@.map_values(|m: SingleModelData| named_model(m))
    }
}

/// What an entry of the list says of a model is kept: its id, its first alias as the name, or the
/// id where it has no alias, the status by its word, images as input exactly where the
/// architecture takes them, and its context size, or the default where it tells none.
pub proof fn law_described_model_is_the_entry(m: ModelData)
    ensures
        described_model(m).id == m.model@,
        m.aliases@.len() > 0 ==> described_model(m).name == m.aliases@[0]@,
        m.aliases@.len() == 0 ==> described_model(m).name == m.model@,
        m.status@ == "loaded"@ <==> described_model(m).status == ModelStatus::Loaded,
        m.status@ == "loading"@ <==> described_model(m).status == ModelStatus::Loading,
        m.status@ == "failed"@ <==> described_model(m).status == ModelStatus::Failed,
        m.status@ == "sleeping"@ <==> described_model(m).status == ModelStatus::Sleeping,
        described_model(m).status != ModelStatus::Unauthorized,
        described_model(m).capabilities.len() <= 2,
        described_model(m).capabilities[0] == ModelCapability::Text,
        described_model(m).capabilities.no_duplicates(),
        m.architecture is None ==> !described_model(m).capabilities.contains(
            ModelCapability::Image,
        ),
        m.architecture matches Some(a) ==> (described_model(m).capabilities.contains(
            ModelCapability::Image,
        ) <==> text::holds_part(a@, "clip"@) || text::holds_part(a@, "mllama"@)),
        m.meta.n_ctx matches Some(n) ==> described_model(m).context_size == n,
        m.meta.n_ctx is None ==> described_model(m).context_size == 128_000,
{
    lemma_status_words_differ();
    law_capabilities_by_images(sees_images(m.architecture));
}

proof fn lemma_status_words_differ()
    ensures
        "loaded"@ != "loading"@,
        "loaded"@ != "failed"@,
        "loaded"@ != "sleeping"@,
        "loading"@ != "failed"@,
        "loading"@ != "sleeping"@,
        "failed"@ != "sleeping"@,
{
    reveal_strlit("loaded");
    reveal_strlit("loading");
    reveal_strlit("failed");
    reveal_strlit("sleeping");
    assert("loaded"@.len() == 6 && "loading"@.len() == 7 && "failed"@.len() == 6
        && "sleeping"@.len() == 8);
    assert("loaded"@[0] != "failed"@[0]);
}

/// Every model takes text, those that take images take them too, and nothing is listed twice.
pub proof fn law_capabilities_by_images(images: bool)
    ensures
        capability_list(images).contains(ModelCapability::Text),
        capability_list(images).contains(ModelCapability::Image) <==> images,
        capability_list(images).no_duplicates(),
        capability_list(images)[0] == ModelCapability::Text,
{
    let list = capability_list(images);
    assert(list[0] == ModelCapability::Text);
    if images {
        assert(list[1] == ModelCapability::Image);
    }
}

/// An answer offers one model for each entry, in its order: for each that it describes, and only
/// where it describes none for each that it names. A model that is only named goes by its name, is
/// loaded and takes text alone.
pub proof fn law_answer_offers_each_entry(body: ModelsResponse, k: int)
    ensures
        body.data@.len() > 0 ==> answered_models(body).len() == body.data@.len(),
        body.data@.len() > 0 && 0 <= k < body.data@.len() ==> answered_models(body)[k].id
            == body.data@[k].model@ && answered_models(body)[k] == described_model(body.data@[k]),
        body.data@.len() == 0 ==> answered_models(body).len() == body.models@.len(),
        body.data@.len() == 0 && 0 <= k < body.models@.len() ==> {
            let m = answered_models(body)[k];
            &&& m.id == body.models@[k].model@
            &&& m.name == body.models@[k].model@
            &&& m.status == ModelStatus::Loaded
            &&& m.capabilities == seq![ModelCapability::Text]
            &&& m.context_size == 128_000
        },
{
}

/// Whether each model of a list stands before those with an id that comes later.
pub open spec fn sorted_by_id(list: Seq<ServerModelView>) -> bool {
    forall|i: int, j: int|
        0 <= i < j < list.len() ==> !order::before(
            (#[trigger] list[j]).id,
            (#[trigger] list[i]).id,
        )
}

/// The models of a list that have the id `id`, in order.
pub open spec fn with_id(list: Seq<ServerModelView>, id: Seq<char>) -> Seq<ServerModelView> {
    list.filter(|m: ServerModelView| m.id == id)
}

/// A sorted list with one more model, behind those with the same id.
pub open spec fn inserted(list: Seq<ServerModelView>, m: ServerModelView) -> Seq<ServerModelView>
    decreases list.len(),
{
    if list.len() > 0 && order::before(m.id, list.last().id) {
        inserted(list.drop_last(), m).push(list.last())
    } else {
        list.push(m)
    }
}

/// The models of a list sorted by id; those with the same id keep their order.
pub open spec fn by_id(list: Seq<ServerModelView>) -> Seq<ServerModelView>
    decreases list.len(),
{
    if list.len() == 0 {
        list
    } else {
        inserted(by_id(list.drop_last()), list.last())
    }
}

proof fn lemma_inserted_members(list: Seq<ServerModelView>, m: ServerModelView, k: int)
    requires
        0 <= k < inserted(list, m).len(),
    ensures
        inserted(list, m)[k] == m || list.contains(inserted(list, m)[k]),
    decreases list.len(),
{
    if list.len() > 0 && order::before(m.id, list.last().id) {
        if k < inserted(list.drop_last(), m).len() {
            lemma_inserted_members(list.drop_last(), m, k);
            let x = inserted(list, m)[k];
            assert(x == inserted(list.drop_last(), m)[k]);
            if list.drop_last().contains(x) {
                let j = choose|j: int| 0 <= j < list.drop_last().len() && list.drop_last()[j] == x;
                assert(list[j] == x);
            }
        } else {
            assert(list[list.len() - 1] == inserted(list, m)[k]);
        }
    } else if k < list.len() {
        assert(list[k] == inserted(list, m)[k]);
    }
}

proof fn lemma_inserted_sorted(list: Seq<ServerModelView>, m: ServerModelView)
    requires
        sorted_by_id(list),
    ensures
        sorted_by_id(inserted(list, m)),
        inserted(list, m).len() == list.len() + 1,
    decreases list.len(),
{
    let after = inserted(list, m);
    if list.len() > 0 && order::before(m.id, list.last().id) {
        let rest = list.drop_last();
        assert(sorted_by_id(rest)) by {
            assert forall|i: int, j: int| 0 <= i < j < rest.len() implies !order::before(
                (#[trigger] rest[j]).id,
                (#[trigger] rest[i]).id,
            ) by {
                assert(rest[i] == list[i] && rest[j] == list[j]);
            }
        }
        lemma_inserted_sorted(rest, m);
        assert forall|i: int, j: int| 0 <= i < j < after.len() implies !order::before(
            (#[trigger] after[j]).id,
            (#[trigger] after[i]).id,
        ) by {
            let head = inserted(rest, m);
            assert(after[i] == head[i]);
            if j < head.len() {
                assert(after[j] == head[j]);
            } else {
                lemma_inserted_members(rest, m, i);
                if head[i] == m {
                    order::lemma_before_asymmetric(m.id, list.last().id);
                } else {
                    let k = choose|k: int| 0 <= k < rest.len() && rest[k] == head[i];
                    assert(list[k] == rest[k]);
                    assert(list[list.len() - 1] == after[j]);
                }
            }
        }
    } else {
        assert forall|i: int, j: int| 0 <= i < j < after.len() implies !order::before(
            (#[trigger] after[j]).id,
            (#[trigger] after[i]).id,
        ) by {
            assert(after[i] == list[i]);
            if j < list.len() {
                assert(after[j] == list[j]);
            } else if i < list.len() - 1 {
                assert(list[list.len() - 1] == list.last());
                if order::before(m.id, list[i].id) {
                    order::lemma_before_total(list[i].id, list.last().id);
                    if order::before(list[i].id, list.last().id) {
                        order::lemma_before_transitive(m.id, list[i].id, list.last().id);
                    }
                }
            }
        }
    }
}

proof fn lemma_filter_push<A>(s: Seq<A>, x: A, keep: spec_fn(A) -> bool)
    ensures
        s.push(x).filter(keep) == (if keep(x) {
            s.filter(keep).push(x)
        } else {
            s.filter(keep)
        }),
{
    reveal(Seq::filter);
    assert(s.push(x).drop_last() =~= s);
}

proof fn lemma_inserted_with_id(list: Seq<ServerModelView>, m: ServerModelView, id: Seq<char>)
    ensures
        with_id(inserted(list, m), id) == with_id(list.push(m), id),
    decreases list.len(),
{
    if list.len() > 0 && order::before(m.id, list.last().id) {
        let rest = list.drop_last();
        let last = list.last();
        let keep = |x: ServerModelView| x.id == id;
        lemma_inserted_with_id(rest, m, id);
        lemma_filter_push(inserted(rest, m), last, keep);
        lemma_filter_push(rest, m, keep);
        lemma_filter_push(rest, last, keep);
        lemma_filter_push(list, m, keep);
        assert(rest.push(last) =~= list);
        if m.id == last.id {
            order::lemma_before_irreflexive(m.id);
        }
    }
}

/// Sorting by id yields a sorted list. It keeps every model, and the order of those that share an
/// id.
pub proof fn law_by_id_sorts(list: Seq<ServerModelView>, id: Seq<char>)
    ensures
        sorted_by_id(by_id(list)),
        by_id(list).len() == list.len(),
        with_id(by_id(list), id) == with_id(list, id),
    decreases list.len(),
{
    if list.len() > 0 {
        let rest = list.drop_last();
        let keep = |x: ServerModelView| x.id == id;
        law_by_id_sorts(rest, id);
        lemma_inserted_sorted(by_id(rest), list.last());
        lemma_inserted_with_id(by_id(rest), list.last(), id);
        lemma_filter_push(by_id(rest), list.last(), keep);
        lemma_filter_push(rest, list.last(), keep);
        assert(rest.push(list.last()) =~= list);
    }
}

fn insert_model(models: &mut Vec<ServerModel>, m: ServerModel)
    ensures
        model_views(final(models)@) == inserted(model_views(old(models)@), m@),
{
    let ghost before = model_views(models@);
    let mut at: usize = models.len();
    assert(before.take(at as int) =~= before);
    assert(before.skip(at as int) =~= Seq::<ServerModelView>::empty());
    assert(inserted(before, m@) =~= inserted(before.take(at as int), m@) + before.skip(at as int));
    while at > 0 && text_less(m.id.as_str(), models[at - 1].id.as_str())
        invariant
            at <= models.len(),
            before == model_views(models@),
            inserted(before, m@) == inserted(before.take(at as int), m@) + before.skip(at as int),
        decreases at,
    {
        let ghost head = before.take(at as int);
        proof {
            assert(head.last() == models@[at - 1]@);
            assert(head.drop_last() =~= before.take(at - 1));
            assert(inserted(before.take(at - 1), m@).push(head.last()) + before.skip(at as int)
                =~= inserted(before.take(at - 1), m@) + before.skip(at - 1));
        }
        at -= 1;
    }
    proof {
        let head = before.take(at as int);
        assert(at > 0 ==> head.last() == models@[at - 1]@);
        assert(inserted(head, m@) == head.push(m@));
        assert(before.insert(at as int, m@) =~= head.push(m@) + before.skip(at as int));
        assert(model_views(models@.insert(at as int, m)) =~= before.insert(at as int, m@));
    }
    models.insert(at, m);
}

/// The models of an answer to a request for the list, sorted by id.
pub fn models_from_response(body: ModelsResponse) -> (models: Vec<ServerModel>)
    ensures
        model_views(models@) == by_id(answered_models(body)),
{
    let ghost all = answered_models(body);
    let mut models: Vec<ServerModel> = Vec::new();
    let mut i: usize = 0;
    assert(model_views(models@) =~= by_id(all.take(0)));
    if body.data.len() > 0 {
        while i < body.data.len()
            invariant
                i <= body.data.len(),
                all == body.data@.map_values(|m: ModelData| described_model(m)),
                model_views(models@) == by_id(all.take(i as int)),
            decreases body.data.len() - i,
        {
            let m: &ModelData = &body.data[i];
            let images: bool = match &m.architecture {
                Some(a) => contains(a.as_str(), "clip") || contains(a.as_str(), "mllama"),
                None => false,
            };
            let model = ServerModel {
                id: m.model.clone(),
                name: if m.aliases.len() > 0 {
                    m.aliases[0].clone()
                } else {
                    m.model.clone()
                },
                status: status_named(m.status.as_str()),
                capabilities: list_capabilities(images),
                context_size: match m.meta.n_ctx {
                    Some(n) => n,
                    None => DEFAULT_CONTEXT_SIZE,
                },
            };
            assert(model@ == all[i as int]);
            assert(all.take(i + 1).drop_last() =~= all.take(i as int));
            insert_model(&mut models, model);
            i += 1;
        }
    } else {
        while i < body.models.len()
            invariant
                i <= body.models.len(),
                all == body.models@.map_values(|m: SingleModelData| named_model(m)),
                model_views(models@) == by_id(all.take(i as int)),
            decreases body.models.len() - i,
        {
            let m: &SingleModelData = &body.models[i];
            let model = ServerModel {
                id: m.model.clone(),
                name: m.model.clone(),
                status: ModelStatus::Loaded,
                capabilities: list_capabilities(false),
                context_size: DEFAULT_CONTEXT_SIZE,
            };
            assert(model@ == all[i as int]);
            assert(all.take(i + 1).drop_last() =~= all.take(i as int));
            insert_model(&mut models, model);
            i += 1;
        }
    }
    assert(all.take(i as int) =~= all);
    models
}

/// The answer to a request for properties.
#[derive(Debug)]
pub struct PropsResponse {
    pub role: String,
    pub error: Option<PropError>,
    pub modalities: Vec<String>,
    pub is_sleeping: bool,
    pub chat_template_caps: Vec<String>,
    pub n_ctx: Option<u32>,
}

/// Why a server did not give properties.
#[derive(Debug)]
pub struct PropError {
    pub code: u16,
    pub message: String,
}

/// The status that a model's properties show. A model that sleeps is one that can be used; one
/// that the server refuses to describe is so for the reason that the error gives.
pub open spec fn shown_status(props: PropsResponse) -> ModelStatus {
    if props.is_sleeping {
        ModelStatus::Sleeping
    } else {
        match props.error {
            None => ModelStatus::Loaded,
            Some(e) => if e.code == 401 {
                ModelStatus::Unauthorized
            } else if e.code == 503 {
                ModelStatus::Loading
            } else if e.code == 400 && text::holds_part(e.message@, "model is not loaded"@) {
                ModelStatus::Unloaded
            } else {
                ModelStatus::Failed
            },
        }
    }
}

/// Properties that come with an error show a model that can be used only where it sleeps.
pub proof fn law_error_is_not_usable(props: PropsResponse)
    requires
        props.error is Some,
        !props.is_sleeping,
    ensures
        shown_status(props) != ModelStatus::Loaded,
        shown_status(props) != ModelStatus::Sleeping,
{
}

/// A model that sleeps is shown as such, whatever else its properties say, and one without an error
/// as loaded. An error shows a missing key by its code, a model on its way by its code, one that is
/// not loaded by code and message, and else a failure.
pub proof fn law_shown_status_by_error(props: PropsResponse)
    ensures
        shown_status(props) == ModelStatus::Sleeping <==> props.is_sleeping,
        shown_status(props) == ModelStatus::Loaded <==> !props.is_sleeping && props.error is None,
        shown_status(props) == ModelStatus::Unauthorized <==> !props.is_sleeping && (
        props.error matches Some(e) && e.code == 401),
        shown_status(props) == ModelStatus::Loading <==> !props.is_sleeping && (
        props.error matches Some(e) && e.code == 503),
        shown_status(props) == ModelStatus::Unloaded <==> !props.is_sleeping && (
        props.error matches Some(e) && e.code == 400 && exists|at: int|
            0 <= at <= e.message@.len() - "model is not loaded"@.len() && #[trigger] e.message@.subrange(
                at,
                at + "model is not loaded"@.len(),
            ) == "model is not loaded"@),
{
    if let Some(e) = props.error {
        let part = "model is not loaded"@;
        if text::holds_part(e.message@, part) {
            let at = choose|at: int| text::stands_at(e.message@, part, at);
            assert(e.message@.subrange(at, at + part.len()) == part);
        }
        if exists|at: int|
            0 <= at <= e.message@.len() - part.len() && #[trigger] e.message@.subrange(
                at,
                at + part.len(),
            ) == part {
            let at = choose|at: int|
                0 <= at <= e.message@.len() - part.len() && #[trigger] e.message@.subrange(
                    at,
                    at + part.len(),
                ) == part;
            assert(text::stands_at(e.message@, part, at));
        }
    }
}

/// The first model of a list with the id `id`.
pub open spec fn first_with_id(list: Seq<ServerModelView>, id: Seq<char>) -> Option<ServerModelView>
    decreases list.len(),
{
    if list.len() == 0 {
        None
    } else if list[0].id == id {
        Some(list[0])
    } else {
        first_with_id(list.drop_first(), id)
    }
}

/// The model found by its id is the first one with it, and where none is found no model has it.
pub proof fn law_first_with_id_is_first(list: Seq<ServerModelView>, id: Seq<char>)
    ensures
        first_with_id(list, id) matches Some(m) ==> exists|i: int|
            0 <= i < list.len() && #[trigger] list[i] == m && m.id == id && forall|j: int|
                0 <= j < i ==> (#[trigger] list[j]).id != id,
        first_with_id(list, id) is None ==> forall|i: int|
            0 <= i < list.len() ==> (#[trigger] list[i]).id != id,
    decreases list.len(),
{
    if list.len() > 0 && list[0].id != id {
        let rest = list.drop_first();
        law_first_with_id_is_first(rest, id);
        if let Some(m) = first_with_id(list, id) {
            let i = choose|i: int|
                0 <= i < rest.len() && #[trigger] rest[i] == m && m.id == id && forall|j: int|
                    0 <= j < i ==> (#[trigger] rest[j]).id != id;
            assert(list[i + 1] == m);
            assert forall|j: int| 0 <= j < i + 1 implies (#[trigger] list[j]).id != id by {
                if j > 0 {
                    assert(rest[j - 1] == list[j]);
                }
            }
        } else {
            assert forall|i: int| 0 <= i < list.len() implies (#[trigger] list[i]).id != id by {
                if i > 0 {
                    assert(rest[i - 1] == list[i]);
                }
            }
        }
    } else if list.len() > 0 {
        assert(list[0] == list[0]);
    }
}

fn find_model<'a>(models: &'a [ServerModel], id: &str) -> (found: Option<&'a ServerModel>)
    ensures
        match found {
            Some(m) => first_with_id(model_views(models@), id@) == Some(m@),
            None => first_with_id(model_views(models@), id@) is None,
        },
{
    let ghost list = model_views(models@);
    let mut i: usize = 0;
    assert(list.skip(0) =~= list);
    while i < models.len()
        invariant
            i <= models.len(),
            list == model_views(models@),
            first_with_id(list, id@) == first_with_id(list.skip(i as int), id@),
        decreases models.len() - i,
    {
        assert(list.skip(i as int)[0] == models@[i as int]@);
        assert(list.skip(i as int).drop_first() =~= list.skip(i + 1));
        if same_text(models[i].id.as_str(), id) {
            return Some(&models[i]);
        }
        i += 1;
    }
    None
}

/// Whether a model of the list tells a context size of its own.
pub open spec fn tells_size(list: Seq<ServerModelView>) -> bool {
    exists|i: int| 0 <= i < list.len() && (#[trigger] list[i]).context_size != DEFAULT_CONTEXT_SIZE
}

fn some_tells_size(models: &[ServerModel]) -> (tells: bool)
    ensures
        tells == tells_size(model_views(models@)),
{
    let ghost views = model_views(models@);
    let mut i: usize = 0;
    while i < models.len()
        invariant
            i <= models.len(),
            views == model_views(models@),
            forall|k: int|
                0 <= k < i ==> (#[trigger] views[k]).context_size == DEFAULT_CONTEXT_SIZE,
        decreases models.len() - i,
    {
        assert(views[i as int] == models@[i as int]@);
        if models[i].context_size != DEFAULT_CONTEXT_SIZE {
            return true;
        }
        i += 1;
    }
    false
}

impl LlamaCppServer {
    /// The models that the answer to a request for the list offers, sorted by id: none unless the
    /// request succeeded.
    pub fn fetch_models(status: u16, body: ModelsResponse) -> (models: Vec<ServerModel>)
        ensures
            model_views(models@) == (if status == 200 {
                by_id(answered_models(body))
            } else {
                Seq::empty()
            }),
    {
        if status != 200 {
            let models: Vec<ServerModel> = Vec::new();
            assert(model_views(models@) =~= Seq::empty());
            return models;
        }
        models_from_response(body)
    }

    /// The properties that an answer gives. One that is not in the form of properties stands for
    /// an error with the answer's status and text.
    pub fn fetch_props(parsed: Option<PropsResponse>, status: u16, text: String) -> (props:
        PropsResponse)
        ensures
            match parsed {
                Some(p) => props == p,
                None => {
                    &&& props.role@ == Seq::<char>::empty()
                    &&& props.error == Some(PropError { code: status, message: text })
                    &&& props.modalities@.len() == 0
                    &&& !props.is_sleeping
                    &&& props.chat_template_caps@.len() == 0
                    &&& props.n_ctx is None
                },
            },
    {
        match parsed {
            Some(p) => p,
            None => PropsResponse {
                role: String::new(),
                error: Some(PropError { code: status, message: text }),
                modalities: Vec::new(),
                is_sleeping: false,
                chat_template_caps: Vec::new(),
                n_ctx: None,
            },
        }
    }

    /// The status that a model's properties show.
    pub fn model_status(props: &PropsResponse) -> (status: ModelStatus)
        ensures
            status == shown_status(*props),
    {
        if props.is_sleeping {
            return ModelStatus::Sleeping;
        }
        match &props.error {
            None => ModelStatus::Loaded,
            Some(e) => if e.code == 401 {
                ModelStatus::Unauthorized
            } else if e.code == 503 {
                ModelStatus::Loading
            } else if e.code == 400 && contains(e.message.as_str(), "model is not loaded") {
                ModelStatus::Unloaded
            } else {
                ModelStatus::Failed
            },
        }
    }

    /// How the server serves models. A router says so in its properties, and without its list of
    /// models, where it has been asked for; any other server is told by that list.
    pub fn detect_mode(props: &PropsResponse, models: Option<&[ServerModel]>) -> (mode: Option<
        ServerMode,
    >)
        ensures
            mode == (if props.role@ == "router"@ {
                Some(ServerMode::Router)
            } else {
                match models {
                    None => None,
                    Some(list) => Some(
                        if tells_size(model_views(list@)) {
                            ServerMode::Legacy
                        } else {
                            ServerMode::Single
                        },
                    ),
                }
            }),
    {
        if same_text(props.role.as_str(), "router") {
            return Some(ServerMode::Router);
        }
        match models {
            None => None,
            Some(list) => if some_tells_size(list) {
                Some(ServerMode::Legacy)
            } else {
                Some(ServerMode::Single)
            },
        }
    }

    /// The context size of the model `model_id`: that of its properties; else, from the list of
    /// models once it has been asked for, that of the model with this id, or the default.
    pub fn context_size(
        model_id: &str,
        props: &PropsResponse,
        models: Option<&[ServerModel]>,
    ) -> (size: Option<u32>)
        ensures
            size == (match props.n_ctx {
                Some(n) => Some(n),
                None => match models {
                    None => None,
                    Some(list) => match first_with_id(model_views(list@), model_id@) {
                        Some(m) => Some(m.context_size),
                        None => Some(DEFAULT_CONTEXT_SIZE),
                    },
                },
            }),
    {
        match props.n_ctx {
            Some(n) => Some(n),
            None => match models {
                None => None,
                Some(list) => match find_model(list, model_id) {
                    Some(m) => Some(m.context_size),
                    None => Some(DEFAULT_CONTEXT_SIZE),
                },
            },
        }
    }

    /// What the model `model_id` takes as input: what the list says of the model with this id;
    /// else what its properties say, once they have been asked for.
    pub fn capabilities(
        model_id: &str,
        models: &[ServerModel],
        props: Option<&PropsResponse>,
    ) -> (list: Option<Vec<ModelCapability>>)
        ensures
            match first_with_id(model_views(models@), model_id@) {
                Some(m) => list matches Some(l) && l@ == m.capabilities,
                None => match props {
                    None => list is None,
                    Some(p) => list matches Some(l) && l@ == capability_list(
                        text::texts(p.modalities@).contains("image"@),
                    ),
                },
            },
    {
        match find_model(models, model_id) {
            Some(m) => {
                let mut list: Vec<ModelCapability> = Vec::new();
                let mut i: usize = 0;
                while i < m.capabilities.len()
                    invariant
                        i <= m.capabilities.len(),
                        list@ == m.capabilities@.take(i as int),
                    decreases m.capabilities.len() - i,
                {
                    list.push(m.capabilities[i]);
                    i += 1;
                }
                assert(list@ =~= m.capabilities@);
                Some(list)
            },
            None => match props {
                None => None,
                Some(p) => Some(list_capabilities(among(&p.modalities, "image"))),
            },
        }
    }
}

/// What to do while a model is being loaded.
#[derive(Debug)]
pub enum PollStep {
    Ready,
    Failed { error: AgentError },
    Wait,
}

impl LlamaCppServer {
    /// What a model's status means for one who waits for it to load. Once the time to wait,
    /// `timeout_secs`, is over, a model that is still on its way is given up.
    pub fn poll_until_loaded(
        model_id: &str,
        status: ModelStatus,
        is_late: bool,
        timeout_secs: u64,
    ) -> (step: PollStep)
        ensures
            match status {
                ModelStatus::Loaded | ModelStatus::Sleeping => step is Ready,
                ModelStatus::Failed => step matches PollStep::Failed { error } && error@ == (
                message::ErrorView::Api {
                    status: 500,
                    message: "model "@ + model_id@ + " failed to load"@,
                }),
                ModelStatus::Unauthorized => step matches PollStep::Failed { error } && error@ == (
                message::ErrorView::Api {
                    status: 401,
                    message: "model "@ + model_id@ + " unauthorized"@,
                }),
                ModelStatus::Loading | ModelStatus::Unloaded => if is_late {
                    step matches PollStep::Failed { error } && error@ == (
                    message::ErrorView::Timeout { secs: timeout_secs })
                } else {
                    step is Wait
                },
            },
    {
        match status {
            ModelStatus::Loaded | ModelStatus::Sleeping => PollStep::Ready,
            ModelStatus::Failed => PollStep::Failed {
                error: AgentError::Api {
                    status: 500,
                    message: cat3("model ", model_id, " failed to load"),
                },
            },
            ModelStatus::Unauthorized => PollStep::Failed {
                error: AgentError::Api {
                    status: 401,
                    message: cat3("model ", model_id, " unauthorized"),
                },
            },
            ModelStatus::Loading | ModelStatus::Unloaded => if is_late {
                PollStep::Failed { error: AgentError::Timeout { secs: timeout_secs } }
            } else {
                PollStep::Wait
            },
        }
    }
}

/// A new server has the key it was given, and its address less the slash that may end it. The
/// requests for health and for the list of models go below that address, with the key.
pub proof fn law_new_server_is_asked_at_its_address(
    url: &str,
    api_key: Option<String>,
    server: LlamaCppServer,
    health: ServerRequest,
    models: ServerRequest,
    props: ServerRequest,
)
    requires
        call_ensures(LlamaCppServer::new, (url, api_key), server),
        call_ensures(LlamaCppServer::health_request, (&server,), health),
        call_ensures(LlamaCppServer::models_request, (&server,), models),
        call_ensures(LlamaCppServer::props_request, (&server, None), props),
    ensures
        server.api_key == api_key,
        server.url@ == url@ || server.url@ + "/"@ == url@,
        !"/"@.is_suffix_of(url@) ==> server.url@ == url@,
        server.mode is None,
        server.models@.len() == 0,
        health@.method == "GET"@ && models@.method == "GET"@ && props@.method == "GET"@,
        health@.uri == server.url@ + "/"@ + "health"@,
        models@.uri == server.url@ + "/"@ + "v1/models"@,
        props@.uri == server.url@ + "/"@ + "props"@,
        health@.headers == models@.headers && models@.headers == props@.headers,
        health@.body.len() == 0 && models@.body.len() == 0 && props@.body.len() == 0,
        api_key matches Some(key) ==> health@.headers == seq![
            ("Authorization"@, "Bearer "@ + key@),
        ],
        api_key is None ==> health@.headers.len() == 0,
{
    law_address_loses_one_slash(url@);
}

/// To load and to unload a model are the same request but for the path: a command with the server's
/// key that names the model. To ask for a model's properties names it in the query and does not load
/// it.
pub proof fn law_commands_name_the_model(
    server: &LlamaCppServer,
    model_id: &str,
    load: ServerRequest,
    unload: ServerRequest,
    props: ServerRequest,
)
    requires
        call_ensures(LlamaCppServer::load_model, (server, model_id), load),
        call_ensures(LlamaCppServer::unload_model, (server, model_id), unload),
        call_ensures(LlamaCppServer::props_request, (server, Some(model_id)), props),
    ensures
        load@.method == "POST"@ && unload@.method == "POST"@ && props@.method == "GET"@,
        load@.uri == server.url@ + "/"@ + "models/load"@,
        unload@.uri == server.url@ + "/"@ + "models/unload"@,
        load@.headers == unload@.headers,
        load@.headers.drop_last() == props@.headers,
        load@.headers.last() == ("Content-Type"@, "application/json"@),
        load@.body == unload@.body,
        load@.body == encode_utf8(json::member_object("model"@, model_id@)),
        props@.uri == server.url@ + "/"@ + ("props?model="@ + model_id@ + "&autoload=false"@),
        props@.body.len() == 0,
{
    law_requests_name_server_key_and_model(
        *server,
        "GET"@,
        "props?model="@ + model_id@ + "&autoload=false"@,
        model_id@,
    );
    law_requests_name_server_key_and_model(*server, "GET"@, "models/load"@, model_id@);
}

/// A command succeeded exactly on a status of success, and else the error tells status and text as
/// they came. A health check finds a model loaded on success alone, and a missing key by its status.
pub proof fn law_statuses_are_told(
    status: u16,
    text: String,
    outcome: Result<(), AgentError>,
    health: ModelStatus,
    unanswered: ModelStatus,
)
    requires
        call_ensures(LlamaCppServer::command_outcome, (status, text), outcome),
        call_ensures(LlamaCppServer::health, (Some(status),), health),
        call_ensures(LlamaCppServer::health, (None,), unanswered),
    ensures
        outcome is Ok <==> 200 <= status <= 299,
        outcome matches Err(e) ==> e@ is Api && e@->status == status && e@->Api_message == text@,
        health == ModelStatus::Loaded <==> status == 200,
        health == ModelStatus::Unauthorized <==> status == 401,
        status != 200 && status != 401 ==> health == ModelStatus::Unloaded,
        unanswered == ModelStatus::Unloaded,
{
}

/// A list of models that came with success holds a model for each entry of the answer, in the order
/// of their ids; one that did not come with success holds none.
pub proof fn law_fetched_models_are_the_answered_ones(
    status: u16,
    body: ModelsResponse,
    models: Vec<ServerModel>,
    k: int,
)
    requires
        call_ensures(LlamaCppServer::fetch_models, (status, body), models),
    ensures
        status != 200 ==> models@.len() == 0,
        status == 200 && body.data@.len() > 0 ==> models@.len() == body.data@.len(),
        status == 200 && body.data@.len() == 0 ==> models@.len() == body.models@.len(),
        forall|i: int, j: int|
            0 <= i < j < models@.len() ==> !order::before(
                (#[trigger] models@[j]).id@,
                (#[trigger] models@[i]).id@,
            ),
        status == 200 && 0 <= k < body.data@.len() ==> exists|i: int|
            0 <= i < models@.len() && #[trigger] models@[i]@ == described_model(body.data@[k]),
{
    let views = model_views(models@);
    assert(views.len() == models@.len());
    if status == 200 {
        let all = answered_models(body);
        law_answer_offers_each_entry(body, k);
        law_by_id_sorts(all, Seq::empty());
        assert forall|i: int, j: int| 0 <= i < j < models@.len() implies !order::before(
            (#[trigger] models@[j]).id@,
            (#[trigger] models@[i]).id@,
        ) by {
            assert(views[i] == models@[i]@ && views[j] == models@[j]@);
            assert(!order::before(views[j].id, views[i].id));
        }
        if 0 <= k < body.data@.len() {
            let m = described_model(body.data@[k]);
            let same = |x: ServerModelView| x.id == m.id;
            law_by_id_sorts(all, m.id);
            assert(all[k] == m);
            all.lemma_filter_contains(same, k);
            let at = choose|at: int|
                0 <= at < with_id(all, m.id).len() && with_id(all, m.id)[at] == m;
            lemma_filter_holds_members(views, same, at);
            let i = choose|i: int| 0 <= i < views.len() && views[i] == m;
            assert(models@[i]@ == m);
        }
    }
}

proof fn lemma_filter_holds_members<A>(s: Seq<A>, keep: spec_fn(A) -> bool, k: int)
    requires
        0 <= k < s.filter(keep).len(),
    ensures
        s.contains(s.filter(keep)[k]),
    decreases s.len(),
{
    reveal(Seq::filter);
    if s.len() > 0 {
        let rest = s.drop_last().filter(keep);
        if k < rest.len() {
            lemma_filter_holds_members(s.drop_last(), keep, k);
            let j = choose|j: int| 0 <= j < s.drop_last().len() && s.drop_last()[j] == rest[k];
            assert(s[j] == s.filter(keep)[k]);
        } else {
            assert(s[s.len() - 1] == s.filter(keep)[k]);
        }
    }
}

/// Properties that could be read are handed on as they are. An answer that could not is an error
/// with its status and text, and so shows a model that is not loaded.
pub proof fn law_unreadable_props_are_an_error(
    parsed: Option<PropsResponse>,
    status: u16,
    text: String,
    props: PropsResponse,
    shown: ModelStatus,
)
    requires
        call_ensures(LlamaCppServer::fetch_props, (parsed, status, text), props),
        call_ensures(LlamaCppServer::model_status, (&props,), shown),
    ensures
        parsed matches Some(p) ==> props == p,
        parsed is None ==> props.error is Some && props.error->0.code == status
            && props.error->0.message@ == text@ && props.n_ctx is None && props.modalities@.len()
            == 0 && props.role@.len() == 0,
        parsed is None ==> shown != ModelStatus::Loaded && shown != ModelStatus::Sleeping,
        parsed is None && status == 401 ==> shown == ModelStatus::Unauthorized,
        parsed is None && status == 503 ==> shown == ModelStatus::Loading,
{
    law_shown_status_by_error(props);
}

/// A router is known by its role alone. Any other server needs the list of its models: it is an old
/// one where one of them tells a context size of its own, and else one for a single model.
pub proof fn law_mode_by_role_and_sizes(
    props: &PropsResponse,
    models: Option<&[ServerModel]>,
    mode: Option<ServerMode>,
    k: int,
)
    requires
        call_ensures(LlamaCppServer::detect_mode, (props, models), mode),
    ensures
        mode == Some(ServerMode::Router) <==> props.role@ == "router"@,
        mode is None <==> props.role@ != "router"@ && models is None,
        props.role@ != "router"@ ==> (models matches Some(list) ==> {
            &&& 0 <= k < list@.len() && list@[k].context_size != 128_000 ==> mode == Some(
                ServerMode::Legacy,
            )
            &&& (forall|i: int|
                0 <= i < list@.len() ==> (#[trigger] list@[i]).context_size == 128_000) ==> mode
                == Some(ServerMode::Single)
        }),
{
    if let Some(list) = models {
        let views = model_views(list@);
        if 0 <= k < list@.len() {
            assert(views[k] == list@[k]@);
        }
        if forall|i: int| 0 <= i < list@.len() ==> (#[trigger] list@[i]).context_size == 128_000 {
            assert forall|i: int| 0 <= i < views.len() implies (#[trigger] views[i]).context_size
                == 128_000 by {
                assert(views[i] == list@[i]@);
            }
        }
    }
}

/// The size that the properties tell comes first, then that of the first model with the id, then
/// the default; without size and list nothing is known.
pub proof fn law_context_size_by_props_then_list(
    model_id: &str,
    props: &PropsResponse,
    models: Option<&[ServerModel]>,
    size: Option<u32>,
    k: int,
)
    requires
        call_ensures(LlamaCppServer::context_size, (model_id, props, models), size),
    ensures
        props.n_ctx is Some ==> size == props.n_ctx,
        size is None <==> props.n_ctx is None && models is None,
        props.n_ctx is None ==> (models matches Some(list) ==> {
            &&& 0 <= k < list@.len() && list@[k].id@ == model_id@ && (forall|i: int|
                0 <= i < k ==> (#[trigger] list@[i]).id@ != model_id@) ==> size == Some(
                list@[k].context_size,
            )
            &&& (forall|i: int| 0 <= i < list@.len() ==> (#[trigger] list@[i]).id@ != model_id@)
                ==> size == Some(128_000u32)
        }),
{
    if let Some(list) = models {
        lemma_found_by_id(list@, model_id@, k);
    }
}

proof fn lemma_found_by_id(list: Seq<ServerModel>, id: Seq<char>, k: int)
    ensures
        0 <= k < list.len() && list[k].id@ == id && (forall|i: int|
            0 <= i < k ==> (#[trigger] list[i]).id@ != id) ==> first_with_id(model_views(list), id)
            == Some(list[k]@),
        (forall|i: int| 0 <= i < list.len() ==> (#[trigger] list[i]).id@ != id) ==> first_with_id(
            model_views(list),
            id,
        ) is None,
{
    let views = model_views(list);
    law_first_with_id_is_first(views, id);
    if let Some(m) = first_with_id(views, id) {
        let i = choose|i: int|
            0 <= i < views.len() && #[trigger] views[i] == m && m.id == id && forall|j: int|
                0 <= j < i ==> (#[trigger] views[j]).id != id;
        assert(views[i] == list[i]@);
        if 0 <= k < list.len() && list[k].id@ == id {
            assert(views[k] == list[k]@);
        }
    } else if 0 <= k < list.len() {
        assert(views[k] == list[k]@);
    }
}

/// What a model of the list takes is what the list says, whatever its properties say. Of another
/// model the properties decide: text, and images where they name them. Without either nothing is
/// known.
pub proof fn law_capabilities_by_list_then_props(
    model_id: &str,
    models: &[ServerModel],
    props: Option<&PropsResponse>,
    list: Option<Vec<ModelCapability>>,
    k: int,
)
    requires
        call_ensures(LlamaCppServer::capabilities, (model_id, models, props), list),
    ensures
        0 <= k < models@.len() && models@[k].id@ == model_id@ && (forall|i: int|
            0 <= i < k ==> (#[trigger] models@[i]).id@ != model_id@) ==> list is Some && list->0@
            == models@[k].capabilities@,
        (forall|i: int| 0 <= i < models@.len() ==> (#[trigger] models@[i]).id@ != model_id@) ==> {
            &&& list is Some <==> props is Some
            &&& props matches Some(p) ==> {
                &&& list->0@.contains(ModelCapability::Text)
                &&& list->0@.contains(ModelCapability::Image) <==> text::texts(
                    p.modalities@,
                ).contains("image"@)
                &&& list->0@.no_duplicates()
            }
        },
{
    lemma_found_by_id(models@, model_id@, k);
    if let Some(p) = props {
        law_capabilities_by_images(text::texts(p.modalities@).contains("image"@));
    }
}

/// One who waits for a model goes on where it can be used, early or late. A failure and a missing
/// key end the wait at once, with an error that names the model; a model on its way is waited for
/// until the time is over, and then the error tells the time.
pub proof fn law_wait_ends_with_the_status(
    model_id: &str,
    status: ModelStatus,
    is_late: bool,
    timeout_secs: u64,
    step: PollStep,
)
    requires
        call_ensures(
            LlamaCppServer::poll_until_loaded,
            (model_id, status, is_late, timeout_secs),
            step,
        ),
    ensures
        step is Ready <==> status == ModelStatus::Loaded || status == ModelStatus::Sleeping,
        step is Wait <==> !is_late && (status == ModelStatus::Loading || status
            == ModelStatus::Unloaded),
        step matches PollStep::Failed { error } ==> {
            &&& error@ is Timeout <==> is_late && (status == ModelStatus::Loading || status
                == ModelStatus::Unloaded)
            &&& error@ is Timeout ==> error@->secs == timeout_secs
            &&& status == ModelStatus::Failed ==> error@ is Api && error@->status == 500
                && error@->Api_message == "model "@ + model_id@ + " failed to load"@
            &&& status == ModelStatus::Unauthorized ==> error@ is Api && error@->status == 401
                && error@->Api_message == "model "@ + model_id@ + " unauthorized"@
        },
{
}

} // verus!
