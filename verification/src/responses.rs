//! What the server answers, as JSON documents. Names in an object come in
//! ascending order.

use crate::json::{member_trees, trees, Json, JsonTree};
use crate::registry::{warm_index, Registry};
use crate::session::{parked_size, Session, SessionStore, SessionView};
use vstd::prelude::*;

verus! {

/// An object under construction.
#[derive(Debug)]
struct Fields {
    members: Vec<(String, Json)>,
}

impl Fields {
    spec fn view(self) -> Seq<(Seq<char>, JsonTree)> {
        member_trees(self.members@)
    }

    fn new() -> (f: Self)
        ensures
            f@ == Seq::<(Seq<char>, JsonTree)>::empty(),
    {
        let f = Fields { members: Vec::new() };
        assert(f@ =~= Seq::<(Seq<char>, JsonTree)>::empty());
        f
    }

    fn with(self, key: &str, value: Json) -> (f: Self)
        ensures
            f@ == self@.push((key@, value@)),
    {
        let mut members: Vec<(String, Json)> = self.members;
        members.push((key.to_owned(), value));
        assert(member_trees(members@) =~= member_trees(self.members@).push((key@, value@)));
        Fields { members }
    }

    fn object(self) -> (json: Json)
        ensures
            json@ == JsonTree::Object(self@),
    {
        Json::Object(self.members)
    }
}

fn text(s: &str) -> (json: Json)
    ensures
        json@ == JsonTree::Str(s@),
{
    Json::Str(s.to_owned())
}

fn one(item: Json) -> (json: Json)
    ensures
        json@ == JsonTree::Array(seq![item@]),
{
    let mut items: Vec<Json> = Vec::new();
    items.push(item);
    assert(trees(items@) =~= seq![item@]);
    Json::Array(items)
}

/// An error.
pub open spec fn error_tree(message: Seq<char>) -> JsonTree {
    JsonTree::Object(
        seq![("error"@, JsonTree::Object(seq![("message"@, JsonTree::Str(message))]))],
    )
}

/// An error, in words.
pub fn error_response(message: &str) -> (json: Json)
    ensures
        json@ == error_tree(message@),
{
    Fields::new().with(
        "error",
        Fields::new().with("message", text(message)).object(),
    ).object()
}

/// Token counts of a completion.
#[derive(Debug, Clone, Copy, PartialEq, Eq, Structural)]
pub struct Usage {
    pub prompt: u64,
    pub completion: u64,
}

impl Usage {
    pub open spec fn tree(self) -> JsonTree {
        JsonTree::Object(
            Seq::empty()
                .push(("completion_tokens"@, JsonTree::Uint(self.completion)))
                .push(("prompt_tokens"@, JsonTree::Uint(self.prompt)))
                .push(("total_tokens"@, JsonTree::Uint((self.prompt + self.completion) as u64))),
        )
    }

    fn json(&self) -> (json: Json)
        requires
            self.prompt + self.completion <= u64::MAX,
        ensures
            json@ == self.tree(),
    {
        Fields::new().with("completion_tokens", Json::Uint(self.completion)).with(
            "prompt_tokens",
            Json::Uint(self.prompt),
        ).with("total_tokens", Json::Uint(self.prompt + self.completion)).object()
    }
}

/// How a session took part in a completion.
#[derive(Debug)]
pub struct SessionUse {
    pub id: String,
    pub slot: u64,
    pub reused: u64,
    pub prefilled: u64,
}

/// Timing of a completion: seconds and tokens per second, as bits of doubles,
/// and what the session saved.
#[derive(Debug)]
pub struct Perf {
    pub seconds: u64,
    pub tok_per_sec: u64,
    pub session: Option<SessionUse>,
}

impl Perf {
    pub open spec fn tree(self) -> JsonTree {
        match self.session {
            None => JsonTree::Object(
                Seq::empty()
                    .push(("seconds"@, JsonTree::Float(self.seconds)))
                    .push(("tok_per_sec"@, JsonTree::Float(self.tok_per_sec))),
            ),
            Some(s) => JsonTree::Object(
                Seq::empty()
                    .push(("prompt_tokens_prefilled"@, JsonTree::Uint(s.prefilled)))
                    .push(("prompt_tokens_reused"@, JsonTree::Uint(s.reused)))
                    .push(("seconds"@, JsonTree::Float(self.seconds)))
                    .push(("session"@, JsonTree::Str(s.id@)))
                    .push(("slot"@, JsonTree::Uint(s.slot)))
                    .push(("tok_per_sec"@, JsonTree::Float(self.tok_per_sec))),
            ),
        }
    }

    fn json(&self) -> (json: Json)
        ensures
            json@ == self.tree(),
    {
        match &self.session {
            None => Fields::new().with("seconds", Json::Float(self.seconds)).with(
                "tok_per_sec",
                Json::Float(self.tok_per_sec),
            ).object(),
            Some(s) => Fields::new().with("prompt_tokens_prefilled", Json::Uint(s.prefilled)).with(
                "prompt_tokens_reused",
                Json::Uint(s.reused),
            ).with("seconds", Json::Float(self.seconds)).with("session", text(s.id.as_str())).with(
                "slot",
                Json::Uint(s.slot),
            ).with("tok_per_sec", Json::Float(self.tok_per_sec)).object(),
        }
    }
}

/// The object that a completion is.
pub open spec fn object_name(chat: bool) -> Seq<char> {
    if chat {
        "chat.completion"@
    } else {
        "text_completion"@
    }
}

/// A finished completion.
pub open spec fn completion_tree(
    chat: bool,
    model: Seq<char>,
    content: Seq<char>,
    usage: Usage,
    perf: Perf,
) -> JsonTree {
    let choice = if chat {
        JsonTree::Object(
            Seq::empty()
                .push(("finish_reason"@, JsonTree::Str("stop"@)))
                .push(("index"@, JsonTree::Uint(0)))
                .push(
                    (
                        "message"@,
                        JsonTree::Object(
                            Seq::empty()
                                .push(("content"@, JsonTree::Str(content)))
                                .push(("role"@, JsonTree::Str("assistant"@))),
                        ),
                    ),
                ),
        )
    } else {
        JsonTree::Object(
            Seq::empty()
                .push(("finish_reason"@, JsonTree::Str("stop"@)))
                .push(("index"@, JsonTree::Uint(0)))
                .push(("text"@, JsonTree::Str(content))),
        )
    };
    JsonTree::Object(
        Seq::empty()
            .push(("choices"@, JsonTree::Array(seq![choice])))
            .push(
                (
                    "id"@,
                    JsonTree::Str(if chat { "chatcmpl-llmpager"@ } else { "cmpl-llmpager"@ }),
                ),
            )
            .push(("llmpager"@, perf.tree()))
            .push(("model"@, JsonTree::Str(model)))
            .push(("object"@, JsonTree::Str(object_name(chat))))
            .push(("usage"@, usage.tree())),
    )
}

/// A finished completion.
pub fn completion_response(
    chat: bool,
    model: &str,
    content: &str,
    usage: &Usage,
    perf: &Perf,
) -> (json: Json)
    requires
        usage.prompt + usage.completion <= u64::MAX,
    ensures
        json@ == completion_tree(chat, model@, content@, *usage, *perf),
{
    let choice: Json = if chat {
        let message: Json = Fields::new().with("content", text(content)).with(
            "role",
            text("assistant"),
        ).object();
        Fields::new().with("finish_reason", text("stop")).with("index", Json::Uint(0)).with(
            "message",
            message,
        ).object()
    } else {
        Fields::new().with("finish_reason", text("stop")).with("index", Json::Uint(0)).with(
            "text",
            text(content),
        ).object()
    };
    let id: &str = if chat {
        "chatcmpl-llmpager"
    } else {
        "cmpl-llmpager"
    };
    let object: &str = if chat {
        "chat.completion"
    } else {
        "text_completion"
    };
    Fields::new().with("choices", one(choice)).with("id", text(id)).with(
        "llmpager",
        perf.json(),
    ).with("model", text(model)).with("object", text(object)).with("usage", usage.json()).object()
}

/// One stream of a batch: its text and token counts.
#[derive(Debug)]
pub struct BatchResult {
    pub text: String,
    pub usage: Usage,
}

/// The choices of a batch: one for each stream.
pub open spec fn batch_choices(results: Seq<BatchResult>) -> Seq<JsonTree> {
    Seq::new(
        results.len(),
        |i: int|
            JsonTree::Object(
                Seq::empty()
                    .push(("finish_reason"@, JsonTree::Str("stop"@)))
                    .push(("index"@, JsonTree::Uint(i as u64)))
                    .push(("text"@, JsonTree::Str(results[i].text@))),
            ),
    )
}

/// Prompt tokens of the first `n` streams.
pub open spec fn prompt_sum(results: Seq<BatchResult>, n: nat) -> nat
    decreases n,
{
    if n == 0 {
        0
    } else {
        prompt_sum(results, (n - 1) as nat) + results[n - 1].usage.prompt as nat
    }
}

/// Generated tokens of the first `n` streams.
pub open spec fn completion_sum(results: Seq<BatchResult>, n: nat) -> nat
    decreases n,
{
    if n == 0 {
        0
    } else {
        completion_sum(results, (n - 1) as nat) + results[n - 1].usage.completion as nat
    }
}

/// Token counts of a batch; `None` where they are beyond counting.
pub fn batch_usage(results: &Vec<BatchResult>) -> (usage: Option<Usage>)
    ensures
        ({
            let p = prompt_sum(results@, results@.len());
            let c = completion_sum(results@, results@.len());
            match usage {
                Some(u) => u.prompt == p && u.completion == c && p + c <= u64::MAX,
                None => p + c > u64::MAX,
            }
        }),
{
    let mut p: u64 = 0;
    let mut c: u64 = 0;
    let mut i: usize = 0;
    while i < results.len()
        invariant
            i <= results@.len(),
            p == prompt_sum(results@, i as nat),
            c == completion_sum(results@, i as nat),
            p + c <= u64::MAX,
        decreases results@.len() - i,
    {
        let u: Usage = results[i].usage;
        proof {
            lemma_sums_grow(results@, (i + 1) as nat, results@.len());
        }
        let room: u64 = u64::MAX - p - c;
        if u.prompt > room || u.completion > room - u.prompt {
            return None;
        }
        p = p + u.prompt;
        c = c + u.completion;
        i += 1;
    }
    Some(Usage { prompt: p, completion: c })
}

proof fn lemma_sums_grow(results: Seq<BatchResult>, i: nat, n: nat)
    requires
        i <= n,
    ensures
        prompt_sum(results, i) <= prompt_sum(results, n),
        completion_sum(results, i) <= completion_sum(results, n),
    decreases n,
{
    if i < n {
        lemma_sums_grow(results, i, (n - 1) as nat);
    }
}

/// A finished batch; timing as bits of doubles.
pub open spec fn batch_tree(
    model: Seq<char>,
    results: Seq<BatchResult>,
    usage: Usage,
    seconds: u64,
    aggregate: u64,
) -> JsonTree {
    JsonTree::Object(
        Seq::empty()
            .push(("choices"@, JsonTree::Array(batch_choices(results))))
            .push(("id"@, JsonTree::Str("cmpl-llmpager"@)))
            .push(
                (
                    "llmpager"@,
                    JsonTree::Object(
                        Seq::empty()
                            .push(("seconds"@, JsonTree::Float(seconds)))
                            .push(("streams"@, JsonTree::Uint(results.len() as u64)))
                            .push(("tok_per_sec_aggregate"@, JsonTree::Float(aggregate))),
                    ),
                ),
            )
            .push(("model"@, JsonTree::Str(model)))
            .push(("object"@, JsonTree::Str("text_completion"@)))
            .push(("usage"@, usage.tree())),
    )
}

/// A finished batch.
pub fn batch_response(
    model: &str,
    results: &Vec<BatchResult>,
    usage: &Usage,
    seconds: u64,
    aggregate: u64,
) -> (json: Json)
    requires
        usage.prompt + usage.completion <= u64::MAX,
    ensures
        json@ == batch_tree(model@, results@, *usage, seconds, aggregate),
{
    let mut choices: Vec<Json> = Vec::new();
    let mut i: usize = 0;
    while i < results.len()
        invariant
            i <= results@.len(),
            choices@.len() == i,
            forall|k: int|
                0 <= k < i ==> (#[trigger] choices@[k])@ == batch_choices(results@)[k],
        decreases results@.len() - i,
    {
        let choice: Json = Fields::new().with("finish_reason", text("stop")).with(
            "index",
            Json::Uint(i as u64),
        ).with("text", text(results[i].text.as_str())).object();
        choices.push(choice);
        i += 1;
    }
    assert(trees(choices@) =~= batch_choices(results@));
    let perf: Json = Fields::new().with("seconds", Json::Float(seconds)).with(
        "streams",
        Json::Uint(results.len() as u64),
    ).with("tok_per_sec_aggregate", Json::Float(aggregate)).object();
    Fields::new().with("choices", Json::Array(choices)).with("id", text("cmpl-llmpager")).with(
        "llmpager",
        perf,
    ).with("model", text(model)).with("object", text("text_completion")).with(
        "usage",
        usage.json(),
    ).object()
}

/// The object that a streamed event is.
pub open spec fn event_name(chat: bool) -> Seq<char> {
    if chat {
        "chat.completion.chunk"@
    } else {
        "text_completion"@
    }
}

/// A streamed event with one choice.
pub open spec fn event_tree(chat: bool, model: Seq<char>, choice: JsonTree) -> JsonTree {
    JsonTree::Object(
        Seq::empty()
            .push(("choices"@, JsonTree::Array(seq![choice])))
            .push(("model"@, JsonTree::Str(model)))
            .push(("object"@, JsonTree::Str(event_name(chat)))),
    )
}

fn event(chat: bool, model: &str, choice: Json) -> (json: Json)
    ensures
        json@ == event_tree(chat, model@, choice@),
{
    let object: &str = if chat {
        "chat.completion.chunk"
    } else {
        "text_completion"
    };
    Fields::new().with("choices", one(choice)).with("model", text(model)).with(
        "object",
        text(object),
    ).object()
}

/// The choice of the event that says who speaks.
pub open spec fn role_choice() -> JsonTree {
    JsonTree::Object(
        Seq::empty()
            .push(("delta"@, JsonTree::Object(seq![("role"@, JsonTree::Str("assistant"@))])))
            .push(("index"@, JsonTree::Uint(0))),
    )
}

/// The first event of a streamed chat: who speaks.
pub fn role_event(model: &str) -> (json: Json)
    ensures
        json@ == event_tree(true, model@, role_choice()),
{
    let delta: Json = Fields::new().with("role", text("assistant")).object();
    event(true, model, Fields::new().with("delta", delta).with("index", Json::Uint(0)).object())
}

/// The choice of an event that carries a text fragment.
pub open spec fn piece_choice(chat: bool, piece: Seq<char>) -> JsonTree {
    if chat {
        JsonTree::Object(
            Seq::empty()
                .push(("delta"@, JsonTree::Object(seq![("content"@, JsonTree::Str(piece))])))
                .push(("index"@, JsonTree::Uint(0))),
        )
    } else {
        JsonTree::Object(
            Seq::empty().push(("index"@, JsonTree::Uint(0))).push(("text"@, JsonTree::Str(piece))),
        )
    }
}

/// An event that carries a text fragment.
pub fn piece_event(chat: bool, model: &str, piece: &str) -> (json: Json)
    ensures
        json@ == event_tree(chat, model@, piece_choice(chat, piece@)),
{
    let choice: Json = if chat {
        let delta: Json = Fields::new().with("content", text(piece)).object();
        Fields::new().with("delta", delta).with("index", Json::Uint(0)).object()
    } else {
        Fields::new().with("index", Json::Uint(0)).with("text", text(piece)).object()
    };
    event(chat, model, choice)
}

/// The choice of the last event.
pub open spec fn done_choice(chat: bool) -> JsonTree {
    if chat {
        JsonTree::Object(
            Seq::empty()
                .push(("delta"@, JsonTree::Object(Seq::empty())))
                .push(("finish_reason"@, JsonTree::Str("stop"@)))
                .push(("index"@, JsonTree::Uint(0))),
        )
    } else {
        JsonTree::Object(
            Seq::empty()
                .push(("finish_reason"@, JsonTree::Str("stop"@)))
                .push(("index"@, JsonTree::Uint(0)))
                .push(("text"@, JsonTree::Str(""@))),
        )
    }
}

/// The last event of a stream.
pub open spec fn done_tree(chat: bool, model: Seq<char>, usage: Usage, perf: Perf) -> JsonTree {
    JsonTree::Object(
        Seq::empty()
            .push(("choices"@, JsonTree::Array(seq![done_choice(chat)])))
            .push(("llmpager"@, perf.tree()))
            .push(("model"@, JsonTree::Str(model)))
            .push(("object"@, JsonTree::Str(event_name(chat))))
            .push(("usage"@, usage.tree())),
    )
}

/// The last event of a stream: usage and timing.
pub fn done_event(chat: bool, model: &str, usage: &Usage, perf: &Perf) -> (json: Json)
    requires
        usage.prompt + usage.completion <= u64::MAX,
    ensures
        json@ == done_tree(chat, model@, *usage, *perf),
{
    let choice: Json = if chat {
        Fields::new().with("delta", Fields::new().object()).with(
            "finish_reason",
            text("stop"),
        ).with("index", Json::Uint(0)).object()
    } else {
        Fields::new().with("finish_reason", text("stop")).with("index", Json::Uint(0)).with(
            "text",
            text(""),
        ).object()
    };
    let object: &str = if chat {
        "chat.completion.chunk"
    } else {
        "text_completion"
    };
    Fields::new().with("choices", one(choice)).with("llmpager", perf.json()).with(
        "model",
        text(model),
    ).with("object", text(object)).with("usage", usage.json()).object()
}

/// A list of documents.
pub open spec fn list_tree(data: Seq<JsonTree>) -> JsonTree {
    JsonTree::Object(Seq::empty()
        .push(("data"@, JsonTree::Array(data)))
        .push(("object"@, JsonTree::Str("list"@))))
}

/// What is said of a model: whether it is warm, and how many slots per layer
/// it has.
pub open spec fn model_tree(name: Seq<char>, warm: Seq<(Seq<char>, u32)>) -> JsonTree {
    let at = warm_index(warm, name, 0);
    JsonTree::Object(
        Seq::empty()
            .push(("id"@, JsonTree::Str(name)))
            .push(("object"@, JsonTree::Str("model"@)))
            .push(("owned_by"@, JsonTree::Str("llmpager"@)))
            .push(
                (
                    "slots"@,
                    match at {
                        Some(i) => JsonTree::Uint(warm[i as int].1 as u64),
                        None => JsonTree::Null,
                    },
                ),
            )
            .push(("warm"@, JsonTree::Bool(at is Some))),
    )
}

/// The models that the server offers.
pub fn models_response(registry: &Registry) -> (json: Json)
    ensures
        json@ == list_tree(
            Seq::new(
                registry@.specs.len(),
                |i: int| model_tree(registry@.specs[i].name@, registry@.warm),
            ),
        ),
{
    let ghost want = Seq::new(
        registry@.specs.len(),
        |i: int| model_tree(registry@.specs[i].name@, registry@.warm),
    );
    let specs = registry.specs();
    let mut data: Vec<Json> = Vec::new();
    let mut i: usize = 0;
    while i < specs.len()
        invariant
            i <= specs@.len(),
            specs@ == registry@.specs,
            data@.len() == i,
            forall|k: int|
                0 <= k < i ==> (#[trigger] data@[k])@ == model_tree(
                    registry@.specs[k].name@,
                    registry@.warm,
                ),
        decreases specs@.len() - i,
    {
        let name: &str = specs[i].name.as_str();
        let (slots, warm): (Json, bool) = match registry.warm_position(name) {
            Some(at) => (Json::Uint(registry.warm_at(at).1 as u64), true),
            None => (Json::Null, false),
        };
        let model: Json = Fields::new().with("id", text(name)).with("object", text("model")).with(
            "owned_by",
            text("llmpager"),
        ).with("slots", slots).with("warm", Json::Bool(warm)).object();
        data.push(model);
        i += 1;
    }
    assert(trees(data@) =~= want);
    Fields::new().with("data", Json::Array(data)).with("object", text("list")).object()
}

/// The warm models and their slots per layer.
pub open spec fn warm_trees(warm: Seq<(Seq<char>, u32)>) -> Seq<JsonTree> {
    Seq::new(
        warm.len(),
        |i: int|
            JsonTree::Object(
                Seq::empty()
                    .push(("model"@, JsonTree::Str(warm[i].0)))
                    .push(("slots"@, JsonTree::Uint(warm[i].1 as u64))),
            ),
    )
}

/// Memory of the card in millions of bytes, and the warm models.
pub open spec fn vram_tree(warm: Seq<(Seq<char>, u32)>, free: u64, total: u64) -> JsonTree {
    JsonTree::Object(
        Seq::empty()
            .push(("free_mb"@, JsonTree::Uint(free / 1_000_000)))
            .push(("total_mb"@, JsonTree::Uint(total / 1_000_000)))
            .push(("warm"@, JsonTree::Array(warm_trees(warm)))),
    )
}

/// Free and total memory of the card, and the caches of the warm models.
pub fn vram_response(registry: &Registry, free: u64, total: u64) -> (json: Json)
    ensures
        json@ == vram_tree(registry@.warm, free, total),
{
    let n: usize = registry.warm_count();
    let mut warm: Vec<Json> = Vec::new();
    let mut i: usize = 0;
    while i < n
        invariant
            i <= n,
            n == registry@.warm.len(),
            warm@.len() == i,
            forall|k: int|
                0 <= k < i ==> (#[trigger] warm@[k])@ == warm_trees(registry@.warm)[k],
        decreases n - i,
    {
        let (name, slots) = registry.warm_at(i);
        let w: Json = Fields::new().with("model", text(name)).with(
            "slots",
            Json::Uint(slots as u64),
        ).object();
        warm.push(w);
        i += 1;
    }
    assert(trees(warm@) =~= warm_trees(registry@.warm));
    Fields::new().with("free_mb", Json::Uint(free / 1_000_000)).with(
        "total_mb",
        Json::Uint(total / 1_000_000),
    ).with("warm", Json::Array(warm)).object()
}

/// What is said of a session.
pub open spec fn session_tree(id: Seq<char>, model: Seq<char>, s: SessionView) -> JsonTree {
    JsonTree::Object(
        Seq::empty()
            .push(("id"@, JsonTree::Str(id)))
            .push(("model"@, JsonTree::Str(model)))
            .push(("parked_bytes"@, JsonTree::Uint(parked_size(s) as u64)))
            .push(("resident"@, JsonTree::Bool(s.slot is Some)))
            .push(
                (
                    "slot"@,
                    match s.slot {
                        Some(n) => JsonTree::Uint(n as u64),
                        None => JsonTree::Null,
                    },
                ),
            )
            .push(("tokens"@, JsonTree::Uint(s.tokens.len() as u64)))
            .push(("turns"@, JsonTree::Uint(s.turns as u64))),
    )
}

/// What is said of one session of a model.
pub fn session_json(id: &str, model: &str, s: &Session) -> (json: Json)
    ensures
        json@ == session_tree(id@, model@, s@),
{
    let parked: u64 = match &s.parked {
        Some(b) => b.len() as u64,
        None => 0,
    };
    let (slot, resident): (Json, bool) = match s.slot {
        Some(n) => (Json::Uint(n as u64), true),
        None => (Json::Null, false),
    };
    Fields::new().with("id", text(id)).with("model", text(model)).with(
        "parked_bytes",
        Json::Uint(parked),
    ).with("resident", Json::Bool(resident)).with("slot", slot).with(
        "tokens",
        Json::Uint(s.tokens.len() as u64),
    ).with("turns", Json::Uint(s.turns)).object()
}

/// The sessions of one model, in ascending order of ids.
pub open spec fn session_trees(model: Seq<char>, store: SessionStore) -> Seq<JsonTree> {
    Seq::new(
        store.ids().len(),
        |i: int| session_tree(store.ids()[i], model, store@.sessions[store.ids()[i]]),
    )
}

/// Appends the sessions of one model to a list.
pub fn push_sessions(data: &mut Vec<Json>, model: &str, store: &SessionStore)
    requires
        store.wf(),
    ensures
        trees(final(data)@) == trees(old(data)@) + session_trees(model@, *store),
{
    let n: usize = store.len();
    let ghost all = session_trees(model@, *store);
    let mut i: usize = 0;
    assert(trees(data@) =~= trees(old(data)@) + all.take(0));
    while i < n
        invariant
            i <= n,
            store.wf(),
            n == store.ids().len(),
            all == session_trees(model@, *store),
            trees(data@) == trees(old(data)@) + all.take(i as int),
        decreases n - i,
    {
        let (id, s) = store.at(i);
        let ghost before = data@;
        let json: Json = session_json(id, model, s);
        data.push(json);
        i += 1;
        assert(trees(data@) =~= trees(before).push(json@));
        assert(all.take(i as int) =~= all.take(i - 1).push(all[i - 1]));
        assert(trees(data@) =~= trees(old(data)@) + all.take(i as int));
    }
    assert(all.take(n as int) =~= all);
}

/// A list of documents.
pub fn list_response(data: Vec<Json>) -> (json: Json)
    ensures
        json@ == list_tree(trees(data@)),
{
    Fields::new().with("data", Json::Array(data)).with("object", text("list")).object()
}

/// Whether a session was forgotten.
pub open spec fn deleted_tree(id: Seq<char>, deleted: bool) -> JsonTree {
    JsonTree::Object(
        Seq::empty()
            .push(("deleted"@, JsonTree::Bool(deleted)))
            .push(("id"@, JsonTree::Str(id))),
    )
}

/// Whether a session was forgotten.
pub fn deleted_response(id: &str, deleted: bool) -> (json: Json)
    ensures
        json@ == deleted_tree(id@, deleted),
{
    Fields::new().with("deleted", Json::Bool(deleted)).with("id", text(id)).object()
}

} // verus!
