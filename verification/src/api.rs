//! The OpenAI-compatible surface: which endpoint a request asks for, what a
//! completion request says, and the prompt it stands for.
//!
//! Endpoints:
//!   GET    /v1/models
//!   POST   /v1/completions        {"model": "...", "prompt": "...", "max_tokens": N}
//!   POST   /v1/chat/completions   {"model": "...", "messages": [...], "max_tokens": N}
//!   GET    /v1/admin/vram
//!   POST   /v1/admin/slots        {"target": N} or {"reserve_mb": N}
//!   GET    /v1/sessions
//!   DELETE /v1/sessions/ID

use crate::json::{
    json_document, parse_json, trees, Json, JsonNumber, JsonTree,
};
use crate::text::{after_prefix, chars_of, same_text, string_of, strip_prefix};
use vstd::prelude::*;
use vstd::string::*;

verus! {

/// What a request asks for.
#[derive(Debug)]
pub enum Endpoint {
    Models,
    Completions { chat: bool },
    AdminVram,
    AdminSlots,
    Sessions,
    DeleteSession { id: String },
    Unknown,
}

/// What a request asks for, mathematically.
pub enum EndpointView {
    Models,
    Completions { chat: bool },
    AdminVram,
    AdminSlots,
    Sessions,
    DeleteSession { id: Seq<char> },
    Unknown,
}

impl Endpoint {
    pub open spec fn view(self) -> EndpointView {
        match self {
            Endpoint::Models => EndpointView::Models,
            Endpoint::Completions { chat } => EndpointView::Completions { chat },
            Endpoint::AdminVram => EndpointView::AdminVram,
            Endpoint::AdminSlots => EndpointView::AdminSlots,
            Endpoint::Sessions => EndpointView::Sessions,
            Endpoint::DeleteSession { id } => EndpointView::DeleteSession { id: id@ },
            Endpoint::Unknown => EndpointView::Unknown,
        }
    }
}

/// The endpoint of a method and a URL.
pub open spec fn routed(method: Seq<char>, url: Seq<char>) -> EndpointView {
    if method == "GET"@ && url == "/v1/models"@ {
        EndpointView::Models
    } else if method == "POST"@ && url == "/v1/completions"@ {
        EndpointView::Completions { chat: false }
    } else if method == "POST"@ && url == "/v1/chat/completions"@ {
        EndpointView::Completions { chat: true }
    } else if method == "GET"@ && url == "/v1/admin/vram"@ {
        EndpointView::AdminVram
    } else if method == "POST"@ && url == "/v1/admin/slots"@ {
        EndpointView::AdminSlots
    } else if method == "GET"@ && url == "/v1/sessions"@ {
        EndpointView::Sessions
    } else if method == "DELETE"@ {
        match after_prefix(url, "/v1/sessions/"@) {
            Some(id) => EndpointView::DeleteSession { id },
            None => EndpointView::Unknown,
        }
    } else {
        EndpointView::Unknown
    }
}

/// The endpoint of a method and a URL.
pub fn route(method: &str, url: &str) -> (e: Endpoint)
    ensures
        e@ == routed(method@, url@),
{
    let get: bool = same_text(method, "GET");
    let post: bool = same_text(method, "POST");
    if get && same_text(url, "/v1/models") {
        return Endpoint::Models;
    }
    if post && same_text(url, "/v1/completions") {
        return Endpoint::Completions { chat: false };
    }
    if post && same_text(url, "/v1/chat/completions") {
        return Endpoint::Completions { chat: true };
    }
    if get && same_text(url, "/v1/admin/vram") {
        return Endpoint::AdminVram;
    }
    if post && same_text(url, "/v1/admin/slots") {
        return Endpoint::AdminSlots;
    }
    if get && same_text(url, "/v1/sessions") {
        return Endpoint::Sessions;
    }
    if same_text(method, "DELETE") {
        let chars: Vec<char> = chars_of(url);
        if let Some(id) = strip_prefix(chars.as_slice(), "/v1/sessions/") {
            return Endpoint::DeleteSession { id: string_of(id) };
        }
    }
    Endpoint::Unknown
}

/// Why a request is refused.
#[derive(Debug, Clone, Copy, PartialEq, Eq, Structural)]
pub enum RequestError {
    BadJson,
    MissingMessages,
    MissingPrompt,
    /// Batch streams occupy the sequence slots sessions live in.
    SessionWithBatch,
    /// Neither a target slot count nor a free-VRAM target.
    NoTarget,
    /// A free-VRAM target beyond any memory.
    ReserveTooLarge,
}

/// OpenAI-style sampling fields, as given; absent fields keep greedy defaults.
#[derive(Debug, Clone, Copy, PartialEq, Eq, Structural)]
pub struct SamplingRequest {
    pub temperature: Option<JsonNumber>,
    pub top_p: Option<JsonNumber>,
    pub top_k: usize,
    pub repeat_penalty: Option<JsonNumber>,
    pub seed: u64,
}

/// The sampling fields of a request.
pub open spec fn sampling_of(req: JsonTree) -> SamplingRequest {
    SamplingRequest {
        temperature: req.number_at("temperature"@),
        top_p: req.number_at("top_p"@),
        top_k: match req.uint_at("top_k"@) {
            Some(n) => n as usize,
            None => 0,
        },
        repeat_penalty: req.number_at("repetition_penalty"@),
        seed: match req.uint_at("seed"@) {
            Some(n) => n,
            None => 0x5eed,
        },
    }
}

/// The number that a member is; nothing where there is no member, or one that
/// is no number.
pub open spec fn given_number(value: Option<JsonTree>) -> Option<JsonNumber> {
    match value {
        Some(JsonTree::Uint(n)) => Some(JsonNumber::Uint(n)),
        Some(JsonTree::Int(n)) => Some(JsonNumber::Int(n)),
        Some(JsonTree::Float(bits)) => Some(JsonNumber::Float(bits)),
        _ => None,
    }
}

/// Reads the sampling fields of a request, each from the member of its own
/// name and from no other.
#[verifier::truncate]
pub fn sampling_from_request(req: &Json) -> (s: SamplingRequest)
    ensures
        s == sampling_of(req@),
        s.temperature == given_number(req@.member("temperature"@)),
        s.top_p == given_number(req@.member("top_p"@)),
        s.repeat_penalty == given_number(req@.member("repetition_penalty"@)),
        match req@.member("top_k"@) {
            Some(JsonTree::Uint(n)) => s.top_k == n as usize,
            _ => s.top_k == 0,
        },
        match req@.member("seed"@) {
            Some(JsonTree::Uint(n)) => s.seed == n,
            _ => s.seed == 0x5eed,
        },
        forall|other: JsonTree| #[trigger]
            other.member("temperature"@) == req@.member("temperature"@) ==> sampling_of(
                other,
            ).temperature == s.temperature,
        forall|other: JsonTree| #[trigger]
            other.member("top_p"@) == req@.member("top_p"@) ==> sampling_of(other).top_p == s.top_p,
        forall|other: JsonTree| #[trigger]
            other.member("top_k"@) == req@.member("top_k"@) ==> sampling_of(other).top_k == s.top_k,
        forall|other: JsonTree| #[trigger]
            other.member("repetition_penalty"@) == req@.member("repetition_penalty"@)
                ==> sampling_of(other).repeat_penalty == s.repeat_penalty,
        forall|other: JsonTree| #[trigger]
            other.member("seed"@) == req@.member("seed"@) ==> sampling_of(other).seed == s.seed,
{
    SamplingRequest {
        temperature: req.get_number("temperature"),
        top_p: req.get_number("top_p"),
        top_k: match req.get_u64("top_k") {
            Some(n) => n as usize,
            None => 0,
        },
        repeat_penalty: req.get_number("repetition_penalty"),
        seed: match req.get_u64("seed") {
            Some(n) => n,
            None => 0x5eed,
        },
    }
}

/// A completion request, but for its prompt.
#[derive(Debug)]
pub struct CompletionRequest {
    pub model: String,
    pub stream: bool,
    pub max_tokens: usize,
    pub sampling: SamplingRequest,
    /// A named context. Two requests naming the same session share KV:
    /// continuations skip re-prefilling the conversation, and fan-outs behind
    /// one system prompt skip re-prefilling it.
    pub session: Option<String>,
}

/// The session that a request names.
pub open spec fn session_of(req: JsonTree) -> Option<Seq<char>> {
    match req.text_at("session"@) {
        Some(s) => Some(s),
        None => req.text_at("session_id"@),
    }
}

impl CompletionRequest {
    /// This is what `req` says, on a server whose default model is
    /// `default_model`.
    pub open spec fn reads(self, req: JsonTree, chat: bool, default_model: Seq<char>) -> bool {
        &&& self.model@ == (match req.text_at("model"@) {
            Some(m) => m,
            None => default_model,
        })
        &&& self.stream == (req.flag_at("stream"@) == Some(true))
        &&& self.max_tokens == (match req.uint_at("max_tokens"@) {
            Some(n) => n as usize,
            None => if chat {
                256
            } else {
                128
            },
        })
        &&& self.sampling == sampling_of(req)
        &&& match (self.session, session_of(req)) {
            (Some(a), Some(b)) => a@ == b,
            (None, None) => true,
            _ => false,
        }
    }

    /// Reads a parsed completion request.
    #[verifier::truncate]
    pub fn from_json(req: &Json, chat: bool, default_model: &str) -> (r: Self)
        ensures
            r.reads(req@, chat, default_model@),
            match req@.member("model"@) {
                Some(JsonTree::Str(m)) => r.model@ == m,
                _ => r.model@ == default_model@,
            },
            r.stream <==> req@.member("stream"@) == Some(JsonTree::Bool(true)),
            match req@.member("max_tokens"@) {
                Some(JsonTree::Uint(n)) => r.max_tokens == n as usize,
                _ => r.max_tokens == (if chat {
                    256
                } else {
                    128int
                }),
            },
            match (req@.member("session"@), req@.member("session_id"@)) {
                (Some(JsonTree::Str(a)), _) => r.session matches Some(s) && s@ == a,
                (_, Some(JsonTree::Str(b))) => r.session matches Some(s) && s@ == b,
                _ => r.session is None,
            },
            r.sampling.top_p == given_number(req@.member("top_p"@)),
            r.sampling.temperature == given_number(req@.member("temperature"@)),
            r.sampling.repeat_penalty == given_number(req@.member("repetition_penalty"@)),
    {
        let model: String = match req.get_str("model") {
            Some(m) => m.to_owned(),
            None => default_model.to_owned(),
        };
        let stream: bool = match req.get_bool("stream") {
            Some(b) => b,
            None => false,
        };
        let max_tokens: usize = match req.get_u64("max_tokens") {
            Some(n) => n as usize,
            None => if chat {
                256
            } else {
                128
            },
        };
        let session: Option<String> = match req.get_str("session") {
            Some(s) => Some(s.to_owned()),
            None => match req.get_str("session_id") {
                Some(s) => Some(s.to_owned()),
                None => None,
            },
        };
        CompletionRequest {
            model,
            stream,
            max_tokens,
            sampling: sampling_from_request(req),
            session,
        }
    }
}

/// Reads the body of a request.
pub fn parse_body(body: &str) -> (req: Result<Json, RequestError>)
    ensures
        match json_document(vstd::utf8::encode_utf8(body@)) {
            Some(tree) => req matches Ok(json) && json@ == tree,
            None => req matches Err(e) && e == RequestError::BadJson,
        },
{
    match parse_json(body.as_bytes()) {
        Some(json) => Ok(json),
        None => Err(RequestError::BadJson),
    }
}

/// The texts in the first `n` items of a list.
pub open spec fn texts_in(items: Seq<JsonTree>, n: nat) -> Seq<Seq<char>>
    decreases n,
{
    if n == 0 {
        Seq::empty()
    } else {
        match items[n - 1].as_text() {
            Some(s) => texts_in(items, (n - 1) as nat).push(s),
            None => texts_in(items, (n - 1) as nat),
        }
    }
}

/// The prompts of a batch (completions only): "prompt" as an array of more
/// than one text, or n > 1 duplicating one prompt.
pub open spec fn batch_of(req: JsonTree) -> Option<Seq<Seq<char>>> {
    let n = match req.uint_at("n"@) {
        Some(n) => n as usize,
        None => 1,
    };
    match req.items_at("prompt"@) {
        Some(items) => if texts_in(items, items.len()).len() > 1 {
            Some(texts_in(items, items.len()))
        } else {
            None
        },
        None => if n > 1 {
            match req.text_at("prompt"@) {
                Some(p) => Some(Seq::new(n as nat, |i: int| p)),
                None => None,
            }
        } else {
            None
        },
    }
}

pub open spec fn string_views(list: Seq<String>) -> Seq<Seq<char>> {
    Seq::new(list.len(), |i: int| list[i]@)
}

/// The prompts of a batch, where the request has the form of one. A chat or a
/// stream never is a batch, and a batch has no session.
#[verifier::truncate]
pub fn batch_prompts(req: &Json, chat: bool, stream: bool, session: bool) -> (prompts: Result<
    Option<Vec<String>>,
    RequestError,
>)
    ensures
        match prompts {
            Ok(Some(list)) => {
                &&& !chat && !stream && !session
                &&& batch_of(req@) == Some(string_views(list@))
            },
            Ok(None) => chat || stream || batch_of(req@) is None,
            Err(e) => {
                &&& e == RequestError::SessionWithBatch
                &&& !chat && !stream && session
                &&& batch_of(req@) is Some
            },
        },
{
    if chat || stream {
        return Ok(None);
    }
    let n: usize = match req.get_u64("n") {
        Some(n) => n as usize,
        None => 1,
    };
    let mut list: Vec<String> = Vec::new();
    match req.get_array("prompt") {
        Some(items) => {
            let ghost all = trees(items@);
            let mut i: usize = 0;
            assert(string_views(list@) =~= texts_in(all, 0));
            while i < items.len()
                invariant
                    i <= items@.len(),
                    all == trees(items@),
                    string_views(list@) == texts_in(all, i as nat),
                decreases items@.len() - i,
            {
                assert(all[i as int] == items@[i as int]@);
                if let Some(s) = items[i].as_str() {
                    let ghost before = list@;
                    list.push(s.to_owned());
                    assert(string_views(list@) =~= string_views(before).push(s@));
                }
                i += 1;
            }
            if list.len() <= 1 {
                return Ok(None);
            }
        },
        None => {
            if n <= 1 {
                return Ok(None);
            }
            match req.get_str("prompt") {
                Some(p) => {
                    if session {
                        return Err(RequestError::SessionWithBatch);
                    }
                    let mut i: usize = 0;
                    while i < n
                        invariant
                            i <= n,
                            list@.len() == i,
                            forall|k: int| 0 <= k < i ==> (#[trigger] list@[k])@ == p@,
                        decreases n - i,
                    {
                        list.push(p.to_owned());
                        i += 1;
                    }
                    assert(string_views(list@) =~= Seq::new(n as nat, |k: int| p@));
                },
                None => {
                    return Ok(None);
                },
            }
        },
    }
    if session {
        return Err(RequestError::SessionWithBatch);
    }
    Ok(Some(list))
}

/// The role of a message.
pub open spec fn role_of(m: JsonTree) -> Seq<char> {
    match m.text_at("role"@) {
        Some(s) => s,
        None => "user"@,
    }
}

/// The content of a message.
pub open spec fn content_of(m: JsonTree) -> Seq<char> {
    match m.text_at("content"@) {
        Some(s) => s,
        None => ""@,
    }
}

/// The first `n` messages in the ChatML-style template.
pub open spec fn chatml(messages: Seq<JsonTree>, n: nat) -> Seq<char>
    decreases n,
{
    if n == 0 {
        Seq::empty()
    } else {
        let m = messages[n - 1];
        chatml(messages, (n - 1) as nat) + "<|im_start|>"@ + role_of(m) + "\n"@ + content_of(m)
            + "<|im_end|>\n"@
    }
}

/// A conversation in the ChatML-style template, up to the assistant's turn.
pub open spec fn chatml_prompt(messages: Seq<JsonTree>) -> Seq<char> {
    chatml(messages, messages.len()) + "<|im_start|>assistant\n"@
}

fn text_or<'a>(m: &'a Json, key: &str, default: &'a str) -> (s: &'a str)
    ensures
        s@ == (match m@.text_at(key@) {
            Some(s) => s,
            None => default@,
        }),
{
    match m.get_str(key) {
        Some(s) => s,
        None => default,
    }
}

/// Qwen3 ChatML-style template.
pub fn chat_prompt(messages: &Vec<Json>) -> (s: String)
    ensures
        s@ == chatml_prompt(trees(messages@)),
{
    let ghost all = trees(messages@);
    let mut s: String = String::new();
    let mut i: usize = 0;
    while i < messages.len()
        invariant
            i <= messages@.len(),
            all == trees(messages@),
            s@ == chatml(all, i as nat),
        decreases messages@.len() - i,
    {
        let m: &Json = &messages[i];
        assert(all[i as int] == m@);
        s.append("<|im_start|>");
        s.append(text_or(m, "role", "user"));
        s.append("\n");
        s.append(text_or(m, "content", ""));
        s.append("<|im_end|>\n");
        i += 1;
    }
    s.append("<|im_start|>assistant\n");
    s
}

/// The marker in front of a role.
pub open spec fn kimi_marker(role: Seq<char>) -> Seq<char> {
    if role == "user"@ {
        "<|im_user|>"@
    } else if role == "assistant"@ {
        "<|im_assistant|>"@
    } else {
        "<|im_system|>"@
    }
}

/// The first `n` messages in the Kimi template: role marker, name,
/// `<|im_middle|>`, content, `<|im_end|>`.
pub open spec fn kimi_turns(messages: Seq<JsonTree>, n: nat) -> Seq<char>
    decreases n,
{
    if n == 0 {
        Seq::empty()
    } else {
        let m = messages[n - 1];
        kimi_turns(messages, (n - 1) as nat) + kimi_marker(role_of(m)) + role_of(m)
            + "<|im_middle|>"@ + content_of(m) + "<|im_end|>"@
    }
}

/// A conversation in the Kimi template, up to the assistant's turn.
pub open spec fn kimi_prompt(messages: Seq<JsonTree>) -> Seq<char> {
    kimi_turns(messages, messages.len()) + "<|im_assistant|>assistant<|im_middle|>"@
}

/// Kimi K2.x template.
pub fn kimi_chat_prompt(messages: &Vec<Json>) -> (s: String)
    ensures
        s@ == kimi_prompt(trees(messages@)),
{
    let ghost all = trees(messages@);
    let mut s: String = String::new();
    let mut i: usize = 0;
    while i < messages.len()
        invariant
            i <= messages@.len(),
            all == trees(messages@),
            s@ == kimi_turns(all, i as nat),
        decreases messages@.len() - i,
    {
        let m: &Json = &messages[i];
        assert(all[i as int] == m@);
        let role: &str = text_or(m, "role", "user");
        let marker: &str = if same_text(role, "user") {
            "<|im_user|>"
        } else if same_text(role, "assistant") {
            "<|im_assistant|>"
        } else {
            "<|im_system|>"
        };
        s.append(marker);
        s.append(role);
        s.append("<|im_middle|>");
        s.append(text_or(m, "content", ""));
        s.append("<|im_end|>");
        i += 1;
    }
    s.append("<|im_assistant|>assistant<|im_middle|>");
    s
}

/// The prompt of a request: the conversation in the model's template, or the
/// text itself.
pub open spec fn prompt_of(req: JsonTree, chat: bool, kimi: bool) -> Result<Seq<char>, RequestError> {
    if chat {
        match req.items_at("messages"@) {
            Some(messages) => Ok(
                if kimi {
                    kimi_prompt(messages)
                } else {
                    chatml_prompt(messages)
                },
            ),
            None => Err(RequestError::MissingMessages),
        }
    } else {
        match req.text_at("prompt"@) {
            Some(p) => Ok(p),
            None => Err(RequestError::MissingPrompt),
        }
    }
}

/// The prompt of a request.
pub fn request_prompt(req: &Json, chat: bool, kimi: bool) -> (prompt: Result<String, RequestError>)
    ensures
        match prompt {
            Ok(p) => prompt_of(req@, chat, kimi) == Ok::<Seq<char>, RequestError>(p@),
            Err(e) => prompt_of(req@, chat, kimi) == Err::<Seq<char>, RequestError>(e),
        },
{
    if chat {
        match req.get_array("messages") {
            Some(messages) => if kimi {
                Ok(kimi_chat_prompt(messages))
            } else {
                Ok(chat_prompt(messages))
            },
            None => Err(RequestError::MissingMessages),
        }
    } else {
        match req.get_str("prompt") {
            Some(p) => Ok(p.to_owned()),
            None => Err(RequestError::MissingPrompt),
        }
    }
}

/// A request to change the caches of the warm models.
#[derive(Debug, Clone, Copy, PartialEq, Eq, Structural)]
pub struct SlotsRequest {
    pub target: Option<u32>,
    /// VRAM to leave free, in bytes.
    pub reserve: Option<u64>,
}

/// What a request to change the caches says.
pub open spec fn slots_of(req: JsonTree) -> Result<SlotsRequest, RequestError> {
    let target = match req.uint_at("target"@) {
        Some(n) => Some(n as u32),
        None => None,
    };
    match req.uint_at("reserve_mb"@) {
        None => if target is None {
            Err(RequestError::NoTarget)
        } else {
            Ok(SlotsRequest { target, reserve: None })
        },
        Some(mb) => if mb * 1_000_000 > u64::MAX {
            Err(RequestError::ReserveTooLarge)
        } else {
            Ok(SlotsRequest { target, reserve: Some((mb * 1_000_000) as u64) })
        },
    }
}

/// Reads a request to change the caches.
#[verifier::truncate]
pub fn slots_from_request(req: &Json) -> (r: Result<SlotsRequest, RequestError>)
    ensures
        r == slots_of(req@),
{
    let target: Option<u32> = match req.get_u64("target") {
        Some(n) => Some(n as u32),
        None => None,
    };
    match req.get_u64("reserve_mb") {
        None => if target.is_none() {
            Err(RequestError::NoTarget)
        } else {
            Ok(SlotsRequest { target, reserve: None })
        },
        Some(mb) => match mb.checked_mul(1_000_000) {
            None => Err(RequestError::ReserveTooLarge),
            Some(bytes) => Ok(SlotsRequest { target, reserve: Some(bytes) }),
        },
    }
}

/// The reserve of an engine after a resize that was asked for with a reserve.
/// One that could not be satisfied is not left armed: the next rebalance would
/// trip over it too.
pub fn reserve_after(previous: u64, asked: Option<u64>, resized: bool) -> (reserve: u64)
    ensures
        reserve == (match asked {
            Some(r) => if resized {
                r
            } else {
                previous
            },
            None => previous,
        }),
{
    match asked {
        Some(r) => if resized {
            r
        } else {
            previous
        },
        None => previous,
    }
}

/// What a completion request has the model do.
#[derive(Debug)]
pub enum Work {
    /// Decode these prompts together.
    Batch(Vec<String>),
    /// Continue this prompt.
    One(String),
}

/// What a completion request has the model do, mathematically.
pub enum WorkView {
    Batch(Seq<Seq<char>>),
    One(Seq<char>),
}

/// What a completion request has the model do, once it is known whether the
/// model is a Kimi; or why it is refused.
pub open spec fn work_of(req: JsonTree, chat: bool, kimi: bool) -> Result<WorkView, RequestError> {
    let stream = req.flag_at("stream"@) == Some(true);
    if !chat && !stream && batch_of(req) is Some {
        if session_of(req) is Some {
            Err(RequestError::SessionWithBatch)
        } else {
            Ok(WorkView::Batch(batch_of(req)->0))
        }
    } else {
        match prompt_of(req, chat, kimi) {
            Ok(p) => Ok(WorkView::One(p)),
            Err(e) => Err(e),
        }
    }
}

/// Decides what a completion request has the model do.
pub fn plan_work(req: &Json, r: &CompletionRequest, chat: bool, kimi: bool) -> (work: Result<
    Work,
    RequestError,
>)
    requires
        exists|default_model: Seq<char>| #[trigger] r.reads(req@, chat, default_model),
    ensures
        match (work, work_of(req@, chat, kimi)) {
            (Ok(Work::Batch(list)), Ok(WorkView::Batch(want))) => string_views(list@) == want,
            (Ok(Work::One(p)), Ok(WorkView::One(want))) => p@ == want,
            (Err(a), Err(b)) => a == b,
            _ => false,
        },
{
    match batch_prompts(req, chat, r.stream, r.session.is_some()) {
        Ok(Some(list)) => Ok(Work::Batch(list)),
        Ok(None) => match request_prompt(req, chat, kimi) {
            Ok(p) => Ok(Work::One(p)),
            Err(e) => Err(e),
        },
        Err(e) => Err(e),
    }
}

/// A server-sent event that carries `data`.
pub open spec fn sse(data: Seq<char>) -> Seq<char> {
    "data: "@ + data + "\n\n"@
}

/// A server-sent event that carries `data`.
pub fn sse_event(data: &str) -> (event: String)
    ensures
        event@ == sse(data@),
{
    let mut s: String = String::from_str("data: ");
    s.append(data);
    s.append("\n\n");
    s
}

/// Bytes that arrive in chunks and are read in pieces.
#[derive(Debug)]
pub struct ChunkBuffer {
    buf: Vec<u8>,
    pos: usize,
}

impl ChunkBuffer {
    /// What is left to read.
    pub closed spec fn view(self) -> Seq<u8> {
        self.buf@.skip(self.pos as int)
    }

    pub closed spec fn wf(self) -> bool {
        self.pos <= self.buf@.len()
    }

    /// Nothing to read.
    pub fn new() -> (b: Self)
        ensures
            b.wf(),
            b@.len() == 0,
    {
        ChunkBuffer { buf: Vec::new(), pos: 0 }
    }

    /// Whether the next chunk is needed.
    pub fn is_drained(&self) -> (yes: bool)
        requires
            self.wf(),
        ensures
            yes == (self@.len() == 0),
    {
        self.pos >= self.buf.len()
    }

    /// Takes the next chunk.
    pub fn refill(&mut self, chunk: Vec<u8>)
        requires
            old(self).wf(),
            old(self)@.len() == 0,
        ensures
            final(self).wf(),
            final(self)@ == chunk@,
    {
        self.buf = chunk;
        self.pos = 0;
        assert(self@ =~= chunk@);
    }

    /// Reads up to `max` bytes, in order, each once.
    pub fn read(&mut self, max: usize) -> (piece: Vec<u8>)
        requires
            old(self).wf(),
        ensures
            final(self).wf(),
            piece@.len() == (if old(self)@.len() <= max {
                old(self)@.len()
            } else {
                max as nat
            }),
            piece@ + final(self)@ == old(self)@,
    {
        let left: usize = self.buf.len() - self.pos;
        let n: usize = if left <= max {
            left
        } else {
            max
        };
        let ghost all = self@;
        let len: usize = self.buf.len();
        let mut piece: Vec<u8> = Vec::new();
        let mut i: usize = 0;
        while i < n
            invariant
                i <= n,
                len == self.buf@.len(),
                self.pos + n <= len,
                all == self.buf@.skip(self.pos as int),
                piece@ == all.take(i as int),
            decreases n - i,
        {
            piece.push(self.buf[self.pos + i]);
            i += 1;
            assert(piece@ =~= all.take(i as int));
        }
        self.pos += n;
        assert(piece@ + self@ =~= all);
        piece
    }
}

} // verus!
