//! Requests, member by member: each field of a request is read from the member
//! of its own name, so that setting one member changes what is read of that
//! one alone.

use crate::api::{
    chatml_prompt, content_of, given_number, kimi_prompt, prompt_of, role_of, routed, sampling_of,
    slots_of, sse, texts_in, work_of, CompletionRequest, EndpointView, RequestError, SlotsRequest,
    WorkView,
};
use crate::json::{find_member, JsonTree};
use vstd::prelude::*;
use vstd::string::*;

verus! {

/// `members` with `value` under `key`, in place of what was there.
pub open spec fn with_member(
    members: Seq<(Seq<char>, JsonTree)>,
    key: Seq<char>,
    value: JsonTree,
) -> JsonTree {
    JsonTree::Object(seq![(key, value)] + members)
}

proof fn lemma_find_behind(
    members: Seq<(Seq<char>, JsonTree)>,
    first: (Seq<char>, JsonTree),
    key: Seq<char>,
    i: nat,
)
    requires
        i <= members.len(),
    ensures
        find_member(seq![first] + members, key, i + 1) == find_member(members, key, i),
    decreases members.len() - i,
{
    let all = seq![first] + members;
    if i < members.len() {
        assert(all[(i + 1) as int] == members[i as int]);
        lemma_find_behind(members, first, key, i + 1);
    }
}

/// An object with a member set has that value under that name, and under every
/// other name what it had.
pub proof fn law_with_member(members: Seq<(Seq<char>, JsonTree)>, key: Seq<char>, value: JsonTree)
    ensures
        forall|k: Seq<char>| #[trigger]
            with_member(members, key, value).member(k) == (if k == key {
                Some(value)
            } else {
                JsonTree::Object(members).member(k)
            }),
{
    assert forall|k: Seq<char>| #[trigger]
        with_member(members, key, value).member(k) == (if k == key {
            Some(value)
        } else {
            JsonTree::Object(members).member(k)
        }) by {
        lemma_find_behind(members, (key, value), k, 0);
    }
}

/// The names of the members that a completion request is read from differ.
proof fn lemma_names_differ()
    ensures
        "temperature"@ != "top_p"@,
        "temperature"@ != "top_k"@,
        "temperature"@ != "repetition_penalty"@,
        "temperature"@ != "seed"@,
        "top_p"@ != "top_k"@,
        "top_p"@ != "repetition_penalty"@,
        "top_p"@ != "seed"@,
        "top_k"@ != "repetition_penalty"@,
        "top_k"@ != "seed"@,
        "repetition_penalty"@ != "seed"@,
{
    reveal_strlit("temperature");
    reveal_strlit("top_p");
    reveal_strlit("top_k");
    reveal_strlit("repetition_penalty");
    reveal_strlit("seed");
    assert("top_p"@[4] == 'p');
    assert("top_k"@[4] == 'k');
    assert("seed"@[0] == 's');
    assert("temperature"@.len() == 11);
    assert("repetition_penalty"@.len() == 18);
}

/// A session is deleted by the id that follows in the path, whatever the id is.
pub proof fn law_sessions_are_deleted_by_id(id: Seq<char>)
    ensures
        routed("DELETE"@, "/v1/sessions/"@ + id) == (EndpointView::DeleteSession { id }),
{
    reveal_strlit("DELETE");
    reveal_strlit("GET");
    reveal_strlit("POST");
    assert("DELETE"@.len() == 6 && "GET"@.len() == 3 && "POST"@.len() == 4);
    let p = "/v1/sessions/"@;
    assert((p + id).take(p.len() as int) =~= p);
    assert((p + id).skip(p.len() as int) =~= id);
}

/// A completion is asked for with POST, a chat under a path of its own; nothing
/// else is one.
pub proof fn law_completions_have_their_paths(method: Seq<char>, url: Seq<char>)
    ensures
        routed(method, url) is Completions <==> method == "POST"@ && (url == "/v1/completions"@
            || url == "/v1/chat/completions"@),
        routed(method, url) matches EndpointView::Completions { chat } ==> (chat <==> url
            == "/v1/chat/completions"@),
{
    reveal_strlit("GET");
    reveal_strlit("POST");
    reveal_strlit("/v1/completions");
    reveal_strlit("/v1/chat/completions");
    assert("GET"@.len() == 3 && "POST"@.len() == 4);
    assert("/v1/completions"@.len() == 15 && "/v1/chat/completions"@.len() == 20);
}

/// An event on the wire is its data, marked as such, and a blank line.
pub proof fn law_events_carry_their_data(data: Seq<char>)
    ensures
        sse(data).len() == data.len() + 8,
        sse(data).take(6) == "data: "@,
        sse(data).skip(6).take(data.len() as int) == data,
        sse(data).skip(6 + data.len() as int) == seq!['\n', '\n'],
{
    reveal_strlit("data: ");
    reveal_strlit("\n\n");
    assert("data: "@.len() == 6 && "\n\n"@.len() == 2);
    assert("\n\n"@ =~= seq!['\n', '\n']);
    assert(sse(data).take(6) =~= "data: "@);
    assert(sse(data).skip(6).take(data.len() as int) =~= data);
    assert(sse(data).skip(6 + data.len() as int) =~= "\n\n"@);
}

/// Each sampling field is what the member of its own name says: the number
/// there, and absent where there is none.
pub proof fn law_sampling_fields_say_what_is_given(req: JsonTree)
    ensures
        sampling_of(req).temperature == given_number(req.member("temperature"@)),
        sampling_of(req).top_p == given_number(req.member("top_p"@)),
        sampling_of(req).repeat_penalty == given_number(req.member("repetition_penalty"@)),
        req.member("top_k"@) matches Some(JsonTree::Uint(n))
            ==> sampling_of(req).top_k == n as usize,
        !(req.member("top_k"@) matches Some(JsonTree::Uint(n))) ==> sampling_of(req).top_k == 0,
        req.member("seed"@) matches Some(JsonTree::Uint(n)) ==> sampling_of(req).seed == n,
        !(req.member("seed"@) matches Some(JsonTree::Uint(n))) ==> sampling_of(req).seed == 0x5eed,
{
}

/// Two requests that differ only in the member `key` read the same sampling
/// fields, but for the one that `key` names.
pub proof fn law_sampling_fields_are_apart(a: JsonTree, b: JsonTree, key: Seq<char>)
    requires
        forall|k: Seq<char>| k != key ==> #[trigger] a.member(k) == b.member(k),
    ensures
        key != "temperature"@ ==> sampling_of(a).temperature == sampling_of(b).temperature,
        key != "top_p"@ ==> sampling_of(a).top_p == sampling_of(b).top_p,
        key != "top_k"@ ==> sampling_of(a).top_k == sampling_of(b).top_k,
        key != "repetition_penalty"@ ==> sampling_of(a).repeat_penalty == sampling_of(
            b,
        ).repeat_penalty,
        key != "seed"@ ==> sampling_of(a).seed == sampling_of(b).seed,
{
}

/// Setting one sampling member of a request sets that field and leaves the
/// four others as they were.
pub proof fn law_setting_a_sampling_member(
    members: Seq<(Seq<char>, JsonTree)>,
    number: JsonTree,
    count: u64,
)
    requires
        number is Uint || number is Int || number is Float,
    ensures
        ({
            let was = sampling_of(JsonTree::Object(members));
            let given = given_number(Some(number));
            let set = |key: Seq<char>, v: JsonTree| sampling_of(with_member(members, key, v));
            &&& given is Some
            &&& set("temperature"@, number).temperature == given
            &&& set("temperature"@, number).top_p == was.top_p
            &&& set("temperature"@, number).repeat_penalty == was.repeat_penalty
            &&& set("temperature"@, number).top_k == was.top_k
            &&& set("temperature"@, number).seed == was.seed
            &&& set("top_p"@, number).top_p == given
            &&& set("top_p"@, number).temperature == was.temperature
            &&& set("top_p"@, number).repeat_penalty == was.repeat_penalty
            &&& set("top_p"@, number).top_k == was.top_k
            &&& set("top_p"@, number).seed == was.seed
            &&& set("repetition_penalty"@, number).repeat_penalty == given
            &&& set("repetition_penalty"@, number).temperature == was.temperature
            &&& set("repetition_penalty"@, number).top_p == was.top_p
            &&& set("repetition_penalty"@, number).top_k == was.top_k
            &&& set("repetition_penalty"@, number).seed == was.seed
            &&& set("seed"@, JsonTree::Uint(count)).seed == count
            &&& set("seed"@, JsonTree::Uint(count)).temperature == was.temperature
            &&& set("seed"@, JsonTree::Uint(count)).top_p == was.top_p
            &&& set("seed"@, JsonTree::Uint(count)).top_k == was.top_k
            &&& set("seed"@, JsonTree::Uint(count)).repeat_penalty == was.repeat_penalty
            &&& count <= usize::MAX ==> set("top_k"@, JsonTree::Uint(count)).top_k == count
            &&& set("top_k"@, JsonTree::Uint(count)).temperature == was.temperature
            &&& set("top_k"@, JsonTree::Uint(count)).top_p == was.top_p
            &&& set("top_k"@, JsonTree::Uint(count)).seed == was.seed
            &&& set("top_k"@, JsonTree::Uint(count)).repeat_penalty == was.repeat_penalty
        }),
{
    lemma_names_differ();
    law_with_member(members, "temperature"@, number);
    law_with_member(members, "top_p"@, number);
    law_with_member(members, "repetition_penalty"@, number);
    law_with_member(members, "seed"@, JsonTree::Uint(count));
    law_with_member(members, "top_k"@, JsonTree::Uint(count));
}

/// Two requests with the same model, stream flag, token limit and session
/// members are read to the same, whatever else differs; each of these fields
/// depends on its own members alone.
pub proof fn law_request_fields_are_apart(
    a: JsonTree,
    b: JsonTree,
    ra: CompletionRequest,
    rb: CompletionRequest,
    chat: bool,
    default_model: Seq<char>,
)
    requires
        ra.reads(a, chat, default_model),
        rb.reads(b, chat, default_model),
    ensures
        a.member("model"@) == b.member("model"@) ==> ra.model@ == rb.model@,
        a.member("stream"@) == b.member("stream"@) ==> ra.stream == rb.stream,
        a.member("max_tokens"@) == b.member("max_tokens"@) ==> ra.max_tokens == rb.max_tokens,
        a.member("session"@) == b.member("session"@) && a.member("session_id"@) == b.member(
            "session_id"@,
        ) ==> (ra.session is Some <==> rb.session is Some) && (ra.session is Some
            ==> ra.session->0@ == rb.session->0@),
        a.member("temperature"@) == b.member("temperature"@) ==> ra.sampling.temperature
            == rb.sampling.temperature,
        a.member("top_p"@) == b.member("top_p"@) ==> ra.sampling.top_p == rb.sampling.top_p,
        a.member("top_k"@) == b.member("top_k"@) ==> ra.sampling.top_k == rb.sampling.top_k,
        a.member("repetition_penalty"@) == b.member("repetition_penalty"@)
            ==> ra.sampling.repeat_penalty == rb.sampling.repeat_penalty,
        a.member("seed"@) == b.member("seed"@) ==> ra.sampling.seed == rb.sampling.seed,
{
}

/// What a request names, it gets: its model, its limit, its session. A session
/// may be named by either of two members, of which `session` comes first.
pub proof fn law_request_fields_say_what_is_given(
    req: JsonTree,
    r: CompletionRequest,
    chat: bool,
    default_model: Seq<char>,
)
    requires
        r.reads(req, chat, default_model),
    ensures
        req.member("model"@) matches Some(JsonTree::Str(m)) ==> r.model@ == m,
        req.member("model"@) is None ==> r.model@ == default_model,
        r.stream <==> req.member("stream"@) == Some(JsonTree::Bool(true)),
        req.member("max_tokens"@) matches Some(JsonTree::Uint(n)) ==> r.max_tokens == n as usize,
        req.member("max_tokens"@) is None ==> r.max_tokens == (if chat {
            256int
        } else {
            128
        }),
        req.member("session"@) matches Some(JsonTree::Str(s)) ==> r.session is Some
            && r.session->0@ == s,
        req.member("session"@) is None ==> (req.member("session_id"@) matches Some(JsonTree::Str(s))
            ==> r.session is Some && r.session->0@ == s),
        req.member("session"@) is None && req.member("session_id"@) is None ==> r.session is None,
{
}

/// The prompt of a plain completion is the text under `prompt`, letter for
/// letter, and no other member matters.
pub proof fn law_completion_prompt_is_the_text(req: JsonTree, kimi: bool)
    ensures
        match req.member("prompt"@) {
            Some(JsonTree::Str(p)) => prompt_of(req, false, kimi) == Ok::<
                Seq<char>,
                RequestError,
            >(p),
            _ => prompt_of(req, false, kimi) == Err::<Seq<char>, RequestError>(
                RequestError::MissingPrompt,
            ),
        },
{
}

/// The prompt of a chat depends on its messages alone, in the template of the
/// model's family, and there is none without them.
pub proof fn law_chat_prompt_is_of_the_messages(a: JsonTree, b: JsonTree, kimi: bool)
    requires
        a.member("messages"@) == b.member("messages"@),
    ensures
        prompt_of(a, true, kimi) == prompt_of(b, true, kimi),
        match a.member("messages"@) {
            Some(JsonTree::Array(messages)) => {
                &&& kimi ==> prompt_of(a, true, kimi) == Ok::<Seq<char>, RequestError>(
                    kimi_prompt(messages),
                )
                &&& !kimi ==> prompt_of(a, true, kimi) == Ok::<Seq<char>, RequestError>(
                    chatml_prompt(messages),
                )
            },
            _ => prompt_of(a, true, kimi) == Err::<Seq<char>, RequestError>(
                RequestError::MissingMessages,
            ),
        },
{
}

/// A message is its role and its content: a user's without a role, and empty
/// without a content.
pub proof fn law_messages_say_what_is_given(m: JsonTree)
    ensures
        m.member("role"@) matches Some(JsonTree::Str(s)) ==> role_of(m) == s,
        m.member("role"@) is None ==> role_of(m) == "user"@,
        m.member("content"@) matches Some(JsonTree::Str(s)) ==> content_of(m) == s,
        m.member("content"@) is None ==> content_of(m) == Seq::<char>::empty(),
{
    reveal_strlit("");
    assert(""@ =~= Seq::<char>::empty());
}

/// `messages` and one more.
proof fn lemma_turns_before(messages: Seq<JsonTree>, more: Seq<JsonTree>, n: nat)
    requires
        n <= messages.len(),
    ensures
        crate::api::chatml(messages + more, n) == crate::api::chatml(messages, n),
        crate::api::kimi_turns(messages + more, n) == crate::api::kimi_turns(messages, n),
    decreases n,
{
    if n > 0 {
        lemma_turns_before(messages, more, (n - 1) as nat);
        assert((messages + more)[n - 1] == messages[n - 1]);
    }
}

/// A conversation in the ChatML template grows by one turn a message: what the
/// messages so far came to stays in front of it, the message's role and then
/// its content stand in the turn, and the prompt ends where the assistant
/// takes over.
pub proof fn law_chatml_grows_by_turns(messages: Seq<JsonTree>, m: JsonTree)
    ensures
        exists|so_far: Seq<char>|
            {
                &&& chatml_prompt(messages) == #[trigger] (so_far + "<|im_start|>assistant\n"@)
                &&& chatml_prompt(messages.push(m)) == so_far + ("<|im_start|>"@ + role_of(m)
                    + "\n"@ + content_of(m) + "<|im_end|>\n"@) + "<|im_start|>assistant\n"@
            },
        chatml_prompt(Seq::empty()) == "<|im_start|>assistant\n"@,
{
    let so_far = crate::api::chatml(messages, messages.len());
    lemma_turns_before(messages, seq![m], messages.len());
    assert(messages.push(m) =~= messages + seq![m]);
    assert(chatml_prompt(messages.push(m)) =~= so_far + ("<|im_start|>"@ + role_of(m) + "\n"@
        + content_of(m) + "<|im_end|>\n"@) + "<|im_start|>assistant\n"@);
    assert(chatml_prompt(messages) == so_far + "<|im_start|>assistant\n"@);
    assert(chatml_prompt(Seq::empty()) =~= "<|im_start|>assistant\n"@);
}

/// A conversation in the Kimi template grows by one turn a message: a marker
/// that tells users, the assistant and all others apart, the role, and behind
/// `<|im_middle|>` the content.
pub proof fn law_kimi_chat_grows_by_turns(messages: Seq<JsonTree>, m: JsonTree)
    ensures
        ({
            let tail = "<|im_assistant|>assistant<|im_middle|>"@;
            exists|so_far: Seq<char>, marker: Seq<char>|
                {
                    &&& kimi_prompt(messages) == so_far + tail
                    &&& kimi_prompt(messages.push(m)) == #[trigger] (so_far + (marker + role_of(m)
                        + "<|im_middle|>"@ + content_of(m) + "<|im_end|>"@)) + tail
                    &&& role_of(m) == "user"@ ==> marker == "<|im_user|>"@
                    &&& role_of(m) == "assistant"@ ==> marker == "<|im_assistant|>"@
                    &&& role_of(m) != "user"@ && role_of(m) != "assistant"@ ==> marker
                        == "<|im_system|>"@
                }
        }),
        kimi_prompt(Seq::empty()) == "<|im_assistant|>assistant<|im_middle|>"@,
{
    let tail = "<|im_assistant|>assistant<|im_middle|>"@;
    let so_far = crate::api::kimi_turns(messages, messages.len());
    let marker = crate::api::kimi_marker(role_of(m));
    lemma_turns_before(messages, seq![m], messages.len());
    assert(messages.push(m) =~= messages + seq![m]);
    reveal_strlit("user");
    reveal_strlit("assistant");
    assert(kimi_prompt(messages.push(m)) =~= (so_far + (marker + role_of(m) + "<|im_middle|>"@
        + content_of(m) + "<|im_end|>"@)) + tail);
    assert(kimi_prompt(messages) == so_far + tail);
    assert(kimi_prompt(Seq::empty()) =~= tail);
}

/// A completion that asks for `n` copies of one prompt is a batch of `n`
/// prompts, all that text; one that asks for a single copy, or a chat, or a
/// stream, is none.
pub proof fn law_copies_are_a_batch(req: JsonTree, p: Seq<char>, chat: bool, kimi: bool)
    requires
        req.member("prompt"@) == Some(JsonTree::Str(p)),
        req.member("session"@) is None,
        req.member("session_id"@) is None,
    ensures
        match req.member("n"@) {
            Some(JsonTree::Uint(n)) if 1 < n <= usize::MAX && !chat
                && req.member("stream"@) != Some(
                JsonTree::Bool(true),
            ) => {
                work_of(req, chat, kimi) matches Ok(WorkView::Batch(list)) && list.len() == n
                    && forall|i: int| 0 <= i < n ==> #[trigger] list[i] == p
            },
            Some(JsonTree::Uint(n)) if n > usize::MAX => true,
            _ => !(work_of(req, chat, kimi) matches Ok(WorkView::Batch(_))),
        },
{
}

proof fn lemma_texts(items: Seq<JsonTree>, n: nat)
    requires
        n <= items.len(),
        forall|i: int| 0 <= i < items.len() ==> #[trigger] items[i] is Str,
    ensures
        texts_in(items, n).len() == n,
        forall|i: int| 0 <= i < n ==> #[trigger] texts_in(items, n)[i] == items[i]->Str_0,
    decreases n,
{
    if n > 0 {
        lemma_texts(items, (n - 1) as nat);
        assert(items[n - 1] is Str);
    }
}

/// A list of two or more texts is a batch of exactly these prompts, in order.
/// With a session it is refused.
pub proof fn law_listed_prompts_are_a_batch(req: JsonTree, items: Seq<JsonTree>, kimi: bool)
    requires
        req.member("prompt"@) == Some(JsonTree::Array(items)),
        items.len() > 1,
        forall|i: int| 0 <= i < items.len() ==> #[trigger] items[i] is Str,
        req.member("stream"@) != Some(JsonTree::Bool(true)),
    ensures
        req.member("session"@) is None && req.member("session_id"@) is None ==> (work_of(
            req,
            false,
            kimi,
        ) matches Ok(WorkView::Batch(list)) && list.len() == items.len() && forall|i: int|
            0 <= i < items.len() ==> #[trigger] list[i] == items[i]->Str_0),
        req.member("session"@) is Some && (req.member("session"@)->0 is Str) ==> work_of(
            req,
            false,
            kimi,
        ) == Err::<WorkView, RequestError>(RequestError::SessionWithBatch),
{
    lemma_texts(items, items.len());
}

/// A chat or a stream never is a batch, and a list of at most one prompt is
/// neither a batch nor a prompt.
pub proof fn law_short_lists_are_no_batch(
    req: JsonTree,
    items: Seq<JsonTree>,
    chat: bool,
    kimi: bool,
)
    ensures
        chat || req.member("stream"@) == Some(JsonTree::Bool(true)) ==> !(work_of(req, chat, kimi)
            matches Ok(WorkView::Batch(_))),
        req.member("prompt"@) == Some(JsonTree::Array(items)) && items.len() <= 1 && !chat
            ==> work_of(req, chat, kimi) == Err::<WorkView, RequestError>(
            RequestError::MissingPrompt,
        ),
{
    if items.len() <= 1 {
        reveal_with_fuel(texts_in, 3);
        assert(texts_in(items, items.len()).len() <= 1);
    }
}

/// A resize takes its slot count from `target` and its free memory, in
/// millions of bytes, from `reserve_mb`, each from its own member alone.
pub proof fn law_resize_fields_say_what_is_given(req: JsonTree)
    ensures
        match (req.member("target"@), req.member("reserve_mb"@)) {
            (Some(JsonTree::Uint(t)), None) => t <= u32::MAX ==> slots_of(req) == Ok::<
                SlotsRequest,
                RequestError,
            >(SlotsRequest { target: Some(t as u32), reserve: None }),
            (None, Some(JsonTree::Uint(mb))) => if mb * 1_000_000 > u64::MAX {
                slots_of(req) == Err::<SlotsRequest, RequestError>(RequestError::ReserveTooLarge)
            } else {
                slots_of(req) matches Ok(s) && s.target is None && (s.reserve matches Some(bytes)
                    && bytes == mb * 1_000_000)
            },
            (Some(JsonTree::Uint(t)), Some(JsonTree::Uint(mb))) => t <= u32::MAX && mb * 1_000_000
                <= u64::MAX ==> (slots_of(req) matches Ok(s) && s.target == Some(t as u32)
                && (s.reserve matches Some(bytes) && bytes == mb * 1_000_000)),
            (None, None) => slots_of(req) == Err::<SlotsRequest, RequestError>(
                RequestError::NoTarget,
            ),
            _ => true,
        },
{
}

} // verus!
