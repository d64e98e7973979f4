//! Replies, looked up by name: what a reply says under each name is what it
//! was made from.

use crate::json::{find_member, JsonTree};
use crate::registry::lemma_warm_index;
use crate::responses::{
    batch_choices, batch_tree, completion_sum, completion_tree, deleted_tree, done_tree, error_tree,
    event_tree, list_tree, model_tree, piece_choice, prompt_sum, role_choice, session_tree,
    vram_tree, warm_trees, BatchResult, Perf, Usage,
};
use crate::session::{parked_size, SessionView};
use vstd::prelude::*;
use vstd::string::*;

verus! {

/// The names in a reply differ.
proof fn lemma_names_differ()
    ensures
        "choices"@ != "id"@,
        "choices"@ != "llmpager"@,
        "choices"@ != "model"@,
        "choices"@ != "object"@,
        "choices"@ != "usage"@,
        "completion_tokens"@ != "prompt_tokens"@,
        "completion_tokens"@ != "total_tokens"@,
        "content"@ != "role"@,
        "data"@ != "object"@,
        "deleted"@ != "id"@,
        "delta"@ != "finish_reason"@,
        "delta"@ != "index"@,
        "finish_reason"@ != "index"@,
        "finish_reason"@ != "message"@,
        "finish_reason"@ != "text"@,
        "free_mb"@ != "total_mb"@,
        "free_mb"@ != "warm"@,
        "id"@ != "llmpager"@,
        "id"@ != "model"@,
        "id"@ != "object"@,
        "id"@ != "owned_by"@,
        "id"@ != "parked_bytes"@,
        "id"@ != "resident"@,
        "id"@ != "slot"@,
        "id"@ != "slots"@,
        "id"@ != "tokens"@,
        "id"@ != "turns"@,
        "id"@ != "usage"@,
        "id"@ != "warm"@,
        "index"@ != "message"@,
        "index"@ != "text"@,
        "llmpager"@ != "model"@,
        "llmpager"@ != "object"@,
        "llmpager"@ != "usage"@,
        "model"@ != "object"@,
        "model"@ != "parked_bytes"@,
        "model"@ != "resident"@,
        "model"@ != "slot"@,
        "model"@ != "slots"@,
        "model"@ != "tokens"@,
        "model"@ != "turns"@,
        "model"@ != "usage"@,
        "object"@ != "owned_by"@,
        "object"@ != "slots"@,
        "object"@ != "usage"@,
        "object"@ != "warm"@,
        "owned_by"@ != "slots"@,
        "owned_by"@ != "warm"@,
        "parked_bytes"@ != "resident"@,
        "parked_bytes"@ != "slot"@,
        "parked_bytes"@ != "tokens"@,
        "parked_bytes"@ != "turns"@,
        "prompt_tokens"@ != "total_tokens"@,
        "prompt_tokens_prefilled"@ != "prompt_tokens_reused"@,
        "prompt_tokens_prefilled"@ != "seconds"@,
        "prompt_tokens_prefilled"@ != "session"@,
        "prompt_tokens_prefilled"@ != "slot"@,
        "prompt_tokens_prefilled"@ != "tok_per_sec"@,
        "prompt_tokens_reused"@ != "seconds"@,
        "prompt_tokens_reused"@ != "session"@,
        "prompt_tokens_reused"@ != "slot"@,
        "prompt_tokens_reused"@ != "tok_per_sec"@,
        "resident"@ != "slot"@,
        "resident"@ != "tokens"@,
        "resident"@ != "turns"@,
        "seconds"@ != "session"@,
        "seconds"@ != "slot"@,
        "seconds"@ != "streams"@,
        "seconds"@ != "tok_per_sec"@,
        "seconds"@ != "tok_per_sec_aggregate"@,
        "session"@ != "slot"@,
        "session"@ != "tok_per_sec"@,
        "slot"@ != "tok_per_sec"@,
        "slot"@ != "tokens"@,
        "slot"@ != "turns"@,
        "slots"@ != "warm"@,
        "streams"@ != "tok_per_sec_aggregate"@,
        "tokens"@ != "turns"@,
        "total_mb"@ != "warm"@,
{
    reveal_strlit("choices");
    assert("choices"@.len() == 7);
    assert("choices"@[0] == 'c' && "choices"@[1] == 'h' && "choices"@[2] == 'o');
    reveal_strlit("id");
    assert("id"@.len() == 2);
    reveal_strlit("llmpager");
    assert("llmpager"@.len() == 8);
    assert("llmpager"@[0] == 'l' && "llmpager"@[1] == 'l' && "llmpager"@[2] == 'm');
    reveal_strlit("model");
    assert("model"@.len() == 5);
    assert("model"@[0] == 'm' && "model"@[1] == 'o' && "model"@[2] == 'd');
    reveal_strlit("object");
    assert("object"@.len() == 6);
    assert("object"@[0] == 'o' && "object"@[1] == 'b' && "object"@[2] == 'j');
    reveal_strlit("usage");
    assert("usage"@.len() == 5);
    assert("usage"@[0] == 'u' && "usage"@[1] == 's' && "usage"@[2] == 'a');
    reveal_strlit("finish_reason");
    assert("finish_reason"@.len() == 13);
    assert("finish_reason"@[0] == 'f' && "finish_reason"@[1] == 'i' && "finish_reason"@[2] == 'n');
    reveal_strlit("index");
    assert("index"@.len() == 5);
    assert("index"@[0] == 'i' && "index"@[1] == 'n' && "index"@[2] == 'd');
    reveal_strlit("message");
    assert("message"@.len() == 7);
    assert("message"@[0] == 'm' && "message"@[1] == 'e' && "message"@[2] == 's');
    reveal_strlit("text");
    assert("text"@.len() == 4);
    assert("text"@[0] == 't' && "text"@[1] == 'e' && "text"@[2] == 'x');
    reveal_strlit("content");
    assert("content"@.len() == 7);
    assert("content"@[0] == 'c' && "content"@[1] == 'o' && "content"@[2] == 'n');
    reveal_strlit("role");
    assert("role"@.len() == 4);
    assert("role"@[0] == 'r' && "role"@[1] == 'o' && "role"@[2] == 'l');
    reveal_strlit("completion_tokens");
    assert("completion_tokens"@.len() == 17);
    assert("completion_tokens"@[0] == 'c' && "completion_tokens"@[1] == 'o'
        && "completion_tokens"@[2] == 'm');
    reveal_strlit("prompt_tokens");
    assert("prompt_tokens"@.len() == 13);
    assert("prompt_tokens"@[0] == 'p' && "prompt_tokens"@[1] == 'r' && "prompt_tokens"@[2] == 'o');
    reveal_strlit("total_tokens");
    assert("total_tokens"@.len() == 12);
    assert("total_tokens"@[0] == 't' && "total_tokens"@[1] == 'o' && "total_tokens"@[2] == 't');
    reveal_strlit("prompt_tokens_prefilled");
    assert("prompt_tokens_prefilled"@.len() == 23);
    assert("prompt_tokens_prefilled"@[0] == 'p' && "prompt_tokens_prefilled"@[1] == 'r'
        && "prompt_tokens_prefilled"@[2] == 'o');
    reveal_strlit("prompt_tokens_reused");
    assert("prompt_tokens_reused"@.len() == 20);
    assert("prompt_tokens_reused"@[0] == 'p' && "prompt_tokens_reused"@[1] == 'r'
        && "prompt_tokens_reused"@[2] == 'o');
    reveal_strlit("seconds");
    assert("seconds"@.len() == 7);
    assert("seconds"@[0] == 's' && "seconds"@[1] == 'e' && "seconds"@[2] == 'c');
    reveal_strlit("session");
    assert("session"@.len() == 7);
    assert("session"@[0] == 's' && "session"@[1] == 'e' && "session"@[2] == 's');
    reveal_strlit("slot");
    assert("slot"@.len() == 4);
    assert("slot"@[0] == 's' && "slot"@[1] == 'l' && "slot"@[2] == 'o');
    reveal_strlit("tok_per_sec");
    assert("tok_per_sec"@.len() == 11);
    assert("tok_per_sec"@[0] == 't' && "tok_per_sec"@[1] == 'o' && "tok_per_sec"@[2] == 'k');
    reveal_strlit("streams");
    assert("streams"@.len() == 7);
    assert("streams"@[0] == 's' && "streams"@[1] == 't' && "streams"@[2] == 'r');
    reveal_strlit("tok_per_sec_aggregate");
    assert("tok_per_sec_aggregate"@.len() == 21);
    assert("tok_per_sec_aggregate"@[0] == 't' && "tok_per_sec_aggregate"@[1] == 'o'
        && "tok_per_sec_aggregate"@[2] == 'k');
    reveal_strlit("delta");
    assert("delta"@.len() == 5);
    assert("delta"@[0] == 'd' && "delta"@[1] == 'e' && "delta"@[2] == 'l');
    reveal_strlit("owned_by");
    assert("owned_by"@.len() == 8);
    assert("owned_by"@[0] == 'o' && "owned_by"@[1] == 'w' && "owned_by"@[2] == 'n');
    reveal_strlit("slots");
    assert("slots"@.len() == 5);
    assert("slots"@[0] == 's' && "slots"@[1] == 'l' && "slots"@[2] == 'o');
    reveal_strlit("warm");
    assert("warm"@.len() == 4);
    assert("warm"@[0] == 'w' && "warm"@[1] == 'a' && "warm"@[2] == 'r');
    reveal_strlit("parked_bytes");
    assert("parked_bytes"@.len() == 12);
    assert("parked_bytes"@[0] == 'p' && "parked_bytes"@[1] == 'a' && "parked_bytes"@[2] == 'r');
    reveal_strlit("resident");
    assert("resident"@.len() == 8);
    assert("resident"@[0] == 'r' && "resident"@[1] == 'e' && "resident"@[2] == 's');
    reveal_strlit("tokens");
    assert("tokens"@.len() == 6);
    assert("tokens"@[0] == 't' && "tokens"@[1] == 'o' && "tokens"@[2] == 'k');
    reveal_strlit("turns");
    assert("turns"@.len() == 5);
    assert("turns"@[0] == 't' && "turns"@[1] == 'u' && "turns"@[2] == 'r');
    reveal_strlit("free_mb");
    assert("free_mb"@.len() == 7);
    assert("free_mb"@[0] == 'f' && "free_mb"@[1] == 'r' && "free_mb"@[2] == 'e');
    reveal_strlit("total_mb");
    assert("total_mb"@.len() == 8);
    assert("total_mb"@[0] == 't' && "total_mb"@[1] == 'o' && "total_mb"@[2] == 't');
    reveal_strlit("error");
    assert("error"@.len() == 5);
    assert("error"@[0] == 'e' && "error"@[1] == 'r' && "error"@[2] == 'r');
    reveal_strlit("deleted");
    assert("deleted"@.len() == 7);
    assert("deleted"@[0] == 'd' && "deleted"@[1] == 'e' && "deleted"@[2] == 'l');
    reveal_strlit("data");
    assert("data"@.len() == 4);
    assert("data"@[0] == 'd' && "data"@[1] == 'a' && "data"@[2] == 't');
}

/// The value at the end of two names.
pub open spec fn inner(tree: JsonTree, first: Seq<char>, second: Seq<char>) -> Option<JsonTree> {
    match tree.member(first) {
        Some(v) => v.member(second),
        None => None,
    }
}

/// The only choice of a reply.
pub open spec fn only_choice(tree: JsonTree) -> Option<JsonTree> {
    match tree.member("choices"@) {
        Some(JsonTree::Array(items)) => if items.len() == 1 {
            Some(items[0])
        } else {
            None
        },
        _ => None,
    }
}

/// An error says its message.
pub proof fn law_error_says_its_message(message: Seq<char>)
    ensures
        inner(error_tree(message), "error"@, "message"@) == Some(JsonTree::Str(message)),
{
}

/// The token counts of a reply are the prompt's, the completion's, and the two
/// together.
pub proof fn law_usage_counts(u: Usage)
    requires
        u.prompt + u.completion <= u64::MAX,
    ensures
        u.tree().member("prompt_tokens"@) == Some(JsonTree::Uint(u.prompt)),
        u.tree().member("completion_tokens"@) == Some(JsonTree::Uint(u.completion)),
        u.tree().member("total_tokens"@) matches Some(JsonTree::Uint(n)) && n == u.prompt
            + u.completion,
{
    lemma_names_differ();
    reveal_with_fuel(find_member, 4);
}

/// The timing of a reply, and of a session what it reused and what it had to
/// prefill.
pub proof fn law_perf_says_what_was_measured(p: Perf)
    ensures
        p.tree().member("seconds"@) == Some(JsonTree::Float(p.seconds)),
        p.tree().member("tok_per_sec"@) == Some(JsonTree::Float(p.tok_per_sec)),
        match p.session {
            Some(s) => {
                &&& p.tree().member("session"@) == Some(JsonTree::Str(s.id@))
                &&& p.tree().member("slot"@) == Some(JsonTree::Uint(s.slot))
                &&& p.tree().member("prompt_tokens_reused"@) == Some(JsonTree::Uint(s.reused))
                &&& p.tree().member("prompt_tokens_prefilled"@) == Some(JsonTree::Uint(s.prefilled))
            },
            None => p.tree().member("session"@) is None && p.tree().member("slot"@) is None,
        },
{
    lemma_names_differ();
    reveal_with_fuel(find_member, 7);
}

/// A completion has one choice with the text generated, a chat's as what the
/// assistant says, and names the model, the counts and the timing.
pub proof fn law_completion_says_what_was_generated(
    chat: bool,
    model: Seq<char>,
    content: Seq<char>,
    usage: Usage,
    perf: Perf,
)
    ensures
        ({
            let reply = completion_tree(chat, model, content, usage, perf);
            &&& reply.member("model"@) == Some(JsonTree::Str(model))
            &&& reply.member("usage"@) == Some(usage.tree())
            &&& reply.member("llmpager"@) == Some(perf.tree())
            &&& reply.member("object"@) == Some(
                JsonTree::Str(if chat { "chat.completion"@ } else { "text_completion"@ }),
            )
            &&& only_choice(reply) is Some
            &&& chat ==> inner(only_choice(reply)->0, "message"@, "content"@) == Some(
                JsonTree::Str(content),
            )
            &&& chat ==> inner(only_choice(reply)->0, "message"@, "role"@) == Some(
                JsonTree::Str("assistant"@),
            )
            &&& !chat ==> only_choice(reply)->0.member("text"@) == Some(JsonTree::Str(content))
            &&& only_choice(reply)->0.member("finish_reason"@) == Some(JsonTree::Str("stop"@))
        }),
{
    lemma_names_differ();
    reveal_with_fuel(find_member, 7);
}

/// A batch has a choice for each stream, numbered in order, with the text that
/// the stream generated.
pub proof fn law_batch_says_what_was_generated(
    model: Seq<char>,
    results: Seq<BatchResult>,
    usage: Usage,
    seconds: u64,
    aggregate: u64,
)
    requires
        results.len() <= u64::MAX,
    ensures
        ({
            let reply = batch_tree(model, results, usage, seconds, aggregate);
            &&& reply.member("model"@) == Some(JsonTree::Str(model))
            &&& reply.member("usage"@) == Some(usage.tree())
            &&& inner(reply, "llmpager"@, "seconds"@) == Some(JsonTree::Float(seconds))
            &&& inner(reply, "llmpager"@, "tok_per_sec_aggregate"@) == Some(
                JsonTree::Float(aggregate),
            )
            &&& inner(reply, "llmpager"@, "streams"@) matches Some(JsonTree::Uint(n)) && n
                == results.len()
            &&& reply.member("choices"@) matches Some(JsonTree::Array(choices)) && choices.len()
                == results.len() && forall|i: int|
                #![trigger choices[i]]
                0 <= i < results.len() ==> {
                    &&& choices[i].member("index"@) matches Some(JsonTree::Uint(n)) && n == i
                    &&& choices[i].member("text"@) == Some(JsonTree::Str(results[i].text@))
                    &&& choices[i].member("finish_reason"@) == Some(JsonTree::Str("stop"@))
                }
        }),
{
    lemma_names_differ();
    let reply = batch_tree(model, results, usage, seconds, aggregate);
    let choices = batch_choices(results);
    assert(reply.member("choices"@) == Some(JsonTree::Array(choices))) by {
        reveal_with_fuel(find_member, 7);
    }
    assert forall|i: int| #![trigger choices[i]] 0 <= i < results.len() implies {
        &&& choices[i].member("index"@) matches Some(JsonTree::Uint(n)) && n == i
        &&& choices[i].member("text"@) == Some(JsonTree::Str(results[i].text@))
        &&& choices[i].member("finish_reason"@) == Some(JsonTree::Str("stop"@))
    } by {
        reveal_with_fuel(find_member, 4);
    }
    reveal_with_fuel(find_member, 7);
}

/// The counts of a batch are what its streams' come to: one more stream adds
/// its own.
pub proof fn law_batch_counts_add_up(results: Seq<BatchResult>, last: BatchResult)
    ensures
        prompt_sum(results.push(last), results.len() + 1) == prompt_sum(results, results.len())
            + last.usage.prompt,
        completion_sum(results.push(last), results.len() + 1) == completion_sum(
            results,
            results.len(),
        ) + last.usage.completion,
        prompt_sum(results, 0) == 0 && completion_sum(results, 0) == 0,
{
    lemma_sums(results, last, results.len());
}

proof fn lemma_sums(results: Seq<BatchResult>, last: BatchResult, n: nat)
    requires
        n <= results.len(),
    ensures
        prompt_sum(results.push(last), n) == prompt_sum(results, n),
        completion_sum(results.push(last), n) == completion_sum(results, n),
    decreases n,
{
    if n > 0 {
        lemma_sums(results, last, (n - 1) as nat);
    }
}

/// A streamed event carries its fragment, a chat's as what is added to the
/// assistant's words; the first event of a chat says who speaks, the last of
/// any stream has the counts and says that it is over.
pub proof fn law_events_say_what_is_new(
    chat: bool,
    model: Seq<char>,
    piece: Seq<char>,
    usage: Usage,
    perf: Perf,
)
    ensures
        ({
            let event = event_tree(chat, model, piece_choice(chat, piece));
            let role = event_tree(true, model, role_choice());
            let done = done_tree(chat, model, usage, perf);
            &&& event.member("model"@) == Some(JsonTree::Str(model))
            &&& only_choice(event) is Some
            &&& chat ==> inner(only_choice(event)->0, "delta"@, "content"@) == Some(
                JsonTree::Str(piece),
            )
            &&& !chat ==> only_choice(event)->0.member("text"@) == Some(JsonTree::Str(piece))
            &&& only_choice(event)->0.member("finish_reason"@) is None
            &&& role.member("model"@) == Some(JsonTree::Str(model))
            &&& only_choice(role) is Some
            &&& inner(only_choice(role)->0, "delta"@, "role"@) == Some(JsonTree::Str("assistant"@))
            &&& done.member("model"@) == Some(JsonTree::Str(model))
            &&& done.member("usage"@) == Some(usage.tree())
            &&& done.member("llmpager"@) == Some(perf.tree())
            &&& only_choice(done) is Some
            &&& only_choice(done)->0.member("finish_reason"@) == Some(JsonTree::Str("stop"@))
            &&& event.member("object"@) == done.member("object"@)
            &&& done.member("object"@) == Some(
                JsonTree::Str(if chat { "chat.completion.chunk"@ } else { "text_completion"@ }),
            )
        }),
{
    lemma_names_differ();
    reveal_with_fuel(find_member, 6);
}

/// What the list of models says of one: its slots where it is warm, and
/// whether it is.
pub proof fn law_model_list_says_what_is_warm(name: Seq<char>, warm: Seq<(Seq<char>, u32)>)
    ensures
        ({
            let m = model_tree(name, warm);
            &&& m.member("id"@) == Some(JsonTree::Str(name))
            &&& m.member("warm"@) == Some(JsonTree::Bool(true)) <==> exists|i: int|
                0 <= i < warm.len() && (#[trigger] warm[i]).0 == name
            &&& m.member("warm"@) == Some(JsonTree::Bool(false)) <==> m.member("slots"@) == Some(
                JsonTree::Null,
            )
            &&& m.member("slots"@) matches Some(JsonTree::Uint(n)) ==> exists|i: int|
                0 <= i < warm.len() && (#[trigger] warm[i]).0 == name && warm[i].1 == n
        }),
{
    lemma_names_differ();
    lemma_warm_index(warm, name, 0);
    reveal_with_fuel(find_member, 6);
}

/// What is said of the card's memory is in millions of bytes, rounded down,
/// and every warm model is listed with its slots.
pub proof fn law_memory_says_what_is_free(warm: Seq<(Seq<char>, u32)>, free: u64, total: u64)
    ensures
        ({
            let reply = vram_tree(warm, free, total);
            &&& reply.member("free_mb"@) matches Some(JsonTree::Uint(n))
                && n * 1_000_000 <= free < (n
                + 1) * 1_000_000
            &&& reply.member("total_mb"@) matches Some(JsonTree::Uint(n)) && n * 1_000_000 <= total
                < (n + 1) * 1_000_000
            &&& reply.member("warm"@) matches Some(JsonTree::Array(list))
                && list.len() == warm.len()
                && forall|i: int|
                #![trigger list[i]]
                0 <= i < warm.len() ==> list[i].member("model"@) == Some(JsonTree::Str(warm[i].0))
                    && list[i].member("slots"@) == Some(JsonTree::Uint(warm[i].1 as u64))
        }),
{
    lemma_names_differ();
    let list = warm_trees(warm);
    assert forall|i: int| #![trigger list[i]] 0 <= i < warm.len() implies list[i].member("model"@)
        == Some(JsonTree::Str(warm[i].0)) && list[i].member("slots"@) == Some(
        JsonTree::Uint(warm[i].1 as u64),
    ) by {
        reveal_with_fuel(find_member, 3);
    }
    reveal_with_fuel(find_member, 4);
}

/// What is said of a session: whose it is, where its context is, how many
/// tokens and turns it has.
pub proof fn law_session_says_where_it_is(id: Seq<char>, model: Seq<char>, s: SessionView)
    requires
        s.tokens.len() <= u64::MAX,
        parked_size(s) <= u64::MAX,
    ensures
        ({
            let t = session_tree(id, model, s);
            &&& t.member("id"@) == Some(JsonTree::Str(id))
            &&& t.member("model"@) == Some(JsonTree::Str(model))
            &&& t.member("resident"@) == Some(JsonTree::Bool(s.slot is Some))
            &&& match s.slot {
                Some(n) => t.member("slot"@) == Some(JsonTree::Uint(n as u64)),
                None => t.member("slot"@) == Some(JsonTree::Null),
            }
            &&& t.member("tokens"@) matches Some(JsonTree::Uint(n)) && n == s.tokens.len()
            &&& t.member("turns"@) == Some(JsonTree::Uint(s.turns as u64))
            &&& t.member("parked_bytes"@) matches Some(JsonTree::Uint(n)) && n == (match s.parked {
                Some(b) => b.len(),
                None => 0,
            })
        }),
{
    lemma_names_differ();
    reveal_with_fuel(find_member, 8);
}

/// A deletion says of which session, and whether there was one.
pub proof fn law_deletion_says_what_is_gone(id: Seq<char>, deleted: bool, data: Seq<JsonTree>)
    ensures
        deleted_tree(id, deleted).member("id"@) == Some(JsonTree::Str(id)),
        deleted_tree(id, deleted).member("deleted"@) == Some(JsonTree::Bool(deleted)),
        list_tree(data).member("data"@) == Some(JsonTree::Array(data)),
{
    lemma_names_differ();
    reveal_with_fuel(find_member, 3);
}

} // verus!
