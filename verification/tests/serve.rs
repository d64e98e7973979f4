use llmpager::api::{
    batch_prompts, chat_prompt, kimi_chat_prompt, parse_body, plan_work, request_prompt,
    reserve_after, route, sampling_from_request, slots_from_request, sse_event, ChunkBuffer,
    CompletionRequest, Endpoint, RequestError, Work,
};
use llmpager::json::{parse_json, print_plain, Json, JsonNumber};
use llmpager::registry::{Registry, ServerConfig, ServerFault, WarmStep};
use llmpager::responses::{
    batch_response, batch_usage, completion_response, deleted_response, done_event,
    error_response, list_response, models_response, piece_event, push_sessions, role_event,
    vram_response, BatchResult, Perf, SessionUse, Usage,
};
use llmpager::session::{AcquireStep, SessionStore};

fn json(text: &str) -> Json {
    parse_json(text.as_bytes()).unwrap()
}

/// The document as text, floats included.
fn text(v: &Json) -> String {
    match v {
        Json::Null => "null".to_string(),
        Json::Bool(b) => format!("{b}"),
        Json::Uint(n) => format!("{n}"),
        Json::Int(n) => format!("{n}"),
        Json::Float(bits) => format!("{:?}", f64::from_bits(*bits)),
        Json::Str(s) => format!("{s:?}"),
        Json::Array(a) => {
            format!("[{}]", a.iter().map(text).collect::<Vec<_>>().join(","))
        }
        Json::Object(o) => {
            let members: Vec<String> =
                o.iter().map(|(k, v)| format!("{k:?}:{}", text(v))).collect();
            format!("{{{}}}", members.join(","))
        }
    }
}

const CONFIG: &str = r#"{"port": 9000, "max_warm": 2, "reserve_mb": 100, "models": [
    {"name": "a", "pack": "a.llmpk", "core": "a.core", "tokenizer": "a.tok", "slots": 10},
    {"name": "b", "pack": "b.llmpk", "core": "b.core", "tokenizer": "b.tok", "slots": 20,
     "slots_solo": 30, "batch": 4, "reserve_mb": 7, "prewarm": "b.prof", "ram_gb": 1.5},
    {"name": "c", "pack": "c.llmpk", "core": "c.core", "tokenizer": "c.tok"}]}"#;

#[test]
fn server_configs() {
    let cfg = ServerConfig::from_json(&json(CONFIG)).unwrap();
    assert_eq!((cfg.port, cfg.max_warm, cfg.models.len()), (9000, 2, 3));
    let (a, b, c) = (&cfg.models[0], &cfg.models[1], &cfg.models[2]);
    assert_eq!((a.slots, a.slots_solo, a.reserve_mb), (10, 20, 100));
    assert_eq!((b.slots, b.slots_solo, b.reserve_mb, b.batch), (20, 30, 7, 4));
    assert_eq!(b.prewarm.as_deref(), Some("b.prof"));
    assert_eq!(b.ram_gb, Some(JsonNumber::Float(1.5f64.to_bits())));
    assert_eq!((c.slots, c.slots_solo, c.io_threads, c.max_seq), (32, 64, 4, 4096));
    assert!(!c.direct && !c.core_q4);
    let cfg = ServerConfig::from_json(&json(
        r#"{"models": [{"name": "a", "pack": "p", "core": "c", "tokenizer": "t"}]}"#,
    ))
    .unwrap();
    assert_eq!((cfg.port, cfg.max_warm), (8090, 2));
}

#[test]
fn broken_server_configs() {
    let fault = |text: &str| ServerConfig::from_json(&json(text)).unwrap_err();
    assert_eq!(fault("{}"), ServerFault::NoModelList);
    assert_eq!(fault(r#"{"models": []}"#), ServerFault::NoModels);
    assert_eq!(fault(r#"{"models": [{}]}"#), ServerFault::NoName { model: 0 });
    assert_eq!(fault(r#"{"models": [{"name": "a"}]}"#), ServerFault::NoPack { model: 0 });
    assert_eq!(
        fault(r#"{"models": [{"name": "a", "pack": "p"}]}"#),
        ServerFault::NoCore { model: 0 }
    );
    assert_eq!(
        fault(r#"{"models": [{"name": "a", "pack": "p", "core": "c"}]}"#),
        ServerFault::NoTokenizer { model: 0 }
    );
    assert_eq!(
        fault(
            r#"{"models": [{"name": "a", "pack": "p", "core": "c", "tokenizer": "t",
                "slots": 3000000000}]}"#
        ),
        ServerFault::TooManySlots { model: 0 }
    );
}

fn registry() -> Registry {
    let cfg = ServerConfig::from_json(&json(CONFIG)).unwrap();
    Registry::new(cfg.models, cfg.max_warm)
}

/// Goes through a warm-up in which every model gets what it asks for.
fn warm(r: &mut Registry, name: &str) -> Vec<String> {
    let (evicted, mut up, mut step) = r.warm_up(name);
    loop {
        let slots = match &step {
            WarmStep::Ready => return evicted,
            WarmStep::Resize { slots, .. } => *slots,
            WarmStep::Load { slots } => *slots,
            WarmStep::Reload { slots } => *slots,
            other => panic!("{other:?}"),
        };
        step = r.go_on(&mut up, Some(slots));
    }
}

fn state(r: &Registry) -> Vec<(String, u32)> {
    (0..r.warm_count()).map(|i| (r.warm_at(i).0.to_string(), r.warm_at(i).1)).collect()
}

#[test]
fn the_budgeter_shares_the_card() {
    let mut r = registry();
    assert!(warm(&mut r, "a").is_empty());
    // Alone it gets the big cache.
    assert_eq!(state(&r), [("a".to_string(), 20)]);
    // Beside another both get the small one; the newest is at the front.
    let (evicted, mut up, step) = r.warm_up("b");
    assert!(evicted.is_empty());
    assert!(matches!(&step, WarmStep::Resize { model, slots: 10 } if model == "a"));
    assert!(matches!(r.go_on(&mut up, Some(10)), WarmStep::Load { slots: 20 }));
    assert!(matches!(r.go_on(&mut up, Some(20)), WarmStep::Ready));
    assert_eq!(state(&r), [("b".to_string(), 20), ("a".to_string(), 10)]);
    // A warm model only moves to the front.
    assert!(warm(&mut r, "a").is_empty());
    assert_eq!(state(&r), [("a".to_string(), 10), ("b".to_string(), 20)]);
    assert_eq!(r.warm_position("b"), Some(1));
    // A third evicts the least recently used.
    assert_eq!(warm(&mut r, "c"), ["b"]);
    assert_eq!(state(&r), [("c".to_string(), 32), ("a".to_string(), 10)]);
    let (_, _, step) = r.warm_up("nope");
    assert!(matches!(step, WarmStep::Unknown));
}

#[test]
fn a_failed_load_is_tried_again_alone() {
    let mut r = registry();
    warm(&mut r, "a");
    let (_, mut up, _) = r.warm_up("b");
    assert!(matches!(r.go_on(&mut up, Some(10)), WarmStep::Load { slots: 20 }));
    // Everything else goes, and b gets the big cache.
    assert!(matches!(r.go_on(&mut up, None), WarmStep::Reload { slots: 30 }));
    assert_eq!(r.warm_count(), 0);
    assert!(matches!(r.go_on(&mut up, Some(30)), WarmStep::Ready));
    assert_eq!(state(&r), [("b".to_string(), 30)]);
    // A second failure is final.
    let mut r = registry();
    let (_, mut up, step) = r.warm_up("b");
    assert!(matches!(step, WarmStep::Load { slots: 30 }));
    assert!(matches!(r.go_on(&mut up, None), WarmStep::Failed));
    assert_eq!(r.warm_count(), 0);
}

#[test]
fn slots_on_request() {
    let mut r = registry();
    warm(&mut r, "b");
    assert_eq!(r.requested_slots(0, Some(5)), 5);
    assert_eq!(r.requested_slots(0, None), 30);
    r.note_slots(0, 5);
    assert_eq!(r.warm_at(0), ("b", 5));
    assert_eq!(r.spec("c").unwrap().slots, 32);
    assert!(r.spec("d").is_none());
    assert_eq!(r.specs().len(), 3);
}

#[test]
fn routes() {
    assert!(matches!(route("GET", "/v1/models"), Endpoint::Models));
    assert!(matches!(route("POST", "/v1/completions"), Endpoint::Completions { chat: false }));
    assert!(matches!(route("POST", "/v1/chat/completions"), Endpoint::Completions { chat: true }));
    assert!(matches!(route("GET", "/v1/admin/vram"), Endpoint::AdminVram));
    assert!(matches!(route("POST", "/v1/admin/slots"), Endpoint::AdminSlots));
    assert!(matches!(route("GET", "/v1/sessions"), Endpoint::Sessions));
    assert!(matches!(
        route("DELETE", "/v1/sessions/x/y"),
        Endpoint::DeleteSession { id } if id == "x/y"
    ));
    // The rest is the id, whatever it looks like.
    assert!(matches!(
        route("DELETE", "/v1/sessions//v1/sessions/x"),
        Endpoint::DeleteSession { id } if id == "/v1/sessions/x"
    ));
    assert!(matches!(
        route("DELETE", "/v1/sessions/v1/sessions/x"),
        Endpoint::DeleteSession { id } if id == "v1/sessions/x"
    ));
    assert!(matches!(route("POST", "/v1/models"), Endpoint::Unknown));
    assert!(matches!(route("GET", "/v1/sessions/x"), Endpoint::Unknown));
}

#[test]
fn requests() {
    let req = parse_body(
        r#"{"model": "m", "stream": true, "max_tokens": 9, "temperature": 0.5, "top_k": 3,
            "seed": 1, "session_id": "s"}"#,
    )
    .unwrap();
    let r = CompletionRequest::from_json(&req, true, "d");
    assert_eq!((r.model.as_str(), r.stream, r.max_tokens), ("m", true, 9));
    assert_eq!(r.session.as_deref(), Some("s"));
    assert_eq!(r.sampling.temperature, Some(JsonNumber::Float(0.5f64.to_bits())));
    assert_eq!((r.sampling.top_k, r.sampling.seed), (3, 1));
    let empty = json("{}");
    let r = CompletionRequest::from_json(&empty, true, "d");
    assert_eq!((r.model.as_str(), r.stream, r.max_tokens), ("d", false, 256));
    assert!(r.session.is_none());
    assert_eq!(CompletionRequest::from_json(&empty, false, "d").max_tokens, 128);
    assert_eq!(sampling_from_request(&empty).seed, 0x5eed);
    assert_eq!(sampling_from_request(&empty).temperature, None);
    assert!(matches!(parse_body("{"), Err(RequestError::BadJson)));
}

#[test]
fn batches() {
    let two = json(r#"{"prompt": ["x", 1, "y"]}"#);
    let got = batch_prompts(&two, false, false, false).unwrap().unwrap();
    assert_eq!(got, ["x", "y"]);
    // Not for chats and streams.
    assert!(batch_prompts(&two, true, false, false).unwrap().is_none());
    assert!(batch_prompts(&two, false, true, false).unwrap().is_none());
    assert_eq!(
        batch_prompts(&two, false, false, true).unwrap_err(),
        RequestError::SessionWithBatch
    );
    let n = json(r#"{"prompt": "x", "n": 3}"#);
    assert_eq!(batch_prompts(&n, false, false, false).unwrap().unwrap(), ["x", "x", "x"]);
    let one = json(r#"{"prompt": ["x"], "n": 3}"#);
    assert!(batch_prompts(&one, false, false, true).unwrap().is_none());

    let r = CompletionRequest::from_json(&two, false, "d");
    assert!(matches!(plan_work(&two, &r, false, false), Ok(Work::Batch(p)) if p.len() == 2));
    let single = json(r#"{"prompt": "x"}"#);
    let r = CompletionRequest::from_json(&single, false, "d");
    assert!(matches!(plan_work(&single, &r, false, false), Ok(Work::One(p)) if p == "x"));
}

#[test]
fn prompts() {
    let chat = json(
        r#"{"messages": [{"role": "system", "content": "S"}, {"content": "U"},
            {"role": "assistant", "content": "A"}]}"#,
    );
    let messages = chat.get_array("messages").unwrap();
    let qwen = "<|im_start|>system\nS<|im_end|>\n<|im_start|>user\nU<|im_end|>\n\
                <|im_start|>assistant\nA<|im_end|>\n<|im_start|>assistant\n";
    assert_eq!(chat_prompt(messages), qwen);
    let kimi = "<|im_system|>system<|im_middle|>S<|im_end|>\
                <|im_user|>user<|im_middle|>U<|im_end|>\
                <|im_assistant|>assistant<|im_middle|>A<|im_end|>\
                <|im_assistant|>assistant<|im_middle|>";
    assert_eq!(kimi_chat_prompt(messages), kimi);
    assert_eq!(request_prompt(&chat, true, false).unwrap(), qwen);
    assert_eq!(request_prompt(&chat, true, true).unwrap(), kimi);
    assert_eq!(request_prompt(&chat, false, false).unwrap_err(), RequestError::MissingPrompt);
    assert_eq!(
        request_prompt(&json("{}"), true, false).unwrap_err(),
        RequestError::MissingMessages
    );
}

#[test]
fn slot_requests() {
    let r = slots_from_request(&json(r#"{"target": 5, "reserve_mb": 2}"#)).unwrap();
    assert_eq!((r.target, r.reserve), (Some(5), Some(2_000_000)));
    assert_eq!(slots_from_request(&json("{}")).unwrap_err(), RequestError::NoTarget);
    assert_eq!(
        slots_from_request(&json(r#"{"reserve_mb": 18446744073709551615}"#)).unwrap_err(),
        RequestError::ReserveTooLarge
    );
    // A reserve that could not be met is not kept.
    assert_eq!(reserve_after(7, Some(9), true), 9);
    assert_eq!(reserve_after(7, Some(9), false), 7);
    assert_eq!(reserve_after(7, None, true), 7);
}

#[test]
fn events_are_framed() {
    assert_eq!(sse_event("[DONE]"), "data: [DONE]\n\n");
    let mut b = ChunkBuffer::new();
    assert!(b.is_drained());
    b.refill(vec![1, 2, 3]);
    assert_eq!(b.read(2), [1, 2]);
    assert!(!b.is_drained());
    assert_eq!(b.read(9), [3]);
    assert!(b.is_drained());
    assert!(b.read(9).is_empty());
}

#[test]
fn completions_as_json() {
    let usage = Usage { prompt: 3, completion: 4 };
    let session =
        SessionUse { id: "s".to_string(), slot: 1, reused: 2, prefilled: 1 };
    let perf = Perf {
        seconds: 2.0f64.to_bits(),
        tok_per_sec: 2.5f64.to_bits(),
        session: Some(session),
    };
    let chat = completion_response(true, "m", "hi", &usage, &perf);
    assert_eq!(
        text(&chat),
        "{\"choices\":[{\"finish_reason\":\"stop\",\"index\":0,\
         \"message\":{\"content\":\"hi\",\"role\":\"assistant\"}}],\
         \"id\":\"chatcmpl-llmpager\",\"llmpager\":{\"prompt_tokens_prefilled\":1,\
         \"prompt_tokens_reused\":2,\"seconds\":2.0,\"session\":\"s\",\"slot\":1,\
         \"tok_per_sec\":2.5},\"model\":\"m\",\"object\":\"chat.completion\",\
         \"usage\":{\"completion_tokens\":4,\"prompt_tokens\":3,\"total_tokens\":7}}"
    );
    let perf = Perf { session: None, ..perf };
    let plain = completion_response(false, "m", "hi", &usage, &perf);
    assert_eq!(
        text(&plain),
        "{\"choices\":[{\"finish_reason\":\"stop\",\"index\":0,\"text\":\"hi\"}],\
         \"id\":\"cmpl-llmpager\",\"llmpager\":{\"seconds\":2.0,\"tok_per_sec\":2.5},\
         \"model\":\"m\",\"object\":\"text_completion\",\
         \"usage\":{\"completion_tokens\":4,\"prompt_tokens\":3,\"total_tokens\":7}}"
    );
    assert_eq!(
        text(&done_event(false, "m", &usage, &perf)),
        "{\"choices\":[{\"finish_reason\":\"stop\",\"index\":0,\"text\":\"\"}],\
         \"llmpager\":{\"seconds\":2.0,\"tok_per_sec\":2.5},\"model\":\"m\",\
         \"object\":\"text_completion\",\
         \"usage\":{\"completion_tokens\":4,\"prompt_tokens\":3,\"total_tokens\":7}}"
    );
    assert_eq!(
        text(&role_event("m")),
        "{\"choices\":[{\"delta\":{\"role\":\"assistant\"},\"index\":0}],\"model\":\"m\",\
         \"object\":\"chat.completion.chunk\"}"
    );
    assert_eq!(
        text(&piece_event(true, "m", "x")),
        "{\"choices\":[{\"delta\":{\"content\":\"x\"},\"index\":0}],\"model\":\"m\",\
         \"object\":\"chat.completion.chunk\"}"
    );
    assert_eq!(
        text(&piece_event(false, "m", "x")),
        "{\"choices\":[{\"index\":0,\"text\":\"x\"}],\"model\":\"m\",\
         \"object\":\"text_completion\"}"
    );
    assert_eq!(text(&error_response("no")), "{\"error\":{\"message\":\"no\"}}");
}

#[test]
fn batches_as_json() {
    let result = |text: &str, prompt, completion| BatchResult {
        text: text.to_string(),
        usage: Usage { prompt, completion },
    };
    let results = vec![result("x", 1, 2), result("y", 3, 4)];
    let usage = batch_usage(&results).unwrap();
    assert_eq!((usage.prompt, usage.completion), (4, 6));
    let v = batch_response("m", &results, &usage, 1.0f64.to_bits(), 6.0f64.to_bits());
    assert_eq!(
        text(&v),
        "{\"choices\":[{\"finish_reason\":\"stop\",\"index\":0,\"text\":\"x\"},\
         {\"finish_reason\":\"stop\",\"index\":1,\"text\":\"y\"}],\"id\":\"cmpl-llmpager\",\
         \"llmpager\":{\"seconds\":1.0,\"streams\":2,\"tok_per_sec_aggregate\":6.0},\
         \"model\":\"m\",\"object\":\"text_completion\",\
         \"usage\":{\"completion_tokens\":6,\"prompt_tokens\":4,\"total_tokens\":10}}"
    );
    assert!(batch_usage(&vec![result("x", u64::MAX, 0), result("y", 1, 0)]).is_none());
}

#[test]
fn the_server_as_json() {
    let mut r = registry();
    warm(&mut r, "b");
    let models = models_response(&r);
    let data = models.get_array("data").unwrap();
    assert_eq!(
        text(&data[0]),
        "{\"id\":\"a\",\"object\":\"model\",\"owned_by\":\"llmpager\",\"slots\":null,\
         \"warm\":false}"
    );
    assert_eq!(
        text(&data[1]),
        "{\"id\":\"b\",\"object\":\"model\",\"owned_by\":\"llmpager\",\"slots\":30,\
         \"warm\":true}"
    );
    assert_eq!(
        text(&vram_response(&r, 5_999_999, 8_000_000)),
        "{\"free_mb\":5,\"total_mb\":8,\"warm\":[{\"model\":\"b\",\"slots\":30}]}"
    );
    let mut store = SessionStore::new(2, 100);
    assert!(matches!(store.acquire("s", &[1, 2]), AcquireStep::Ready { .. }));
    store.commit("s", vec![1, 2, 3]);
    let mut data = Vec::new();
    push_sessions(&mut data, "b", &store);
    assert_eq!(
        text(&list_response(data)),
        "{\"data\":[{\"id\":\"s\",\"model\":\"b\",\"parked_bytes\":0,\"resident\":true,\
         \"slot\":1,\"tokens\":3,\"turns\":1}],\"object\":\"list\"}"
    );
    assert_eq!(text(&deleted_response("s", true)), "{\"deleted\":true,\"id\":\"s\"}");
}

#[test]
fn plain_documents_are_printed() {
    let doc = deleted_response("s", true);
    assert_eq!(print_plain(&doc).unwrap(), b"{\"deleted\":true,\"id\":\"s\"}");
    let list = Json::Array(vec![Json::Null, Json::Int(-3), Json::Uint(3)]);
    assert_eq!(print_plain(&list).unwrap(), b"[null,-3,3]");
    // Floats, signed numbers that are not negative, names out of order, and
    // what is nested too deeply are not plain.
    assert!(print_plain(&Json::Array(vec![Json::Float(0)])).is_none());
    assert!(print_plain(&Json::Int(3)).is_none());
    let member = |name: &str| (name.to_string(), Json::Null);
    assert!(print_plain(&Json::Object(vec![member("b"), member("a")])).is_none());
    assert!(print_plain(&Json::Object(vec![member("a"), member("a")])).is_none());
    let mut deep = Json::Null;
    for _ in 0..100 {
        deep = Json::Array(vec![deep]);
    }
    assert!(print_plain(&deep).is_some());
    assert!(print_plain(&Json::Array(vec![deep])).is_none());
}
