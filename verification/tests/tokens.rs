use llmpager::tokens::{accept_ids, detokenize, tokenize, Codec, TokenError};
use tokenizers::normalizers::NFC;
use tokenizers::Tokenizer;

const ADDED: &str = r#"[{"id": 3, "content": "<eos>", "single_word": false, "lstrip": false,
    "rstrip": false, "normalized": false, "special": true}]"#;

/// A tokenizer of two words, with parts in place of those it has: each is a
/// name and a document.
fn tokenizer_with(parts: &[(&str, &str)]) -> Tokenizer {
    let part = |name: &str, default: &str| {
        let found = parts.iter().find(|p| p.0 == name);
        found.map_or(default.to_string(), |p| p.1.to_string())
    };
    let json = format!(
        r#"{{"version": "1.0", "truncation": {}, "padding": {}, "added_tokens": {},
        "normalizer": {}, "pre_tokenizer": {}, "post_processor": {}, "decoder": {},
        "model": {{"type": "WordLevel", "vocab": {{"hello": 0, "world": 1, "[UNK]": 2}},
        "unk_token": "[UNK]"}}}}"#,
        part("truncation", "null"),
        part("padding", "null"),
        part("added_tokens", ADDED),
        part("normalizer", "null"),
        part("pre_tokenizer", r#"{"type": "Whitespace"}"#),
        part("post_processor", "null"),
        part("decoder", "null"),
    );
    Tokenizer::from_bytes(json.as_bytes()).unwrap()
}

fn codec(parts: &[(&str, &str)]) -> Codec {
    Codec::new(tokenizer_with(parts))
}

#[test]
fn text_to_ids_and_back() {
    let tok = codec(&[]);
    assert_eq!(tokenize(&tok, "world hello there"), Ok(vec![1, 0, 2]));
    assert_eq!(tokenize(&tok, ""), Err(TokenError::EmptyPrompt));
    assert_eq!(accept_ids(None), Err(TokenError::Encode));
    assert_eq!(accept_ids(Some(vec![4])), Ok(vec![4]));
    // Special tokens are left out.
    assert_eq!(detokenize(&tok, &vec![1, 3, 0]), Ok("world hello".to_string()));
}

#[test]
fn truncation_and_padding() {
    let cut = |max: u32, stride: u32| {
        let text = format!(
            r#"{{"direction": "Right", "max_length": {max}, "strategy": "LongestFirst",
            "stride": {stride}}}"#
        );
        tokenize(&codec(&[("truncation", &text)]), "hello world hello")
    };
    assert_eq!(cut(2, 1), Ok(vec![0, 1]));
    assert_eq!(cut(0, 5), Err(TokenError::EmptyPrompt));
    // A stride as long as the maximum length.
    assert_eq!(cut(2, 2), Err(TokenError::Unsupported));
    let pad = |strategy: &str, multiple: &str| {
        let text = format!(
            r#"{{"strategy": {strategy}, "direction": "Right", "pad_to_multiple_of": {multiple},
            "pad_id": 1, "pad_type_id": 0, "pad_token": "world"}}"#
        );
        tokenize(&codec(&[("padding", &text)]), "hello hello hello")
    };
    assert_eq!(pad(r#"{"Fixed": 4}"#, "null"), Ok(vec![0, 0, 0, 1]));
    assert_eq!(pad(r#""BatchLongest""#, "2"), Ok(vec![0, 0, 0, 1]));
    assert_eq!(pad(r#"{"Fixed": 18446744073709551615}"#, "null"), Err(TokenError::Unsupported));
    assert_eq!(pad(r#""BatchLongest""#, "18446744073709551615"), Err(TokenError::Unsupported));
}

#[test]
fn normalizers() {
    let ids = |n: &str| tokenize(&codec(&[("normalizer", n)]), "HELLO world");
    assert_eq!(ids(r#"{"type": "Lowercase"}"#), Ok(vec![0, 1]));
    let replace = |pattern: &str, content: &str| {
        format!(r#"{{"type": "Replace", "pattern": {pattern}, "content": "{content}"}}"#)
    };
    assert_eq!(ids(&replace(r#"{"String": "HELLO"}"#, "hello")), Ok(vec![0, 1]));
    let both = format!(
        r#"{{"type": "Sequence", "normalizers": [{{"type": "NFKC"}}, {},
        {{"type": "Prepend", "prepend": "hello "}}]}}"#,
        replace(r#"{"String": "HELLO"}"#, "world")
    );
    assert_eq!(ids(&both), Ok(vec![0, 1, 1]));
    // What can leave nothing of a text may leave nothing of an added token, unless
    // that has a letter or a digit.
    let strip = r#"{"type": "Strip", "strip_left": true, "strip_right": true}"#;
    assert_eq!(
        ids(&format!(r#"{{"type": "Sequence", "normalizers": [{strip}, {{"type": "Lowercase"}}]}}"#)),
        Ok(vec![0, 1])
    );
    let space = ADDED.replace("<eos>", " ");
    let tok = codec(&[("normalizer", strip), ("added_tokens", &space)]);
    assert_eq!(tokenize(&tok, "hello"), Err(TokenError::Unsupported));
    let bert = r#"{"type": "BertNormalizer", "clean_text": true, "handle_chinese_chars": true,
        "strip_accents": true, "lowercase": true}"#;
    assert_eq!(ids(bert), Ok(vec![0, 1]));
    // These can leave nothing of a token, or a character that came from nothing.
    for n in [
        replace(r#"{"Regex": "^"}"#, "x"),
        replace(r#"{"String": ""}"#, "x"),
        replace(r#"{"String": "H"}"#, ""),
        r#"{"type": "Prepend", "prepend": ""}"#.to_string(),
    ] {
        assert_eq!(ids(&n), Err(TokenError::Unsupported), "{n}");
    }
}

#[test]
fn added_tokens_follow_the_normalizer() {
    // Under the first normalizer the added token is empty.
    let strip = r#"{"type": "Strip", "strip_left": true, "strip_right": true}"#;
    let space = r#"[{"id": 3, "content": " ", "single_word": false, "lstrip": false,
        "rstrip": false, "normalized": true, "special": false}]"#;
    let mut tok = tokenizer_with(&[("normalizer", strip), ("added_tokens", space)]);
    tok.with_normalizer(Some(NFC));
    assert_eq!(tokenize(&Codec::new(tok), "hello \u{e9}"), Ok(vec![0, 3, 2]));
    // Two tokens that claim the spaces between them.
    let added = |l: bool, r: bool| {
        format!(
            r#"[{{"id": 3, "content": "<a>", "single_word": false, "lstrip": false, "rstrip": {r},
            "normalized": false, "special": true}}, {{"id": 4, "content": " ",
            "single_word": false, "lstrip": {l}, "rstrip": false, "normalized": false,
            "special": true}}]"#
        )
    };
    let ids = |l, r| tokenize(&codec(&[("added_tokens", &added(l, r))]), "<a>  hello");
    assert_eq!(ids(true, false), Ok(vec![3, 4, 4, 0]));
    assert_eq!(ids(true, true), Err(TokenError::Unsupported));
}

#[test]
fn pre_tokenizers() {
    let split = |pattern: &str| {
        format!(
            r#"{{"type": "Split", "pattern": {pattern}, "behavior": "Removed", "invert": false}}"#
        )
    };
    let ids = |p: &str, text: &str| tokenize(&codec(&[("pre_tokenizer", p)]), text);
    assert_eq!(ids(&split(r#"{"String": "-"}"#), "hello-world"), Ok(vec![0, 1]));
    assert_eq!(ids(&split(r#"{"Regex": "-(?=w)"}"#), "hello-world"), Ok(vec![0, 1]));
    // A regex that gives up ends its matches there.
    let hard = split(r#"{"Regex": "^(?:(?:a(?=.))+)+c"}"#);
    let text = "a".repeat(60) + "b";
    assert_eq!(ids(&hard, &text), Ok(vec![2]));
    // Regexes that refer back: a match that starts in front of the match before,
    // and groups without an end.
    for (regex, text) in [
        (r"(?<=\\Ka)b|a", "ab"),
        (r"(?:(a|b\\1)x)+", "axbx"),
        (r"(?:(?<n>a|b\\k<n>)x)+", "axbx"),
        (r"(?:(?P<n>a|b(?P=n))x)+", "axbx"),
        (r"(a)?(?(1)b|c)", "ab"),
    ] {
        let p = split(&format!(r#"{{"Regex": "{regex}"}}"#));
        assert_eq!(ids(&p, text), Err(TokenError::Unsupported), "{regex}");
    }
    assert_eq!(ids(r#"{"type": "FixedLength", "length": 5}"#, "helloworld"), Ok(vec![0, 1]));
    assert_eq!(
        ids(r#"{"type": "FixedLength", "length": 0}"#, "hello"),
        Err(TokenError::Unsupported)
    );
    let both = format!(
        r#"{{"type": "Sequence", "pretokenizers": [{{"type": "WhitespaceSplit"}}, {}]}}"#,
        split(r#"{"String": "-"}"#)
    );
    assert_eq!(ids(&both, "hello world-hello"), Ok(vec![0, 1, 0]));
}

#[test]
fn post_processors() {
    let template = |single: &str| {
        format!(
            r#"{{"type": "TemplateProcessing", "single": [{single}],
            "pair": [{{"Sequence": {{"id": "A", "type_id": 0}}}},
            {{"Sequence": {{"id": "B", "type_id": 1}}}}], "special_tokens": {{}}}}"#
        )
    };
    let a = r#"{"Sequence": {"id": "A", "type_id": 0}}"#;
    let b = r#"{"Sequence": {"id": "B", "type_id": 0}}"#;
    let ids = |p: &str| tokenize(&codec(&[("post_processor", p)]), "hello");
    assert_eq!(ids(&template(a)), Ok(vec![0]));
    assert_eq!(ids(&template(&format!("{a}, {a}"))), Ok(vec![0, 0]));
    // There is no second text.
    assert_eq!(ids(&template(b)), Err(TokenError::Unsupported));
    let sequence = |first: &str| {
        format!(r#"{{"type": "Sequence", "processors": [{}, {}]}}"#, template(first), template(a))
    };
    assert_eq!(ids(&sequence(a)), Ok(vec![0]));
    // Two texts go on as a pair; there is no template for three.
    assert_eq!(ids(&sequence(&format!("{a}, {a}"))), Ok(vec![0, 0]));
    assert_eq!(ids(&sequence(&format!("{a}, {a}, {a}"))), Err(TokenError::Unsupported));
}

#[test]
fn decoders() {
    let text = |d: &str, ids: Vec<u32>| detokenize(&codec(&[("decoder", d)]), &ids);
    let ok = |s: &str| Ok(s.to_string());
    let bytes = r#"{"type": "ByteLevel", "add_prefix_space": false, "trim_offsets": true,
        "use_regex": true}"#;
    assert_eq!(text(bytes, vec![0, 1]), ok("helloworld"));
    assert_eq!(text(bytes, vec![]), ok(""));
    // This one takes no empty list, nor one that is empty without special tokens.
    let bpe = r#"{"type": "BPEDecoder", "suffix": "o"}"#;
    assert_eq!(text(bpe, vec![0, 1]), ok("hell wrld"));
    assert_eq!(text(bpe, vec![3]), Err(TokenError::Unsupported));
    assert_eq!(text(bpe, vec![]), Err(TokenError::Unsupported));
    // A token that is stripped away from both ends.
    let strip = |c: &str, start: u32, stop: u32| {
        format!(r#"{{"type": "Strip", "content": "{c}", "start": {start}, "stop": {stop}}}"#)
    };
    assert_eq!(text(&strip("h", 1, 9), vec![0, 1]), ok("elloworld"));
    let x = r#"[{"id": 3, "content": "xx", "single_word": false, "lstrip": false,
        "rstrip": false, "normalized": false, "special": false}]"#;
    let stripped = |start, stop| {
        let d = strip("x", start, stop);
        detokenize(&codec(&[("decoder", &d), ("added_tokens", x)]), &vec![0, 3])
    };
    assert_eq!(stripped(1, 1), ok("hello"));
    assert_eq!(stripped(2, 0), ok("hello"));
    assert_eq!(stripped(2, 1), Err(TokenError::Unsupported));
    assert_eq!(stripped(0, 3), Err(TokenError::Unsupported));
    let replace = |pattern: &str| {
        format!(r#"{{"type": "Replace", "pattern": {pattern}, "content": "y"}}"#)
    };
    assert_eq!(text(&replace(r#"{"Regex": "l+"}"#), vec![0]), ok("heyo"));
    assert_eq!(
        text(&replace(r#"{"Regex": "(?<=\\Kl)l|l"}"#), vec![0]),
        Err(TokenError::Unsupported)
    );
    let sequence = |first: &str, second: &str| {
        format!(r#"{{"type": "Sequence", "decoders": [{first}, {second}]}}"#)
    };
    let fuse = r#"{"type": "Fuse"}"#;
    assert_eq!(text(&sequence(fuse, bpe), vec![]), ok(""));
    assert_eq!(text(&sequence(fuse, &strip("h", 1, 0)), vec![0, 1]), ok("elloworld"));
    // What a later decoder gets is not known.
    assert_eq!(text(&sequence(fuse, &strip("h", 1, 1)), vec![0]), Err(TokenError::Unsupported));
}
