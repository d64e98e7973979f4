use llmpager::bytes::{push_le, read_le};
use llmpager::gguf::{is_sample, shard_files, Gguf, GgmlType, GgufError, GGUF_MAGIC};
use llmpager::json::{parse_json, print_json, Json, JsonNumber};
use llmpager::names::{parse_expert, parse_expert_packed, ExpertTensor};
use llmpager::st::{f32_bits, HeaderError, SafeTensors};
use llmpager::text::{
    chars_of, decimal_string, has_prefix, parse_unsigned, same_text, split_once, string_of,
    strip_prefix,
};

fn chars(s: &str) -> Vec<char> {
    s.chars().collect()
}

#[test]
fn strings_and_their_characters() {
    assert_eq!(chars_of("añ"), ['a', 'ñ']);
    assert_eq!(string_of(&['a', 'ñ']), "añ");
    assert!(same_text("abc", "abc"));
    assert!(!same_text("abc", "abd"));
    assert!(has_prefix(&chars("model.x"), &chars("model.")));
    assert_eq!(strip_prefix(&chars("model.x"), "model."), Some(&['x'][..]));
    assert_eq!(strip_prefix(&chars("mode"), "model."), None);
    let text = chars("a.b.c");
    let (head, tail) = split_once(&text, '.').unwrap();
    assert_eq!((head, tail), (&['a'][..], &['b', '.', 'c'][..]));
    assert!(split_once(&text, '/').is_none());
}

#[test]
fn decimals_round_trip() {
    for n in [0u64, 7, 10, 65535, u64::MAX] {
        let s = decimal_string(n);
        assert_eq!(s, format!("{n}"));
        assert_eq!(parse_unsigned(&chars(&s), u64::MAX), Some(n));
    }
    // As std's parse: a plus sign and leading zeros are fine.
    assert_eq!(parse_unsigned(&chars("+007"), u64::MAX), Some(7));
    assert_eq!(parse_unsigned(&chars("65536"), 65535), None);
    assert_eq!(parse_unsigned(&chars("18446744073709551616"), u64::MAX), None);
    assert_eq!(parse_unsigned(&chars(""), u64::MAX), None);
    assert_eq!(parse_unsigned(&chars("+"), u64::MAX), None);
    assert_eq!(parse_unsigned(&chars("-1"), u64::MAX), None);
}

#[test]
fn little_endian_round_trip() {
    let mut out = vec![9u8];
    push_le(&mut out, 0x0102_0304, 4);
    assert_eq!(out, [9, 4, 3, 2, 1]);
    assert_eq!(read_le(&out, 1, 4), 0x0102_0304);
    assert_eq!(read_le(&out, 1, 0), 0);
}

#[test]
fn json_round_trip() {
    let doc = r#" {"b": [1, -2, 2.5, null, true], "a": "x\né"} "#;
    let json = parse_json(doc.as_bytes()).unwrap();
    assert_eq!(json.get_str("a"), Some("x\né"));
    let b = json.get_array("b").unwrap();
    assert_eq!(b[0].as_u64(), Some(1));
    assert_eq!(b[1].as_u64(), None);
    assert!(matches!(b[1], Json::Int(-2)));
    assert!(matches!(b[2], Json::Float(bits) if f64::from_bits(bits) == 2.5));
    assert!(matches!(b[3], Json::Null));
    assert!(matches!(b[4], Json::Bool(true)));
    // Members come in ascending order of their names.
    match &json {
        Json::Object(members) => {
            assert_eq!(members[0].0, "a");
            assert_eq!(members[1].0, "b");
        }
        _ => panic!("an object"),
    }
    let plain = Json::Object(vec![
        ("a".to_string(), Json::Str("x\n\"é".to_string())),
        (
            "b".to_string(),
            Json::Array(vec![Json::Uint(u64::MAX), Json::Int(-2), Json::Null, Json::Bool(false)]),
        ),
    ]);
    let text = print_json(&plain);
    assert_eq!(
        text,
        "{\"a\":\"x\\n\\\"é\",\"b\":[18446744073709551615,-2,null,false]}".as_bytes()
    );
    let mut spaced = text.clone();
    spaced.extend_from_slice(b"   ");
    for t in [text, spaced] {
        let back = parse_json(&t).unwrap();
        assert_eq!(back.get_str("a"), Some("x\n\"é"));
        assert_eq!(print_json(&back), print_json(&plain));
    }
    assert!(parse_json(b"{").is_none());
    assert!(parse_json(b"").is_none());
}

#[test]
fn json_members_by_kind() {
    let json = parse_json(br#"{"n": 3, "f": 1.5, "i": -1, "t": true, "s": "x"}"#).unwrap();
    assert_eq!(json.get_u64("n"), Some(3));
    assert_eq!(json.get_u64("f"), None);
    assert_eq!(json.get_u64("s"), None);
    assert_eq!(json.get_number("n"), Some(JsonNumber::Uint(3)));
    assert_eq!(json.get_number("i"), Some(JsonNumber::Int(-1)));
    assert_eq!(json.get_number("f"), Some(JsonNumber::Float(1.5f64.to_bits())));
    assert_eq!(json.get_number("s"), None);
    assert_eq!(json.get_bool("t"), Some(true));
    assert_eq!(json.get_bool("n"), None);
    assert!(json.get("missing").is_none());
    assert!(json.as_str().is_none());
    assert!(json.as_array().is_none());
}

#[test]
fn safetensors_headers() {
    let header = br#"{"__metadata__": {"format": "pt"},
        "b.weight": {"dtype": "BF16", "shape": [2, 3], "data_offsets": [8, 20]},
        "a.weight": {"dtype": "F32", "shape": [2], "data_offsets": [0, 8]}}"#;
    let st = SafeTensors::open(header).unwrap();
    let base = 8 + header.len() as u64;
    // Sorted by name, the metadata left out.
    assert_eq!(st.len(), 2);
    assert_eq!(st.at(0).0, "a.weight");
    let b = st.info("b.weight").unwrap();
    assert_eq!(b.dtype, "BF16");
    assert_eq!(b.shape, [2, 3]);
    assert_eq!((b.start, b.end), (base + 8, base + 20));
    assert_eq!(b.nbytes(), Some(12));
    assert!(st.info("c.weight").is_none());
    assert!(st.info("__metadata__").is_none());
}

#[test]
fn broken_safetensors_headers() {
    assert_eq!(SafeTensors::open(b"{").unwrap_err(), HeaderError::NotJson);
    assert_eq!(SafeTensors::open(b"[1]").unwrap_err(), HeaderError::NotAnObject);
    assert_eq!(
        SafeTensors::open(br#"{"x": {"dtype": "F32"}}"#).unwrap_err(),
        HeaderError::MissingOffsets { name: "x".to_string() }
    );
    assert_eq!(
        SafeTensors::open(br#"{"x": {"data_offsets": [1]}}"#).unwrap_err(),
        HeaderError::BadOffsets { name: "x".to_string() }
    );
    assert_eq!(
        SafeTensors::open(br#"{"x": {"data_offsets": [0, 18446744073709551615]}}"#).unwrap_err(),
        HeaderError::BadOffsets { name: "x".to_string() }
    );
}

#[test]
fn numbers_of_a_tensor() {
    let raw = [0x80, 0x3f, 0x00, 0xc0];
    assert_eq!(f32_bits("BF16", &raw), Some(vec![1.0f32.to_bits(), (-2.0f32).to_bits()]));
    assert_eq!(f32_bits("F32", &2.5f32.to_le_bytes()), Some(vec![2.5f32.to_bits()]));
    assert_eq!(f32_bits("F32", &[0; 7]), Some(vec![0]));
    assert_eq!(f32_bits("F16", &raw), None);
}

#[test]
fn expert_names() {
    let t = |layer, expert, proj| Some(ExpertTensor { layer, expert, proj });
    assert_eq!(parse_expert("model.layers.12.mlp.experts.7.gate_proj.weight"), t(12, 7, 0));
    assert_eq!(parse_expert("model.layers.0.mlp.experts.127.up_proj.weight"), t(0, 127, 1));
    assert_eq!(parse_expert("model.layers.0.mlp.experts.0.down_proj.weight"), t(0, 0, 2));
    assert_eq!(parse_expert("model.layers.0.mlp.gate.weight"), None);
    assert_eq!(parse_expert("model.layers.0.mlp.experts.0.down_proj.bias"), None);
    assert_eq!(parse_expert("model.layers.65536.mlp.experts.0.down_proj.weight"), None);
    let packed = "language_model.model.layers.2.mlp.experts.1.up_proj.weight_packed";
    assert_eq!(parse_expert_packed(packed), t(2, 1, 1));
    assert_eq!(parse_expert(packed), None);
}

/// A shard with two metadata entries and the given tensors.
fn gguf_shard(version: u32, name: &[u8], tensors: &[(&str, Vec<u64>, u32, u64)]) -> Vec<u8> {
    let mut out = Vec::new();
    let text = |out: &mut Vec<u8>, s: &[u8]| {
        push_le(out, s.len() as u64, 8);
        out.extend_from_slice(s);
    };
    push_le(&mut out, GGUF_MAGIC as u64, 4);
    push_le(&mut out, version as u64, 4);
    push_le(&mut out, tensors.len() as u64, 8);
    push_le(&mut out, 5, 8);
    text(&mut out, b"general.name");
    push_le(&mut out, 8, 4);
    text(&mut out, name);
    text(&mut out, b"x.expert_count");
    push_le(&mut out, 4, 4);
    push_le(&mut out, 128, 4);
    text(&mut out, b"tokenizer.list");
    push_le(&mut out, 9, 4);
    push_le(&mut out, 8, 4);
    push_le(&mut out, 2, 8);
    text(&mut out, b"aa");
    text(&mut out, b"b");
    text(&mut out, b"x.expert_flag");
    push_le(&mut out, 7, 4);
    push_le(&mut out, 1, 1);
    text(&mut out, b"general.alignment");
    push_le(&mut out, 4, 4);
    push_le(&mut out, 64, 4);
    for (name, dims, ty, off) in tensors {
        text(&mut out, name.as_bytes());
        push_le(&mut out, dims.len() as u64, 4);
        for d in dims {
            push_le(&mut out, *d, 8);
        }
        push_le(&mut out, *ty as u64, 4);
        push_le(&mut out, *off, 8);
    }
    out
}

#[test]
fn gguf_inventory() {
    let head = gguf_shard(
        3,
        b"caf\xff",
        &[
            ("blk.4.ffn_up_exps.weight", vec![256, 8, 4], 12, 0),
            ("a", vec![3], 0, 128),
        ],
    );
    let mut g = Gguf::new();
    assert_eq!(g.add_shard(&head), Ok(()));
    let start = (head.len() as u64).div_ceil(64) * 64;
    let t = g.tensor("a").unwrap();
    assert_eq!((t.file, t.ty, t.abs_offset), (0, GgmlType::F32, start + 128));
    assert_eq!(t.dims, [3]);
    assert_eq!(t.offset_of(4), Some(start + 132));
    assert_eq!(g.tensor("blk.4.ffn_up_exps.weight").unwrap().ty, GgmlType::Q4K);
    assert!(g.tensor("b").is_none());
    // Bytes that are no UTF-8 become replacement characters.
    assert_eq!(g.meta_value("general.name").unwrap(), "caf\u{fffd}");
    assert_eq!(g.meta_value("x.expert_count").unwrap(), "128");
    assert_eq!(g.meta_value("x.expert_flag").unwrap(), "true");
    assert!(g.meta_value("tokenizer.list").is_none());
    assert_eq!(g.meta_list().len(), 4);

    // The second shard adds tensors, not metadata.
    let second = gguf_shard(2, b"other", &[("b", vec![], 30, 0)]);
    assert_eq!(g.add_shard(&second), Ok(()));
    assert_eq!(g.tensor("b").unwrap().file, 1);
    assert_eq!(g.meta_value("general.name").unwrap(), "caf\u{fffd}");
    let names: Vec<&str> = g.tensor_list().iter().map(|t| t.0.as_str()).collect();
    assert_eq!(names, ["a", "b", "blk.4.ffn_up_exps.weight"]);
}

#[test]
fn broken_gguf_headers() {
    let mut g = Gguf::new();
    assert_eq!(g.add_shard(b"GGU"), Err(GgufError::Truncated));
    assert_eq!(g.add_shard(b"GGUX\0\0\0\0"), Err(GgufError::NotGguf));
    assert_eq!(g.add_shard(b"GGUF\x04\0\0\0"), Err(GgufError::UnsupportedVersion(4)));
    let head = gguf_shard(3, b"n", &[("a", vec![1], 0, 0)]);
    assert_eq!(g.add_shard(&head[..head.len() - 1]), Err(GgufError::Truncated));
    let head = gguf_shard(3, b"n", &[("a", vec![1], 0, u64::MAX)]);
    assert_eq!(g.add_shard(&head), Err(GgufError::OffsetOverflow));
    // One entry of type 13, which there is not.
    let mut head = Vec::new();
    push_le(&mut head, GGUF_MAGIC as u64, 4);
    push_le(&mut head, 3, 4);
    push_le(&mut head, 0, 8);
    push_le(&mut head, 1, 8);
    push_le(&mut head, 1, 8);
    head.push(b'k');
    push_le(&mut head, 13, 4);
    assert_eq!(g.add_shard(&head), Err(GgufError::UnknownType(13)));
    // An alignment of 0.
    let mut head = Vec::new();
    push_le(&mut head, GGUF_MAGIC as u64, 4);
    push_le(&mut head, 3, 4);
    push_le(&mut head, 0, 8);
    push_le(&mut head, 1, 8);
    push_le(&mut head, 17, 8);
    head.extend_from_slice(b"general.alignment");
    push_le(&mut head, 4, 4);
    push_le(&mut head, 0, 4);
    assert_eq!(g.add_shard(&head), Err(GgufError::ZeroAlignment));
    assert!(g.tensor_list().is_empty());
}

#[test]
fn ggml_blocks() {
    assert_eq!(GgmlType::from_u32(14), GgmlType::Q6K);
    assert_eq!(GgmlType::from_u32(99), GgmlType::Other(99));
    assert_eq!(GgmlType::Q4K.block_layout(), Some((256, 144)));
    assert_eq!(GgmlType::Q8_0.row_bytes(64), Some(68));
    assert_eq!(GgmlType::Q8_0.row_bytes(65), None);
    assert_eq!(GgmlType::F32.row_bytes(3), Some(12));
    assert_eq!(GgmlType::Other(99).row_bytes(64), None);
}

#[test]
fn shard_siblings() {
    assert_eq!(shard_files("m.gguf").unwrap(), ["m.gguf"]);
    // Any shard leads to all of them.
    let all = ["m-00001-of-00003.gguf", "m-00002-of-00003.gguf", "m-00003-of-00003.gguf"];
    for name in all {
        assert_eq!(shard_files(name).unwrap(), all);
    }
    assert_eq!(shard_files("m-00001-of-x0003.gguf").unwrap(), ["m-00001-of-x0003.gguf"]);
    // A number that no shard of the set has.
    assert_eq!(shard_files("m-00004-of-00003.gguf").unwrap(), ["m-00004-of-00003.gguf"]);
    assert_eq!(shard_files("m-00002-of-03.gguf").unwrap(), ["m-00002-of-03.gguf"]);
    assert_eq!(shard_files("m-00001-of-03"), None);
    // The number of shards takes five bytes.
    assert_eq!(shard_files("m-00001-of-000\u{e9}").unwrap(), ["m-00001-of-000\u{e9}"]);
    assert_eq!(shard_files("m-00001-of-0000\u{e9}"), None);
}

#[test]
fn inventory_samples() {
    assert!(is_sample("blk.4.ffn_up_exps.weight"));
    assert!(is_sample("blk.4.attn_q.weight"));
    assert!(!is_sample("blk.14.attn_q.weight"));
    assert!(!is_sample("blk.5.ffn_up_exps.weight"));
}
