use llmpager::blob::{
    assemble_blob, expert_tensors, matrix_dims, packed_base, packed_dims, packed_projection,
    packed_tensors, Projection, BLOB_HEADER_BYTES, KIMI_GROUP,
};
use llmpager::checkpoint::{shard_names, Checkpoint, TensorLoc};
use llmpager::convert::{
    contains_text, expert_layout, layout_packed, layout_plain, model_name, pack_config, pack_meta,
    plan, ConvertError, ExpertLayout, Format,
};
use llmpager::core_file::{core_entries, core_header, CoreEntry};
use llmpager::json::{parse_json, Json};
use llmpager::pack::{align_up, PackReader, PackWriter, ALIGN};
use llmpager::quant::{
    f16_bits_to_f32, f32_to_f16_bits, q4_assemble, q4_bytes, q4_extract, q4g64_bytes, GROUP,
};
use llmpager::st::{f32_bits, SafeTensors};
use serde_json::Value;

/// A checkpoint of one file, in memory.
struct Model {
    config: Json,
    ckpt: Checkpoint,
    file: Vec<u8>,
}

struct Writer {
    header: serde_json::Map<String, Value>,
    data: Vec<u8>,
}

impl Writer {
    fn new() -> Self {
        Writer { header: serde_json::Map::new(), data: Vec::new() }
    }

    fn add(&mut self, name: String, dtype: &str, shape: Vec<usize>, bytes: Vec<u8>) {
        let start = self.data.len();
        self.data.extend_from_slice(&bytes);
        let mut entry = serde_json::Map::new();
        entry.insert("dtype".to_string(), Value::from(dtype));
        entry.insert("shape".to_string(), Value::from(shape));
        entry.insert(
            "data_offsets".to_string(),
            Value::from(vec![start, start + bytes.len()]),
        );
        self.header.insert(name, Value::Object(entry));
    }

    fn open(self, config: &[u8]) -> Model {
        let mut hdr = serde_json::to_vec(&Value::Object(self.header)).unwrap();
        while hdr.len() % 8 != 0 {
            hdr.push(b' ');
        }
        let mut file = Vec::new();
        file.extend_from_slice(&(hdr.len() as u64).to_le_bytes());
        file.extend_from_slice(&hdr);
        file.extend_from_slice(&self.data);
        let n = SafeTensors::header_len(&file[..8]) as usize;
        let shard = SafeTensors::open(&file[8..8 + n]).unwrap();
        let mut ckpt = Checkpoint::new();
        ckpt.add_shard(&shard);
        Model { config: parse_json(config).unwrap(), ckpt, file }
    }
}

impl Model {
    fn read_raw(&self, loc: &TensorLoc) -> &[u8] {
        &self.file[loc.info.start as usize..loc.info.end as usize]
    }

    fn read_f32(&self, name: &str) -> Vec<f32> {
        let loc = self.ckpt.find(name).unwrap();
        f32_bits(loc.info.dtype.as_str(), self.read_raw(loc))
            .unwrap()
            .iter()
            .map(|b| f32::from_bits(*b))
            .collect()
    }

    /// The core file: header, then the tensors.
    fn core_file(&self, layout: &ExpertLayout) -> (Vec<u8>, Vec<CoreEntry>) {
        let plan = plan(&self.ckpt, layout).unwrap();
        let entries = core_entries(&self.ckpt, layout, &plan).unwrap();
        let mut file = core_header(&entries).unwrap();
        for i in &plan.core {
            file.extend_from_slice(self.read_raw(self.ckpt.at(*i).1));
        }
        (file, entries)
    }
}

fn bf16_bytes(vals: &[f32]) -> Vec<u8> {
    vals.iter()
        .flat_map(|v| ((v.to_bits() >> 16) as u16).to_le_bytes())
        .collect()
}

fn pseudo(n: usize, seed: u64) -> Vec<f32> {
    let mut s = seed.max(1);
    (0..n)
        .map(|_| {
            s ^= s << 13;
            s ^= s >> 7;
            s ^= s << 17;
            ((s >> 11) as f64 / (1u64 << 53) as f64 * 2.0 - 1.0) as f32 * 0.05
        })
        .collect()
}

/// Hand-rolled checkpoint: 2 layers x 4 experts, hidden 128, inter 64.
fn plain_model() -> Model {
    let (layers, experts, hidden, inter) = (2usize, 4usize, 128usize, 64usize);
    let mut w = Writer::new();
    let mut add = |name: String, shape: Vec<usize>| {
        let n: usize = shape.iter().product();
        let seed = name
            .bytes()
            .fold(1u64, |a, b| a.wrapping_mul(31).wrapping_add(b as u64));
        w.add(name, "BF16", shape, bf16_bytes(&pseudo(n, seed)));
    };
    add("model.embed_tokens.weight".to_string(), vec![32, hidden]);
    for l in 0..layers {
        add(format!("model.layers.{l}.mlp.gate.weight"), vec![experts, hidden]);
        for e in 0..experts {
            let at = format!("model.layers.{l}.mlp.experts.{e}");
            add(format!("{at}.gate_proj.weight"), vec![inter, hidden]);
            add(format!("{at}.up_proj.weight"), vec![inter, hidden]);
            add(format!("{at}.down_proj.weight"), vec![hidden, inter]);
        }
    }
    w.open(
        br#"{"model_type": "qwen3_moe", "num_hidden_layers": 2, "num_experts": 4,
             "hidden_size": 128, "moe_intermediate_size": 64, "num_experts_per_tok": 2}"#,
    )
}

/// Groupwise quantization to 4 bits, with the largest error.
fn quantize(src: &[f32]) -> (Vec<u8>, f32) {
    let mut scales = Vec::new();
    let mut nibbles = Vec::new();
    let mut max_err = 0.0f32;
    for vals in src.chunks(GROUP) {
        let amax = vals.iter().fold(0.0f32, |m, v| m.max(v.abs()));
        let raw = if amax > 0.0 { amax / 7.0 } else { 1e-8 };
        let scale = f32::from_bits(f16_bits_to_f32(f32_to_f16_bits(raw.to_bits()))).max(1e-7);
        scales.push(f32_to_f16_bits(scale.to_bits()));
        for x in vals {
            let q = (x / scale).round().clamp(-8.0, 7.0) as i32;
            max_err = max_err.max((x - q as f32 * scale).abs());
            nibbles.push((q + 8) as u8);
        }
    }
    (q4_assemble(&scales, &nibbles), max_err)
}

fn dequantize(region: &[u8], rows: usize, cols: usize, group: usize) -> Vec<f32> {
    let (scales, nibbles) = q4_extract(region, rows * (cols / group));
    nibbles
        .iter()
        .enumerate()
        .map(|(i, q)| (*q as i32 - 8) as f32 * f32::from_bits(f16_bits_to_f32(scales[i / group])))
        .collect()
}

#[test]
fn end_to_end_convert() {
    let m = plain_model();
    let layout = expert_layout(&m.config).unwrap();
    assert_eq!((layout.layers, layout.experts), (2, 4));
    let (core, entries) = m.core_file(&layout);
    assert_eq!(entries.len(), 3); // embed + 2 router gates

    let split = plan(&m.ckpt, &layout).unwrap();
    let meta = pack_meta(&m.config, &layout);
    assert_eq!(meta.model, "qwen3_moe");
    let mut writer = PackWriter::create(meta.clone());
    let mut max_quant_err = 0.0f32;
    let mut body: Vec<u8> = Vec::new();
    for l in 0..2u16 {
        for e in 0..4u16 {
            let (gate, up, down) = expert_tensors(&layout, &split, l, e).unwrap();
            let mut projs: Vec<Projection> = Vec::new();
            for t in [gate, up, down] {
                let (name, loc) = m.ckpt.at(t);
                let (rows, cols) = matrix_dims(&loc.info.shape, GROUP).unwrap();
                let (region, err) = quantize(&m.read_f32(name));
                max_quant_err = max_quant_err.max(err);
                projs.push(Projection { rows: rows as u32, cols: cols as u32, region });
            }
            let blob = assemble_blob(&projs, GROUP as u32);
            body.extend_from_slice(&writer.add_blob(&blob).unwrap());
        }
    }
    let mut pack = writer.finish(b"{}").unwrap();
    pack.extend_from_slice(&body);
    assert!(max_quant_err < 0.05 / 14.0 * 1.2);

    // Pack sanity + dequant round-trip for one expert's gate_proj.
    let span = PackReader::index_span(&meta) as usize;
    let r = PackReader::open(meta, &pack[ALIGN as usize..ALIGN as usize + span]);
    assert_eq!(r.meta().dtype, "q4g64-gud");
    let config = pack_config(m.config, &layout).unwrap();
    assert_eq!(config.get_u64("hidden_size"), Some(128));
    let entry = r.entry(1, 2);
    let read = r.read_blob_into(1, 2, align_up(entry.nbytes), 0).unwrap();
    let buf = &pack[read.offset as usize..(read.offset + read.span) as usize];
    let n = read.nbytes as usize;
    let (rows, cols) = (
        u32::from_le_bytes(buf[0..4].try_into().unwrap()) as usize,
        u32::from_le_bytes(buf[4..8].try_into().unwrap()) as usize,
    );
    assert_eq!((rows, cols), (64, 128));
    assert_eq!(
        n,
        BLOB_HEADER_BYTES + 2 * q4g64_bytes(64, 128) + q4g64_bytes(128, 64)
    );

    let m = plain_model();
    let orig = m.read_f32("model.layers.1.mlp.experts.2.gate_proj.weight");
    let region = &buf[BLOB_HEADER_BYTES..BLOB_HEADER_BYTES + q4g64_bytes(rows, cols)];
    let deq = dequantize(region, rows, cols, GROUP);
    for (a, b) in orig.iter().zip(deq.iter()) {
        assert!((a - b).abs() < 0.006, "{a} vs {b}");
    }

    // Core file: the embed tensor's bytes are preserved verbatim.
    let hlen = u64::from_le_bytes(core[..8].try_into().unwrap()) as usize;
    let chdr: Value = serde_json::from_slice(&core[8..8 + hlen]).unwrap();
    let offs = chdr["model.embed_tokens.weight"]["data_offsets"]
        .as_array()
        .unwrap()
        .iter()
        .map(|v| v.as_u64().unwrap() as usize)
        .collect::<Vec<_>>();
    let loc = m.ckpt.find("model.embed_tokens.weight").unwrap();
    let orig_raw = m.read_raw(loc);
    assert_eq!(&core[8 + hlen + offs[0]..8 + hlen + offs[1]], orig_raw);
    let total: u64 = entries.iter().map(|e| e.nbytes).sum();
    assert_eq!(core.len() as u64, 8 + hlen as u64 + total);
}

fn f32_to_bf16(x: f32) -> u16 {
    ((x.to_bits() + 0x8000) >> 16) as u16
}

fn bf16_to_f32(h: u16) -> f32 {
    f32::from_bits((h as u32) << 16)
}

/// Tiny kimi-shaped checkpoint: 3 layers (1 dense), 2 experts, hidden 64, moe
/// inter 32, plus vision tensors that must be skipped.
fn kimi_model() -> Model {
    let (layers, dense, experts, hidden, inter) = (3usize, 1usize, 2usize, 64usize, 32usize);
    let mut w = Writer::new();
    let mut rng = 7u64;
    let mut next = move || {
        rng ^= rng << 13;
        rng ^= rng >> 7;
        rng ^= rng << 17;
        rng
    };
    // Core-ish tensors (bf16) + a vision tensor to be dropped.
    for (name, n) in [
        ("language_model.model.embed_tokens.weight", 8 * hidden),
        ("language_model.model.layers.0.mlp.gate_proj.weight", inter * hidden),
        (
            "language_model.model.layers.1.mlp.shared_experts.gate_proj.weight",
            inter * hidden,
        ),
        ("vision_tower.encoder.blocks.0.attn.weight", 16),
    ] {
        let bytes: Vec<u8> = (0..n)
            .flat_map(|_| f32_to_bf16((next() % 1000) as f32 / 1000.0 - 0.5).to_le_bytes())
            .collect();
        w.add(name.to_string(), "BF16", vec![n], bytes);
    }
    // Packed experts for MoE layers 1..3: gate/up [inter, hidden], down
    // [hidden, inter].
    for l in dense..layers {
        for e in 0..experts {
            for (proj, rows, cols) in [
                ("gate_proj", inter, hidden),
                ("up_proj", inter, hidden),
                ("down_proj", hidden, inter),
            ] {
                let base = format!("language_model.model.layers.{l}.mlp.experts.{e}.{proj}.weight");
                let words: Vec<u8> = (0..rows * cols / 8)
                    .flat_map(|_| (next() as u32).to_le_bytes())
                    .collect();
                w.add(format!("{base}_packed"), "I32", vec![rows, cols / 8], words);
                let scales: Vec<u8> = (0..rows * cols / 32)
                    .flat_map(|_| {
                        f32_to_bf16(((next() % 900) + 100) as f32 / 10000.0).to_le_bytes()
                    })
                    .collect();
                w.add(format!("{base}_scale"), "BF16", vec![rows, cols / 32], scales);
                let shape: Vec<u8> =
                    [(rows as i32).to_le_bytes(), (cols as i32).to_le_bytes()].concat();
                w.add(format!("{base}_shape"), "I32", vec![2], shape);
            }
        }
    }
    w.open(
        br#"{"model_type": "kimi_k25", "text_config": {"model_type": "kimi_k2",
             "num_hidden_layers": 3, "n_routed_experts": 2, "first_k_dense_replace": 1,
             "hidden_size": 64, "moe_intermediate_size": 32, "num_experts_per_tok": 2}}"#,
    )
}

#[test]
fn kimi_repack_round_trip() {
    let m = kimi_model();
    let layout = expert_layout(&m.config).unwrap();
    // 3 layers - 1 dense
    assert_eq!((layout.layers - layout.dense, layout.experts), (2, 2));
    let (core, entries) = m.core_file(&layout);
    assert_eq!(entries.len(), 3); // embed + dense gate + shared gate

    let split = plan(&m.ckpt, &layout).unwrap();
    let meta = pack_meta(&m.config, &layout);
    assert_eq!((meta.model.as_str(), meta.num_layers), ("kimi_k2.6", 2));
    let mut writer = PackWriter::create(meta.clone());
    let mut max_scale_err = 0.0f32;
    let mut body: Vec<u8> = Vec::new();
    for l in 0..2u16 {
        for e in 0..2u16 {
            let (gate, up, down) = expert_tensors(&layout, &split, l, e).unwrap();
            let mut projs: Vec<Projection> = Vec::new();
            for t in [gate, up, down] {
                let base = packed_base(m.ckpt.at(t).0);
                let (packed, scale, shape) = packed_tensors(&m.ckpt, &base).unwrap();
                let raw_shape = shape.map(|loc| m.read_raw(loc));
                let (rows, cols) =
                    packed_dims(&packed.info.shape, &scale.info.shape, raw_shape).unwrap();
                let scales = m.read_raw(scale);
                for c in scales.chunks_exact(2) {
                    let s = bf16_to_f32(u16::from_le_bytes([c[0], c[1]]));
                    let back = f32::from_bits(f16_bits_to_f32(f32_to_f16_bits(s.to_bits())));
                    max_scale_err = max_scale_err.max(((s - back) / s).abs());
                }
                projs.push(packed_projection(m.read_raw(packed), scales, rows, cols).unwrap());
            }
            let blob = assemble_blob(&projs, KIMI_GROUP as u32);
            body.extend_from_slice(&writer.add_blob(&blob).unwrap());
        }
    }
    let mut pack = writer.finish(b"{}").unwrap();
    pack.extend_from_slice(&body);
    assert!(max_scale_err < 0.005, "scale err {max_scale_err}");

    let span = PackReader::index_span(&meta) as usize;
    let r = PackReader::open(meta, &pack[ALIGN as usize..ALIGN as usize + span]);
    assert_eq!(r.meta().dtype, "q4g32-gud");
    let config = pack_config(m.config, &layout).unwrap();
    assert_eq!(config.get_u64("moe_layer_offset"), Some(1));
    assert_eq!(config.get_u64("hidden_size"), Some(64));

    // Dequant our repacked gate_proj of (pack layer 1 = model layer 2, expert
    // 1) and compare against the compressed-tensors reference.
    let read = r.read_blob_into(1, 1, align_up(r.entry(1, 1).nbytes), 0).unwrap();
    let buf = &pack[read.offset as usize..(read.offset + read.span) as usize];
    let (rows, cols) = (
        u32::from_le_bytes(buf[0..4].try_into().unwrap()) as usize,
        u32::from_le_bytes(buf[4..8].try_into().unwrap()) as usize,
    );
    assert_eq!((rows, cols), (32, 64));
    let group = u32::from_le_bytes(buf[24..28].try_into().unwrap()) as usize;
    assert_eq!(group, 32);
    let region = &buf[BLOB_HEADER_BYTES..BLOB_HEADER_BYTES + q4_bytes(rows, cols, 32)];
    let ours = dequantize(region, rows, cols, 32);

    let m = kimi_model();
    let base = "language_model.model.layers.2.mlp.experts.1.gate_proj.weight";
    let packed = m.read_raw(m.ckpt.find(&format!("{base}_packed")).unwrap());
    let scales = m.read_raw(m.ckpt.find(&format!("{base}_scale")).unwrap());
    for r_ in 0..rows {
        for c in 0..cols {
            let vi = r_ * cols + c;
            let word = u32::from_le_bytes(packed[vi / 8 * 4..vi / 8 * 4 + 4].try_into().unwrap());
            let raw = ((word >> (4 * (vi % 8))) & 0xF) as i32;
            let signed = if raw >= 8 { raw - 16 } else { raw };
            let sidx = (r_ * (cols / 32) + c / 32) * 2;
            let scale = bf16_to_f32(u16::from_le_bytes([scales[sidx], scales[sidx + 1]]));
            let want = signed as f32 * scale;
            let got = ours[vi];
            // f16 scale rounding is the only allowed difference.
            assert!(
                (want - got).abs() <= scale.abs() * 8.0 * 0.005 + 1e-7,
                "({r_},{c}): want {want} got {got}"
            );
        }
    }

    // Core: renamed, vision dropped.
    let hlen = u64::from_le_bytes(core[..8].try_into().unwrap()) as usize;
    let chdr: Value = serde_json::from_slice(&core[8..8 + hlen]).unwrap();
    assert!(chdr.get("model.embed_tokens.weight").is_some());
    assert!(chdr.get("model.layers.1.mlp.shared_experts.gate_proj.weight").is_some());
    assert!(
        chdr.as_object().unwrap().keys().all(|k| !k.contains("vision")),
        "vision tensor leaked into core"
    );
}

#[test]
fn core_file_reads_back_as_safetensors() {
    let m = plain_model();
    let layout = layout_plain(&m.config).unwrap();
    let (core, entries) = m.core_file(&layout);
    let hlen = SafeTensors::header_len(&core[..8]) as usize;
    assert_eq!(hlen % 8, 0);
    let back = SafeTensors::open(&core[8..8 + hlen]).unwrap();
    assert_eq!(back.len(), entries.len());
    let mut at = 8 + hlen as u64;
    for (i, entry) in entries.iter().enumerate() {
        let (name, info) = back.at(i);
        assert_eq!(name, entry.name);
        assert_eq!(info.shape, entry.shape);
        // The tensors tile the data without gaps.
        assert_eq!(info.start, at);
        at += entry.nbytes;
        assert_eq!(info.end, at);
        let loc = m.ckpt.find(name).unwrap();
        assert_eq!(&core[info.start as usize..info.end as usize], m.read_raw(loc));
    }
    assert_eq!(at, core.len() as u64);
}

#[test]
fn config_errors() {
    let config = |text: &str| parse_json(text.as_bytes()).unwrap();
    assert_eq!(layout_plain(&config("{}")), Err(ConvertError::NoLayerCount));
    assert_eq!(
        layout_plain(&config(r#"{"num_hidden_layers": 2}"#)),
        Err(ConvertError::NoExpertCount)
    );
    assert_eq!(layout_packed(&config("{}")), Err(ConvertError::NoTextConfig));
    assert_eq!(
        layout_packed(&config(r#"{"text_config": {}}"#)),
        Err(ConvertError::NoLayerCount)
    );
    assert_eq!(
        layout_packed(&config(r#"{"text_config": {"num_hidden_layers": 3}}"#)),
        Err(ConvertError::NoExpertCount)
    );
    assert_eq!(
        layout_packed(&config(
            r#"{"text_config": {"num_hidden_layers": 3, "n_routed_experts": 2,
                "first_k_dense_replace": 4}}"#
        )),
        Err(ConvertError::TooManyDenseLayers)
    );
    assert_eq!(model_name(&config("{}")), "unknown");
}

#[test]
fn experts_out_of_range_are_rejected() {
    let mut w = Writer::new();
    w.add("model.layers.0.mlp.experts.0.up_proj.weight".to_string(), "BF16", vec![1], vec![0, 0]);
    w.add("model.layers.0.mlp.experts.9.up_proj.weight".to_string(), "BF16", vec![1], vec![0, 0]);
    let m = w.open(br#"{"num_hidden_layers": 1, "num_experts": 4}"#);
    let layout = layout_plain(&m.config).unwrap();
    assert_eq!(
        plan(&m.ckpt, &layout).unwrap_err(),
        ConvertError::OutOfRange { tensor: 1 }
    );
}

#[test]
fn missing_projections_are_named_in_order() {
    let mut w = Writer::new();
    w.add("model.layers.0.mlp.experts.0.gate_proj.weight".to_string(), "BF16", vec![1], vec![0, 0]);
    w.add("model.layers.0.mlp.experts.0.down_proj.weight".to_string(), "BF16", vec![1], vec![0, 0]);
    let m = w.open(br#"{"num_hidden_layers": 1, "num_experts": 2}"#);
    let layout = layout_plain(&m.config).unwrap();
    let split = plan(&m.ckpt, &layout).unwrap();
    assert_eq!(
        expert_tensors(&layout, &split, 0, 0).unwrap_err(),
        ConvertError::MissingProjection { proj: 1 }
    );
    assert_eq!(
        expert_tensors(&layout, &split, 0, 1).unwrap_err(),
        ConvertError::MissingProjection { proj: 0 }
    );
}

#[test]
fn expert_weights_are_matrices_of_whole_groups() {
    assert_eq!(matrix_dims(&vec![4], 64), Err(ConvertError::NotAMatrix));
    assert_eq!(
        matrix_dims(&vec![4, 65], 64),
        Err(ConvertError::PartialGroup { cols: 65 })
    );
    assert_eq!(matrix_dims(&vec![4, 128], 64), Ok((4, 128)));
}

#[test]
fn packed_shapes_must_agree() {
    let shape = |r: i32, c: i32| [r.to_le_bytes(), c.to_le_bytes()].concat();
    assert_eq!(
        packed_dims(&vec![2, 8], &vec![2, 2], Some(&shape(2, 64)[..])),
        Ok((2, 64))
    );
    assert_eq!(packed_dims(&vec![2, 8], &vec![2, 2], None), Ok((2, 64)));
    assert_eq!(
        packed_dims(&vec![2, 8], &vec![2, 2], Some(&[0u8; 7][..])),
        Err(ConvertError::ShortShape)
    );
    assert_eq!(
        packed_dims(&vec![2, 8], &vec![2, 2], Some(&shape(3, 64)[..])),
        Err(ConvertError::PackedShape)
    );
    assert_eq!(
        packed_dims(&vec![2, 8], &vec![2, 2], Some(&shape(-2, 64)[..])),
        Err(ConvertError::PackedShape)
    );
    assert_eq!(
        packed_dims(&vec![2, 8], &vec![2, 3], None),
        Err(ConvertError::ScaleShape)
    );
}

#[test]
fn packed_experts_need_words_and_scales() {
    let base = "language_model.model.layers.0.mlp.experts.0.up_proj.weight";
    let config = br#"{"text_config": {}}"#;
    let m = Writer::new().open(config);
    assert_eq!(packed_tensors(&m.ckpt, base).unwrap_err(), ConvertError::NoPackedWeights);
    let mut w = Writer::new();
    w.add(format!("{base}_packed"), "I32", vec![1, 4], vec![0; 16]);
    let m = w.open(config);
    assert_eq!(packed_tensors(&m.ckpt, base).unwrap_err(), ConvertError::NoScales);
    let mut w = Writer::new();
    w.add(format!("{base}_packed"), "I32", vec![1, 4], vec![0; 16]);
    w.add(format!("{base}_scale"), "F32", vec![1, 1], vec![0; 4]);
    let m = w.open(config);
    assert_eq!(packed_tensors(&m.ckpt, base).unwrap_err(), ConvertError::Dtypes);
}

#[test]
fn repacking_shifts_signed_nibbles() {
    // Low nibble 0xf is -1, high nibble 0x7 is 7: stored as 7 and 15.
    let scale = 1.0f32.to_bits() >> 16;
    let packed = [0x7f, 0x08, 0x80, 0x00].repeat(4);
    let p = packed_projection(&packed, &(scale as u16).to_le_bytes(), 1, 32).unwrap();
    assert_eq!((p.rows, p.cols), (1, 32));
    assert_eq!(&p.region[..6], &[0x00, 0x3c, 0xf7, 0x80, 0x08, 0x88]);
    assert_eq!(p.region.len(), q4_bytes(1, 32, 32));
    // More words than the shape has room for.
    assert_eq!(
        packed_projection(&[0; 20], &[0, 0], 1, 32).unwrap_err(),
        ConvertError::PackedSize
    );
}

#[test]
fn inverted_ranges_are_rejected() {
    let header = br#"{"b": {"dtype": "BF16", "shape": [1], "data_offsets": [4, 2]}}"#;
    let mut ckpt = Checkpoint::new();
    ckpt.add_shard(&SafeTensors::open(header).unwrap());
    let layout = ExpertLayout { format: Format::Plain, layers: 1, dense: 0, experts: 1 };
    let split = plan(&ckpt, &layout).unwrap();
    assert_eq!(
        core_entries(&ckpt, &layout, &split).unwrap_err(),
        ConvertError::InvertedRange { tensor: 0 }
    );
}

#[test]
fn a_core_must_fit_a_file() {
    let entry = |name: &str, nbytes: u64| CoreEntry {
        name: name.to_string(),
        dtype: "BF16".to_string(),
        shape: vec![1],
        nbytes,
    };
    assert_eq!(
        core_header(&vec![entry("a", u64::MAX), entry("b", 1)]).unwrap_err(),
        ConvertError::CoreTooLarge
    );
}

#[test]
fn later_shards_win() {
    let one = SafeTensors::open(br#"{"a": {"dtype": "F32", "shape": [1], "data_offsets": [0, 4]},
        "b": {"dtype": "F32", "shape": [1], "data_offsets": [4, 8]}}"#)
    .unwrap();
    let two =
        SafeTensors::open(br#"{"a": {"dtype": "BF16", "shape": [1], "data_offsets": [0, 2]}}"#)
            .unwrap();
    let mut ckpt = Checkpoint::new();
    ckpt.add_shard(&one);
    ckpt.add_shard(&two);
    assert_eq!(ckpt.len(), 2);
    assert_eq!(ckpt.find("a").unwrap().file, 1);
    assert_eq!(ckpt.find("b").unwrap().file, 0);
    assert!(ckpt.find("c").is_none());
}

#[test]
fn shards_are_listed_once_in_order() {
    let index = parse_json(
        br#"{"weight_map": {"x": "b.safetensors", "y": "a.safetensors", "z": "b.safetensors"}}"#,
    )
    .unwrap();
    assert_eq!(shard_names(&index).unwrap(), ["a.safetensors", "b.safetensors"]);
    assert!(shard_names(&parse_json(b"{}").unwrap()).is_none());
}

#[test]
fn text_is_found_anywhere() {
    let chars = |s: &str| s.chars().collect::<Vec<char>>();
    assert!(contains_text(&chars("a.mlp.experts.b"), &chars(".mlp.experts.")));
    assert!(!contains_text(&chars("a.mlp.expert"), &chars(".mlp.experts.")));
    assert!(contains_text(&chars("abc"), &[]));
}
