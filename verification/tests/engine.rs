use llmpager::acts::{
    close_single, close_step, kimi_layer_acts, kimi_single_acts, kimi_single_layer_acts, open_step,
    qwen_layer_acts, qwen_single_acts, wave_step_acts, Act,
};
use llmpager::any::{decay_interval, engine_for, AnyDecoder, Engine, Plan, ResizeStep};
use llmpager::buffers::{blob_offsets, FloatBits};
use llmpager::config::{expert_group, Config, ConfigError, KimiConfig};
use llmpager::decode::{BlobOffsets, Buffers, Decoder, Dims, KvError, KvRun, CHUNK_CAP};
use llmpager::json::{parse_json, Json};
use llmpager::kimi::{FeedForward, KimiBuffers, KimiDecoder, KimiDims, KimiLayer, Mlp};
use llmpager::launch::{Kernel, Kernels, Param};
use llmpager::load::{
    absorb_keys, absorb_values, check_load, f32_to_bf16, gather_embedding, Encoding, Load,
    LoadError,
};
use llmpager::model::{CoreWeights, LayerWeights, Mat};
use llmpager::pager::ExpertHandle;
use llmpager::program::Program;
use llmpager::st::TensorInfo;
use llmpager::steps::{
    check_entries, expert_table, expert_union, kept_picks, last_entries, plan_waves, run_entries,
    Entry, Pick, StepError,
};

fn mat(dev: u64, rows: i32, cols: i32) -> Mat {
    Mat { dev, rows, cols, q4: false }
}

fn dims() -> Dims {
    Dims {
        hidden: 64,
        heads: 2,
        kv_heads: 2,
        head_dim: 8,
        moe_inter: 32,
        experts: 4,
        top_k: 2,
        vocab: 10,
        max_seq: 16,
        rms_eps: 1,
        rope_theta: 2,
        attn_scale: 3,
    }
}

fn layer() -> LayerWeights {
    LayerWeights {
        input_ln: 900,
        q: mat(901, 16, 64),
        k: mat(902, 16, 64),
        v: mat(903, 16, 64),
        o: Mat { dev: 904, rows: 64, cols: 16, q4: true },
        q_norm: 905,
        k_norm: 906,
        post_ln: 907,
        router: mat(908, 4, 64),
    }
}

fn decoder() -> Decoder {
    Decoder {
        dims: dims(),
        core: CoreWeights {
            embed: 800,
            final_norm: 801,
            lm_head: mat(802, 10, 64),
            layers: vec![layer(), layer()],
        },
        bufs: Buffers {
            h: 1,
            h_norm: 2,
            q: 3,
            k: 4,
            v: 5,
            attn_out: 6,
            proj_out: 7,
            router_logits: 8,
            gate_out: 9,
            up_out: 10,
            act_out: 11,
            expert_out: 12,
            expert_ptrs: 13,
            expert_wts: 14,
            logits: 15,
            attn_scratch: 16,
            h_buf: 10000,
            hn_buf: 50000,
            router_buf: 90000,
        },
        blob: BlobOffsets { gate: 32, up: 132, down: 232, group: 64 },
        kcache: vec![0x1_0000, 0x2_0000],
        vcache: vec![0x3_0000, 0x4_0000],
        kv_f16: true,
        batch_cap: 3,
    }
}

fn ptr(p: &Param) -> u64 {
    match p {
        Param::Ptr(v) => *v,
        other => panic!("not a pointer: {other:?}"),
    }
}

#[test]
fn launches_cover_their_rows() {
    let l = Kernels::q4g64_gemv(1, 2, 3, 9, 64, 32);
    assert_eq!(l.kernel.name(), "q4g64_gemv");
    assert_eq!((l.grid, l.block), ((3, 1, 1), (128, 1, 1)));
    assert!(matches!(
        l.params[..],
        [
            Param::Ptr(1),
            Param::Ptr(2),
            Param::Ptr(3),
            Param::I32(9),
            Param::I32(64),
            Param::I32(32)
        ]
    ));
    assert_eq!(Kernels::q4g64_gemv_batch(1, 2, 3, 0, 4, 8, 64, 64, 5).grid, (2, 5, 1));
    assert_eq!(Kernels::silu_mul(1, 2, 3, 257).grid, (2, 1, 1));
    // At least one block, at most 1024.
    assert_eq!(Kernels::add_to(1, 2, 0).grid, (1, 1, 1));
    assert_eq!(Kernels::scale_add(1, 2, 3, i32::MAX).grid, (1024, 1, 1));
    assert_eq!(Kernels::rmsnorm(1, 2, 3, 64, 4, 5).grid, (5, 1, 1));
    assert_eq!(Kernels::moe_reduce(1, 2, 3, 4, 300).kernel.name(), "moe_reduce_f32");
}

#[test]
fn matrices_launch_by_encoding() {
    let m = Mat { dev: 7, rows: 8, cols: 64, q4: true };
    assert_eq!(m.gemv(1, 2).kernel, Kernel::Q4g64Gemv);
    assert_eq!(mat(7, 8, 64).gemv(1, 2).kernel, Kernel::Bf16Gemv);
}

#[test]
fn attention_runs_on_the_sequence_slot() {
    let d = decoder();
    assert!(d.fits());
    let lane = d.entry_lane(2);
    assert_eq!((lane.h, lane.hn), (10000 + 2 * 64 * 4, 50000 + 2 * 64 * 4));
    assert_eq!(lane.router, 90000 + 2 * 4 * 4);
    let plan = d.attention(1, 5, 2, &lane);
    let kernels: Vec<Kernel> = plan.iter().map(|l| l.kernel).collect();
    assert_eq!(
        kernels,
        [
            Kernel::RmsNorm,
            Kernel::Bf16Gemv,
            Kernel::Bf16Gemv,
            Kernel::Bf16Gemv,
            Kernel::RmsNorm,
            Kernel::RmsNorm,
            Kernel::Rope,
            Kernel::Rope,
            Kernel::KvAppend,
            Kernel::AttnDecode,
            Kernel::Q4g64Gemv,
            Kernel::Add,
            Kernel::RmsNorm,
            Kernel::Bf16Gemv,
        ]
    );
    // Slot 2 of layer 1: two slots of 2 heads x 16 x 8 halves further on.
    let slot = 2 * (2 * 16 * 8 * 2) as u64;
    assert_eq!(ptr(&plan[8].params[2]), 0x2_0000 + slot);
    assert_eq!(ptr(&plan[8].params[3]), 0x4_0000 + slot);
    assert!(matches!(plan[8].params[6], Param::I32(5)));
    // Attention sees positions 0..=5.
    assert!(matches!(plan[9].params[8], Param::I32(6)));
    assert_eq!(ptr(&plan[13].params[2]), lane.router);
}

#[test]
fn experts_run_batched() {
    let d = decoder();
    let plan = d.experts(&d.lane(), 2);
    let kernels: Vec<Kernel> = plan.iter().map(|l| l.kernel).collect();
    assert_eq!(
        kernels,
        [
            Kernel::Q4g64GemvBatch,
            Kernel::Q4g64GemvBatch,
            Kernel::SiluMul,
            Kernel::Q4g64GemvBatch,
            Kernel::MoeReduce,
        ]
    );
    assert_eq!(plan[0].grid, (8, 2, 1));
    assert!(matches!(plan[0].params[1], Param::U64(32)));
    assert!(matches!(plan[1].params[1], Param::U64(132)));
    assert!(matches!(plan[3].params[1], Param::U64(232)));
    let logits = d.logits(&d.lane());
    assert_eq!(logits[0].kernel, Kernel::RmsNorm);
    assert_eq!(ptr(&logits[1].params[2]), 15);
    assert_eq!(d.embed(9, &d.lane()).kernel, Kernel::Bf16Row);
}

#[test]
fn parked_kv_tiles_the_host_buffer() {
    let d = decoder();
    let runs = d.kv_runs(1, 3).unwrap();
    // 2 layers x (K, V) x 2 heads of 3 x 8 halves.
    assert_eq!(runs.len(), 8);
    assert_eq!(d.kv_size(3), Some(8 * 48));
    for (i, run) in runs.iter().enumerate() {
        assert_eq!((run.host, run.len), (48 * i, 48));
    }
    let slot = (2 * 16 * 8 * 2) as u64;
    let head = (16 * 8 * 2) as u64;
    let dev: Vec<u64> = runs.iter().map(|r| r.dev).collect();
    assert_eq!(dev[0], 0x1_0000 + slot);
    assert_eq!(dev[1], 0x1_0000 + slot + head);
    assert_eq!(dev[2], 0x3_0000 + slot);
    assert_eq!(dev[7], 0x4_0000 + slot + head);
    assert_eq!(d.kv_import_runs(1, 3, 8 * 48).unwrap(), runs);
    assert_eq!(
        d.kv_import_runs(1, 3, 5).unwrap_err(),
        KvError::BlobSize { len: 5, want: 8 * 48 }
    );
    assert_eq!(d.kv_runs(3, 3).unwrap_err(), KvError::SequenceSlot { seq: 3 });
    assert_eq!(d.kv_runs(0, 17).unwrap_err(), KvError::Length { len: 17 });
    // Contexts that no host memory holds.
    let mut large = decoder();
    large.dims = Dims {
        heads: 1,
        kv_heads: 1,
        head_dim: i32::MAX,
        max_seq: i32::MAX,
        ..large.dims
    };
    large.kcache = vec![0, 0];
    large.vcache = vec![0, 0];
    large.batch_cap = 1;
    assert!(large.fits());
    assert_eq!(large.kv_runs(0, i32::MAX as usize).unwrap_err(), KvError::TooLarge);
    assert_eq!(large.kv_import_runs(0, i32::MAX as usize, 7).unwrap_err(), KvError::TooLarge);
}

/// Copies runs to the host, or back, in a memory of 0x5_0000 bytes.
fn park(memory: &[u8], runs: &[KvRun]) -> Vec<u8> {
    let mut host = vec![0; runs.iter().map(|r| r.len).sum()];
    for r in runs {
        let dev = r.dev as usize;
        host[r.host..r.host + r.len].copy_from_slice(&memory[dev..dev + r.len]);
    }
    host
}

fn restore(memory: &mut [u8], runs: &[KvRun], host: &[u8]) {
    for r in runs {
        let dev = r.dev as usize;
        memory[dev..dev + r.len].copy_from_slice(&host[r.host..r.host + r.len]);
    }
}

#[test]
fn a_parked_context_is_restored() {
    let before: Vec<u8> = (0..0x5_0000u32).map(|i| (i * 7 % 251) as u8).collect();
    let after: Vec<u8> = (0..0x5_0000u32).map(|i| (i * 13 % 241) as u8).collect();
    for runs in [decoder().kv_runs(1, 3).unwrap(), kimi().kv_runs(1, 5).unwrap()] {
        let host = park(&before, &runs);
        let mut memory = after.clone();
        restore(&mut memory, &runs, &host);
        for (a, byte) in memory.iter().enumerate() {
            let in_runs = runs.iter().any(|r| {
                let dev = r.dev as usize;
                (dev..dev + r.len).contains(&a)
            });
            assert_eq!(*byte, if in_runs { before[a] } else { after[a] });
        }
    }
    assert_eq!(decoder().kv_bytes_per_token(), Some(8 * 16));
    assert_eq!(kimi().kv_bytes_per_token(), Some(2 * 12 * 4));
}

#[test]
fn lanes_tile_the_step_buffers() {
    let d = decoder();
    let sizes = d.dims.buffer_sizes();
    for t in 1..CHUNK_CAP {
        let (before, lane) = (d.entry_lane(t - 1), d.entry_lane(t));
        assert_eq!(lane.h - before.h, 64 * 4);
        assert_eq!(lane.router - before.router, 4 * 4);
        assert!(lane.h + 64 * 4 <= d.bufs.h_buf + sizes.h_buf);
        assert!(lane.router + 4 * 4 <= d.bufs.router_buf + sizes.router_buf);
    }
}

fn kimi() -> KimiDecoder {
    let mlp = || Mlp { gate: mat(1, 8, 64), up: mat(2, 8, 64), down: mat(3, 64, 8) };
    let layer = |ffn| KimiLayer {
        input_ln: 10,
        post_ln: 11,
        q_a: mat(12, 16, 64),
        q_a_ln: 13,
        q_b: mat(14, 24, 16),
        kv_a: mat(15, 12, 64),
        kv_a_ln: 16,
        kt: 17,
        vw: 18,
        o: mat(19, 64, 8),
        ffn,
    };
    KimiDecoder {
        dims: KimiDims {
            hidden: 64,
            heads: 2,
            q_lora: 16,
            kv_lora: 8,
            nope: 8,
            rope: 4,
            v_head: 4,
            moe_inter: 32,
            dense_inter: 48,
            experts: 4,
            top_k: 2,
            vocab: 10,
            max_seq: 16,
            rms_eps: 1,
            softmax_scale: 2,
            one: 1.0f32.to_bits(),
        },
        layers: vec![
            layer(FeedForward::Dense(mlp())),
            layer(FeedForward::Experts { router: mat(20, 4, 64), shared: mlp() }),
        ],
        final_norm: 21,
        lm_head: mat(22, 10, 64),
        bufs: KimiBuffers {
            h: 1,
            h_norm: 2,
            qa: 3,
            q: 4,
            kva: 5,
            ckv_norm: 6,
            q_full: 7,
            ctx: 8,
            attn_pre: 9,
            proj_out: 10,
            attn_scratch: 11,
            inv_freq: 12,
            router_logits: 13,
            gate_out: 14,
            up_out: 15,
            act_out: 16,
            expert_out: 17,
            expert_ptrs: 18,
            expert_wts: 19,
            sh_gate: 20,
            sh_up: 21,
            sh_out: 22,
            dn_gate: 23,
            dn_up: 24,
            logits: 25,
            h_buf: 10000,
            hn_buf: 50000,
            router_buf: 90000,
        },
        blob: BlobOffsets { gate: 32, up: 132, down: 232, group: 32 },
        cache: vec![0x1_0000, 0x2_0000],
        batch_cap: 2,
    }
}

#[test]
fn latent_attention_plan() {
    let d = kimi();
    assert!(d.fits());
    let lane = d.lane();
    let plan = d.attention(1, 3, 1, &lane);
    let copies: Vec<u64> = plan
        .iter()
        .filter(|l| l.kernel == Kernel::StridedCopy)
        .map(|l| ptr(&l.params[3]))
        .collect();
    // The row goes into slot 1: 16 rows of kv_lora + rope floats further on.
    let cache = 0x2_0000 + (16 * 12 * 4) as u64;
    assert_eq!(copies, [cache, cache, 7]);
    assert_eq!(plan.iter().filter(|l| l.kernel == Kernel::MlaRope).count(), 2);
    assert_eq!(plan.iter().filter(|l| l.kernel == Kernel::MlaAttnDecode).count(), 1);
    assert_eq!(plan.iter().filter(|l| l.kernel == Kernel::Bf16GemvBatch).count(), 2);
    let FeedForward::Dense(mlp) = &d.layers[0].ffn else { panic!("dense") };
    assert_eq!(d.dense(mlp, &lane).len(), 5);
    assert_eq!(d.shared(mlp, &lane).len(), 4);
    assert_eq!(d.shared_add(&lane).kernel, Kernel::Add);
    assert_eq!(ptr(&d.router(&mat(20, 4, 64), &lane).params[2]), 13);
}

#[test]
fn latent_kv_is_one_run_per_layer() {
    let d = kimi();
    let runs = d.kv_runs(1, 5).unwrap();
    assert_eq!(runs.len(), 2);
    assert_eq!(d.kv_size(5), Some(2 * 5 * 12 * 4));
    assert_eq!((runs[1].dev, runs[1].host, runs[1].len), (0x2_0000 + 16 * 12 * 4, 240, 240));
    assert_eq!(d.kv_runs(2, 5).unwrap_err(), KvError::SequenceSlot { seq: 2 });
    assert_eq!(d.kv_runs(1, 17).unwrap_err(), KvError::Length { len: 17 });
    assert!(matches!(d.kv_import_runs(1, 5, 1), Err(KvError::BlobSize { len: 1, want: 480 })));
}

#[test]
fn either_engine_behind_one_interface() {
    let mut d = AnyDecoder::new(Plan::Qwen(decoder()), vec![9]).unwrap();
    assert!(!d.is_kimi());
    assert_eq!((d.max_seq(), d.batch_cap(), d.chunk_cap()), (16, 3, CHUNK_CAP));
    assert_eq!(d.eos(), &[9]);
    assert!(d.step(4, 15, 2, true).is_ok());
    assert_eq!(d.step(4, 16, 2, true).unwrap_err(), StepError::Position { pos: 16 });
    assert_eq!(d.step_multi(&[], 2, true).unwrap_err(), StepError::Count { n: 0 });
    assert!(d.step_chunk(&[7, 8], 3, 2, true).is_ok());
    assert_eq!(d.step_chunk(&[7; 65], 0, 2, true).unwrap_err(), StepError::Count { n: 65 });
    assert_eq!(d.step_chunk(&[7, 8], 15, 2, true).unwrap_err(), StepError::Position { pos: 16 });
    d.set_prefetch_next(false);
    assert!(!d.prefetch_next);
    assert_eq!(d.kv_export(0, 1).unwrap().len(), 8);
    let k = AnyDecoder::new(Plan::Kimi(kimi()), vec![]).unwrap();
    assert!(k.is_kimi());
    assert_eq!(k.kv_import(0, 1, 96).unwrap().len(), 2);
    let mut bad = decoder();
    bad.kcache.pop();
    assert!(AnyDecoder::new(Plan::Qwen(bad), vec![]).is_none());
    // Caches that share memory: each has 3 slots of 2 heads, 16 positions and 16 bytes.
    let mut shared = decoder();
    shared.vcache[1] = shared.kcache[0] + 3 * 2 * 16 * 16 - 1;
    assert!(shared.fits() && !shared.caches_are_apart());
    assert!(AnyDecoder::new(Plan::Qwen(shared), vec![]).is_none());
    let mut close = decoder();
    close.vcache[1] = close.kcache[0] + 3 * 2 * 16 * 16;
    assert!(AnyDecoder::new(Plan::Qwen(close), vec![]).is_some());
    let mut shared = kimi();
    shared.cache[1] = shared.cache[0] + 2 * 16 * 12 * 4 - 1;
    assert!(AnyDecoder::new(Plan::Kimi(shared), vec![]).is_none());
}

/// The acts of a whole step; every choice of experts is `choice`.
fn whole(mut program: Program, choice: &Vec<Vec<Pick>>) -> Vec<Act> {
    let mut all = Vec::new();
    let mut picks = Vec::new();
    while let Some(acts) = program.next(&picks) {
        let routed = matches!(acts.last(), Some(Act::Route { .. }));
        picks = if routed {
            choice.iter().map(|p| p.iter().copied().collect()).collect()
        } else {
            Vec::new()
        };
        all.extend(acts);
    }
    all
}

#[test]
fn a_step_runs_every_layer() {
    let d = AnyDecoder::new(Plan::Qwen(decoder()), vec![]).unwrap();
    let acts = whole(d.step(4, 3, 2, true).unwrap(), &vec![picks(&[3, 1])]);
    assert!(matches!(
        acts[..],
        [
            Act::Embed { entry: 0 },
            Act::Attend { layer: 0, .. },
            Act::Route { layer: 0 },
            Act::Fetch { layer: 0, .. },
            // The next layer is warmed with the same ids, but for the last one.
            Act::Prefetch { layer: 1, .. },
            Act::Run { .. },
            Act::Defer,
            Act::Attend { layer: 1, .. },
            Act::Route { layer: 1 },
            Act::Fetch { layer: 1, .. },
            Act::Run { .. },
            Act::Defer,
            Act::Logits { entry: 0 },
            Act::Tick,
        ]
    ));
    let entries = [Entry { token: 1, pos: 0, seq: 0 }, Entry { token: 2, pos: 0, seq: 1 }];
    let choice = vec![picks(&[3, 1]), picks(&[1])];
    let acts = whole(d.step_multi(&entries, 1, false).unwrap(), &choice);
    assert!(matches!(acts[0], Act::Flush));
    // One expert at a time, so two waves in each of two layers.
    assert_eq!(acts.iter().filter(|a| matches!(a, Act::Fetch { .. })).count(), 4);
    assert_eq!(acts.iter().filter(|a| matches!(a, Act::Run { .. })).count(), 6);
    assert!(matches!(acts.last(), Some(Act::Tick)));

    // The first layer of the Kimi engine is dense: layer 1 is pack layer 0.
    let k = AnyDecoder::new(Plan::Kimi(kimi()), vec![]).unwrap();
    let acts = whole(k.step(4, 3, 8, false).unwrap(), &vec![picks(&[3, 1])]);
    assert!(matches!(
        acts[..],
        [
            Act::Embed { entry: 0 },
            Act::Attend { layer: 0, .. },
            Act::Dense { layer: 0, .. },
            Act::Attend { layer: 1, .. },
            Act::Router { layer: 1, .. },
            Act::Route { layer: 1 },
            Act::Shared { layer: 1, .. },
            Act::Fetch { layer: 0, .. },
            Act::Run { .. },
            Act::Release,
            Act::SharedAdd { .. },
        ]
    ));
    let acts = whole(k.step_multi(&entries, 8, true).unwrap(), &choice);
    assert!(matches!(acts[0], Act::Embed { entry: 0 }));
    assert_eq!(acts.iter().filter(|a| matches!(a, Act::Fetch { .. })).count(), 1);
    assert_eq!(acts.iter().filter(|a| matches!(a, Act::Logits { .. })).count(), 2);
}

/// Over all waves, an entry runs exactly what it picked.
#[test]
fn waves_lose_nothing() {
    let all = vec![picks(&[9, 2, 5]), picks(&[5, 7]), picks(&[2])];
    for wave in 1..6 {
        for (t, want) in all.iter().enumerate() {
            let mut run: Vec<u16> = plan_waves(&all, wave)
                .iter()
                .flat_map(|w| &w.work)
                .filter(|w| w.entry == t)
                .flat_map(|w| w.picks.iter().map(|p| p.expert))
                .collect();
            let mut want: Vec<u16> = want.iter().map(|p| p.expert).collect();
            run.sort_unstable();
            want.sort_unstable();
            assert_eq!(run, want);
        }
    }
}

#[test]
fn a_failed_resize_restores_the_previous_cache() {
    let d = AnyDecoder::new(Plan::Qwen(decoder()), vec![]).unwrap();
    let (mut r, step) = d.resize_cache(64, 500, 32);
    assert_eq!(step, ResizeStep::Build { slots: 64, reserve: 500 });
    assert_eq!(r.built(false), ResizeStep::Build { slots: 32, reserve: 0 });
    assert_eq!(r.built(true), ResizeStep::KeptPrevious);
    let (mut r, _) = d.resize_cache(64, 500, 32);
    assert_eq!(r.built(true), ResizeStep::Resized);
    let (mut r, _) = d.resize_cache(64, 500, 32);
    r.built(false);
    assert_eq!(r.built(false), ResizeStep::Lost);
    assert_eq!(decay_interval(4), 64);
    assert_eq!(decay_interval(32), 128);
}

#[test]
fn buffers_follow_the_dimensions() {
    let s = dims().buffer_sizes();
    assert_eq!((s.h, s.q, s.k), (64 * 4, 16 * 4, 16 * 4));
    assert_eq!((s.gate_out, s.expert_ptrs, s.expert_out), (2 * 32 * 4, 2 * 8, 2 * 64 * 4));
    assert_eq!((s.attn_scratch, s.h_buf), (2 * 16 * 4, 64 * 64 * 4));
    assert_eq!(dims().kv_cache_bytes(true, 3), Some(3 * 2 * 16 * 8 * 2));
    assert_eq!(dims().kv_cache_bytes(false, 3), Some(3 * 2 * 16 * 8 * 4));
    let k = kimi().dims;
    let s = k.buffer_sizes();
    assert_eq!((s.q, s.kva, s.q_full), (2 * 12 * 4, 12 * 4, 2 * 12 * 4));
    assert_eq!(k.kv_cache_bytes(2), Some(2 * 16 * 12 * 4));
    let o = blob_offsets(64, 128, 64);
    let gate = (64 * 2 * 2 + 64 * 64) as u64;
    assert_eq!((o.gate, o.up, o.down, o.group), (32, 32 + gate, 32 + 2 * gate, 64));
}

fn qwen_config() -> Json {
    parse_json(
        br#"{"num_attention_heads": 2, "hidden_size": 64, "num_hidden_layers": 2,
             "num_key_value_heads": 1, "moe_intermediate_size": 32, "num_experts": 4,
             "num_experts_per_tok": 2, "vocab_size": 10, "rms_norm_eps": 1e-6,
             "rope_theta": 10000, "norm_topk_prob": true, "eos_token_id": [5, 6]}"#,
    )
    .unwrap()
}

#[test]
fn configs() {
    let cfg = Config::from_json(&qwen_config()).unwrap();
    // Without a head_dim it is hidden / heads.
    assert_eq!((cfg.head_dim, cfg.layers, cfg.experts), (32, 2, 4));
    assert_eq!(cfg.eos, [5, 6]);
    assert!(cfg.norm_topk_prob);
    let bits = FloatBits { rms_eps: 1, rope_theta: 2, attn_scale: 3 };
    let d = Dims::of(&cfg, 100, &bits).unwrap();
    assert_eq!((d.hidden, d.head_dim, d.max_seq, d.attn_scale), (64, 32, 100, 3));
    assert!(Dims::of(&cfg, usize::MAX, &bits).is_none());
    assert_eq!(engine_for(&qwen_config()), Engine::Qwen);

    let missing = parse_json(br#"{"num_attention_heads": 2}"#).unwrap();
    assert!(matches!(
        Config::from_json(&missing),
        Err(ConfigError::Missing { key }) if key == "hidden_size"
    ));
    let text = r#"{"num_attention_heads": 0, "hidden_size": 64, "num_hidden_layers": 2,
        "num_key_value_heads": 1, "moe_intermediate_size": 32, "num_experts": 4,
        "num_experts_per_tok": 2, "vocab_size": 10}"#;
    let none = parse_json(text.as_bytes()).unwrap();
    assert!(matches!(Config::from_json(&none), Err(ConfigError::NoHeads)));
    assert_eq!(expert_group("q4g64-gud"), Some(64));
    assert_eq!(expert_group("q4g32-gud"), Some(32));
    assert_eq!(expert_group("f16"), None);
}

fn kimi_config() -> Json {
    parse_json(
        br#"{"kv_lora_rank": 8, "qk_nope_head_dim": 8, "qk_rope_head_dim": 4, "hidden_size": 64,
             "num_hidden_layers": 2, "num_attention_heads": 2, "q_lora_rank": 16, "v_head_dim": 4,
             "moe_intermediate_size": 32, "intermediate_size": 48, "n_routed_experts": 4,
             "num_experts_per_tok": 2, "vocab_size": 10, "moe_layer_offset": 1,
             "eos_token_id": 7, "rope_scaling": {"type": "yarn", "factor": 64}}"#,
    )
    .unwrap()
}

#[test]
fn kimi_configs() {
    let v = kimi_config();
    assert!(KimiConfig::is_kimi(&v));
    assert!(!KimiConfig::is_kimi(&qwen_config()));
    assert_eq!(engine_for(&v), Engine::Kimi);
    let cfg = KimiConfig::from_json(&v).unwrap();
    assert_eq!((cfg.dense_layers, cfg.kv_lora, cfg.rope), (1, 8, 4));
    assert!(cfg.yarn.is_some());
    assert_eq!(cfg.eos, [7]);
    assert!(cfg.fits_pack(1));
    assert!(!cfg.fits_pack(2));
    let d = KimiDims::of(&cfg, 16, 1, 2, 3).unwrap();
    assert_eq!((d.q_lora, d.v_head, d.one), (16, 4, 3));
    assert!(matches!(
        KimiConfig::from_json(&parse_json(b"{}").unwrap()),
        Err(ConfigError::Missing { key }) if key == "qk_nope_head_dim"
    ));
}

#[test]
fn core_tensors_in_loading_order() {
    let cfg = Config::from_json(&qwen_config()).unwrap();
    assert!(cfg.fits_machine());
    let items = cfg.load_items(true);
    let names: Vec<&str> = items.iter().map(|i| i.name.as_str()).collect();
    assert!(names.contains(&"model.embed_tokens.weight"));
    assert!(names.contains(&"model.layers.1.self_attn.k_norm.weight"));
    assert!(names.contains(&"model.layers.1.mlp.gate.weight"));
    // A tied head has no tensor of its own.
    assert!(!names.contains(&"lm_head.weight"));
    let items = cfg.load_items(false);
    assert!(items.iter().any(|i| i.name == "lm_head.weight"));
    let q = items.iter().find(|i| i.name == "model.layers.0.self_attn.q_proj.weight").unwrap();
    assert!(matches!(q.what, Load::Matrix { rows: 64, cols: 64 }));

    let cfg = KimiConfig::from_json(&kimi_config()).unwrap();
    assert!(cfg.fits_machine());
    let items = cfg.load_items();
    let names: Vec<&str> = items.iter().map(|i| i.name.as_str()).collect();
    assert!(names.contains(&"model.layers.0.mlp.gate_proj.weight"));
    assert!(names.contains(&"model.layers.1.mlp.gate.e_score_correction_bias"));
    assert!(!names.contains(&"model.layers.1.mlp.gate_proj.weight"));
    assert!(names.contains(&"model.layers.1.self_attn.kv_b_proj.weight"));
}

#[test]
fn tensors_are_checked_before_loading() {
    let info = |dtype: &str, shape: Vec<usize>| TensorInfo {
        dtype: dtype.to_string(),
        shape,
        start: 0,
        end: 0,
    };
    let what = Load::Matrix { rows: 2, cols: 64 };
    assert_eq!(check_load(&what, &info("BF16", vec![2, 64]), 256, false), Ok(Encoding::Bf16));
    assert_eq!(check_load(&what, &info("BF16", vec![2, 64]), 256, true), Ok(Encoding::Q4));
    assert_eq!(check_load(&what, &info("F16", vec![2, 64]), 256, false), Err(LoadError::Dtype));
    assert_eq!(check_load(&what, &info("BF16", vec![2, 64]), 255, false), Err(LoadError::Size));
    let q4 = Load::Quantized { rows: 2, cols: 64 };
    assert_eq!(check_load(&q4, &info("F32", vec![2, 64]), 512, false), Ok(Encoding::Q4));
    assert_eq!(check_load(&q4, &info("F32", vec![64, 2]), 512, false), Err(LoadError::Shape));
    let odd = Load::Quantized { rows: 2, cols: 65 };
    assert_eq!(
        check_load(&odd, &info("F32", vec![2, 65]), 520, false),
        Err(LoadError::PartialGroup)
    );
    let kvb = Load::Absorbed { rows: 3, cols: 2 };
    assert_eq!(check_load(&kvb, &info("BF16", vec![3, 2]), 12, true), Ok(Encoding::Absorbed));
    assert_eq!(check_load(&Load::Bias, &info("F32", vec![4]), 16, true), Ok(Encoding::F32));
    let norm = Load::Norm { n: 4 };
    assert_eq!(check_load(&norm, &info("BF16", vec![4]), 8, true), Ok(Encoding::F32));
    assert_eq!(check_load(&norm, &info("BF16", vec![5]), 10, true), Err(LoadError::Size));
}

#[test]
fn absorbed_weights() {
    // 1 head, nope 2, v 1, lora 2: rows [k0; k1; v0] of two columns.
    let kvb: Vec<u32> = [1.0f32, 2.0, 3.0, 4.0, 5.0, 6.0].iter().map(|x| x.to_bits()).collect();
    let half = |x: f32| (x.to_bits() >> 16) as u16;
    // Keys transposed: kt[c][d] = k[d][c].
    assert_eq!(absorb_keys(&kvb, 1, 2, 1, 2), [half(1.0), half(3.0), half(2.0), half(4.0)]);
    assert_eq!(absorb_values(&kvb, 1, 2, 1, 2), [half(5.0), half(6.0)]);
    assert_eq!(f32_to_bf16(1.0f32.to_bits()), 0x3f80);
    // Rounded up from the middle on.
    assert_eq!(f32_to_bf16(0x3f80_8000), 0x3f81);
    assert_eq!(f32_to_bf16(0x3f80_7fff), 0x3f80);
}

#[test]
fn embeddings_are_rows_of_the_table() {
    let table: Vec<u8> = [1.0f32, 2.0, 3.0, 4.0]
        .iter()
        .flat_map(|x| ((x.to_bits() >> 16) as u16).to_le_bytes())
        .collect();
    let want: Vec<u8> = [3.0f32, 4.0].iter().flat_map(|x| x.to_le_bytes()).collect();
    assert_eq!(gather_embedding(&table, 2, 1), Some(want));
    assert_eq!(gather_embedding(&table, 2, 2), None);
}

fn picks(ids: &[u16]) -> Vec<Pick> {
    ids.iter().map(|e| Pick { expert: *e, weight: *e as u32 }).collect()
}

#[test]
fn steps_are_checked() {
    let e = |pos, seq| Entry { token: 1, pos, seq };
    assert_eq!(check_entries(&[e(0, 0)], 2, 10, 1), Ok(()));
    assert_eq!(check_entries(&[], 2, 10, 1), Err(StepError::Count { n: 0 }));
    assert_eq!(
        check_entries(&[e(0, 0), e(1, 0), e(2, 0)], 2, 10, 1),
        Err(StepError::Count { n: 3 })
    );
    assert_eq!(check_entries(&[e(0, 0), e(10, 1)], 2, 10, 1), Err(StepError::Position { pos: 10 }));
    assert_eq!(
        check_entries(&[e(0, 1), e(10, 0)], 2, 10, 1),
        Err(StepError::SequenceSlot { seq: 1 })
    );
    assert_eq!(run_entries(&[5, 6], 3, 2)[1], Entry { token: 6, pos: 4, seq: 2 });
    assert_eq!(last_entries(&[e(0, 0), e(0, 1), e(1, 0)]), [false, true, true]);
}

#[test]
fn experts_are_fetched_once_in_waves() {
    let all = vec![picks(&[3, 1]), picks(&[1, 7]), picks(&[])];
    assert_eq!(expert_union(&all), [1, 3, 7]);
    let waves = plan_waves(&all, 2);
    assert_eq!(waves.len(), 2);
    assert_eq!(waves[0].experts, [1, 3]);
    assert_eq!(waves[1].experts, [7]);
    // Entry 0 runs both of its experts in the first wave, in its own order.
    assert_eq!(waves[0].work.len(), 2);
    assert_eq!(waves[0].work[0].entry, 0);
    let ids: Vec<u16> = waves[0].work[0].picks.iter().map(|p| p.expert).collect();
    assert_eq!(ids, [3, 1]);
    assert_eq!(waves[1].work.len(), 1);
    assert_eq!(waves[1].work[0].entry, 1);
}

#[test]
fn light_picks_are_dropped() {
    let w = |x: f32| Pick { expert: 0, weight: x.to_bits() };
    let all = vec![w(0.5), w(0.04), w(0.05)];
    let kept = kept_picks(&all, 0.05f32.to_bits());
    assert_eq!(kept.len(), 2);
    assert_eq!(kept_picks(&all, 0).len(), 3);
}

#[test]
fn device_tables_follow_the_picks() {
    let h = |expert, dev| ExpertHandle { layer: 0, expert, slot: 0, dev, len: 0 };
    let (ptrs, wts) = expert_table(&vec![h(1, 0x10), h(3, 0x20)], &picks(&[3, 1]));
    let mut want = 0x20u64.to_le_bytes().to_vec();
    want.extend_from_slice(&0x10u64.to_le_bytes());
    assert_eq!(ptrs, want);
    assert_eq!(wts, [3, 0, 0, 0, 1, 0, 0, 0]);
}

#[test]
fn a_step_of_several_entries() {
    let acts = open_step(true, 2);
    assert!(matches!(acts[..], [Act::Flush, Act::Embed { entry: 0 }, Act::Embed { entry: 1 }]));
    let acts = qwen_layer_acts(4, 2);
    assert!(matches!(
        acts[..],
        [
            Act::Attend { layer: 4, entry: 0 },
            Act::Attend { layer: 4, entry: 1 },
            Act::Route { layer: 4 }
        ]
    ));
    let waves = plan_waves(&vec![picks(&[3, 1]), picks(&[1, 7])], 2);
    let acts = wave_step_acts(4, &waves);
    assert!(matches!(&acts[0], Act::Fetch { layer: 4, experts } if experts[..] == [1, 3]));
    assert!(matches!(&acts[1], Act::Run { entry: 0, picks } if picks.len() == 2));
    assert!(matches!(&acts[2], Act::Run { entry: 1, picks } if picks.len() == 1));
    assert!(matches!(acts[3], Act::Release));
    assert!(matches!(&acts[4], Act::Fetch { layer: 4, experts } if experts[..] == [7]));
    assert!(matches!(acts[6], Act::Release));
    assert_eq!(acts.len(), 7);
    let e = |seq| Entry { token: 1, pos: 0, seq };
    let acts = close_step(&[e(0), e(1), e(0)], true);
    assert!(matches!(
        acts[..],
        [Act::Tick, Act::Logits { entry: 1 }, Act::Logits { entry: 2 }]
    ));
    assert!(matches!(close_step(&[e(0)], false)[..], [Act::Tick]));
}

#[test]
fn kimi_layers_in_acts() {
    let acts = kimi_layer_acts(0, 1, 1);
    assert!(matches!(
        acts[..],
        [Act::Attend { layer: 0, entry: 0 }, Act::Dense { layer: 0, entry: 0 }]
    ));
    let acts = kimi_layer_acts(1, 1, 1);
    assert!(matches!(
        acts[..],
        [
            Act::Attend { .. },
            Act::Shared { .. },
            Act::SharedAdd { entry: 0 },
            Act::Router { .. },
            Act::Route { layer: 1 }
        ]
    ));
    assert!(matches!(
        kimi_single_layer_acts(1, 1)[..],
        [Act::Attend { .. }, Act::Router { .. }, Act::Route { layer: 1 }]
    ));
    assert!(matches!(kimi_single_layer_acts(0, 1)[..], [Act::Attend { .. }, Act::Dense { .. }]));
    let acts = kimi_single_acts(5, 4, &picks(&[9, 2, 6]), 2);
    assert!(matches!(acts[0], Act::Shared { layer: 5, entry: 0 }));
    assert!(matches!(&acts[1], Act::Fetch { layer: 4, experts } if experts[..] == [9, 2]));
    assert!(matches!(&acts[4], Act::Fetch { layer: 4, experts } if experts[..] == [6]));
    assert!(matches!(acts[6], Act::Release));
    assert!(matches!(acts[7], Act::SharedAdd { entry: 0 }));
    assert_eq!(acts.len(), 8);
}

#[test]
fn a_single_token_step() {
    let acts = qwen_single_acts(3, &picks(&[9, 2]), true);
    assert!(matches!(&acts[0], Act::Fetch { layer: 3, experts } if experts[..] == [9, 2]));
    assert!(matches!(&acts[1], Act::Prefetch { layer: 4, experts } if experts[..] == [9, 2]));
    assert!(matches!(&acts[2], Act::Run { entry: 0, picks } if picks.len() == 2));
    assert!(matches!(acts[3], Act::Defer));
    assert_eq!(qwen_single_acts(3, &picks(&[9]), false).len(), 3);
    assert!(matches!(close_single(true)[..], [Act::Logits { entry: 0 }, Act::Tick]));
    assert!(close_single(false).is_empty());
}

/// A context parked from one slot comes back in another; no other slot changes.
#[test]
fn a_parked_context_moves_to_another_slot() {
    let before: Vec<u8> = (0..0x5_0000u32).map(|i| (i * 7 % 251) as u8).collect();
    let after: Vec<u8> = (0..0x5_0000u32).map(|i| (i * 13 % 241) as u8).collect();
    let d = AnyDecoder::new(Plan::Qwen(decoder()), vec![]).unwrap();
    let k = AnyDecoder::new(Plan::Kimi(kimi()), vec![]).unwrap();
    for (d, from, into, others) in [(&d, 1, 2, vec![0, 1]), (&k, 0, 1, vec![0])] {
        let host = park(&before, &d.kv_export(from, 5).unwrap());
        let mut memory = after.clone();
        restore(&mut memory, &d.kv_import(into, 5, host.len()).unwrap(), &host);
        assert_eq!(park(&memory, &d.kv_export(into, 5).unwrap()), host);
        for c in others {
            let all = d.kv_export(c, 16).unwrap();
            assert_eq!(park(&memory, &all), park(&after, &all));
        }
    }
}

#[test]
fn acts_are_launched() {
    let d = AnyDecoder::new(Plan::Qwen(decoder()), vec![]).unwrap();
    let k = AnyDecoder::new(Plan::Kimi(kimi()), vec![]).unwrap();
    let e = |token, pos, seq| Entry { token, pos, seq };
    let entries = [e(4, 3, 1), e(10, 16, 1), e(4, 3, 3)];

    // A single-token step has a lane of its own.
    assert_eq!(d.lane(true, 0).unwrap().h, 1);
    assert_eq!(d.lane(false, 2).unwrap().h, 10000 + 2 * 64 * 4);
    assert!(d.lane(false, CHUNK_CAP).is_none());
    let row = d.launches(&Act::Embed { entry: 0 }, &entries, false).unwrap();
    assert_eq!(row.len(), 1);
    assert_eq!(row[0].kernel, Kernel::Bf16Row);
    assert_eq!((ptr(&row[0].params[0]), ptr(&row[0].params[3])), (800, 10000));
    // The Kimi engine gathers embeddings on the host.
    assert!(k.launches(&Act::Embed { entry: 0 }, &entries, false).unwrap().is_empty());
    assert!(d.launches(&Act::Tick, &entries, false).unwrap().is_empty());

    let attend = |layer, entry| Act::Attend { layer, entry };
    let plan = d.launches(&attend(1, 0), &entries, true).unwrap();
    let want = decoder().attention(1, 3, 1, &decoder().lane());
    assert_eq!(format!("{plan:?}"), format!("{want:?}"));
    let plan = k.launches(&attend(0, 0), &entries, false).unwrap();
    let want = kimi().attention(0, 3, 1, &kimi().entry_lane(0));
    assert_eq!(format!("{plan:?}"), format!("{want:?}"));

    let run = Act::Run { entry: 0, picks: picks(&[3, 1]) };
    let want = decoder().experts(&decoder().entry_lane(0), 2);
    assert_eq!(
        format!("{:?}", d.launches(&run, &entries, false).unwrap()),
        format!("{want:?}")
    );
    assert_eq!(d.launches(&Act::Logits { entry: 0 }, &entries, false).unwrap().len(), 2);
    assert_eq!(k.launches(&Act::Dense { layer: 0, entry: 0 }, &entries, false).unwrap().len(), 5);
    assert_eq!(k.launches(&Act::Shared { layer: 1, entry: 0 }, &entries, false).unwrap().len(), 4);
    assert_eq!(k.launches(&Act::Router { layer: 1, entry: 0 }, &entries, false).unwrap().len(), 1);
    assert_eq!(k.launches(&Act::SharedAdd { entry: 0 }, &entries, false).unwrap().len(), 1);

    // What is not there has no launches.
    for act in [
        Act::Embed { entry: 1 },
        attend(0, 1),
        attend(0, 2),
        attend(2, 0),
        attend(0, 3),
        Act::Run { entry: 0, picks: picks(&[1, 2, 3]) },
        Act::Dense { layer: 0, entry: 0 },
        Act::SharedAdd { entry: 0 },
    ] {
        assert!(d.launches(&act, &entries, false).is_none(), "{act:?}");
    }
    for act in [
        Act::Dense { layer: 1, entry: 0 },
        Act::Shared { layer: 0, entry: 0 },
        Act::Router { layer: 2, entry: 0 },
    ] {
        assert!(k.launches(&act, &entries, false).is_none(), "{act:?}");
    }
}

/// What each entry runs does not depend on the size of the cache.
#[test]
fn cache_size_leaves_steps() {
    let entries = [Entry { token: 1, pos: 0, seq: 0 }, Entry { token: 2, pos: 0, seq: 1 }];
    let choice = vec![picks(&[3, 1]), picks(&[1, 2])];
    let d = AnyDecoder::new(Plan::Qwen(decoder()), vec![]).unwrap();
    let k = AnyDecoder::new(Plan::Kimi(kimi()), vec![]).unwrap();
    for d in [&d, &k] {
        let served = |wave: usize, t: usize| {
            let mut ids: Vec<u16> = whole(d.step_multi(&entries, wave, true).unwrap(), &choice)
                .iter()
                .flat_map(|a| match a {
                    Act::Run { entry, picks } if *entry == t => {
                        picks.iter().map(|p| p.expert).collect::<Vec<u16>>()
                    }
                    _ => Vec::new(),
                })
                .collect();
            ids.sort_unstable();
            ids
        };
        for wave in 1..5 {
            assert_eq!(served(wave, 0), served(8, 0));
            assert_eq!(served(wave, 1), served(8, 1));
        }
    }
}
