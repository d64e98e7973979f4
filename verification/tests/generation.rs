use llmpager::drawing::{SampleStep, Sampler};
use llmpager::flags::{arg, arg_num, id_list, Flags};
use llmpager::generate::{batch_fits, prefill_chunks, Batch, Stream};
use llmpager::rank::{any_nan, argmax, top_k};
use llmpager::rng::{candidate, hot_expert, route, synthetic_blob, Rng, SampleRng};
use llmpager::sample::{draw, Sampling};
use llmpager::steps::{kept_picks, Entry, Pick};
use llmpager::tokens::next_piece;

fn bits(v: &[f32]) -> Vec<u32> {
    v.iter().map(|x| x.to_bits()).collect()
}

/// The running sums of the softmax over logits at a temperature.
fn sums(logits: &[f32], temperature: f32) -> (Vec<f32>, Vec<u32>) {
    let mut probs: Vec<f32> = logits.iter().map(|l| ((l - logits[0]) / temperature).exp()).collect();
    let sums = running(&mut probs);
    (probs, sums)
}

/// Normalizes, and sums up.
fn running(probs: &mut [f32]) -> Vec<u32> {
    let z: f32 = probs.iter().sum();
    let mut acc = 0.0f32;
    let mut sums = Vec::new();
    for p in probs.iter_mut() {
        *p /= z;
        acc += *p;
        sums.push(acc.to_bits());
    }
    sums
}

/// One token out of the logits: the arithmetic that the library's steps ask for.
fn sample(logits: &[f32], recent: &[u32], s: &Sampling, rng: &mut SampleRng) -> u32 {
    let mut adjusted = logits.to_vec();
    let mut probs = Vec::new();
    let (mut sampler, mut step) = Sampler::start(s, &bits(logits), recent);
    loop {
        step = match step {
            SampleStep::Token(token) => return token,
            SampleStep::Penalize { tokens } => {
                let penalty = f32::from_bits(s.repeat_penalty);
                for t in tokens {
                    let v = &mut adjusted[t as usize];
                    *v = if *v > 0.0 { *v / penalty } else { *v * penalty };
                }
                sampler.adjusted(&bits(&adjusted))
            }
            SampleStep::Weigh { idx } => {
                let chosen: Vec<f32> = idx.iter().map(|i| adjusted[*i]).collect();
                let (p, all) = sums(&chosen, f32::from_bits(s.temperature));
                probs = p;
                sampler.weighed(all, rng)
            }
            SampleStep::Renormalize { keep } => {
                probs.truncate(keep);
                sampler.renormalized(running(&mut probs), rng)
            }
            SampleStep::Unit { bits } => {
                let r = (bits as f64 / (1u64 << 53) as f64) as f32;
                return sampler.picked(r.to_bits());
            }
            SampleStep::NotNumbers => panic!("not numbers"),
        };
    }
}

#[test]
fn sampling_goes_in_steps() {
    let greedy = Sampling::default();
    let step = Sampler::start(&greedy, &bits(&[0.5, 2.0, 1.0]), &[1]).1;
    assert!(matches!(step, SampleStep::Token(1)));
    // The penalty looks at the last tokens.
    let s = Sampling { repeat_penalty: 2.0f32.to_bits(), repeat_window: 2, ..greedy };
    let (mut sampler, step) = Sampler::start(&s, &bits(&[0.5, 2.0, 1.0]), &[0, 1, 2]);
    let SampleStep::Penalize { tokens } = step else { panic!("{step:?}") };
    assert_eq!(tokens, [1, 2]);
    assert!(matches!(sampler.adjusted(&bits(&[1.5, 1.0, 0.5])), SampleStep::Token(0)));
    // A draw: candidates in order of their logits, then the nucleus, then a number.
    let s = Sampling {
        temperature: 1.0f32.to_bits(),
        top_p: 0.5f32.to_bits(),
        top_k: 2,
        ..greedy
    };
    let mut rng = SampleRng::new(3);
    let mut same = SampleRng::new(3);
    let (mut sampler, step) = Sampler::start(&s, &bits(&[0.5, 2.0, 1.0]), &[]);
    let SampleStep::Weigh { idx } = step else { panic!("{step:?}") };
    assert_eq!(idx, [1, 2]);
    let step = sampler.weighed(bits(&[0.4, 1.0]), &mut rng);
    assert!(matches!(step, SampleStep::Renormalize { keep: 2 }));
    let step = sampler.renormalized(bits(&[0.4, 1.0]), &mut rng);
    let SampleStep::Unit { bits: unit } = step else { panic!("{step:?}") };
    assert_eq!(unit, same.unit_bits());
    assert_eq!(sampler.picked(0.3f32.to_bits()), 1);
    assert_eq!(sampler.picked(0.4f32.to_bits()), 2);
    // Without a nucleus there is nothing to normalize again.
    let s = Sampling { top_p: 1.0f32.to_bits(), ..s };
    let (mut sampler, _) = Sampler::start(&s, &bits(&[0.5]), &[]);
    assert!(matches!(sampler.weighed(bits(&[1.0]), &mut rng), SampleStep::Unit { .. }));
    assert!(matches!(Sampler::start(&s, &[], &[]).1, SampleStep::NotNumbers));
    assert!(matches!(Sampler::start(&s, &bits(&[f32::NAN]), &[]).1, SampleStep::NotNumbers));
}

#[test]
fn greedy_is_argmax() {
    let s = Sampling::default();
    let mut rng = SampleRng::new(1);
    assert_eq!(sample(&[0.1, 2.0, -1.0], &[], &s, &mut rng), 1);
}

#[test]
fn repeat_penalty_flips_choice() {
    let s = Sampling { repeat_penalty: 2.0f32.to_bits(), ..Default::default() };
    let mut rng = SampleRng::new(1);
    // Token 1 leads but was just used; penalty halves it below token 0.
    assert_eq!(sample(&[1.5, 2.0, -1.0], &[1], &s, &mut rng), 0);
}

#[test]
fn top_k_restricts_support() {
    let s = Sampling { temperature: 1.0f32.to_bits(), top_k: 2, seed: 7, ..Default::default() };
    let mut rng = SampleRng::new(7);
    for _ in 0..200 {
        let t = sample(&[5.0, 4.0, -10.0, -10.0], &[], &s, &mut rng);
        assert!(t == 0 || t == 1, "sampled outside top-k: {t}");
    }
}

#[test]
fn top_p_prunes_tail() {
    let s = Sampling {
        temperature: 1.0f32.to_bits(),
        top_p: 0.5f32.to_bits(),
        ..Default::default()
    };
    let mut rng = SampleRng::new(3);
    // First candidate holds ~73% of mass; nucleus 0.5 keeps only it.
    for _ in 0..100 {
        assert_eq!(sample(&[2.0, 1.0, 0.0, -1.0], &[], &s, &mut rng), 0);
    }
}

#[test]
fn deterministic_for_seed() {
    let s = Sampling { temperature: 0.9f32.to_bits(), top_k: 8, seed: 42, ..Default::default() };
    let logits: Vec<f32> = (0..64).map(|i| ((i * 37) % 13) as f32 * 0.3).collect();
    let mut a = SampleRng::new(42);
    let mut b = SampleRng::new(42);
    for _ in 0..50 {
        assert_eq!(sample(&logits, &[], &s, &mut a), sample(&logits, &[], &s, &mut b));
    }
}

/// Softmax over all logits, the library's top-k, renormalized.
#[test]
fn topk_renorm() {
    let logits = [0.0f32, 1.0, 2.0, 3.0];
    let m = logits.iter().cloned().fold(f32::MIN, f32::max);
    let exps: Vec<f32> = logits.iter().map(|v| (v - m).exp()).collect();
    let z: f32 = exps.iter().sum();
    let probs: Vec<f32> = exps.iter().map(|e| e / z).collect();
    let top = top_k(&bits(&probs), 2);
    let s: f32 = top.iter().map(|&i| probs[i]).sum();
    let picks: Vec<(usize, f32)> = top.iter().map(|&i| (i, probs[i] / s)).collect();
    assert_eq!(picks[0].0, 3);
    assert_eq!(picks[1].0, 2);
    assert!((picks[0].1 + picks[1].1 - 1.0).abs() < 1e-6);
    assert!(picks[0].1 > picks[1].1);
}

/// Sigmoid scores, selected by score + bias, weighted by score.
fn sigmoid_topk(logits: &[f32], bias: &[f32], k: usize, scaling: f32, min: f32) -> Vec<Pick> {
    let scores: Vec<f32> = logits.iter().map(|v| 1.0 / (1.0 + (-v).exp())).collect();
    let biased: Vec<f32> = scores.iter().zip(bias).map(|(s, b)| s + b).collect();
    let ranked = top_k(&bits(&biased), k);
    let sum: f32 = ranked.iter().map(|&i| scores[i]).sum();
    let picks: Vec<Pick> = ranked
        .iter()
        .map(|&i| Pick { expert: i as u16, weight: (scores[i] / sum * scaling).to_bits() })
        .collect();
    kept_picks(&picks, min.to_bits())
}

#[test]
fn bias_affects_selection_not_weights() {
    // Expert 0 has the best raw score; expert 2's bias promotes it.
    let logits = [2.0f32, -2.0, 1.0, -3.0];
    let bias = [0.0f32, 0.0, 5.0, 0.0];
    let picks = sigmoid_topk(&logits, &bias, 2, 2.0, 0.0);
    assert_eq!(picks.len(), 2);
    assert_eq!(picks[0].expert, 2); // promoted by bias
    assert_eq!(picks[1].expert, 0);
    // Weights come from unbiased scores, renormalized then scaled by 2.
    let s0 = 1.0 / (1.0 + (-2.0f32).exp());
    let s2 = 1.0 / (1.0 + (-1.0f32).exp());
    let w2 = s2 / (s0 + s2) * 2.0;
    assert!((f32::from_bits(picks[0].weight) - w2).abs() < 1e-5);
}

#[test]
fn min_weight_drops_tail() {
    let logits = [4.0f32, 4.0, -6.0];
    let bias = [0.0f32; 3];
    let picks = sigmoid_topk(&logits, &bias, 3, 1.0, 0.05);
    assert_eq!(picks.len(), 2, "tiny-weight expert should be dropped");
}

#[test]
fn ranking_compares_as_numbers() {
    assert_eq!(argmax(&bits(&[-1.0, -0.5, -2.0])), 1);
    // The first of equals, zeros of either sign among them.
    assert_eq!(argmax(&bits(&[-0.0, 0.0])), 0);
    assert_eq!(argmax(&bits(&[f32::NAN, 1.0, f32::NAN])), 1);
    assert_eq!(argmax(&bits(&[f32::NEG_INFINITY, f32::NAN])), 0);
    assert_eq!(argmax(&[]), 0);
    assert_eq!(top_k(&bits(&[1.0, 3.0, 3.0, 2.0]), 3), [1, 2, 3]);
    assert_eq!(top_k(&bits(&[1.0]), 5), [0]);
    assert!(any_nan(&bits(&[1.0, f32::NAN])));
    assert!(!any_nan(&bits(&[1.0, f32::INFINITY])));
}

#[test]
fn sampling_decisions() {
    let s = Sampling::default();
    assert!(s.is_greedy());
    assert_eq!((s.repeat_window, s.seed), (64, 0x5eed));
    assert!(Sampling { temperature: (-0.0f32).to_bits(), ..s }.is_greedy());
    assert!(!Sampling { temperature: 0.1f32.to_bits(), ..s }.is_greedy());
    assert!(!Sampling { temperature: f32::NAN.to_bits(), ..s }.is_greedy());
    // No penalty, no window.
    assert!(s.penalized(&[1, 2]).is_empty());
    let p = Sampling { repeat_penalty: 1.1f32.to_bits(), repeat_window: 2, ..s };
    assert_eq!(p.penalized(&[1, 2, 3]), [2, 3]);
    assert_eq!(p.penalized(&[1]), [1]);
    let sums = bits(&[0.5, 0.75, 1.0]);
    assert_eq!(s.nucleus(&sums), 3);
    assert_eq!(Sampling { top_p: 0.75f32.to_bits(), ..s }.nucleus(&sums), 2);
    assert_eq!(draw(&sums, 0.5f32.to_bits()), 1);
    assert_eq!(draw(&sums, 0.49f32.to_bits()), 0);
    assert_eq!(draw(&sums, 1.0f32.to_bits()), 2);
}

#[test]
fn generators_are_repeatable() {
    let mut a = Rng::new(0);
    let mut b = Rng::new(1);
    let first = a.next();
    assert_eq!(first, b.next());
    // 1 -> 1 ^ 2^13 -> ...
    let mut x = 1u64;
    x ^= x << 13;
    x ^= x >> 7;
    x ^= x << 17;
    assert_eq!(first, x);
    assert!(a.below(10) < 10);
    assert!(b.unit_bits() < 1 << 53);
    let mut s = SampleRng::for_stream(u64::MAX, 3);
    assert_eq!(s.unit_bits(), SampleRng::new(2).unit_bits());
    assert_eq!(hot_expert(2, 1, 128), (2 * 2654435761 + 97) % 128);
}

#[test]
fn synthetic_blobs_differ_by_tag() {
    let a = synthetic_blob(&mut Rng::new(5), 0, 13);
    let b = synthetic_blob(&mut Rng::new(5), 1, 13);
    assert_eq!(a.len(), 13);
    assert_eq!(a[..8], Rng::new(5).next().to_le_bytes());
    assert_eq!(a[0] ^ 1, b[0]);
    assert_eq!(a[8] ^ 1, b[8]);
}

fn strings(v: &[&str]) -> Vec<String> {
    v.iter().map(|s| s.to_string()).collect()
}

#[test]
fn flags_by_name() {
    let args = strings(&["run", "--n=3", "--pack=/p", "--n=4", "--bad", "--x=", "--y=abc=d"]);
    let f = Flags::parse(&args);
    assert_eq!(f.num("n", 9), 3);
    assert_eq!(f.num("y", 9), 9);
    assert_eq!(f.num("z", 9), 9);
    assert_eq!(f.str("y", ""), "abc=d");
    assert_eq!(f.str("bad", "d"), "d");
    assert_eq!(f.path("pack").unwrap(), "/p");
    assert!(f.path("x").is_err());
    assert!(f.path("none").is_err());
    assert_eq!(f.text("x"), Some(""));
    assert_eq!(arg(&args, "n").unwrap(), "3");
    assert_eq!(arg(&args, "none"), None);
}

#[test]
fn prefill_covers_the_rest_of_the_prompt() {
    let c = prefill_chunks(150, 20, 64);
    let spans: Vec<(usize, usize, bool)> = c.iter().map(|c| (c.start, c.end, c.last)).collect();
    assert_eq!(spans, [(20, 84, false), (84, 148, false), (148, 150, true)]);
    assert!(prefill_chunks(5, 5, 64).is_empty());
    assert_eq!(prefill_chunks(64, 0, 64).len(), 1);
}

#[test]
fn a_stream_stops_at_eos() {
    let mut s = Stream::new(vec![1, 2, 3], 10, 100);
    assert!(s.offer(7, &vec![0]));
    // Position of the first generated token.
    assert_eq!(s.feed(), Some((7, 3)));
    assert!(s.offer(8, &vec![0]));
    assert_eq!(s.feed(), Some((8, 4)));
    assert!(!s.offer(0, &vec![0]));
    assert_eq!(s.tokens(), &[7, 8]);
    assert_eq!(s.context(), [1, 2, 3, 7, 8]);
    assert_eq!(s.prompt_len(), 3);
}

#[test]
fn a_stream_stops_at_its_limit() {
    let mut s = Stream::new(vec![1], 1, 100);
    assert!(s.offer(7, &vec![]));
    assert!(s.feed().is_some());
    assert!(!s.offer(8, &vec![]));
    // At the end of the context the last token has no KV.
    let mut s = Stream::new(vec![1, 2], 9, 4);
    assert!(s.offer(7, &vec![]));
    assert_eq!(s.feed(), Some((7, 2)));
    assert!(s.offer(8, &vec![]));
    assert_eq!(s.feed(), None);
    assert_eq!(s.tokens(), &[7, 8]);
    assert_eq!(s.context(), [1, 2, 7]);
}

#[test]
fn a_batch_runs_in_lockstep() {
    let mut b = Batch::new(&vec![2, 5], &vec![10, 20], vec![0], 100, 3);
    let e = |token, pos, seq| Entry { token, pos, seq };
    assert_eq!(b.round(), [e(10, 2, 0), e(20, 5, 1)]);
    b.stepped(&vec![11, 0]);
    // Stream 1 is at its end.
    assert_eq!(b.round(), [e(11, 3, 0)]);
    b.stepped(&vec![12]);
    assert_eq!(b.round(), [e(12, 4, 0)]);
    b.stepped(&vec![13]);
    assert!(b.round().is_empty());
    assert_eq!(b.tokens(0), &[10, 11, 12]);
    assert_eq!(b.tokens(1), &[20]);
    // Without room for a token a stream retires.
    let mut b = Batch::new(&vec![4], &vec![10], vec![], 4, 3);
    assert!(b.round().is_empty());
    assert!(batch_fits(2, 2));
    assert!(!batch_fits(3, 2));
}

#[test]
fn streamed_pieces_add_up() {
    assert_eq!(next_piece("", "Hel"), Some("Hel".to_string()));
    assert_eq!(next_piece("Hel", "Hello"), Some("lo".to_string()));
    assert_eq!(next_piece("Hello", "Hello"), None);
    assert_eq!(next_piece("Hello", "Hell"), None);
    // Never within a character.
    assert_eq!(next_piece("ab", "aé!"), None);
}

#[test]
fn lists_of_ids() {
    assert_eq!(id_list("1, 2 ,3"), Some(vec![1, 2, 3]));
    assert_eq!(id_list("\u{2003}7\t"), Some(vec![7]));
    assert_eq!(id_list("1,,2"), None);
    assert_eq!(id_list(""), None);
    assert_eq!(id_list("1,x"), None);
    assert_eq!(id_list("4294967296"), None);
    let args = strings(&["--n=300"]);
    assert_eq!(arg_num(&args, "n", 1000, 5), 300);
    assert_eq!(arg_num(&args, "n", 255, 5), 5);
    assert_eq!(arg_num(&args, "m", 255, 5), 5);
}

#[test]
fn candidates_are_hot_below_the_cut() {
    let mut a = Rng::new(9);
    let mut b = Rng::new(9);
    b.next();
    assert_eq!(candidate(&mut a, 2, 100, 0, 8), b.next() % 100);
    b.next();
    let h = b.next() % 8;
    assert_eq!(candidate(&mut a, 2, 100, 1 << 53, 8), hot_expert(h, 2, 100));
}

#[test]
fn routes_are_distinct() {
    let mut a = Rng::new(11);
    let mut b = Rng::new(11);
    let got = route(&mut a, 3, 8, 1 << 52, 4, 8, 10_000);
    let mut want: Vec<u16> = Vec::new();
    while want.len() < 8 {
        let e = candidate(&mut b, 3, 8, 1 << 52, 4) as u16;
        if !want.contains(&e) {
            want.push(e);
        }
    }
    assert_eq!(got, want);
    assert_eq!(a.next(), b.next());
    // Only one expert is ever drawn here: the draws run out.
    assert_eq!(route(&mut a, 3, 1, 0, 4, 2, 50), vec![0]);
    assert!(route(&mut a, 3, 8, 0, 4, 2, 0).is_empty());
}

/// One seed and the same logits give the same tokens; a large vocabulary is
/// ranked whole.
#[test]
fn a_seed_repeats_a_generation() {
    let s = Sampling {
        temperature: 0.8f32.to_bits(),
        top_p: 0.95f32.to_bits(),
        seed: 7,
        ..Sampling::default()
    };
    let model = |tokens: &[u32]| -> Vec<f32> {
        let k = tokens.len() as u32 + tokens.last().copied().unwrap_or(0);
        (0..50_000u32).map(|i| ((i * 37 + k * 11) % 1009) as f32 / 50.0).collect()
    };
    let run = |seed: u64| {
        let mut rng = SampleRng::new(seed);
        let mut tokens: Vec<u32> = Vec::new();
        for _ in 0..4 {
            let next = sample(&model(&tokens), &tokens, &s, &mut rng);
            tokens.push(next);
        }
        tokens
    };
    assert_eq!(run(7), run(7));
    assert_ne!(run(7), run(8));
}
