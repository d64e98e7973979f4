//! What each act of a step launches on the device, for either engine.

use crate::acts::{Act, ActView};
use crate::any::{AnyDecoder, Plan};
use crate::decode::{Lane, CHUNK_CAP};
use crate::kimi::{FeedForward, KimiDecoder};
use crate::launch::{launch_views, Kernels, Launch, LaunchView};
use crate::steps::Entry;
use vstd::prelude::*;

verus! {

fn nothing() -> (plan: Vec<Launch>)
    ensures
        launch_views(plan@) == Seq::<LaunchView>::empty(),
{
    let plan: Vec<Launch> = Vec::new();
    assert(launch_views(plan@) =~= Seq::<LaunchView>::empty());
    plan
}

fn only(l: Launch) -> (plan: Vec<Launch>)
    ensures
        launch_views(plan@) == seq![l@],
{
    let mut plan: Vec<Launch> = Vec::new();
    plan.push(l);
    assert(launch_views(plan@) =~= seq![l@]);
    plan
}

/// A layer of the Kimi engine has a dense block.
pub open spec fn is_dense(d: KimiDecoder, l: int) -> bool {
    0 <= l < d.layers@.len() && d.layers@[l].ffn is Dense
}

/// A layer of the Kimi engine has a router and a shared expert.
pub open spec fn is_routed(d: KimiDecoder, l: int) -> bool {
    0 <= l < d.layers@.len() && d.layers@[l].ffn is Experts
}

impl AnyDecoder {
    /// Where entry `t` of a step lives: a single-token step has a lane of its
    /// own.
    pub open spec fn lane_at(self, single: bool, t: int) -> Lane {
        match self.plan {
            Plan::Qwen(d) => if single {
                d.single_lane()
            } else {
                d.lane_of(t as nat)
            },
            Plan::Kimi(d) => if single {
                d.single_lane()
            } else {
                d.lane_of(t as nat)
            },
        }
    }

    /// Where entry `t` of a step lives; `None` beyond the entries that a step
    /// can hold.
    pub fn lane(&self, single: bool, t: usize) -> (lane: Option<Lane>)
        requires
            self.wf(),
        ensures
            lane == (if single || t < CHUNK_CAP {
                Some(self.lane_at(single, t as int))
            } else {
                None
            }),
    {
        if !single && t >= CHUNK_CAP {
            return None;
        }
        Some(
            match &self.plan {
                Plan::Qwen(d) => if single {
                    d.lane()
                } else {
                    d.entry_lane(t)
                },
                Plan::Kimi(d) => if single {
                    d.lane()
                } else {
                    d.entry_lane(t)
                },
            },
        )
    }

    /// Whether the act has all that it speaks of: an entry of the step, at a
    /// position and a sequence slot that exist, a layer of the right sort, a
    /// token of the vocabulary, and no more picks than the model has.
    pub open spec fn can(self, act: ActView, entries: Seq<Entry>, single: bool) -> bool {
        let there = |t: int| 0 <= t < entries.len() && (single || t < CHUNK_CAP);
        match act {
            ActView::Embed { entry } => there(entry) && match self.plan {
                Plan::Qwen(d) => entries[entry].token < d.dims.vocab,
                Plan::Kimi(_) => true,
            },
            ActView::Attend { layer, entry } => {
                &&& there(entry)
                &&& 0 <= layer < self.spec_layers()
                &&& entries[entry].pos < self.spec_max_seq()
                &&& entries[entry].seq < self.spec_batch_cap()
            },
            ActView::Dense { layer, entry } => there(entry) && match self.plan {
                Plan::Qwen(_) => false,
                Plan::Kimi(d) => is_dense(d, layer),
            },
            ActView::Shared { layer, entry } => there(entry) && match self.plan {
                Plan::Qwen(_) => false,
                Plan::Kimi(d) => is_routed(d, layer),
            },
            ActView::Router { layer, entry } => there(entry) && match self.plan {
                Plan::Qwen(_) => false,
                Plan::Kimi(d) => is_routed(d, layer),
            },
            ActView::SharedAdd { entry } => there(entry) && self.kimi(),
            ActView::Run { entry, picks } => there(entry) && picks.len() <= self.spec_top_k(),
            ActView::Logits { entry } => there(entry),
            _ => true,
        }
    }

    /// Experts that a token may pick.
    pub open spec fn spec_top_k(self) -> i32 {
        match self.plan {
            Plan::Qwen(d) => d.dims.top_k,
            Plan::Kimi(d) => d.dims.top_k,
        }
    }

    /// What an act launches. The Kimi engine gathers embeddings on the host, so
    /// it launches nothing there; nor does an act that only moves or waits.
    pub open spec fn launched(self, act: ActView, entries: Seq<Entry>, single: bool) -> Seq<
        LaunchView,
    > {
        match (act, self.plan) {
            (ActView::Embed { entry }, Plan::Qwen(d)) => seq![
                Kernels::bf16_row_launch(
                    d.core.embed,
                    entries[entry].token as i32,
                    d.dims.hidden,
                    self.lane_at(single, entry).h,
                ),
            ],
            (ActView::Attend { layer, entry }, Plan::Qwen(d)) => d.attention_launches(
                layer,
                entries[entry].pos as i32,
                entries[entry].seq as nat,
                self.lane_at(single, entry),
            ),
            (ActView::Attend { layer, entry }, Plan::Kimi(d)) => d.attention_launches(
                layer,
                entries[entry].pos as i32,
                entries[entry].seq as nat,
                self.lane_at(single, entry),
            ),
            (ActView::Dense { layer, entry }, Plan::Kimi(d)) => match d.layers@[layer].ffn {
                FeedForward::Dense(mlp) => d.dense_launches(mlp, self.lane_at(single, entry)),
                _ => Seq::empty(),
            },
            (ActView::Shared { layer, entry }, Plan::Kimi(d)) => match d.layers@[layer].ffn {
                FeedForward::Experts { shared, .. } => d.shared_launches(
                    shared,
                    self.lane_at(single, entry),
                ),
                _ => Seq::empty(),
            },
            (ActView::Router { layer, entry }, Plan::Kimi(d)) => match d.layers@[layer].ffn {
                FeedForward::Experts { router, .. } => seq![
                    router.gemv_launch(
                        self.lane_at(single, entry).hn,
                        self.lane_at(single, entry).router,
                    ),
                ],
                _ => Seq::empty(),
            },
            (ActView::SharedAdd { entry }, Plan::Kimi(d)) => seq![
                d.shared_add_launch(self.lane_at(single, entry)),
            ],
            (ActView::Run { entry, picks }, Plan::Qwen(d)) => d.expert_launches(
                self.lane_at(single, entry),
                picks.len() as i32,
            ),
            (ActView::Run { entry, picks }, Plan::Kimi(d)) => d.expert_launches(
                self.lane_at(single, entry),
                picks.len() as i32,
            ),
            (ActView::Logits { entry }, Plan::Qwen(d)) => d.logits_launches(
                self.lane_at(single, entry),
            ),
            (ActView::Logits { entry }, Plan::Kimi(d)) => d.logits_launches(
                self.lane_at(single, entry),
            ),
            _ => Seq::empty(),
        }
    }

    /// The lane of an entry of this step.
    fn lane_in(&self, entries: &[Entry], single: bool, t: usize) -> (lane: Option<Lane>)
        requires
            self.wf(),
        ensures
            lane == (if t < entries@.len() && (single || t < CHUNK_CAP) {
                Some(self.lane_at(single, t as int))
            } else {
                None
            }),
    {
        if t < entries.len() {
            self.lane(single, t)
        } else {
            None
        }
    }

    fn feed_forward(&self, layer: usize) -> (f: Option<(&KimiDecoder, FeedForward)>)
        requires
            self.wf(),
        ensures
            match (self.plan, f) {
                (Plan::Kimi(d), Some((e, ffn))) => {
                    &&& layer < d.layers@.len()
                    &&& *e == d
                    &&& ffn == d.layers@[layer as int].ffn
                    &&& ffn.wf()
                },
                (Plan::Kimi(d), None) => layer >= d.layers@.len(),
                (Plan::Qwen(_), f) => f is None,
            },
    {
        match &self.plan {
            Plan::Qwen(_) => None,
            Plan::Kimi(d) => if layer < d.layers.len() {
                proof {
                    assert(d.layers@[layer as int].wf());
                }
                Some((d, d.layers[layer].ffn))
            } else {
                None
            },
        }
    }

    /// The launches of an act; `None` where it speaks of something that is not
    /// there.
    pub fn launches(&self, act: &Act, entries: &[Entry], single: bool) -> (plan: Option<
        Vec<Launch>,
    >)
        requires
            self.wf(),
        ensures
            match plan {
                Some(plan) => {
                    &&& self.can(act@, entries@, single)
                    &&& launch_views(plan@) == self.launched(act@, entries@, single)
                },
                None => !self.can(act@, entries@, single),
            },
    {
        match act {
            Act::Embed { entry } => {
                let lane: Lane = match self.lane_in(entries, single, *entry) {
                    Some(lane) => lane,
                    None => return None,
                };
                match &self.plan {
                    Plan::Qwen(d) => {
                        let token: u32 = entries[*entry].token;
                        if d.dims.vocab <= 0 || token >= d.dims.vocab as u32 {
                            return None;
                        }
                        Some(only(d.embed(token, &lane)))
                    },
                    Plan::Kimi(_) => Some(nothing()),
                }
            },
            Act::Attend { layer, entry } => {
                let lane: Lane = match self.lane_in(entries, single, *entry) {
                    Some(lane) => lane,
                    None => return None,
                };
                let e: Entry = entries[*entry];
                if e.pos >= self.max_seq() || e.seq >= self.batch_cap() {
                    return None;
                }
                match &self.plan {
                    Plan::Qwen(d) => if *layer < d.core.layers.len() {
                        Some(d.attention(*layer, e.pos, e.seq, &lane))
                    } else {
                        None
                    },
                    Plan::Kimi(d) => if *layer < d.layers.len() {
                        Some(d.attention(*layer, e.pos, e.seq, &lane))
                    } else {
                        None
                    },
                }
            },
            Act::Dense { layer, entry } => {
                let lane: Lane = match self.lane_in(entries, single, *entry) {
                    Some(lane) => lane,
                    None => return None,
                };
                match self.feed_forward(*layer) {
                    Some((d, FeedForward::Dense(mlp))) => Some(d.dense(&mlp, &lane)),
                    _ => None,
                }
            },
            Act::Shared { layer, entry } => {
                let lane: Lane = match self.lane_in(entries, single, *entry) {
                    Some(lane) => lane,
                    None => return None,
                };
                match self.feed_forward(*layer) {
                    Some((d, FeedForward::Experts { shared, .. })) => Some(d.shared(&shared, &lane)),
                    _ => None,
                }
            },
            Act::Router { layer, entry } => {
                let lane: Lane = match self.lane_in(entries, single, *entry) {
                    Some(lane) => lane,
                    None => return None,
                };
                match self.feed_forward(*layer) {
                    Some((d, FeedForward::Experts { router, .. })) => Some(
                        only(d.router(&router, &lane)),
                    ),
                    _ => None,
                }
            },
            Act::SharedAdd { entry } => {
                let lane: Lane = match self.lane_in(entries, single, *entry) {
                    Some(lane) => lane,
                    None => return None,
                };
                match &self.plan {
                    Plan::Qwen(_) => None,
                    Plan::Kimi(d) => Some(only(d.shared_add(&lane))),
                }
            },
            Act::Run { entry, picks } => {
                let lane: Lane = match self.lane_in(entries, single, *entry) {
                    Some(lane) => lane,
                    None => return None,
                };
                let n: usize = picks.len();
                match &self.plan {
                    Plan::Qwen(d) => if n <= d.dims.top_k as usize {
                        Some(d.experts(&lane, n))
                    } else {
                        None
                    },
                    Plan::Kimi(d) => if n <= d.dims.top_k as usize {
                        Some(d.experts(&lane, n))
                    } else {
                        None
                    },
                }
            },
            Act::Logits { entry } => {
                let lane: Lane = match self.lane_in(entries, single, *entry) {
                    Some(lane) => lane,
                    None => return None,
                };
                match &self.plan {
                    Plan::Qwen(d) => Some(d.logits(&lane)),
                    Plan::Kimi(d) => Some(d.logits(&lane)),
                }
            },
            _ => Some(nothing()),
        }
    }
}

} // verus!
