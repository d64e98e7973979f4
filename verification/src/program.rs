//! A step as a program: what the device does next, given what the router has
//! chosen. Layers run in order; in each, the experts follow the choice.

use crate::acts::{
    act_views, close_single, close_step, closing, kimi_layer, kimi_layer_acts, kimi_single,
    kimi_single_acts, kimi_single_layer, kimi_single_layer_acts, open_step, opening, qwen_layer,
    qwen_layer_acts, qwen_single, qwen_single_acts, single_closing, wave_acts, wave_step_acts,
    Act, ActView,
};
use crate::steps::{is_union, plan_waves, planned, Entry, Pick, Wave};
use vstd::prelude::*;

verus! {

/// Which engine runs the step.
#[derive(Debug, Clone, Copy, PartialEq, Eq, Structural)]
pub enum Family {
    /// With `prefetch`, a single token warms each next layer with the experts
    /// of the last.
    Qwen { prefetch: bool },
    /// The first `dense` layers have no experts.
    Kimi { dense: usize },
}

/// Where a step is.
#[derive(Debug, Clone, Copy, PartialEq, Eq, Structural)]
pub enum Stage {
    /// Nothing was done yet.
    Opening,
    /// The layer is to start.
    Layer(usize),
    /// The experts of the layer were chosen.
    Experts(usize),
    /// Every layer has run.
    Closing,
    Ended,
}

/// A step that is being run.
#[derive(Debug)]
pub struct Program {
    family: Family,
    layers: usize,
    /// Experts that a wave may hold: the slots of a layer.
    wave: usize,
    /// A single token on its own lane, rather than entries on theirs.
    single: bool,
    entries: Vec<Entry>,
    want_logits: bool,
    stage: Stage,
}

/// A step that is being run, mathematically.
pub struct ProgramView {
    pub family: Family,
    pub layers: nat,
    pub wave: nat,
    pub single: bool,
    pub entries: Seq<Entry>,
    pub want_logits: bool,
    pub stage: Stage,
}

/// What the router chose for the only entry.
pub open spec fn only_picks(picks: Seq<Vec<Pick>>) -> Seq<Pick> {
    if picks.len() > 0 {
        picks[0]@
    } else {
        Seq::empty()
    }
}

impl ProgramView {
    pub open spec fn wf(self) -> bool {
        &&& self.wave > 0
        &&& self.layers <= usize::MAX
        &&& match self.stage {
            Stage::Layer(l) => l < self.layers,
            Stage::Experts(l) => l < self.layers && self.has_experts(l as int),
            _ => true,
        }
    }

    /// Whether layer `l` has experts.
    pub open spec fn has_experts(self, l: int) -> bool {
        match self.family {
            Family::Qwen { prefetch: _ } => true,
            Family::Kimi { dense } => l >= dense,
        }
    }

    /// The stage behind layer `l`.
    pub open spec fn behind(self, l: int) -> Stage {
        if l + 1 < self.layers {
            Stage::Layer((l + 1) as usize)
        } else {
            Stage::Closing
        }
    }

    /// The stage that follows the present one.
    pub open spec fn following(self) -> Stage {
        match self.stage {
            Stage::Opening => if self.layers > 0 {
                Stage::Layer(0)
            } else {
                Stage::Closing
            },
            Stage::Layer(l) => if self.has_experts(l as int) {
                Stage::Experts(l)
            } else {
                self.behind(l as int)
            },
            Stage::Experts(l) => self.behind(l as int),
            Stage::Closing => Stage::Ended,
            Stage::Ended => Stage::Ended,
        }
    }

    /// What opens the step: one of several entries of the Qwen engine flushes
    /// what is still deferred.
    pub open spec fn opens(self) -> Seq<ActView> {
        opening(!self.single && self.family is Qwen, self.entries.len())
    }

    /// What layer `l` does up to the choice of experts.
    pub open spec fn layer(self, l: int) -> Seq<ActView> {
        match self.family {
            Family::Qwen { prefetch: _ } => qwen_layer(l, self.entries.len()),
            Family::Kimi { dense } => if self.single {
                kimi_single_layer(l, dense as int)
            } else {
                kimi_layer(l, dense as int, self.entries.len())
            },
        }
    }

    /// The layer of the pack that holds the experts of layer `l`.
    pub open spec fn pack_layer(self, l: int) -> int {
        match self.family {
            Family::Qwen { prefetch: _ } => l,
            Family::Kimi { dense } => l - dense,
        }
    }

    /// `acts` run the experts that were picked in layer `l`.
    pub open spec fn runs(self, l: int, picks: Seq<Vec<Pick>>, acts: Seq<ActView>) -> bool {
        if self.single {
            acts == (match self.family {
                Family::Qwen { prefetch } => qwen_single(
                    l,
                    only_picks(picks),
                    prefetch && l + 1 < self.layers,
                ),
                Family::Kimi { dense: _ } => kimi_single(
                    l,
                    self.pack_layer(l),
                    only_picks(picks),
                    self.wave,
                ),
            })
        } else {
            exists|union: Seq<u16>, waves: Seq<Wave>| #[trigger]
                planned(picks, union, self.wave, waves) && is_union(picks, union) && acts
                    == wave_acts(self.pack_layer(l), waves, waves.len())
        }
    }

    /// What closes the step.
    pub open spec fn closes(self) -> Seq<ActView> {
        if self.single {
            single_closing(self.want_logits)
        } else {
            closing(self.entries, self.want_logits)
        }
    }

    /// `acts` are what the present stage does.
    pub open spec fn does(self, picks: Seq<Vec<Pick>>, acts: Seq<ActView>) -> bool {
        match self.stage {
            Stage::Opening => acts == self.opens(),
            Stage::Layer(l) => acts == self.layer(l as int),
            Stage::Experts(l) => self.runs(l as int, picks, acts),
            Stage::Closing => acts == self.closes(),
            Stage::Ended => false,
        }
    }
}

fn copy_entries(entries: &[Entry]) -> (copy: Vec<Entry>)
    ensures
        copy@ == entries@,
{
    let mut copy: Vec<Entry> = Vec::new();
    let mut i: usize = 0;
    while i < entries.len()
        invariant
            i <= entries@.len(),
            copy@ == entries@.take(i as int),
        decreases entries@.len() - i,
    {
        copy.push(entries[i]);
        i += 1;
        assert(copy@ =~= entries@.take(i as int));
    }
    assert(copy@ =~= entries@);
    copy
}

impl Program {
    pub closed spec fn view(self) -> ProgramView {
        ProgramView {
            family: self.family,
            layers: self.layers as nat,
            wave: self.wave as nat,
            single: self.single,
            entries: self.entries@,
            want_logits: self.want_logits,
            stage: self.stage,
        }
    }

    /// A step of several entries.
    pub fn new(
        family: Family,
        layers: usize,
        wave: usize,
        entries: &[Entry],
        want_logits: bool,
    ) -> (p: Self)
        requires
            wave > 0,
        ensures
            p@.wf(),
            p@ == (ProgramView {
                family,
                layers: layers as nat,
                wave: wave as nat,
                single: false,
                entries: entries@,
                want_logits,
                stage: Stage::Opening,
            }),
    {
        Program {
            family,
            layers,
            wave,
            single: false,
            entries: copy_entries(entries),
            want_logits,
            stage: Stage::Opening,
        }
    }

    /// A step of a single token.
    pub fn single(
        family: Family,
        layers: usize,
        wave: usize,
        entry: Entry,
        want_logits: bool,
    ) -> (p: Self)
        requires
            wave > 0,
        ensures
            p@.wf(),
            p@ == (ProgramView {
                family,
                layers: layers as nat,
                wave: wave as nat,
                single: true,
                entries: seq![entry],
                want_logits,
                stage: Stage::Opening,
            }),
    {
        let mut entries: Vec<Entry> = Vec::new();
        entries.push(entry);
        assert(entries@ =~= seq![entry]);
        Program {
            family,
            layers,
            wave,
            single: true,
            entries,
            want_logits,
            stage: Stage::Opening,
        }
    }

    /// What to do next, and then come back with what the router has chosen, if
    /// it was asked; `None` at the end of the step.
    pub fn next(&mut self, picks: &Vec<Vec<Pick>>) -> (acts: Option<Vec<Act>>)
        requires
            old(self)@.wf(),
        ensures
            final(self)@.wf(),
            final(self)@ == (ProgramView { stage: old(self)@.following(), ..old(self)@ }),
            match acts {
                Some(acts) => old(self)@.does(picks@, act_views(acts@)),
                None => old(self)@.stage == Stage::Ended,
            },
    {
        let n: usize = self.entries.len();
        match self.stage {
            Stage::Opening => {
                let flush: bool = match self.family {
                    Family::Qwen { prefetch: _ } => !self.single,
                    Family::Kimi { dense: _ } => false,
                };
                self.stage = if self.layers > 0 {
                    Stage::Layer(0)
                } else {
                    Stage::Closing
                };
                Some(open_step(flush, n))
            },
            Stage::Layer(l) => {
                let acts: Vec<Act> = match self.family {
                    Family::Qwen { prefetch: _ } => qwen_layer_acts(l, n),
                    Family::Kimi { dense } => if self.single {
                        kimi_single_layer_acts(l, dense)
                    } else {
                        kimi_layer_acts(l, dense, n)
                    },
                };
                let experts: bool = match self.family {
                    Family::Qwen { prefetch: _ } => true,
                    Family::Kimi { dense } => l >= dense,
                };
                self.stage = if experts {
                    Stage::Experts(l)
                } else if l + 1 < self.layers {
                    Stage::Layer(l + 1)
                } else {
                    Stage::Closing
                };
                Some(acts)
            },
            Stage::Experts(l) => {
                self.stage = if l + 1 < self.layers {
                    Stage::Layer(l + 1)
                } else {
                    Stage::Closing
                };
                Some(self.experts(l, picks))
            },
            Stage::Closing => {
                self.stage = Stage::Ended;
                Some(
                    if self.single {
                        close_single(self.want_logits)
                    } else {
                        close_step(self.entries.as_slice(), self.want_logits)
                    },
                )
            },
            Stage::Ended => None,
        }
    }

    fn experts(&self, l: usize, picks: &Vec<Vec<Pick>>) -> (acts: Vec<Act>)
        requires
            self@.wave > 0,
            l < self@.layers,
            self@.has_experts(l as int),
        ensures
            self@.runs(l as int, picks@, act_views(acts@)),
    {
        let pack_layer: usize = match self.family {
            Family::Qwen { prefetch: _ } => l,
            Family::Kimi { dense } => l - dense,
        };
        if !self.single {
            let waves: Vec<Wave> = plan_waves(picks, self.wave);
            return wave_step_acts(pack_layer, &waves);
        }
        let none: Vec<Pick> = Vec::new();
        assert(none@ =~= Seq::<Pick>::empty());
        let only: &Vec<Pick> = if picks.len() > 0 {
            &picks[0]
        } else {
            &none
        };
        match self.family {
            Family::Qwen { prefetch } => qwen_single_acts(
                l,
                only,
                prefetch && l + 1 < self.layers,
            ),
            Family::Kimi { dense: _ } => kimi_single_acts(l, pack_layer, only, self.wave),
        }
    }
}

/// How many stages are left, at most.
pub open spec fn stages_left(v: ProgramView) -> int {
    match v.stage {
        Stage::Opening => 2 * v.layers as int + 2,
        Stage::Layer(l) => 2 * (v.layers - l) + 1,
        Stage::Experts(l) => 2 * (v.layers - l),
        Stage::Closing => 1,
        Stage::Ended => 0,
    }
}

/// A step ends: each answer brings it nearer to its end.
pub proof fn law_step_ends(v: ProgramView)
    requires
        v.wf(),
        v.stage != Stage::Ended,
    ensures
        ({
            let after = ProgramView { stage: v.following(), ..v };
            &&& after.wf()
            &&& 0 <= stages_left(after) < stages_left(v)
        }),
{
}

/// The layer that a stage is at: all of them behind the last.
pub open spec fn layer_at(v: ProgramView) -> int {
    match v.stage {
        Stage::Opening => -1,
        Stage::Layer(l) => l as int,
        Stage::Experts(l) => l as int,
        Stage::Closing => v.layers as int,
        Stage::Ended => v.layers as int,
    }
}

/// Layers run in order: a step goes from a layer to the same one or the next,
/// and leaves a layer with experts only once they have run.
pub proof fn law_layers_in_order(v: ProgramView)
    requires
        v.wf(),
    ensures
        ({
            let after = ProgramView { stage: v.following(), ..v };
            &&& layer_at(v) <= layer_at(after) <= layer_at(v) + 1
            &&& v.stage matches Stage::Layer(l) ==> (v.has_experts(l as int) <==> after.stage
                == Stage::Experts(l))
        }),
{
}

} // verus!
