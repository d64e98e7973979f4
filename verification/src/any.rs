//! Architecture dispatch: one decode surface over the Qwen3-MoE and
//! Kimi/DeepSeek engines. The pack's embedded config decides which engine
//! loads (`kv_lora_rank` present => Kimi).

use crate::apart::{caches_apart, latents_apart};
use crate::config::{kimi_family, KimiConfig};
use crate::decode::{Decoder, KvError, KvRun, CHUNK_CAP};
use crate::json::Json;
use crate::kimi::{leading_dense, KimiDecoder};
use crate::parking::{context_runs, latent_runs};
use crate::program::{Family, Program, ProgramView, Stage};
use crate::steps::{check_entries, first_fault, run_entries, run_of, Entry, StepError};
use vstd::prelude::*;

verus! {

/// The engines.
#[derive(Debug, Clone, Copy, PartialEq, Eq, Structural)]
pub enum Engine {
    Qwen,
    Kimi,
}

/// The engine that a pack's config asks for.
pub fn engine_for(config: &Json) -> (engine: Engine)
    ensures
        engine == (if kimi_family(config@) {
            Engine::Kimi
        } else {
            Engine::Qwen
        }),
{
    if KimiConfig::is_kimi(config) {
        Engine::Kimi
    } else {
        Engine::Qwen
    }
}

/// The plan of a decoder.
#[derive(Debug)]
pub enum Plan {
    Qwen(Decoder),
    Kimi(KimiDecoder),
}

/// A decoder of either engine.
#[derive(Debug)]
pub struct AnyDecoder {
    pub plan: Plan,
    pub eos: Vec<u32>,
    /// Speculative prefetch: warm layer L+1 with layer L's expert ids.
    pub prefetch_next: bool,
}

/// What a cache resize does next.
#[derive(Debug, Clone, Copy, PartialEq, Eq, Structural)]
pub enum ResizeStep {
    /// Build a pager with this many slots per layer, leaving this much free.
    Build { slots: u32, reserve: u64 },
    /// The cache has its new size.
    Resized,
    /// The new size failed and the previous one is back.
    KeptPrevious,
    /// Neither size could be built.
    Lost,
}

/// How far a cache resize has come.
#[derive(Debug, Clone, Copy, PartialEq, Eq, Structural)]
pub enum ResizeStage {
    Wanted,
    Restoring,
    Ended,
}

/// A cache resize: the old arena is gone before the new one is built, so a
/// failure puts the previous size back before it is reported. The reserve is
/// ignored then: an unsatisfiable reserve is exactly what tends to fail, and
/// re-applying it would fail again and leave no pager.
#[derive(Debug, Clone, Copy, PartialEq, Eq, Structural)]
pub struct Resize {
    pub previous: u32,
    pub stage: ResizeStage,
}

/// What a resize answers to an attempt to build a pager.
pub open spec fn goes_on(r: Resize, ok: bool, step: ResizeStep, after: Resize) -> bool {
    &&& after.previous == r.previous
    &&& match (r.stage, ok) {
        (ResizeStage::Wanted, true) => {
            &&& step == ResizeStep::Resized
            &&& after.stage == ResizeStage::Ended
        },
        (ResizeStage::Wanted, false) => {
            &&& step == (ResizeStep::Build { slots: r.previous, reserve: 0 })
            &&& after.stage == ResizeStage::Restoring
        },
        (ResizeStage::Restoring, true) => {
            &&& step == ResizeStep::KeptPrevious
            &&& after.stage == ResizeStage::Ended
        },
        _ => step == ResizeStep::Lost && after.stage == ResizeStage::Ended,
    }
}

impl Resize {
    /// Goes on after an attempt to build a pager.
    pub fn built(&mut self, ok: bool) -> (step: ResizeStep)
        ensures
            goes_on(*old(self), ok, step, *final(self)),
    {
        match (self.stage, ok) {
            (ResizeStage::Wanted, true) => {
                self.stage = ResizeStage::Ended;
                ResizeStep::Resized
            },
            (ResizeStage::Wanted, false) => {
                self.stage = ResizeStage::Restoring;
                ResizeStep::Build { slots: self.previous, reserve: 0 }
            },
            (ResizeStage::Restoring, true) => {
                self.stage = ResizeStage::Ended;
                ResizeStep::KeptPrevious
            },
            _ => {
                self.stage = ResizeStage::Ended;
                ResizeStep::Lost
            },
        }
    }
}

/// Insertions after which a cache of `slots` slots per layer halves its
/// counters.
pub open spec fn decay_of(slots: nat) -> nat {
    if slots * 4 > 64 {
        slots * 4
    } else {
        64
    }
}

/// Insertions after which a cache of `slots` slots per layer halves its
/// counters.
pub fn decay_interval(slots: u32) -> (n: u32)
    requires
        slots * 4 <= u32::MAX,
    ensures
        n == decay_of(slots as nat),
{
    if slots * 4 > 64 {
        slots * 4
    } else {
        64
    }
}

impl Plan {
    /// Everything fits into addresses and kernel parameters, and the caches
    /// share no memory.
    pub open spec fn wf(self) -> bool {
        match self {
            Plan::Qwen(d) => d.wf() && caches_apart(d),
            Plan::Kimi(d) => d.wf() && latents_apart(d),
        }
    }

    /// Whether everything fits, and the caches share no memory.
    pub fn fits(&self) -> (yes: bool)
        ensures
            yes == self.wf(),
    {
        match self {
            Plan::Qwen(d) => d.fits() && d.caches_are_apart(),
            Plan::Kimi(d) => d.fits() && d.caches_are_apart(),
        }
    }
}

impl AnyDecoder {
    pub open spec fn wf(self) -> bool {
        self.plan.wf()
    }

    pub open spec fn kimi(self) -> bool {
        self.plan is Kimi
    }

    pub open spec fn spec_max_seq(self) -> usize {
        match self.plan {
            Plan::Qwen(d) => d.dims.max_seq as usize,
            Plan::Kimi(d) => d.dims.max_seq as usize,
        }
    }

    pub open spec fn spec_batch_cap(self) -> usize {
        match self.plan {
            Plan::Qwen(d) => d.batch_cap,
            Plan::Kimi(d) => d.batch_cap,
        }
    }

    /// A decoder; `None` where its plan does not fit addresses and kernel
    /// parameters, or its caches share memory. It prefetches from the start.
    pub fn new(plan: Plan, eos: Vec<u32>) -> (d: Option<Self>)
        ensures
            match d {
                Some(d) => d.wf() && d.plan == plan && d.eos == eos && d.prefetch_next,
                None => !plan.wf(),
            },
    {
        if plan.fits() {
            Some(AnyDecoder { plan, eos, prefetch_next: true })
        } else {
            None
        }
    }

    pub fn is_kimi(&self) -> (yes: bool)
        ensures
            yes == self.kimi(),
    {
        match &self.plan {
            Plan::Qwen(_) => false,
            Plan::Kimi(_) => true,
        }
    }

    /// Positions that a sequence slot holds.
    pub fn max_seq(&self) -> (n: usize)
        requires
            self.wf(),
        ensures
            n == self.spec_max_seq(),
    {
        match &self.plan {
            Plan::Qwen(d) => d.dims.max_seq as usize,
            Plan::Kimi(d) => d.dims.max_seq as usize,
        }
    }

    /// Concurrent sequence slots.
    pub fn batch_cap(&self) -> (n: usize)
        ensures
            n == self.spec_batch_cap(),
    {
        match &self.plan {
            Plan::Qwen(d) => d.batch_cap,
            Plan::Kimi(d) => d.batch_cap,
        }
    }

    /// Entries that one step can hold.
    pub fn chunk_cap(&self) -> (n: usize)
        ensures
            n == CHUNK_CAP,
    {
        CHUNK_CAP
    }

    /// The engine as the program of a step sees it.
    pub open spec fn family(self) -> Family {
        match self.plan {
            Plan::Qwen(_) => Family::Qwen { prefetch: self.prefetch_next },
            Plan::Kimi(d) => Family::Kimi { dense: leading_dense(d.layers@, 0) as usize },
        }
    }

    pub open spec fn spec_layers(self) -> nat {
        match self.plan {
            Plan::Qwen(d) => d.core.layers@.len(),
            Plan::Kimi(d) => d.layers@.len(),
        }
    }

    /// A step that is to start.
    pub open spec fn begins(
        self,
        p: ProgramView,
        single: bool,
        entries: Seq<Entry>,
        wave: usize,
        want_logits: bool,
    ) -> bool {
        p == (ProgramView {
            family: self.family(),
            layers: self.spec_layers(),
            wave: wave as nat,
            single,
            entries,
            want_logits,
            stage: Stage::Opening,
        })
    }

    fn family_and_layers(&self) -> (r: (Family, usize))
        ensures
            r.0 == self.family(),
            r.1 == self.spec_layers(),
    {
        match &self.plan {
            Plan::Qwen(d) => (
                Family::Qwen { prefetch: self.prefetch_next },
                d.core.layers.len(),
            ),
            Plan::Kimi(d) => (Family::Kimi { dense: d.dense_layers() }, d.layers.len()),
        }
    }

    /// The program of a single-token step on sequence slot 0. A wave holds as
    /// many experts as a layer has slots.
    pub fn step(&self, token: u32, pos: usize, wave: usize, want_logits: bool) -> (program: Result<
        Program,
        StepError,
    >)
        requires
            self.wf(),
            wave > 0,
        ensures
            match program {
                Ok(p) => {
                    &&& pos < self.spec_max_seq()
                    &&& p@.wf()
                    &&& self.begins(
                        p@,
                        true,
                        seq![Entry { token, pos, seq: 0 }],
                        wave,
                        want_logits,
                    )
                },
                Err(e) => pos >= self.spec_max_seq() && e == (StepError::Position { pos }),
            },
    {
        if pos >= self.max_seq() {
            return Err(StepError::Position { pos });
        }
        let (family, layers) = self.family_and_layers();
        Ok(Program::single(family, layers, wave, Entry { token, pos, seq: 0 }, want_logits))
    }

    /// The program of a step of several entries: each is a token, a position
    /// and a sequence slot.
    pub fn step_multi(&self, entries: &[Entry], wave: usize, want_logits: bool) -> (program: Result<
        Program,
        StepError,
    >)
        requires
            self.wf(),
            wave > 0,
        ensures
            match program {
                Ok(p) => {
                    &&& 0 < entries@.len() <= CHUNK_CAP
                    &&& first_fault(entries@, self.spec_max_seq(), self.spec_batch_cap(), 0) is None
                    &&& p@.wf()
                    &&& self.begins(p@, false, entries@, wave, want_logits)
                },
                Err(e) => if entries@.len() == 0 || entries@.len() > CHUNK_CAP {
                    e == (StepError::Count { n: entries@.len() as usize })
                } else {
                    first_fault(entries@, self.spec_max_seq(), self.spec_batch_cap(), 0) == Some(e)
                },
            },
    {
        if let Err(e) = check_entries(entries, CHUNK_CAP, self.max_seq(), self.batch_cap()) {
            return Err(e);
        }
        let (family, layers) = self.family_and_layers();
        Ok(Program::new(family, layers, wave, entries, want_logits))
    }

    /// The program of a prefill chunk on sequence slot 0.
    pub fn step_chunk(
        &self,
        tokens: &[u32],
        start_pos: usize,
        wave: usize,
        want_logits: bool,
    ) -> (program: Result<Program, StepError>)
        requires
            self.wf(),
            wave > 0,
            start_pos + tokens@.len() <= usize::MAX,
        ensures
            ({
                let run = run_of(tokens@, start_pos as nat, 0);
                match program {
                    Ok(p) => {
                        &&& 0 < tokens@.len() <= CHUNK_CAP
                        &&& first_fault(run, self.spec_max_seq(), self.spec_batch_cap(), 0) is None
                        &&& p@.wf()
                        &&& self.begins(p@, false, run, wave, want_logits)
                    },
                    Err(e) => if tokens@.len() == 0 || tokens@.len() > CHUNK_CAP {
                        e == (StepError::Count { n: tokens@.len() as usize })
                    } else {
                        first_fault(run, self.spec_max_seq(), self.spec_batch_cap(), 0) == Some(e)
                    },
                }
            }),
    {
        let entries: Vec<Entry> = run_entries(tokens, start_pos, 0);
        self.step_multi(entries.as_slice(), wave, want_logits)
    }

    /// End-of-sequence tokens.
    pub fn eos(&self) -> (eos: &Vec<u32>)
        ensures
            *eos == self.eos,
    {
        &self.eos
    }

    /// Starts a resize of the expert cache: the first pager to build.
    pub fn resize_cache(&self, slots: u32, reserve: u64, previous: u32) -> (r: (Resize, ResizeStep))
        ensures
            r.0 == (Resize { previous, stage: ResizeStage::Wanted }),
            r.1 == (ResizeStep::Build { slots, reserve }),
    {
        (Resize { previous, stage: ResizeStage::Wanted }, ResizeStep::Build { slots, reserve })
    }

    /// Switches speculative prefetch; only the Qwen engine has it.
    pub fn set_prefetch_next(&mut self, on: bool)
        ensures
            final(self).plan == old(self).plan,
            final(self).eos == old(self).eos,
            final(self).prefetch_next == (if old(self).kimi() {
                old(self).prefetch_next
            } else {
                on
            }),
    {
        if !self.is_kimi() {
            self.prefetch_next = on;
        }
    }

    /// Bytes that a context of `len` tokens takes on the host.
    pub open spec fn kv_bytes(self, len: nat) -> nat {
        match self.plan {
            Plan::Qwen(d) => d.kv_bytes(len),
            Plan::Kimi(d) => d.kv_bytes(len),
        }
    }

    /// The copies that take a slot's context of `len` tokens to the host, or
    /// why there are none.
    pub open spec fn exports(self, seq: usize, len: usize) -> Result<Seq<KvRun>, KvError> {
        if seq >= self.spec_batch_cap() {
            Err(KvError::SequenceSlot { seq })
        } else if len > self.spec_max_seq() {
            Err(KvError::Length { len })
        } else if self.kv_bytes(len as nat) > usize::MAX {
            Err(KvError::TooLarge)
        } else {
            Ok(
                match self.plan {
                    Plan::Qwen(d) => context_runs(d, seq as nat, len as nat),
                    Plan::Kimi(d) => latent_runs(d, seq as nat, len as nat),
                },
            )
        }
    }

    /// The copies that restore a parked context of `len` tokens from a copy of
    /// `blob` bytes: the same as took it out, where the copy is as long as the
    /// context.
    pub open spec fn imports(self, seq: usize, len: usize, blob: usize) -> Result<
        Seq<KvRun>,
        KvError,
    > {
        match self.exports(seq, len) {
            Err(e) => Err(e),
            Ok(runs) => if blob != self.kv_bytes(len as nat) {
                Err(KvError::BlobSize { len: blob, want: self.kv_bytes(len as nat) as usize })
            } else {
                Ok(runs)
            },
        }
    }

    /// The copies that take a slot's context of `len` tokens to the host.
    pub fn kv_export(&self, seq: usize, len: usize) -> (runs: Result<Vec<KvRun>, KvError>)
        requires
            self.wf(),
        ensures
            match runs {
                Ok(runs) => self.exports(seq, len) == Ok::<Seq<KvRun>, KvError>(runs@),
                Err(e) => self.exports(seq, len) == Err::<Seq<KvRun>, KvError>(e),
            },
    {
        let runs: Result<Vec<KvRun>, KvError> = match &self.plan {
            Plan::Qwen(d) => d.kv_runs(seq, len),
            Plan::Kimi(d) => d.kv_runs(seq, len),
        };
        proof {
            if runs is Ok {
                assert(runs->Ok_0@ =~= self.exports(seq, len)->Ok_0);
            }
        }
        runs
    }

    /// The copies that restore a parked context of `len` tokens from a copy of
    /// `blob` bytes.
    pub fn kv_import(&self, seq: usize, len: usize, blob: usize) -> (runs: Result<
        Vec<KvRun>,
        KvError,
    >)
        requires
            self.wf(),
        ensures
            match runs {
                Ok(runs) => self.imports(seq, len, blob) == Ok::<Seq<KvRun>, KvError>(runs@),
                Err(e) => self.imports(seq, len, blob) == Err::<Seq<KvRun>, KvError>(e),
            },
    {
        let runs: Result<Vec<KvRun>, KvError> = match &self.plan {
            Plan::Qwen(d) => d.kv_import_runs(seq, len, blob),
            Plan::Kimi(d) => d.kv_import_runs(seq, len, blob),
        };
        proof {
            if runs is Ok {
                assert(runs->Ok_0@ =~= self.exports(seq, len)->Ok_0);
            }
        }
        runs
    }
}

} // verus!
