//! The models a server offers, and which of them are warm.
//!
//! Up to `max_warm` models stay loaded; requesting a cold model evicts the
//! least-recently-used warm one and loads the new one. A model that is warm
//! alone gets a big expert cache, models that share the card small ones.
//!
//! The registry decides; loading, resizing and dropping engines is the
//! caller's. A warm-up goes in steps: each says what to do next, and is told
//! how it went.

use crate::json::{trees, Json, JsonNumber, JsonTree};
use crate::text::same_text;
use vstd::prelude::*;

verus! {

/// One model of the server's config.
#[derive(Debug)]
pub struct ModelSpec {
    pub name: String,
    pub pack: String,
    pub core: String,
    pub tokenizer: String,
    /// Cache size when sharing VRAM with other warm models.
    pub slots: u32,
    /// Cache size when this is the only warm model (budgeter grows it).
    pub slots_solo: u32,
    pub io_threads: usize,
    pub direct: bool,
    /// Managed host-RAM expert tier (GB), as given; for packs larger than RAM.
    pub ram_gb: Option<JsonNumber>,
    /// Requantize the resident core to q4g64 at load. Required for models
    /// whose bf16 core alone exceeds VRAM; harmless but lossy elsewhere, so it
    /// defaults off.
    pub core_q4: bool,
    pub max_seq: usize,
    pub batch: usize,
    /// Skip routed experts under this scaled weight, as given.
    pub min_expert_weight: Option<JsonNumber>,
    /// Fetch-count profile file: loaded into the RAM tier at warm-up,
    /// rewritten with fresh stats at eviction (self-improving).
    pub prewarm: Option<String>,
    /// Host RAM for parked session contexts (GB), as given.
    pub session_ram_gb: Option<JsonNumber>,
    /// VRAM to leave free for other processes sharing the card (MB).
    pub reserve_mb: u64,
}

/// What is wrong with the server's config.
#[derive(Debug, Clone, Copy, PartialEq, Eq, Structural)]
pub enum ServerFault {
    /// There is no list of models.
    NoModelList,
    /// Model `model` lacks its name.
    NoName { model: usize },
    /// Model `model` lacks its pack.
    NoPack { model: usize },
    /// Model `model` lacks its core.
    NoCore { model: usize },
    /// Model `model` lacks its tokenizer.
    NoTokenizer { model: usize },
    /// Model `model` has more slots than can be doubled.
    TooManySlots { model: usize },
    /// The list of models is empty.
    NoModels,
}

/// The server's config.
#[derive(Debug)]
pub struct ServerConfig {
    pub port: u16,
    pub max_warm: usize,
    pub models: Vec<ModelSpec>,
}

/// `key` in the model, with a default.
pub open spec fn number_or(m: JsonTree, key: Seq<char>, default: u64) -> u64 {
    match m.uint_at(key) {
        Some(n) => n,
        None => default,
    }
}

/// What is wrong with model `i` of a config, if anything.
pub open spec fn model_fault(m: JsonTree, i: usize) -> Option<ServerFault> {
    if m.text_at("name"@) is None {
        Some(ServerFault::NoName { model: i })
    } else if m.text_at("pack"@) is None {
        Some(ServerFault::NoPack { model: i })
    } else if m.text_at("core"@) is None {
        Some(ServerFault::NoCore { model: i })
    } else if m.text_at("tokenizer"@) is None {
        Some(ServerFault::NoTokenizer { model: i })
    } else if number_or(m, "slots"@, 32) as u32 > u32::MAX / 2 {
        Some(ServerFault::TooManySlots { model: i })
    } else {
        None
    }
}

impl ModelSpec {
    /// This is the model that `m` describes, in a config with reserve `shared`.
    pub open spec fn reads(self, m: JsonTree, shared: Option<u64>) -> bool {
        &&& m.text_at("name"@) == Some(self.name@)
        &&& m.text_at("pack"@) == Some(self.pack@)
        &&& m.text_at("core"@) == Some(self.core@)
        &&& m.text_at("tokenizer"@) == Some(self.tokenizer@)
        &&& self.slots == number_or(m, "slots"@, 32) as u32
        &&& self.slots_solo == (match m.uint_at("slots_solo"@) {
            Some(n) => n as u32,
            None => (2 * (number_or(m, "slots"@, 32) as u32)) as u32,
        })
        &&& self.io_threads == number_or(m, "io_threads"@, 4) as usize
        &&& self.direct == (m.flag_at("direct"@) == Some(true))
        &&& self.ram_gb == m.number_at("ram_gb"@)
        &&& self.core_q4 == (m.flag_at("core_q4"@) == Some(true))
        &&& self.max_seq == number_or(m, "max_seq"@, 4096) as usize
        &&& self.batch == number_or(m, "batch"@, 1) as usize
        &&& self.min_expert_weight == m.number_at("min_expert_weight"@)
        &&& match (m.text_at("prewarm"@), self.prewarm) {
            (Some(a), Some(b)) => a == b@,
            (None, None) => true,
            _ => false,
        }
        &&& self.session_ram_gb == m.number_at("session_ram_gb"@)
        &&& self.reserve_mb == (match (m.uint_at("reserve_mb"@), shared) {
            (Some(n), _) => n,
            (None, Some(n)) => n,
            _ => 0,
        })
    }

    #[verifier::truncate]
    fn from_json(m: &Json, i: usize, shared: Option<u64>) -> (spec: Result<Self, ServerFault>)
        ensures
            match spec {
                Ok(spec) => model_fault(m@, i) is None && spec.reads(m@, shared),
                Err(e) => model_fault(m@, i) == Some(e),
            },
    {
        let name: String = match m.get_str("name") {
            Some(s) => s.to_owned(),
            None => {
                return Err(ServerFault::NoName { model: i });
            },
        };
        let pack: String = match m.get_str("pack") {
            Some(s) => s.to_owned(),
            None => {
                return Err(ServerFault::NoPack { model: i });
            },
        };
        let core: String = match m.get_str("core") {
            Some(s) => s.to_owned(),
            None => {
                return Err(ServerFault::NoCore { model: i });
            },
        };
        let tokenizer: String = match m.get_str("tokenizer") {
            Some(s) => s.to_owned(),
            None => {
                return Err(ServerFault::NoTokenizer { model: i });
            },
        };
        let slots: u32 = get_or(m, "slots", 32) as u32;
        if slots > u32::MAX / 2 {
            return Err(ServerFault::TooManySlots { model: i });
        }
        let slots_solo: u32 = match m.get_u64("slots_solo") {
            Some(n) => n as u32,
            None => 2 * slots,
        };
        let prewarm: Option<String> = match m.get_str("prewarm") {
            Some(s) => Some(s.to_owned()),
            None => None,
        };
        let reserve_mb: u64 = match m.get_u64("reserve_mb") {
            Some(n) => n,
            None => match shared {
                Some(n) => n,
                None => 0,
            },
        };
        Ok(
            ModelSpec {
                name,
                pack,
                core,
                tokenizer,
                slots,
                slots_solo,
                io_threads: get_or(m, "io_threads", 4) as usize,
                direct: is_set(m, "direct"),
                ram_gb: m.get_number("ram_gb"),
                core_q4: is_set(m, "core_q4"),
                max_seq: get_or(m, "max_seq", 4096) as usize,
                batch: get_or(m, "batch", 1) as usize,
                min_expert_weight: m.get_number("min_expert_weight"),
                prewarm,
                session_ram_gb: m.get_number("session_ram_gb"),
                reserve_mb,
            },
        )
    }
}

fn get_or(m: &Json, key: &str, default: u64) -> (n: u64)
    ensures
        n == number_or(m@, key@, default),
{
    match m.get_u64(key) {
        Some(n) => n,
        None => default,
    }
}

fn is_set(m: &Json, key: &str) -> (yes: bool)
    ensures
        yes == (m@.flag_at(key@) == Some(true)),
{
    match m.get_bool(key) {
        Some(b) => b,
        None => false,
    }
}

/// What is wrong with the first faulty model at or behind `i`, if any.
pub open spec fn models_fault(models: Seq<JsonTree>, i: nat) -> Option<ServerFault>
    decreases models.len() - i,
{
    if i >= models.len() {
        None
    } else if model_fault(models[i as int], i as usize) is Some {
        model_fault(models[i as int], i as usize)
    } else {
        models_fault(models, i + 1)
    }
}

/// What is wrong with a config, if anything.
pub open spec fn server_fault(cfg: JsonTree) -> Option<ServerFault> {
    match cfg.items_at("models"@) {
        None => Some(ServerFault::NoModelList),
        Some(models) => match models_fault(models, 0) {
            Some(e) => Some(e),
            None => if models.len() == 0 {
                Some(ServerFault::NoModels)
            } else {
                None
            },
        },
    }
}

impl ServerConfig {
    /// This is what the config `cfg` says.
    pub open spec fn reads(self, cfg: JsonTree) -> bool {
        &&& self.port == number_or(cfg, "port"@, 8090) as u16
        &&& self.max_warm == number_or(cfg, "max_warm"@, 2) as usize
        &&& self.models@.len() == cfg.items_at("models"@)->0.len()
        &&& forall|i: int|
            #![trigger self.models@[i]]
            0 <= i < self.models@.len() ==> self.models@[i].reads(
                cfg.items_at("models"@)->0[i],
                cfg.uint_at("reserve_mb"@),
            )
    }

    /// Reads the server's config.
    #[verifier::truncate]
    pub fn from_json(cfg: &Json) -> (r: Result<Self, ServerFault>)
        ensures
            match r {
                Ok(c) => server_fault(cfg@) is None && c.reads(cfg@),
                Err(e) => server_fault(cfg@) == Some(e),
            },
    {
        let port: u16 = get_or(cfg, "port", 8090) as u16;
        let max_warm: usize = get_or(cfg, "max_warm", 2) as usize;
        let shared: Option<u64> = cfg.get_u64("reserve_mb");
        let items: &Vec<Json> = match cfg.get_array("models") {
            Some(items) => items,
            None => {
                return Err(ServerFault::NoModelList);
            },
        };
        let ghost all = trees(items@);
        let mut models: Vec<ModelSpec> = Vec::new();
        let mut i: usize = 0;
        while i < items.len()
            invariant
                i <= items@.len(),
                all == trees(items@),
                cfg@.items_at("models"@) == Some(all),
                shared == cfg@.uint_at("reserve_mb"@),
                models_fault(all, 0) == models_fault(all, i as nat),
                models@.len() == i,
                forall|k: int|
                    #![trigger models@[k]]
                    0 <= k < i ==> models@[k].reads(all[k], shared),
            decreases items@.len() - i,
        {
            assert(all[i as int] == items@[i as int]@);
            match ModelSpec::from_json(&items[i], i, shared) {
                Ok(m) => models.push(m),
                Err(e) => {
                    return Err(e);
                },
            }
            i += 1;
        }
        if models.len() == 0 {
            return Err(ServerFault::NoModels);
        }
        Ok(ServerConfig { port, max_warm, models })
    }
}

/// A warm model and the slots per layer that its cache has.
#[derive(Debug)]
pub struct Warm {
    pub name: String,
    pub cur_slots: u32,
}

/// The models and which of them are warm, most recently used first.
#[derive(Debug)]
pub struct Registry {
    specs: Vec<ModelSpec>,
    max_warm: usize,
    warm: Vec<Warm>,
}

/// The registry, mathematically.
pub struct RegistryView {
    pub specs: Seq<ModelSpec>,
    pub max_warm: nat,
    /// Names and slots per layer of the warm models, most recently used first.
    pub warm: Seq<(Seq<char>, u32)>,
}

/// Position of the first model called `name`, at or behind `i`.
pub open spec fn spec_index(specs: Seq<ModelSpec>, name: Seq<char>, i: nat) -> Option<nat>
    decreases specs.len() - i,
{
    if i >= specs.len() {
        None
    } else if specs[i as int].name@ == name {
        Some(i)
    } else {
        spec_index(specs, name, i + 1)
    }
}

/// Position of the first warm model called `name`, at or behind `i`.
pub open spec fn warm_index(warm: Seq<(Seq<char>, u32)>, name: Seq<char>, i: nat) -> Option<nat>
    decreases warm.len() - i,
{
    if i >= warm.len() {
        None
    } else if warm[i as int].0 == name {
        Some(i)
    } else {
        warm_index(warm, name, i + 1)
    }
}

impl RegistryView {
    /// How many models may be warm.
    pub open spec fn limit(self) -> nat {
        if self.max_warm > 1 {
            self.max_warm
        } else {
            1
        }
    }

    /// There is a model called `name`.
    pub open spec fn knows(self, name: Seq<char>) -> bool {
        spec_index(self.specs, name, 0) is Some
    }

    /// The model called `name` is warm.
    pub open spec fn is_warm(self, name: Seq<char>) -> bool {
        warm_index(self.warm, name, 0) is Some
    }

    /// The cache size of a model when `count` models are warm: the big one for
    /// a model that is alone, else the small one.
    pub open spec fn target(self, name: Seq<char>, count: nat) -> u32 {
        let spec = self.specs[spec_index(self.specs, name, 0)->0 as int];
        if count <= 1 {
            spec.slots_solo
        } else {
            spec.slots
        }
    }

    /// Position of the first warm model, at or behind `i`, whose cache is not
    /// of its size for `count` warm models.
    pub open spec fn misfit(self, count: nat, i: nat) -> Option<nat>
        decreases self.warm.len() - i,
    {
        if i >= self.warm.len() {
            None
        } else if self.warm[i as int].1 != self.target(self.warm[i as int].0, count) {
            Some(i)
        } else {
            self.misfit(count, i + 1)
        }
    }

    /// What every registry keeps: no model is warm twice, every warm model is
    /// known, and no more are warm than may be.
    pub open spec fn wf(self) -> bool {
        &&& self.warm.len() <= self.limit()
        &&& forall|i: int|
            #![trigger self.warm[i]]
            0 <= i < self.warm.len() ==> self.knows(self.warm[i].0)
        &&& forall|i: int, j: int|
            #![trigger self.warm[i], self.warm[j]]
            0 <= i < j < self.warm.len() ==> self.warm[i].0 != self.warm[j].0
    }

    pub open spec fn with_warm(self, warm: Seq<(Seq<char>, u32)>) -> RegistryView {
        RegistryView { warm, ..self }
    }
}

/// How far a warm-up has come.
#[derive(Debug, Clone, Copy, PartialEq, Eq, Structural)]
pub enum WarmStage {
    /// The cache of the warm model at this position is being resized, before
    /// another model is loaded.
    Shrinking(usize),
    Loading,
    /// Loading again with nothing else warm.
    Reloading,
    /// The cache of the warm model at this position is being resized, after
    /// the model was loaded.
    Growing(usize),
    Ended,
}

/// A warm-up under way.
#[derive(Debug)]
pub struct WarmUp {
    pub name: String,
    pub stage: WarmStage,
}

/// What a warm-up needs next.
#[derive(Debug)]
pub enum WarmStep {
    /// The model is warm and at the front.
    Ready,
    /// There is no such model.
    Unknown,
    /// Resize the cache of a warm model.
    Resize { model: String, slots: u32 },
    /// Load the model with this many slots per layer.
    Load { slots: u32 },
    /// Likely VRAM pressure: drop everything warm and load the model alone.
    Reload { slots: u32 },
    /// The last thing asked for failed, and with it the warm-up.
    Failed,
}

/// What a warm-up needs next, mathematically.
pub enum WarmStepView {
    Ready,
    Unknown,
    Resize { model: Seq<char>, slots: u32 },
    Load { slots: u32 },
    Reload { slots: u32 },
    Failed,
}

impl WarmStep {
    pub open spec fn view(self) -> WarmStepView {
        match self {
            WarmStep::Ready => WarmStepView::Ready,
            WarmStep::Unknown => WarmStepView::Unknown,
            WarmStep::Resize { model, slots } => WarmStepView::Resize { model: model@, slots },
            WarmStep::Load { slots } => WarmStepView::Load { slots },
            WarmStep::Reload { slots } => WarmStepView::Reload { slots },
            WarmStep::Failed => WarmStepView::Failed,
        }
    }
}

/// Shrinks residents, from position `i` on, before another mouth is fed; then
/// loads it.
pub open spec fn shrink_from(v: RegistryView, name: Seq<char>, i: nat) -> (WarmStage, WarmStepView) {
    let count = v.warm.len() + 1;
    match v.misfit(count, i) {
        Some(k) => (
            WarmStage::Shrinking(k as usize),
            WarmStepView::Resize {
                model: v.warm[k as int].0,
                slots: v.target(v.warm[k as int].0, count),
            },
        ),
        None => (WarmStage::Loading, WarmStepView::Load { slots: v.target(name, count) }),
    }
}

/// Resizes every warm model, from position `i` on, to its size for those that
/// are warm now.
pub open spec fn grow_from(v: RegistryView, i: nat) -> (WarmStage, WarmStepView) {
    match v.misfit(v.warm.len(), i) {
        Some(k) => (
            WarmStage::Growing(k as usize),
            WarmStepView::Resize {
                model: v.warm[k as int].0,
                slots: v.target(v.warm[k as int].0, v.warm.len()),
            },
        ),
        None => (WarmStage::Ended, WarmStepView::Ready),
    }
}

/// The registry with the model loaded, at the front.
pub open spec fn with_loaded(v: RegistryView, name: Seq<char>, slots: u32) -> RegistryView {
    v.with_warm(seq![(name, slots)] + v.warm)
}

/// The registry with the cache of the warm model at `i` resized.
pub open spec fn with_resized(v: RegistryView, i: int, slots: u32) -> RegistryView {
    v.with_warm(v.warm.update(i, (v.warm[i].0, slots)))
}

/// How a warm-up goes on when what it asked for has been done and the engine
/// has `slots` slots per layer, or has failed.
pub open spec fn resumed(
    v: RegistryView,
    name: Seq<char>,
    stage: WarmStage,
    slots: Option<u32>,
) -> (RegistryView, WarmStage, WarmStepView) {
    match (stage, slots) {
        (WarmStage::Shrinking(i), Some(n)) => {
            let w = with_resized(v, i as int, n);
            let (s, step) = shrink_from(w, name, (i + 1) as nat);
            (w, s, step)
        },
        (WarmStage::Growing(i), Some(n)) => {
            let w = with_resized(v, i as int, n);
            let (s, step) = grow_from(w, (i + 1) as nat);
            (w, s, step)
        },
        (WarmStage::Loading, Some(n)) | (WarmStage::Reloading, Some(n)) => {
            let w = with_loaded(v, name, n);
            let (s, step) = grow_from(w, 0);
            (w, s, step)
        },
        (WarmStage::Loading, None) => if v.warm.len() == 0 {
            (v, WarmStage::Ended, WarmStepView::Failed)
        } else {
            (
                v.with_warm(Seq::empty()),
                WarmStage::Reloading,
                WarmStepView::Reload { slots: v.target(name, 1) },
            )
        },
        _ => (v, WarmStage::Ended, WarmStepView::Failed),
    }
}

/// The registry is as the warm-up left it.
pub open spec fn awaits(v: RegistryView, name: Seq<char>, stage: WarmStage) -> bool {
    match stage {
        WarmStage::Shrinking(i) => i < v.warm.len() && v.warm.len() < v.limit() && v.knows(name)
            && !v.is_warm(name),
        WarmStage::Loading => v.warm.len() < v.limit() && v.knows(name) && !v.is_warm(name),
        WarmStage::Reloading => v.warm.len() == 0 && v.knows(name),
        WarmStage::Growing(i) => i < v.warm.len() && v.warm[0].0 == name,
        WarmStage::Ended => true,
    }
}

/// The models that are evicted to make room for another: the least recently
/// used, in that order.
pub open spec fn evicted_by(v: RegistryView) -> Seq<Seq<char>> {
    let keep = v.limit() - 1;
    Seq::new(
        (if v.warm.len() > keep { v.warm.len() - keep } else { 0 }) as nat,
        |i: int| v.warm[v.warm.len() - 1 - i].0,
    )
}

/// The registry when they are gone.
pub open spec fn with_room(v: RegistryView) -> RegistryView {
    let keep = v.limit() - 1;
    if v.warm.len() > keep {
        v.with_warm(v.warm.take(keep))
    } else {
        v
    }
}

/// The registry with the warm model at `i` moved to the front.
pub open spec fn with_front(v: RegistryView, i: int) -> RegistryView {
    v.with_warm(seq![v.warm[i]] + v.warm.remove(i))
}

/// The slots that a request for `target` slots asks of the warm model at `i`.
pub open spec fn asked_slots(v: RegistryView, i: int, target: Option<u32>) -> u32 {
    match target {
        Some(t) => t,
        None => v.target(v.warm[i].0, 1),
    }
}

pub open spec fn texts(names: Seq<String>) -> Seq<Seq<char>> {
    Seq::new(names.len(), |i: int| names[i]@)
}

pub proof fn lemma_warm_index(warm: Seq<(Seq<char>, u32)>, name: Seq<char>, i: nat)
    ensures
        match warm_index(warm, name, i) {
            Some(k) => {
                &&& i <= k < warm.len()
                &&& warm[k as int].0 == name
                &&& forall|j: int| i <= j < k ==> (#[trigger] warm[j]).0 != name
            },
            None => forall|j: int| i <= j < warm.len() ==> (#[trigger] warm[j]).0 != name,
        },
    decreases warm.len() - i,
{
    if i < warm.len() && warm[i as int].0 != name {
        lemma_warm_index(warm, name, i + 1);
    }
}

pub proof fn lemma_spec_index(specs: Seq<ModelSpec>, name: Seq<char>, i: nat)
    ensures
        spec_index(specs, name, i) matches Some(k) ==> i <= k < specs.len()
            && specs[k as int].name@ == name,
    decreases specs.len() - i,
{
    if i < specs.len() && specs[i as int].name@ != name {
        lemma_spec_index(specs, name, i + 1);
    }
}

pub proof fn lemma_misfit(v: RegistryView, count: nat, i: nat)
    ensures
        match v.misfit(count, i) {
            Some(k) => {
                &&& i <= k < v.warm.len()
                &&& v.warm[k as int].1 != v.target(v.warm[k as int].0, count)
                &&& forall|j: int|
                    i <= j < k ==> (#[trigger] v.warm[j]).1 == v.target(v.warm[j].0, count)
            },
            None => forall|j: int|
                i <= j < v.warm.len() ==> (#[trigger] v.warm[j]).1 == v.target(
                    v.warm[j].0,
                    count,
                ),
        },
    decreases v.warm.len() - i,
{
    if i < v.warm.len() && v.warm[i as int].1 == v.target(v.warm[i as int].0, count) {
        lemma_misfit(v, count, i + 1);
    }
}

impl Registry {
    pub closed spec fn view(self) -> RegistryView {
        RegistryView {
            specs: self.specs@,
            max_warm: self.max_warm as nat,
            warm: Seq::new(
                self.warm@.len(),
                |i: int| (self.warm@[i].name@, self.warm@[i].cur_slots),
            ),
        }
    }

    pub open spec fn wf(self) -> bool {
        self@.wf()
    }

    /// A registry with nothing warm.
    pub fn new(specs: Vec<ModelSpec>, max_warm: usize) -> (r: Self)
        ensures
            r.wf(),
            r@.specs == specs@,
            r@.max_warm == max_warm,
            r@.warm.len() == 0,
    {
        Registry { specs, max_warm, warm: Vec::new() }
    }

    /// The model called `name`.
    pub fn spec(&self, name: &str) -> (spec: Option<&ModelSpec>)
        ensures
            match (spec, spec_index(self@.specs, name@, 0)) {
                (Some(s), Some(i)) => *s == self@.specs[i as int],
                (None, None) => true,
                _ => false,
            },
    {
        let mut i: usize = 0;
        while i < self.specs.len()
            invariant
                i <= self.specs@.len(),
                spec_index(self@.specs, name@, 0) == spec_index(self@.specs, name@, i as nat),
            decreases self.specs@.len() - i,
        {
            if same_text(self.specs[i].name.as_str(), name) {
                return Some(&self.specs[i]);
            }
            i += 1;
        }
        None
    }

    /// All models, in the order of the config.
    pub fn specs(&self) -> (specs: &Vec<ModelSpec>)
        ensures
            specs@ == self@.specs,
    {
        &self.specs
    }

    /// How many models are warm.
    pub fn warm_count(&self) -> (n: usize)
        ensures
            n == self@.warm.len(),
    {
        self.warm.len()
    }

    /// Name and slots per layer of warm model `i`, most recently used first.
    pub fn warm_at(&self, i: usize) -> (w: (&str, u32))
        requires
            i < self@.warm.len(),
        ensures
            (w.0@, w.1) == self@.warm[i as int],
    {
        let w: &Warm = &self.warm[i];
        (w.name.as_str(), w.cur_slots)
    }

    /// Position of the warm model called `name`.
    pub fn warm_position(&self, name: &str) -> (at: Option<usize>)
        ensures
            match at {
                Some(i) => warm_index(self@.warm, name@, 0) == Some(i as nat) && i
                    < self@.warm.len() && self@.warm[i as int].0 == name@,
                None => !self@.is_warm(name@),
            },
    {
        let mut i: usize = 0;
        while i < self.warm.len()
            invariant
                i <= self.warm@.len(),
                warm_index(self@.warm, name@, 0) == warm_index(self@.warm, name@, i as nat),
            decreases self.warm@.len() - i,
        {
            assert(self@.warm[i as int].0 == self.warm@[i as int].name@);
            if same_text(self.warm[i].name.as_str(), name) {
                return Some(i);
            }
            i += 1;
        }
        None
    }

    fn target(&self, name: &str, count: usize) -> (slots: u32)
        requires
            self@.knows(name@),
        ensures
            slots == self@.target(name@, count as nat),
    {
        match self.spec(name) {
            Some(spec) => if count <= 1 {
                spec.slots_solo
            } else {
                spec.slots
            },
            None => 0,
        }
    }

    fn misfit(&self, count: usize, from: usize) -> (at: Option<usize>)
        requires
            self.wf(),
        ensures
            match at {
                Some(i) => self@.misfit(count as nat, from as nat) == Some(i as nat) && i
                    < self@.warm.len(),
                None => self@.misfit(count as nat, from as nat) is None,
            },
    {
        let mut i: usize = from;
        while i < self.warm.len()
            invariant
                from <= i,
                i <= self.warm@.len() || i == from,
                self.wf(),
                self@.misfit(count as nat, from as nat) == self@.misfit(count as nat, i as nat),
            decreases self.warm@.len() - i,
        {
            assert(self@.warm[i as int] == (
                self.warm@[i as int].name@,
                self.warm@[i as int].cur_slots,
            ));
            assert(self@.knows(self@.warm[i as int].0));
            if self.warm[i].cur_slots != self.target(self.warm[i].name.as_str(), count) {
                return Some(i);
            }
            i += 1;
        }
        None
    }

    fn shrink(&self, name: &str, from: usize) -> (r: (WarmStage, WarmStep))
        requires
            self.wf(),
            self@.knows(name@),
            self@.warm.len() < usize::MAX,
        ensures
            (r.0, r.1@) == shrink_from(self@, name@, from as nat),
    {
        let count: usize = self.warm.len() + 1;
        match self.misfit(count, from) {
            Some(i) => {
                assert(self@.warm[i as int].0 == self.warm@[i as int].name@);
                assert(self@.knows(self@.warm[i as int].0));
                let model: String = self.warm[i].name.clone();
                let slots: u32 = self.target(model.as_str(), count);
                (WarmStage::Shrinking(i), WarmStep::Resize { model, slots })
            },
            None => (WarmStage::Loading, WarmStep::Load { slots: self.target(name, count) }),
        }
    }

    fn grow(&self, from: usize) -> (r: (WarmStage, WarmStep))
        requires
            self.wf(),
        ensures
            (r.0, r.1@) == grow_from(self@, from as nat),
    {
        let count: usize = self.warm.len();
        match self.misfit(count, from) {
            Some(i) => {
                assert(self@.warm[i as int].0 == self.warm@[i as int].name@);
                assert(self@.knows(self@.warm[i as int].0));
                let model: String = self.warm[i].name.clone();
                let slots: u32 = self.target(model.as_str(), count);
                (WarmStage::Growing(i), WarmStep::Resize { model, slots })
            },
            None => (WarmStage::Ended, WarmStep::Ready),
        }
    }

    /// Starts to warm the named model. A warm one moves to the front and is
    /// ready. Else the least recently used models are evicted — drop their
    /// engines first, in the order given — and the step says what comes next.
    pub fn warm_up(&mut self, name: &str) -> (r: (Vec<String>, WarmUp, WarmStep))
        requires
            old(self).wf(),
        ensures
            final(self).wf(),
            r.1.name@ == name@,
            awaits(final(self)@, name@, r.1.stage),
            ({
                let v = old(self)@;
                match warm_index(v.warm, name@, 0) {
                    Some(i) => {
                        &&& r.0@.len() == 0
                        &&& r.1.stage == WarmStage::Ended
                        &&& r.2@ == WarmStepView::Ready
                        &&& final(self)@ == with_front(v, i as int)
                    },
                    None => if !v.knows(name@) {
                        &&& r.0@.len() == 0
                        &&& r.1.stage == WarmStage::Ended
                        &&& r.2@ == WarmStepView::Unknown
                        &&& final(self)@ == v
                    } else {
                        &&& texts(r.0@) == evicted_by(v)
                        &&& final(self)@ == with_room(v)
                        &&& (r.1.stage, r.2@) == shrink_from(with_room(v), name@, 0)
                    },
                }
            }),
    {
        let ghost v = self@;
        proof {
            lemma_warm_index(v.warm, name@, 0);
        }
        if let Some(i) = self.warm_position(name) {
            let w: Warm = self.warm.remove(i);
            self.warm.insert(0, w);
            proof {
                let after = with_front(v, i as int);
                assert(self@.warm =~= after.warm);
                assert(self@ == after);
                lemma_front_wf(v, i as int);
            }
            return (
                Vec::new(),
                WarmUp { name: name.to_owned(), stage: WarmStage::Ended },
                WarmStep::Ready,
            );
        }
        if self.spec(name).is_none() {
            return (
                Vec::new(),
                WarmUp { name: name.to_owned(), stage: WarmStage::Ended },
                WarmStep::Unknown,
            );
        }
        let limit: usize = if self.max_warm > 1 {
            self.max_warm
        } else {
            1
        };
        let mut evicted: Vec<String> = Vec::new();
        assert(self@.warm.take(self@.warm.len() as int) =~= v.warm);
        while self.warm.len() >= limit
            invariant
                limit == v.limit(),
                limit >= 1,
                self.specs@ == v.specs,
                self.max_warm == v.max_warm,
                self@.warm.len() <= v.warm.len(),
                self@.warm == v.warm.take(self@.warm.len() as int),
                evicted@.len() == v.warm.len() - self@.warm.len(),
                self@.warm.len() < v.warm.len() ==> self@.warm.len() >= limit - 1,
                forall|k: int|
                    #![trigger evicted@[k]]
                    0 <= k < evicted@.len() ==> evicted@[k]@ == v.warm[v.warm.len() - 1 - k].0,
            decreases self.warm@.len(),
        {
            let ghost n = self@.warm.len() as int;
            let ghost before = self.warm@;
            assert(self@.warm[n - 1] == v.warm[n - 1]);
            if let Some(w) = self.warm.pop() {
                evicted.push(w.name);
            }
            assert(self@.warm =~= v.warm.take(n - 1));
        }
        proof {
            assert(texts(evicted@) =~= evicted_by(v));
            let room = with_room(v);
            assert(self@.warm =~= room.warm);
            assert(self@ == room);
            assert(self@.wf()) by {
                assert forall|i: int|
                    #![trigger self@.warm[i]]
                    0 <= i < self@.warm.len() implies self@.knows(self@.warm[i].0) by {
                    assert(self@.warm[i] == v.warm[i]);
                }
                assert forall|i: int, j: int|
                    #![trigger self@.warm[i], self@.warm[j]]
                    0 <= i < j < self@.warm.len() implies self@.warm[i].0 != self@.warm[j].0 by {
                    assert(self@.warm[i] == v.warm[i] && self@.warm[j] == v.warm[j]);
                }
            }
            lemma_warm_index(self@.warm, name@, 0);
            if self@.is_warm(name@) {
                let k = warm_index(self@.warm, name@, 0)->0 as int;
                assert(self@.warm[k] == v.warm[k]);
            }
        }
        let (stage, step) = self.shrink(name, 0);
        proof {
            lemma_misfit(self@, self@.warm.len() + 1, 0);
        }
        (evicted, WarmUp { name: name.to_owned(), stage }, step)
    }

    /// Goes on with a warm-up when what it asked for has been done — `slots`
    /// says how many slots per layer the engine has now, a reserve may have
    /// clamped it below what was asked — or has failed.
    pub fn go_on(&mut self, up: &mut WarmUp, slots: Option<u32>) -> (step: WarmStep)
        requires
            old(self).wf(),
            awaits(old(self)@, old(up).name@, old(up).stage),
        ensures
            final(self).wf(),
            final(up).name@ == old(up).name@,
            awaits(final(self)@, final(up).name@, final(up).stage),
            (final(self)@, final(up).stage, step@) == resumed(
                old(self)@,
                old(up).name@,
                old(up).stage,
                slots,
            ),
    {
        let ghost v = self@;
        let ghost name = up.name@;
        proof {
            lemma_warm_index(v.warm, name, 0);
        }
        match (up.stage, slots) {
            (WarmStage::Shrinking(i), Some(n)) => {
                self.resized(i, n);
                proof {
                    lemma_misfit(self@, self@.warm.len() + 1, (i + 1) as nat);
                    lemma_warm_index(self@.warm, name, 0);
                    if self@.is_warm(name) {
                        let k = warm_index(self@.warm, name, 0)->0 as int;
                        assert(v.warm[k].0 == name);
                    }
                }
                let (stage, step) = self.shrink(up.name.as_str(), i + 1);
                up.stage = stage;
                step
            },
            (WarmStage::Growing(i), Some(n)) => {
                self.resized(i, n);
                proof {
                    lemma_misfit(self@, self@.warm.len(), (i + 1) as nat);
                }
                let (stage, step) = self.grow(i + 1);
                up.stage = stage;
                step
            },
            (WarmStage::Loading, Some(n)) => {
                self.loaded(up.name.as_str(), n);
                proof {
                    lemma_misfit(self@, self@.warm.len(), 0);
                }
                let (stage, step) = self.grow(0);
                up.stage = stage;
                step
            },
            (WarmStage::Reloading, Some(n)) => {
                self.loaded(up.name.as_str(), n);
                proof {
                    lemma_misfit(self@, self@.warm.len(), 0);
                }
                let (stage, step) = self.grow(0);
                up.stage = stage;
                step
            },
            (WarmStage::Loading, None) => {
                if self.warm.len() == 0 {
                    up.stage = WarmStage::Ended;
                    return WarmStep::Failed;
                }
                let slots: u32 = self.target(up.name.as_str(), 1);
                self.warm.clear();
                assert(self@.warm =~= Seq::empty());
                up.stage = WarmStage::Reloading;
                WarmStep::Reload { slots }
            },
            _ => {
                up.stage = WarmStage::Ended;
                WarmStep::Failed
            },
        }
    }

    fn resized(&mut self, i: usize, slots: u32)
        requires
            old(self).wf(),
            i < old(self)@.warm.len(),
        ensures
            final(self).wf(),
            final(self)@ == with_resized(old(self)@, i as int, slots),
    {
        let ghost v = self@;
        self.warm[i].cur_slots = slots;
        proof {
            let w = with_resized(v, i as int, slots);
            assert(self@.warm =~= w.warm);
            assert forall|k: int|
                #![trigger w.warm[k]]
                0 <= k < w.warm.len() implies w.knows(w.warm[k].0) by {
                assert(v.knows(v.warm[k].0));
            }
            assert forall|k: int, j: int|
                #![trigger w.warm[k], w.warm[j]]
                0 <= k < j < w.warm.len() implies w.warm[k].0 != w.warm[j].0 by {
                assert(v.warm[k].0 != v.warm[j].0);
            }
        }
    }

    fn loaded(&mut self, name: &str, slots: u32)
        requires
            old(self).wf(),
            old(self)@.warm.len() < old(self)@.limit(),
            old(self)@.knows(name@),
            !old(self)@.is_warm(name@),
        ensures
            final(self).wf(),
            final(self)@ == with_loaded(old(self)@, name@, slots),
    {
        let ghost v = self@;
        self.warm.insert(0, Warm { name: name.to_owned(), cur_slots: slots });
        proof {
            let w = with_loaded(v, name@, slots);
            assert(self@.warm =~= w.warm);
            lemma_warm_index(v.warm, name@, 0);
            assert forall|k: int|
                #![trigger w.warm[k]]
                0 <= k < w.warm.len() implies w.knows(w.warm[k].0) by {
                if k > 0 {
                    assert(w.warm[k] == v.warm[k - 1]);
                }
            }
            assert forall|k: int, j: int|
                #![trigger w.warm[k], w.warm[j]]
                0 <= k < j < w.warm.len() implies w.warm[k].0 != w.warm[j].0 by {
                assert(w.warm[j] == v.warm[j - 1]);
                if k > 0 {
                    assert(w.warm[k] == v.warm[k - 1]);
                }
            }
        }
    }

    /// Notes that an engine has been resized on request.
    pub fn note_slots(&mut self, i: usize, slots: u32)
        requires
            old(self).wf(),
            i < old(self)@.warm.len(),
        ensures
            final(self).wf(),
            final(self)@ == with_resized(old(self)@, i as int, slots),
    {
        self.resized(i, slots);
    }

    /// The slots per layer that a request for `target` slots asks of a warm
    /// model: as many as it says, else its size when alone.
    pub fn requested_slots(&self, i: usize, target: Option<u32>) -> (slots: u32)
        requires
            self.wf(),
            i < self@.warm.len(),
        ensures
            slots == asked_slots(self@, i as int, target),
    {
        assert(self@.knows(self@.warm[i as int].0));
        assert(self@.warm[i as int].0 == self.warm@[i as int].name@);
        match target {
            Some(t) => t,
            None => self.target(self.warm[i].name.as_str(), 1),
        }
    }
}

proof fn lemma_front_wf(v: RegistryView, i: int)
    requires
        v.wf(),
        0 <= i < v.warm.len(),
    ensures
        with_front(v, i).wf(),
{
    let w = with_front(v, i);
    assert forall|k: int| #![trigger w.warm[k]] 0 <= k < w.warm.len() implies w.knows(
        w.warm[k].0,
    ) by {
        let x = if k == 0 { i } else if k <= i { k - 1 } else { k };
        assert(w.warm[k] == v.warm[x]);
    }
    assert forall|k: int, j: int|
        #![trigger w.warm[k], w.warm[j]]
        0 <= k < j < w.warm.len() implies w.warm[k].0 != w.warm[j].0 by {
        let x = if k == 0 { i } else if k <= i { k - 1 } else { k };
        let y = if j <= i { j - 1 } else { j };
        assert(w.warm[k] == v.warm[x] && w.warm[j] == v.warm[y]);
        if x < y {
            assert(v.warm[x].0 != v.warm[y].0);
        } else {
            assert(v.warm[y].0 != v.warm[x].0);
        }
    }
}

/// A finished warm-up leaves the model at the front, and no more models warm
/// than may be. Where loading finished it, every warm model's cache is of its
/// size for as many models as are warm.
pub proof fn law_ready_is_at_front(
    v: RegistryView,
    name: Seq<char>,
    stage: WarmStage,
    slots: Option<u32>,
)
    requires
        v.wf(),
        awaits(v, name, stage),
        resumed(v, name, stage, slots).2 == WarmStepView::Ready,
    ensures
        resumed(v, name, stage, slots).0.warm.len() > 0,
        resumed(v, name, stage, slots).0.warm[0].0 == name,
        resumed(v, name, stage, slots).0.warm.len() <= v.limit(),
        stage == WarmStage::Loading || stage == WarmStage::Reloading ==> ({
            let w = resumed(v, name, stage, slots).0;
            forall|k: int|
                0 <= k < w.warm.len() ==> (#[trigger] w.warm[k]).1 == w.target(
                    w.warm[k].0,
                    w.warm.len(),
                )
        }),
{
    match (stage, slots) {
        (WarmStage::Loading, Some(n)) | (WarmStage::Reloading, Some(n)) => {
            let w = with_loaded(v, name, n);
            lemma_misfit(w, w.warm.len(), 0);
        },
        (WarmStage::Shrinking(i), Some(n)) => {
            lemma_misfit(with_resized(v, i as int, n), v.warm.len() + 1, (i + 1) as nat);
        },
        _ => {},
    }
}

/// Asking for a model that is warm touches no engine: the same models stay
/// warm with the same caches, and only their order changes.
pub proof fn law_warm_request_only_reorders(v: RegistryView, i: int)
    requires
        v.wf(),
        0 <= i < v.warm.len(),
    ensures
        with_front(v, i).warm.len() == v.warm.len(),
        with_front(v, i).warm[0] == v.warm[i],
        with_front(v, i).warm.to_multiset() == v.warm.to_multiset(),
{
    let w = with_front(v, i).warm;
    assert(v.warm =~= v.warm.remove(i).insert(i, v.warm[i]));
    assert(w =~= v.warm.remove(i).insert(0, v.warm[i]));
    vstd::seq_lib::to_multiset_insert(v.warm.remove(i), i, v.warm[i]);
    vstd::seq_lib::to_multiset_insert(v.warm.remove(i), 0, v.warm[i]);
}

/// Making room drops the least recently used models and keeps the others in
/// their order; afterwards there is room for one more.
pub proof fn law_eviction_is_lru(v: RegistryView)
    requires
        v.wf(),
    ensures
        with_room(v).warm.len() < v.limit(),
        with_room(v).warm == v.warm.take(with_room(v).warm.len() as int),
        evicted_by(v).len() == v.warm.len() - with_room(v).warm.len(),
{
    assert(v.warm.take(v.warm.len() as int) =~= v.warm);
}

} // verus!
