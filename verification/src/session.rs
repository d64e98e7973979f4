//! Named contexts and the sequence slots that hold their KV.
//!
//! The decoder has a number of sequence slots; slot 0 stays the anonymous
//! lane (sessionless requests decode there), so sessions occupy slots 1.. and
//! never collide with that traffic. Sessions evicted from a slot are parked in
//! host RAM, which costs a copy of a few hundred MB/s instead of seconds of
//! expert paging to re-prefill.
//!
//! The store decides; the copies between device and host are the caller's. An
//! acquisition goes in steps: where a step asks for a copy, the caller makes
//! it and hands the result to the next step. A copy that fails ends the
//! acquisition there.

use crate::st::{keyed, search, sorted_names};
use crate::checkpoint::names_it;
use crate::order::text_less;
use crate::table::{
    lemma_table_entry, lemma_table_finite, lemma_table_remove, lemma_table_update, put, table_map,
};
use vstd::prelude::*;

verus! {

/// One named context: the tokens whose KV we hold, and where that KV lives.
/// Position i of the cache holds the state for `tokens[..=i]`, so any prompt
/// sharing a prefix with `tokens` can skip prefilling that prefix.
#[derive(Debug)]
pub struct Session {
    pub tokens: Vec<u32>,
    /// Resident VRAM sequence slot, if any.
    pub slot: Option<usize>,
    /// Host-parked KV covering `tokens`; set only when `slot` is None.
    pub parked: Option<Vec<u8>>,
    pub last_used: u64,
    pub turns: u64,
}

/// A session, mathematically.
pub struct SessionView {
    pub tokens: Seq<u32>,
    pub slot: Option<usize>,
    pub parked: Option<Seq<u8>>,
    pub last_used: nat,
    pub turns: nat,
}

pub open spec fn blob_view(blob: Option<Vec<u8>>) -> Option<Seq<u8>> {
    match blob {
        Some(b) => Some(b@),
        None => None,
    }
}

impl Session {
    pub open spec fn view(self) -> SessionView {
        SessionView {
            tokens: self.tokens@,
            slot: self.slot,
            parked: blob_view(self.parked),
            last_used: self.last_used as nat,
            turns: self.turns as nat,
        }
    }
}

/// The store, mathematically: its sessions by id, for each sequence slot but
/// the first the id of the session that has it, the host budget for parked
/// contexts, and a clock.
pub struct StoreView {
    pub sessions: Map<Seq<char>, SessionView>,
    /// `owner[i]` has sequence slot `i + 1`.
    pub owner: Seq<Option<Seq<char>>>,
    pub ram_budget: nat,
    pub clock: nat,
}

/// How many tokens two lists have in common at the front.
pub open spec fn common_prefix_len(a: Seq<u32>, b: Seq<u32>) -> nat
    decreases a.len(),
{
    if a.len() == 0 || b.len() == 0 || a[0] != b[0] {
        0
    } else {
        1 + common_prefix_len(a.skip(1), b.skip(1))
    }
}

/// Both lists agree on their common prefix, and no further.
pub proof fn law_common_prefix(a: Seq<u32>, b: Seq<u32>)
    ensures
        common_prefix_len(a, b) <= a.len(),
        common_prefix_len(a, b) <= b.len(),
        a.take(common_prefix_len(a, b) as int) == b.take(common_prefix_len(a, b) as int),
        common_prefix_len(a, b) < a.len() && common_prefix_len(a, b) < b.len()
            ==> a[common_prefix_len(a, b) as int] != b[common_prefix_len(a, b) as int],
    decreases a.len(),
{
    let n = common_prefix_len(a, b);
    if a.len() == 0 || b.len() == 0 || a[0] != b[0] {
        assert(a.take(0) =~= b.take(0));
    } else {
        law_common_prefix(a.skip(1), b.skip(1));
        let m = common_prefix_len(a.skip(1), b.skip(1));
        assert(a.take(n as int) =~= seq![a[0]] + a.skip(1).take(m as int));
        assert(b.take(n as int) =~= seq![b[0]] + b.skip(1).take(m as int));
    }
}

pub fn common_prefix(a: &[u32], b: &[u32]) -> (n: usize)
    ensures
        n == common_prefix_len(a@, b@),
{
    let mut i: usize = 0;
    assert(a@.skip(0) =~= a@);
    assert(b@.skip(0) =~= b@);
    while i < a.len() && i < b.len() && a[i] == b[i]
        invariant
            i <= a@.len(),
            i <= b@.len(),
            common_prefix_len(a@, b@) == i + common_prefix_len(
                a@.skip(i as int),
                b@.skip(i as int),
            ),
        decreases a@.len() - i,
    {
        assert(a@.skip(i as int).skip(1) =~= a@.skip(i + 1));
        assert(b@.skip(i as int).skip(1) =~= b@.skip(i + 1));
        i += 1;
    }
    i
}

/// Bytes that a session has parked.
pub open spec fn parked_size(s: SessionView) -> nat {
    match s.parked {
        Some(b) => b.len(),
        None => 0,
    }
}

/// Bytes that all sessions have parked.
pub open spec fn parked_total(sessions: Map<Seq<char>, SessionView>) -> nat
    decreases sessions.dom().len(),
{
    if sessions.dom().finite() && sessions.dom().len() > 0 {
        let id = sessions.dom().choose();
        parked_size(sessions[id]) + parked_total(sessions.remove(id))
    } else {
        0
    }
}

/// The total is that of one session and that of the others.
pub proof fn lemma_total_remove(sessions: Map<Seq<char>, SessionView>, id: Seq<char>)
    requires
        sessions.dom().finite(),
        sessions.contains_key(id),
    ensures
        parked_total(sessions) == parked_size(sessions[id]) + parked_total(sessions.remove(id)),
    decreases sessions.dom().len(),
{
    let c = sessions.dom().choose();
    assert(sessions.dom().contains(c));
    if c != id {
        lemma_total_remove(sessions.remove(c), id);
        lemma_total_remove(sessions.remove(id), c);
        assert(sessions.remove(c).remove(id) =~= sessions.remove(id).remove(c));
    }
}

pub proof fn lemma_total_insert(
    sessions: Map<Seq<char>, SessionView>,
    id: Seq<char>,
    s: SessionView,
)
    requires
        sessions.dom().finite(),
    ensures
        parked_total(sessions.insert(id, s)) + (if sessions.contains_key(id) {
            parked_size(sessions[id])
        } else {
            0
        }) == parked_total(sessions) + parked_size(s),
{
    let after = sessions.insert(id, s);
    lemma_total_remove(after, id);
    if sessions.contains_key(id) {
        lemma_total_remove(sessions, id);
        assert(after.remove(id) =~= sessions.remove(id));
    } else {
        assert(after.remove(id) =~= sessions);
    }
}

/// A session whose parked context is given up: without its KV its tokens are
/// worth nothing.
pub open spec fn dropped(s: SessionView) -> SessionView {
    SessionView { parked: None, tokens: Seq::empty(), ..s }
}

/// `after` is `before` with the parked contexts that had to go dropped: least
/// recently used first, no more than needed to meet the budget.
pub open spec fn trimmed(
    before: Map<Seq<char>, SessionView>,
    after: Map<Seq<char>, SessionView>,
    budget: nat,
) -> bool {
    &&& after.dom() == before.dom()
    &&& parked_total(after) <= budget
    &&& forall|id: Seq<char>|
        #![trigger after[id]]
        before.contains_key(id) ==> after[id] == before[id] || (before[id].parked is Some
            && after[id] == dropped(before[id]))
    &&& forall|a: Seq<char>, b: Seq<char>|
        #![trigger after[a], after[b]]
        before.contains_key(a) && before.contains_key(b) && before[a].parked is Some
            && before[a].last_used < before[b].last_used && after[b] != before[b]
            ==> after[a] == dropped(before[a])
    &&& after != before ==> exists|v: Seq<char>| #[trigger] last_dropped(before, after, v, budget)
}

/// `v` was the last context dropped, and keeping it would have exceeded the
/// budget.
pub open spec fn last_dropped(
    before: Map<Seq<char>, SessionView>,
    after: Map<Seq<char>, SessionView>,
    v: Seq<char>,
    budget: nat,
) -> bool {
    &&& before.contains_key(v)
    &&& before[v].parked is Some
    &&& after[v] == dropped(before[v])
    &&& forall|b: Seq<char>|
        #![trigger after[b]]
        before.contains_key(b) && before[v].last_used < before[b].last_used ==> after[b]
            == before[b]
    &&& parked_total(after) + parked_size(before[v]) > budget
}

/// Position of the first slot that nobody has, at or behind `i`.
pub open spec fn first_free(owner: Seq<Option<Seq<char>>>, i: nat) -> Option<nat>
    decreases owner.len() - i,
{
    if i >= owner.len() {
        None
    } else if owner[i as int] is None {
        Some(i)
    } else {
        first_free(owner, i + 1)
    }
}

impl StoreView {
    /// What every store keeps: a session's slot is a slot of its own, never
    /// slot 0, and the owner list agrees; only sessions without a slot have
    /// parked KV, within the budget; no two sessions were last used at the
    /// same time.
    pub open spec fn wf(self) -> bool {
        self.wf_slots() && parked_total(self.sessions) <= self.ram_budget
    }

    /// All of that but the budget.
    pub open spec fn wf_slots(self) -> bool {
        &&& self.sessions.dom().finite()
        &&& forall|id: Seq<char>|
            #![trigger self.sessions[id]]
            self.sessions.contains_key(id) ==> {
                &&& self.sessions[id].slot matches Some(s) ==> {
                    &&& 1 <= s <= self.owner.len()
                    &&& self.owner[s - 1] == Some(id)
                    &&& self.sessions[id].parked is None
                }
                &&& self.sessions[id].last_used <= self.clock
                &&& self.sessions[id].turns <= self.clock
            }
        &&& forall|a: Seq<char>, b: Seq<char>|
            #![trigger self.sessions[a], self.sessions[b]]
            self.sessions.contains_key(a) && self.sessions.contains_key(b) && a != b
                ==> self.sessions[a].last_used != self.sessions[b].last_used
    }

    /// The session `id`, a new one where there is none.
    pub open spec fn session(self, id: Seq<char>) -> SessionView {
        if self.sessions.contains_key(id) {
            self.sessions[id]
        } else {
            SessionView {
                tokens: Seq::empty(),
                slot: None,
                parked: None,
                last_used: self.clock,
                turns: 0,
            }
        }
    }

    /// How much of `prompt` the tokens of session `id` cover. One token is
    /// always left to run: the forward pass over it is what produces the
    /// logits the first new token is sampled from.
    pub open spec fn covered(self, id: Seq<char>, prompt: Seq<u32>) -> nat {
        let n = common_prefix_len(self.session(id).tokens, prompt);
        let most = (if prompt.len() == 0 { 0 } else { prompt.len() - 1 }) as nat;
        if n <= most {
            n
        } else {
            most
        }
    }

    /// The store with session `id` replaced.
    pub open spec fn with(self, id: Seq<char>, s: SessionView) -> StoreView {
        StoreView { sessions: self.sessions.insert(id, s), ..self }
    }

    /// The store with slot `i + 1` given to `owner`.
    pub open spec fn owned(self, i: int, owner: Option<Seq<char>>) -> StoreView {
        StoreView { owner: self.owner.update(i, owner), ..self }
    }

    /// The store when session `id` has been looked up: it is the last used,
    /// and what it had parked is taken out.
    pub open spec fn opened(self, id: Seq<char>) -> StoreView {
        let s = self.session(id);
        StoreView {
            sessions: self.sessions.insert(
                id,
                SessionView {
                    last_used: self.clock + 1,
                    parked: if s.slot is None {
                        None
                    } else {
                        s.parked
                    },
                    ..s
                },
            ),
            clock: self.clock + 1,
            ..self
        }
    }

    /// When the owner of slot `i + 1` was last used; 0 for an owner that is
    /// gone.
    pub open spec fn owner_age(self, i: int) -> nat {
        match self.owner[i] {
            Some(id) => if self.sessions.contains_key(id) {
                self.sessions[id].last_used
            } else {
                0
            },
            None => 0,
        }
    }

    /// The owner of slot `i + 1` is the first of the least recently used.
    pub open spec fn oldest_owner(self, i: int) -> bool {
        &&& 0 <= i < self.owner.len()
        &&& forall|k: int|
            0 <= k < self.owner.len() ==> self.owner_age(i) < #[trigger] self.owner_age(k) || (
            self.owner_age(i) == self.owner_age(k) && i <= k)
    }

    /// The store when `victim` has left its slot, with `blob` parked.
    pub open spec fn evicted(self, victim: Seq<char>, slot: usize, blob: Option<Seq<u8>>) -> StoreView {
        let s = self.sessions[victim];
        StoreView {
            sessions: self.sessions.insert(victim, SessionView { parked: blob, slot: None, ..s }),
            owner: self.owner.update(slot - 1, None),
            ..self
        }
    }

    /// The store when session `id` has `slot` and the first `reuse` of its
    /// tokens still count.
    pub open spec fn resident(self, id: Seq<char>, slot: usize, reuse: nat) -> StoreView {
        let s = self.sessions[id];
        self.with(
            id,
            SessionView { slot: Some(slot), tokens: s.tokens.take(reuse as int), ..s },
        )
    }
}

/// Per-model session store.
#[derive(Debug)]
pub struct SessionStore {
    sessions: Vec<(String, Session)>,
    /// owner[i] holds the session using sequence slot i + 1.
    owner: Vec<Option<String>>,
    ram_budget: usize,
    clock: u64,
}

/// The sessions of a table.
pub open spec fn session_map(table: Seq<(String, Session)>) -> Map<Seq<char>, SessionView> {
    table_map(table).map_values(|s: Session| s@)
}

pub open spec fn owner_view(owner: Seq<Option<String>>) -> Seq<Option<Seq<char>>> {
    Seq::new(
        owner.len(),
        |i: int|
            match owner[i] {
                Some(id) => Some(id@),
                None => None,
            },
    )
}

spec fn table_sum(table: Seq<(String, Session)>, n: nat) -> nat
    decreases n,
{
    if n == 0 {
        0
    } else {
        table_sum(table, (n - 1) as nat) + parked_size(table[n - 1].1@)
    }
}

proof fn lemma_table_sum(table: Seq<(String, Session)>, n: nat)
    requires
        n <= table.len(),
        sorted_names(keyed(table)),
    ensures
        table_sum(table, n) == parked_total(session_map(table.take(n as int))),
        sorted_names(keyed(table.take(n as int))),
        session_map(table.take(n as int)).dom().finite(),
    decreases n,
{
    let t = table.take(n as int);
    assert forall|x: int, y: int|
        #![trigger keyed(t)[x], keyed(t)[y]]
        0 <= x < y < t.len() implies text_less(keyed(t)[x].0, keyed(t)[y].0) by {
        assert(text_less(keyed(table)[x].0, keyed(table)[y].0));
    }
    lemma_table_finite(t);
    assert(session_map(t).dom() =~= table_map(t).dom());
    if n > 0 {
        let m = (n - 1) as nat;
        lemma_table_sum(table, m);
        lemma_table_remove(t, m as int);
        assert(t.remove(m as int) =~= table.take(m as int));
        lemma_table_entry(t, m as int);
        let id = t[m as int].0@;
        lemma_total_remove(session_map(t), id);
        assert(session_map(t).remove(id) =~= session_map(table.take(m as int)));
    } else {
        assert(t.len() == 0);
        assert(session_map(t).dom() =~= Set::<Seq<char>>::empty());
    }
}

spec fn parked_count(table: Seq<(String, Session)>, n: nat) -> nat
    decreases n,
{
    if n == 0 {
        0
    } else {
        parked_count(table, (n - 1) as nat) + (if table[n - 1].1.parked is Some {
            1nat
        } else {
            0nat
        })
    }
}

proof fn lemma_parked_count(
    before: Seq<(String, Session)>,
    after: Seq<(String, Session)>,
    at: int,
    n: nat,
)
    requires
        n <= before.len(),
        0 <= at < before.len(),
        after == before.update(at, after[at]),
        before[at].1.parked is Some,
        after[at].1.parked is None,
    ensures
        parked_count(after, n) + (if at < n { 1nat } else { 0nat }) == parked_count(before, n),
    decreases n,
{
    if n > 0 {
        lemma_parked_count(before, after, at, (n - 1) as nat);
    }
}

proof fn lemma_nothing_parked(table: Seq<(String, Session)>, n: nat)
    requires
        n <= table.len(),
        forall|i: int| 0 <= i < n ==> (#[trigger] table[i]).1.parked is None,
    ensures
        table_sum(table, n) == 0,
    decreases n,
{
    if n > 0 {
        lemma_nothing_parked(table, (n - 1) as nat);
    }
}

impl SessionStore {
    pub closed spec fn view(self) -> StoreView {
        StoreView {
            sessions: session_map(self.sessions@),
            owner: owner_view(self.owner@),
            ram_budget: self.ram_budget as nat,
            clock: self.clock as nat,
        }
    }

    pub closed spec fn wf(self) -> bool {
        sorted_names(keyed(self.sessions@)) && self@.wf()
    }

    pub proof fn lemma_wf(self)
        requires
            self.wf(),
        ensures
            self@.wf(),
    {
    }

    /// A store for a decoder with `batch_cap` sequence slots.
    pub fn new(batch_cap: usize, ram_budget: usize) -> (store: Self)
        ensures
            store.wf(),
            store@.sessions == Map::<Seq<char>, SessionView>::empty(),
            store@.owner == Seq::new(
                (if batch_cap == 0 { 0 } else { batch_cap - 1 }) as nat,
                |i: int| None::<Seq<char>>,
            ),
            store@.ram_budget == ram_budget,
            store@.clock == 0,
    {
        let n: usize = batch_cap.saturating_sub(1);
        let mut owner: Vec<Option<String>> = Vec::new();
        let mut i: usize = 0;
        while i < n
            invariant
                i <= n,
                owner@.len() == i,
                forall|k: int| 0 <= k < i ==> #[trigger] owner@[k] is None,
            decreases n - i,
        {
            owner.push(None);
            i += 1;
        }
        let store = SessionStore { sessions: Vec::new(), owner, ram_budget, clock: 0 };
        proof {
            assert(store@.sessions =~= Map::<Seq<char>, SessionView>::empty());
            assert(store@.owner =~= Seq::new(n as nat, |i: int| None::<Seq<char>>));
        }
        store
    }

    fn table_bytes(&self) -> (n: u128)
        requires
            sorted_names(keyed(self.sessions@)),
        ensures
            n == parked_total(self@.sessions),
    {
        let mut n: u128 = 0;
        let mut i: usize = 0;
        while i < self.sessions.len()
            invariant
                i <= self.sessions@.len(),
                n == table_sum(self.sessions@, i as nat),
                n <= i * 0xffff_ffff_ffff_ffff,
            decreases self.sessions@.len() - i,
        {
            let b: usize = match &self.sessions[i].1.parked {
                Some(b) => b.len(),
                None => 0,
            };
            n = n + b as u128;
            i += 1;
        }
        proof {
            lemma_table_sum(self.sessions@, self.sessions@.len());
            assert(self.sessions@.take(i as int) =~= self.sessions@);
        }
        n
    }

    /// Whether the clock can go on.
    pub fn can_tick(&self) -> (yes: bool)
        ensures
            yes == (self@.clock < u64::MAX),
    {
        self.clock < u64::MAX
    }

    /// Host bytes that parked contexts take.
    pub fn parked_bytes(&self) -> (n: usize)
        requires
            self.wf(),
        ensures
            n == parked_total(self@.sessions),
    {
        self.table_bytes() as usize
    }

    /// The parked session that was used least recently.
    fn oldest_parked(&self) -> (at: Option<usize>)
        ensures
            match at {
                Some(i) => {
                    &&& i < self.sessions@.len()
                    &&& self.sessions@[i as int].1.parked is Some
                    &&& forall|k: int|
                        #![trigger self.sessions@[k]]
                        0 <= k < self.sessions@.len() && self.sessions@[k].1.parked is Some
                            ==> self.sessions@[i as int].1.last_used
                            <= self.sessions@[k].1.last_used
                },
                None => forall|k: int|
                    #![trigger self.sessions@[k]]
                    0 <= k < self.sessions@.len() ==> self.sessions@[k].1.parked is None,
            },
    {
        let mut at: Option<usize> = None;
        let mut i: usize = 0;
        while i < self.sessions.len()
            invariant
                i <= self.sessions@.len(),
                match at {
                    Some(b) => {
                        &&& b < i
                        &&& self.sessions@[b as int].1.parked is Some
                        &&& forall|k: int|
                            #![trigger self.sessions@[k]]
                            0 <= k < i && self.sessions@[k].1.parked is Some
                                ==> self.sessions@[b as int].1.last_used
                                <= self.sessions@[k].1.last_used
                    },
                    None => forall|k: int|
                        #![trigger self.sessions@[k]]
                        0 <= k < i ==> self.sessions@[k].1.parked is None,
                },
            decreases self.sessions@.len() - i,
        {
            if self.sessions[i].1.parked.is_some() {
                at = match at {
                    Some(b) => if self.sessions[i].1.last_used < self.sessions[b].1.last_used {
                        Some(i)
                    } else {
                        Some(b)
                    },
                    None => Some(i),
                };
            }
            i += 1;
        }
        at
    }

    /// Drop parked contexts, least recently used first, until the host
    /// budget is met. A dropped context loses its KV, so its token list
    /// goes too — otherwise we would claim reuse we cannot honour.
    fn enforce_budget(&mut self)
        requires
            sorted_names(keyed(old(self).sessions@)),
            old(self)@.wf_slots(),
        ensures
            final(self).wf(),
            trimmed(old(self)@.sessions, final(self)@.sessions, old(self)@.ram_budget),
            final(self)@.owner == old(self)@.owner,
            final(self)@.ram_budget == old(self)@.ram_budget,
            final(self)@.clock == old(self)@.clock,
    {
        let ghost m0 = self@.sessions;
        let ghost budget = self@.ram_budget;
        let ghost mut last: Seq<char> = Seq::empty();
        proof {
            lemma_table_finite(self.sessions@);
            assert(m0.dom() =~= table_map(self.sessions@).dom());
        }
        while self.table_bytes() > self.ram_budget as u128
            invariant
                sorted_names(keyed(self.sessions@)),
                self.owner == old(self).owner,
                self.ram_budget == old(self).ram_budget,
                self.clock == old(self).clock,
                m0 == old(self)@.sessions,
                budget == self.ram_budget,
                m0.dom().finite(),
                old(self)@.wf_slots(),
                self@.sessions.dom() == m0.dom(),
                forall|id: Seq<char>|
                    #![trigger self@.sessions[id]]
                    m0.contains_key(id) ==> self@.sessions[id] == m0[id] || (m0[id].parked is Some
                        && self@.sessions[id] == dropped(m0[id])),
                forall|a: Seq<char>, b: Seq<char>|
                    #![trigger self@.sessions[a], self@.sessions[b]]
                    m0.contains_key(a) && m0.contains_key(b) && m0[a].parked is Some
                        && m0[a].last_used < m0[b].last_used && self@.sessions[b] != m0[b]
                        ==> self@.sessions[a] == dropped(m0[a]),
                self@.sessions != m0 ==> last_dropped(m0, self@.sessions, last, budget),
            decreases parked_count(self.sessions@, self.sessions@.len()),
        {
            let ghost before = self.sessions@;
            let ghost m1 = self@.sessions;
            let i: usize = match self.oldest_parked() {
                Some(i) => i,
                None => {
                    proof {
                        lemma_nothing_parked(before, before.len());
                        lemma_table_sum(before, before.len());
                        assert(before.take(before.len() as int) =~= before);
                        assert(false);
                    }
                    0
                },
            };
            self.sessions[i].1.parked = None;
            self.sessions[i].1.tokens.clear();
            proof {
                let after = self.sessions@;
                let v = before[i as int].0@;
                assert(after =~= before.update(i as int, after[i as int]));
                lemma_table_update(before, after, i as int);
                lemma_table_entry(before, i as int);
                lemma_parked_count(before, after, i as int, before.len());
                let m2 = self@.sessions;
                assert(after[i as int].1@ == dropped(before[i as int].1@));
                assert(m2 =~= m1.insert(v, dropped(m1[v])));
                assert(m1[v] == before[i as int].1@);
                assert(m1.contains_key(v));
                assert(m1[v] == m0[v]);
                lemma_total_insert(m1, v, dropped(m1[v]));
                assert forall|a: Seq<char>| #![trigger m2[a]]
                    m0.contains_key(a) && m0[a].parked is Some && m0[a].last_used
                        < m0[v].last_used implies m2[a] == dropped(m0[a]) by {
                    if m1[a] == m0[a] {
                        assert(m1.contains_key(a));
                        let k = choose|k: int|
                            0 <= k < before.len() && (#[trigger] keyed(before)[k]).0 == a;
                        lemma_table_entry(before, k);
                        assert(before[k].1@ == m1[a]);
                    }
                }
                assert forall|b: Seq<char>| #![trigger m2[b]]
                    m0.contains_key(b) && m0[v].last_used < m0[b].last_used implies m2[b]
                    == m0[b] by {
                    if m1[b] != m0[b] {
                        assert(m1[v] == dropped(m0[v]));
                    }
                }
                last = v;
                assert(m2[v] != m0[v]);
                assert(last_dropped(m0, m2, v, budget));
                assert(m2.dom() =~= m0.dom());
                assert forall|id: Seq<char>|
                    #![trigger m2[id]]
                    m0.contains_key(id) implies m2[id] == m0[id] || (m0[id].parked is Some
                    && m2[id] == dropped(m0[id])) by {
                    assert(m1[id] == m0[id] || m1[id] == dropped(m0[id]));
                }
                assert forall|a: Seq<char>, b: Seq<char>|
                    #![trigger m2[a], m2[b]]
                    m0.contains_key(a) && m0.contains_key(b) && m0[a].parked is Some
                        && m0[a].last_used < m0[b].last_used && m2[b] != m0[b] implies m2[a]
                    == dropped(m0[a]) by {
                    if b != v {
                        assert(m1[b] != m0[b]);
                        assert(m1[a] == dropped(m0[a]));
                    }
                }
            }
        }
        proof {
            let m = self@.sessions;
            assert(trimmed(m0, m, budget));
            lemma_trimmed_wf(old(self)@, self@);
        }
    }
}

/// Dropping parked contexts keeps a store in shape.
proof fn lemma_trimmed_wf(before: StoreView, after: StoreView)
    requires
        before.wf_slots(),
        trimmed(before.sessions, after.sessions, before.ram_budget),
        after.owner == before.owner,
        after.ram_budget == before.ram_budget,
        after.clock == before.clock,
    ensures
        after.wf(),
{
    assert forall|id: Seq<char>|
        #![trigger after.sessions[id]]
        after.sessions.contains_key(id) implies {
        &&& after.sessions[id].slot matches Some(s) ==> {
            &&& 1 <= s <= after.owner.len()
            &&& after.owner[s - 1] == Some(id)
            &&& after.sessions[id].parked is None
        }
        &&& after.sessions[id].last_used <= after.clock
        &&& after.sessions[id].turns <= after.clock
    } by {
        assert(before.sessions.contains_key(id));
        assert(before.sessions[id].last_used <= before.clock);
    }
    assert forall|a: Seq<char>, b: Seq<char>|
        #![trigger after.sessions[a], after.sessions[b]]
        after.sessions.contains_key(a) && after.sessions.contains_key(b) && a
            != b implies after.sessions[a].last_used != after.sessions[b].last_used by {
        assert(before.sessions.contains_key(a) && before.sessions.contains_key(b));
        assert(before.sessions[a].last_used != before.sessions[b].last_used);
    }
}

/// An acquisition that waits for a session's KV to be copied out of its slot.
#[derive(Debug)]
pub struct Waiting {
    pub id: String,
    /// What `id` had parked.
    pub parked: Option<Vec<u8>>,
    pub reuse: usize,
    pub stored: usize,
    /// The session that gives up `slot`.
    pub victim: String,
    pub slot: usize,
}

/// An acquisition that waits for parked KV to be copied into its slot.
#[derive(Debug)]
pub struct Restoring {
    pub id: String,
    pub slot: usize,
    pub reuse: usize,
}

/// What an acquisition needs next.
#[derive(Debug)]
pub enum AcquireStep {
    /// The session has `slot`, whose first `reuse` positions hold the front
    /// of the prompt.
    Ready { slot: usize, reuse: usize },
    /// Copy the first `len` positions of `slot` to the host, then hand the
    /// copy to `exported`.
    Export { slot: usize, len: usize, wait: Waiting },
    /// Copy `blob`, which covers `len` positions, into `slot`, then call
    /// `imported`.
    Import { slot: usize, len: usize, blob: Vec<u8>, restore: Restoring },
    /// Sessions need at least two sequence slots.
    NoSessionSlots,
    /// The least recently used owner had no slot to give up. Comes only once a
    /// copy into a slot has failed (`residency`).
    NoSlotFreed,
}

/// How an acquisition ends once session `id` owns `slot` in store `v`: parked
/// KV that covers some of the prompt is copied in, else the session starts
/// afresh.
pub open spec fn settled(
    v: StoreView,
    id: Seq<char>,
    slot: usize,
    parked: Option<Seq<u8>>,
    reuse: nat,
    stored: nat,
    step: AcquireStep,
    after: StoreView,
) -> bool {
    match parked {
        Some(b) if reuse > 0 => {
            &&& after == v
            &&& step matches AcquireStep::Import { slot: s, len, blob, restore }
            &&& s == slot
            &&& len == stored
            &&& blob@ == b
            &&& restore.id@ == id
            &&& restore.slot == slot
            &&& restore.reuse == reuse
        },
        _ => {
            &&& after == v.resident(id, slot, 0)
            &&& step == (AcquireStep::Ready { slot, reuse: 0 })
        },
    }
}

/// How an acquisition goes on once `victim` has left `slot` with `blob`
/// parked: contexts beyond the budget are dropped, and `id` owns the slot.
pub open spec fn took_over(
    v: StoreView,
    victim: Seq<char>,
    slot: usize,
    blob: Option<Seq<u8>>,
    id: Seq<char>,
    parked: Option<Seq<u8>>,
    reuse: nat,
    stored: nat,
    step: AcquireStep,
    after: StoreView,
) -> bool {
    exists|sessions: Map<Seq<char>, SessionView>|
        {
            &&& #[trigger] trimmed(v.evicted(victim, slot, blob).sessions, sessions, v.ram_budget)
            &&& settled(
                (StoreView { sessions, ..v.evicted(victim, slot, blob) }).owned(
                    slot - 1,
                    Some(id),
                ),
                id,
                slot,
                parked,
                reuse,
                stored,
                step,
                after,
            )
        }
}

/// What `acquire` does to a store and answers.
pub open spec fn acquired(
    v: StoreView,
    id: Seq<char>,
    prompt: Seq<u32>,
    step: AcquireStep,
    after: StoreView,
) -> bool {
    let s = v.session(id);
    let reuse = v.covered(id, prompt);
    let stored = s.tokens.len();
    let w = v.opened(id);
    if v.owner.len() == 0 {
        step == AcquireStep::NoSessionSlots && after == v
    } else {
        match s.slot {
            Some(slot) => {
                &&& step == (AcquireStep::Ready { slot, reuse: reuse as usize })
                &&& after == w.resident(id, slot, reuse)
            },
            None => match first_free(w.owner, 0) {
                Some(i) => settled(
                    w.owned(i as int, Some(id)),
                    id,
                    (i + 1) as usize,
                    s.parked,
                    reuse,
                    stored,
                    step,
                    after,
                ),
                None => exists|j: int| #[trigger]
                    w.oldest_owner(j) && displaced(w, j, id, s.parked, reuse, stored, step, after),
            },
        }
    }
}

/// What an acquisition does when every slot is taken and the owner of slot
/// `j + 1` is the least recently used.
pub open spec fn displaced(
    w: StoreView,
    j: int,
    id: Seq<char>,
    parked: Option<Seq<u8>>,
    reuse: nat,
    stored: nat,
    step: AcquireStep,
    after: StoreView,
) -> bool {
    let victim = w.owner[j]->0;
    if !w.sessions.contains_key(victim) || w.sessions[victim].slot is None {
        step == AcquireStep::NoSlotFreed && after == w
    } else {
        let slot = w.sessions[victim].slot->0;
        let len = w.sessions[victim].tokens.len();
        if len > 0 {
            &&& after == w
            &&& step matches AcquireStep::Export { slot: s, len: n, wait }
            &&& s == slot
            &&& n == len
            &&& wait.slot == slot
            &&& wait.victim@ == victim
            &&& wait.id@ == id
            &&& blob_view(wait.parked) == parked
            &&& wait.reuse == reuse
            &&& wait.stored == stored
            &&& w.awaits_export(wait)
        } else {
            took_over(w, victim, slot, None, id, parked, reuse, stored, step, after)
        }
    }
}

impl StoreView {
    /// The store is as the acquisition `wait` left it when it asked for a copy
    /// out of a slot.
    pub open spec fn awaits_export(self, wait: Waiting) -> bool {
        &&& first_free(self.owner, 0) is None
        &&& self.sessions.contains_key(wait.victim@)
        &&& self.sessions[wait.victim@].slot == Some(wait.slot)
        &&& self.sessions.contains_key(wait.id@)
        &&& self.sessions[wait.id@].slot is None
        &&& self.sessions[wait.id@].parked is None
        &&& wait.reuse <= self.sessions[wait.id@].tokens.len()
    }

    /// The store is as the acquisition `restore` left it when it asked for a copy
    /// into a slot.
    pub open spec fn awaits_import(self, restore: Restoring) -> bool {
        &&& 1 <= restore.slot <= self.owner.len()
        &&& self.owner[restore.slot - 1] == Some(restore.id@)
        &&& self.sessions.contains_key(restore.id@)
        &&& self.sessions[restore.id@].slot is None
        &&& self.sessions[restore.id@].parked is None
        &&& restore.reuse <= self.sessions[restore.id@].tokens.len()
    }
}

pub proof fn lemma_opened_wf(v: StoreView, id: Seq<char>)
    requires
        v.wf(),
    ensures
        v.opened(id).wf(),
{
    let w = v.opened(id);
    lemma_total_insert(v.sessions, id, w.sessions[id]);
    assert forall|k: Seq<char>| #![trigger w.sessions[k]] w.sessions.contains_key(k) implies {
        &&& w.sessions[k].slot matches Some(s) ==> {
            &&& 1 <= s <= w.owner.len()
            &&& w.owner[s - 1] == Some(k)
            &&& w.sessions[k].parked is None
        }
        &&& w.sessions[k].last_used <= w.clock
        &&& w.sessions[k].turns <= w.clock
    } by {
        if v.sessions.contains_key(k) {
            assert(v.sessions[k].last_used <= v.clock);
        }
    }
    assert forall|a: Seq<char>, b: Seq<char>|
        #![trigger w.sessions[a], w.sessions[b]]
        w.sessions.contains_key(a) && w.sessions.contains_key(b) && a != b implies w.sessions[a].last_used
        != w.sessions[b].last_used by {
        if a != id {
            assert(v.sessions[a].last_used <= v.clock);
        }
        if b != id {
            assert(v.sessions[b].last_used <= v.clock);
        }
        if a != id && b != id {
            assert(v.sessions[a].last_used != v.sessions[b].last_used);
        }
    }
}

/// Giving a slot that no session has to anyone keeps the store in shape.
proof fn lemma_owned_wf(v: StoreView, i: int, owner: Option<Seq<char>>)
    requires
        v.wf_slots(),
        0 <= i < v.owner.len(),
        forall|k: Seq<char>|
            #![trigger v.sessions[k]]
            v.sessions.contains_key(k) ==> v.sessions[k].slot != Some((i + 1) as usize),
        i < usize::MAX,
    ensures
        v.owned(i, owner).wf_slots(),
        parked_total(v.sessions) <= v.ram_budget ==> v.owned(i, owner).wf(),
{
    let w = v.owned(i, owner);
    assert forall|k: Seq<char>| #![trigger w.sessions[k]] w.sessions.contains_key(k) implies {
        &&& w.sessions[k].slot matches Some(s) ==> {
            &&& 1 <= s <= w.owner.len()
            &&& w.owner[s - 1] == Some(k)
            &&& w.sessions[k].parked is None
        }
        &&& w.sessions[k].last_used <= w.clock
        &&& w.sessions[k].turns <= w.clock
    } by {
        assert(v.sessions.contains_key(k));
        assert(v.sessions[k].slot != Some((i + 1) as usize));
    }
    assert forall|a: Seq<char>, b: Seq<char>|
        #![trigger w.sessions[a], w.sessions[b]]
        w.sessions.contains_key(a) && w.sessions.contains_key(b) && a != b implies w.sessions[a].last_used
        != w.sessions[b].last_used by {
        assert(v.sessions[a].last_used != v.sessions[b].last_used);
    }
}

/// Replacing a session by one as old keeps the store in shape, where its slot
/// is its own.
proof fn lemma_with_wf(v: StoreView, id: Seq<char>, s: SessionView)
    requires
        v.wf_slots(),
        v.sessions.contains_key(id),
        s.last_used == v.sessions[id].last_used,
        s.turns == v.sessions[id].turns,
        s.slot matches Some(n) ==> 1 <= n <= v.owner.len() && v.owner[n - 1] == Some(id)
            && s.parked is None,
    ensures
        v.with(id, s).wf_slots(),
        parked_size(s) <= parked_size(v.sessions[id]) && parked_total(v.sessions) <= v.ram_budget
            ==> v.with(id, s).wf(),
{
    let w = v.with(id, s);
    lemma_total_insert(v.sessions, id, s);
    assert forall|k: Seq<char>| #![trigger w.sessions[k]] w.sessions.contains_key(k) implies {
        &&& w.sessions[k].slot matches Some(s) ==> {
            &&& 1 <= s <= w.owner.len()
            &&& w.owner[s - 1] == Some(k)
            &&& w.sessions[k].parked is None
        }
        &&& w.sessions[k].last_used <= w.clock
        &&& w.sessions[k].turns <= w.clock
    } by {
        assert(v.sessions.contains_key(k));
        assert(v.sessions[k].last_used <= v.clock);
    }
    assert forall|a: Seq<char>, b: Seq<char>|
        #![trigger w.sessions[a], w.sessions[b]]
        w.sessions.contains_key(a) && w.sessions.contains_key(b) && a != b implies w.sessions[a].last_used
        != w.sessions[b].last_used by {
        assert(v.sessions[a].last_used != v.sessions[b].last_used);
    }
}

proof fn lemma_evicted_wf(v: StoreView, victim: Seq<char>, slot: usize, blob: Option<Seq<u8>>)
    requires
        v.wf(),
        v.sessions.contains_key(victim),
        v.sessions[victim].slot == Some(slot),
    ensures
        v.evicted(victim, slot, blob).wf_slots(),
        forall|k: Seq<char>|
            #![trigger v.evicted(victim, slot, blob).sessions[k]]
            v.evicted(victim, slot, blob).sessions.contains_key(k) ==> v.evicted(
                victim,
                slot,
                blob,
            ).sessions[k].slot != Some(slot),
{
    let s = SessionView { parked: blob, slot: None, ..v.sessions[victim] };
    let w = v.with(victim, s);
    lemma_with_wf(v, victim, s);
    assert forall|k: Seq<char>|
        #![trigger w.sessions[k]]
        w.sessions.contains_key(k) implies w.sessions[k].slot != Some(slot) by {
        if k != victim {
            assert(v.sessions.contains_key(k));
            assert(v.owner[slot - 1] == Some(victim));
            assert(v.sessions[k].slot matches Some(n) ==> v.owner[n - 1] == Some(k));
        }
    }
    lemma_owned_wf(w, slot - 1, None);
    assert(w.owned(slot - 1, None) == v.evicted(victim, slot, blob));
}

/// A slot that nobody owns is no session's slot.
proof fn lemma_free_slot(v: StoreView, i: int)
    requires
        v.wf_slots(),
        0 <= i < v.owner.len(),
        v.owner[i] is None,
        i < usize::MAX,
    ensures
        forall|k: Seq<char>|
            #![trigger v.sessions[k]]
            v.sessions.contains_key(k) ==> v.sessions[k].slot != Some((i + 1) as usize),
{
}

proof fn lemma_first_free(owner: Seq<Option<Seq<char>>>, i: nat, at: nat)
    requires
        i <= at < owner.len(),
        owner[at as int] is None,
        forall|k: int| i <= k < at ==> #[trigger] owner[k] is Some,
    ensures
        first_free(owner, i) == Some(at),
    decreases at - i,
{
    if i < at {
        lemma_first_free(owner, i + 1, at);
    }
}

proof fn lemma_none_free(owner: Seq<Option<Seq<char>>>, i: nat)
    ensures
        first_free(owner, i) is None <==> forall|k: int|
            i <= k < owner.len() ==> #[trigger] owner[k] is Some,
    decreases owner.len() - i,
{
    if i < owner.len() {
        lemma_none_free(owner, i + 1);
    }
}

impl SessionStore {
    /// Position of session `id`.
    fn find(&self, id: &str) -> (at: Option<usize>)
        requires
            sorted_names(keyed(self.sessions@)),
        ensures
            match at {
                Some(i) => {
                    &&& i < self.sessions@.len()
                    &&& self.sessions@[i as int].0@ == id@
                    &&& self@.sessions.contains_key(id@)
                    &&& self@.sessions[id@] == self.sessions@[i as int].1@
                },
                None => !self@.sessions.contains_key(id@),
            },
    {
        match search(&self.sessions, id) {
            Ok(i) => {
                proof {
                    lemma_table_entry(self.sessions@, i as int);
                }
                Some(i)
            },
            Err(_) => {
                assert(!table_map(self.sessions@).contains_key(id@)) by {
                    let t = keyed(self.sessions@);
                    if names_it(t, id@) {
                        let k = choose|k: int| 0 <= k < t.len() && (#[trigger] t[k]).0 == id@;
                        assert(self.sessions@[k].0@ == id@);
                    }
                }
                None
            },
        }
    }

    /// Looks session `id` up, making it where there is none: it is now the
    /// last used, and what it had parked is handed out.
    fn open_session(&mut self, id: &str) -> (r: (usize, Option<Vec<u8>>))
        requires
            old(self).wf(),
            old(self)@.clock < u64::MAX,
        ensures
            final(self).wf(),
            final(self)@ == old(self)@.opened(id@),
            r.0 < final(self).sessions@.len(),
            final(self).sessions@[r.0 as int].0@ == id@,
            final(self).sessions@[r.0 as int].1@ == final(self)@.sessions[id@],
            blob_view(r.1) == (if old(self)@.session(id@).slot is None {
                old(self)@.session(id@).parked
            } else {
                None
            }),
    {
        let ghost v = self@;
        proof {
            lemma_opened_wf(v, id@);
        }
        self.clock += 1;
        let now: u64 = self.clock;
        let at: usize = match self.find(id) {
            Some(at) => at,
            None => {
                let ghost before = self.sessions@;
                let fresh = Session {
                    tokens: Vec::new(),
                    slot: None,
                    parked: None,
                    last_used: now,
                    turns: 0,
                };
                put(&mut self.sessions, id.to_owned(), fresh);
                proof {
                    assert(fresh@.tokens =~= Seq::<u32>::empty());
                    assert(session_map(self.sessions@) =~= session_map(before).insert(
                        id@,
                        fresh@,
                    ));
                    let w = v.opened(id@);
                    assert(w.sessions[id@] == fresh@);
                    assert(self@ == w);
                }
                match self.find(id) {
                    Some(at) => {
                        return (at, None);
                    },
                    None => {
                        return (0, None);
                    },
                }
            },
        };
        let ghost before = self.sessions@;
        self.sessions[at].1.last_used = now;
        let mut parked: Option<Vec<u8>> = None;
        if self.sessions[at].1.slot.is_none() {
            parked = self.sessions[at].1.parked.take();
        }
        proof {
            let after = self.sessions@;
            assert(after =~= before.update(at as int, after[at as int]));
            lemma_table_update(before, after, at as int);
            let w = v.opened(id@);
            assert(after[at as int].1@ == w.sessions[id@]);
            assert(session_map(after) =~= session_map(before).insert(id@, after[at as int].1@));
            assert(self@ == w);
        }
        (at, parked)
    }

    /// First slot that nobody owns.
    fn free_slot(&self) -> (at: Option<usize>)
        ensures
            match at {
                Some(i) => first_free(self@.owner, 0) == Some(i as nat) && i < self.owner@.len(),
                None => first_free(self@.owner, 0) is None,
            },
    {
        let mut i: usize = 0;
        while i < self.owner.len()
            invariant
                i <= self.owner@.len(),
                forall|k: int| 0 <= k < i ==> #[trigger] self@.owner[k] is Some,
            decreases self.owner@.len() - i,
        {
            if self.owner[i].is_none() {
                proof {
                    assert(self@.owner[i as int] is None);
                    lemma_first_free(self@.owner, 0, i as nat);
                }
                return Some(i);
            }
            i += 1;
        }
        proof {
            lemma_none_free(self@.owner, 0);
        }
        None
    }

    /// Position of the owner that was used least recently.
    fn oldest_owner(&self) -> (at: usize)
        requires
            self.wf(),
            self.owner@.len() > 0,
            first_free(self@.owner, 0) is None,
        ensures
            at < self.owner@.len(),
            self@.oldest_owner(at as int),
            self.owner@[at as int] is Some,
    {
        proof {
            lemma_none_free(self@.owner, 0);
        }
        let mut at: usize = 0;
        let mut age: u64 = 0;
        let mut i: usize = 0;
        while i < self.owner.len()
            invariant
                self.wf(),
                i <= self.owner@.len(),
                self.owner@.len() > 0,
                forall|k: int| 0 <= k < self.owner@.len() ==> #[trigger] self@.owner[k] is Some,
                i == 0 ==> at == 0,
                i > 0 ==> {
                    &&& at < i
                    &&& age == self@.owner_age(at as int)
                    &&& forall|k: int|
                        0 <= k < i ==> self@.owner_age(at as int) < #[trigger] self@.owner_age(k)
                            || (self@.owner_age(at as int) == self@.owner_age(k) && at <= k)
                },
            decreases self.owner@.len() - i,
        {
            assert(self@.owner[i as int] is Some);
            let a: u64 = match &self.owner[i] {
                Some(id) => match self.find(id.as_str()) {
                    Some(k) => self.sessions[k].1.last_used,
                    None => 0,
                },
                None => 0,
            };
            assert(a == self@.owner_age(i as int));
            if i == 0 || a < age {
                at = i;
                age = a;
            }
            i += 1;
        }
        assert(self@.owner[at as int] is Some);
        at
    }

    /// Ends an acquisition of a slot that session `id` now owns.
    fn settle(
        &mut self,
        id: &str,
        slot: usize,
        parked: Option<Vec<u8>>,
        reuse: usize,
        stored: usize,
    ) -> (step: AcquireStep)
        requires
            old(self).wf(),
            1 <= slot <= old(self)@.owner.len(),
            old(self)@.owner[slot - 1] == Some(id@),
            old(self)@.sessions.contains_key(id@),
            old(self)@.sessions[id@].slot is None,
            old(self)@.sessions[id@].parked is None,
            reuse <= old(self)@.sessions[id@].tokens.len(),
        ensures
            final(self).wf(),
            settled(
                old(self)@,
                id@,
                slot,
                blob_view(parked),
                reuse as nat,
                stored as nat,
                step,
                final(self)@,
            ),
            step matches AcquireStep::Import { slot: _, len: _, blob: _, restore } ==>
                final(self)@.awaits_import(restore),
    {
        let ghost v = self@;
        if let Some(blob) = parked {
            if reuse > 0 {
                let restore = Restoring { id: id.to_owned(), slot, reuse };
                return AcquireStep::Import { slot, len: stored, blob, restore };
            }
        }
        self.make_resident(id, slot, 0);
        AcquireStep::Ready { slot, reuse: 0 }
    }

    /// Notes that session `id` has `slot` and that only the first `reuse` of
    /// its tokens are known to be there.
    fn make_resident(&mut self, id: &str, slot: usize, reuse: usize)
        requires
            old(self).wf(),
            1 <= slot <= old(self)@.owner.len(),
            old(self)@.owner[slot - 1] == Some(id@),
            old(self)@.sessions.contains_key(id@),
            old(self)@.sessions[id@].parked is None,
            reuse <= old(self)@.sessions[id@].tokens.len(),
        ensures
            final(self).wf(),
            final(self)@ == old(self)@.resident(id@, slot, reuse as nat),
    {
        let ghost v = self@;
        let at: usize = match self.find(id) {
            Some(at) => at,
            None => {
                return;
            },
        };
        let ghost before = self.sessions@;
        self.sessions[at].1.slot = Some(slot);
        self.sessions[at].1.tokens.truncate(reuse);
        proof {
            let after = self.sessions@;
            assert(after =~= before.update(at as int, after[at as int]));
            lemma_table_update(before, after, at as int);
            let s = v.sessions[id@];
            let t = SessionView { slot: Some(slot), tokens: s.tokens.take(reuse as int), ..s };
            assert(after[at as int].1@.tokens =~= t.tokens);
            assert(after[at as int].1@ == t);
            assert(session_map(after) =~= session_map(before).insert(id@, t));
            lemma_with_wf(v, id@, t);
            assert(self@ == v.with(id@, t));
        }
    }

    /// Takes `slot` from `victim`, with `blob` parked, for session `id`.
    fn take_over(
        &mut self,
        victim: &str,
        slot: usize,
        blob: Option<Vec<u8>>,
        id: &str,
        parked: Option<Vec<u8>>,
        reuse: usize,
        stored: usize,
    ) -> (step: AcquireStep)
        requires
            old(self).wf(),
            old(self)@.sessions.contains_key(victim@),
            old(self)@.sessions[victim@].slot == Some(slot),
            old(self)@.sessions.contains_key(id@),
            old(self)@.sessions[id@].slot is None,
            old(self)@.sessions[id@].parked is None,
            reuse <= old(self)@.sessions[id@].tokens.len(),
        ensures
            final(self).wf(),
            took_over(
                old(self)@,
                victim@,
                slot,
                blob_view(blob),
                id@,
                blob_view(parked),
                reuse as nat,
                stored as nat,
                step,
                final(self)@,
            ),
            step matches AcquireStep::Import { slot: _, len: _, blob: _, restore } ==>
                final(self)@.awaits_import(restore),
    {
        let ghost v = self@;
        let ghost b = blob_view(blob);
        let at: usize = match self.find(victim) {
            Some(at) => at,
            None => {
                return AcquireStep::NoSlotFreed;
            },
        };
        let ghost before = self.sessions@;
        self.sessions[at].1.parked = blob;
        self.sessions[at].1.slot = None;
        self.owner.set(slot - 1, None);
        proof {
            let after = self.sessions@;
            assert(after =~= before.update(at as int, after[at as int]));
            lemma_table_update(before, after, at as int);
            let w = v.evicted(victim@, slot, b);
            assert(after[at as int].1@ == w.sessions[victim@]);
            assert(self@.sessions =~= w.sessions);
            assert(self@.owner =~= w.owner);
            assert(self@ == w);
            lemma_evicted_wf(v, victim@, slot, b);
        }
        let ghost w = self@;
        self.enforce_budget();
        let ghost x = self@;
        self.owner.set(slot - 1, Some(id.to_owned()));
        proof {
            assert(self@.owner =~= x.owner.update(slot - 1, Some(id@)));
            assert(self@ == x.owned(slot - 1, Some(id@)));
            assert forall|k: Seq<char>|
                #![trigger x.sessions[k]]
                x.sessions.contains_key(k) implies x.sessions[k].slot != Some(slot) by {
                assert(w.sessions.contains_key(k));
                assert(w.sessions[k].slot != Some(slot));
            }
            lemma_owned_wf(x, slot - 1, Some(id@));
            assert(trimmed(w.sessions, x.sessions, v.ram_budget));
            assert(x == (StoreView { sessions: x.sessions, ..w }));
            assert(x.sessions[id@] == w.sessions[id@]);
        }
        self.settle(id, slot, parked, reuse, stored)
    }

    /// Give `id` a slot and report how much of `prompt` its KV already
    /// covers. A free slot is taken first; where every slot is taken, the
    /// least recently used session is parked.
    pub fn acquire(&mut self, id: &str, prompt: &[u32]) -> (step: AcquireStep)
        requires
            old(self).wf(),
            old(self)@.clock < u64::MAX,
        ensures
            final(self).wf(),
            acquired(old(self)@, id@, prompt@, step, final(self)@),
            step matches AcquireStep::Import { slot: _, len: _, blob: _, restore } ==>
                final(self)@.awaits_import(restore),
    {
        let ghost v = self@;
        if self.owner.len() == 0 {
            return AcquireStep::NoSessionSlots;
        }
        let (at, parked): (usize, Option<Vec<u8>>) = self.open_session(id);
        let ghost w = self@;
        proof {
            law_common_prefix(v.session(id@).tokens, prompt@);
            assert(w.sessions[id@].tokens == v.session(id@).tokens);
        }
        let stored: usize = self.sessions[at].1.tokens.len();
        let shared: usize = common_prefix(self.sessions[at].1.tokens.as_slice(), prompt);
        let most: usize = prompt.len().saturating_sub(1);
        let reuse: usize = if shared <= most {
            shared
        } else {
            most
        };
        if let Some(slot) = self.sessions[at].1.slot {
            assert(w.sessions[id@].slot == Some(slot));
            self.make_resident(id, slot, reuse);
            return AcquireStep::Ready { slot, reuse };
        }
        match self.free_slot() {
            Some(i) => {
                proof {
                    assert(w.owner[i as int] is None) by {
                        lemma_free_is_none(w.owner, 0);
                    }
                    lemma_free_slot(w, i as int);
                    lemma_owned_wf(w, i as int, Some(id@));
                }
                self.owner.set(i, Some(id.to_owned()));
                proof {
                    assert(self@.owner =~= w.owner.update(i as int, Some(id@)));
                    assert(self@ == w.owned(i as int, Some(id@)));
                }
                self.settle(id, i + 1, parked, reuse, stored)
            },
            None => {
                let j: usize = self.oldest_owner();
                assert(w.owner[j as int] is Some);
                let victim: String = match &self.owner[j] {
                    Some(victim) => victim.clone(),
                    None => {
                        return AcquireStep::NoSlotFreed;
                    },
                };
                assert(victim@ == w.owner[j as int]->0);
                let k: usize = match self.find(victim.as_str()) {
                    Some(k) => k,
                    None => {
                        assert(displaced(
                            w,
                            j as int,
                            id@,
                            v.session(id@).parked,
                            reuse as nat,
                            stored as nat,
                            AcquireStep::NoSlotFreed,
                            w,
                        ));
                        return AcquireStep::NoSlotFreed;
                    },
                };
                let slot: usize = match self.sessions[k].1.slot {
                    Some(slot) => slot,
                    None => {
                        assert(displaced(
                            w,
                            j as int,
                            id@,
                            v.session(id@).parked,
                            reuse as nat,
                            stored as nat,
                            AcquireStep::NoSlotFreed,
                            w,
                        ));
                        return AcquireStep::NoSlotFreed;
                    },
                };
                let len: usize = self.sessions[k].1.tokens.len();
                if len > 0 {
                    let wait = Waiting { id: id.to_owned(), parked, reuse, stored, victim, slot };
                    let step = AcquireStep::Export { slot, len, wait };
                    assert(displaced(
                        w,
                        j as int,
                        id@,
                        v.session(id@).parked,
                        reuse as nat,
                        stored as nat,
                        step,
                        w,
                    ));
                    return step;
                }
                let step = self.take_over(victim.as_str(), slot, None, id, parked, reuse, stored);
                assert(displaced(
                    w,
                    j as int,
                    id@,
                    v.session(id@).parked,
                    reuse as nat,
                    stored as nat,
                    step,
                    self@,
                ));
                step
            },
        }
    }

    /// Goes on with an acquisition once the victim's KV is on the host.
    pub fn exported(&mut self, wait: Waiting, blob: Vec<u8>) -> (step: AcquireStep)
        requires
            old(self).wf(),
            old(self)@.awaits_export(wait),
        ensures
            final(self).wf(),
            took_over(
                old(self)@,
                wait.victim@,
                wait.slot,
                Some(blob@),
                wait.id@,
                blob_view(wait.parked),
                wait.reuse as nat,
                wait.stored as nat,
                step,
                final(self)@,
            ),
            step matches AcquireStep::Import { slot: _, len: _, blob: _, restore: t } ==>
                final(self)@.awaits_import(t),
    {
        self.take_over(
            wait.victim.as_str(),
            wait.slot,
            Some(blob),
            wait.id.as_str(),
            wait.parked,
            wait.reuse,
            wait.stored,
        )
    }

    /// Ends an acquisition once the parked KV is in the slot: the slot and the
    /// length of the prefix that it covers.
    pub fn imported(&mut self, restore: Restoring) -> (r: (usize, usize))
        requires
            old(self).wf(),
            old(self)@.awaits_import(restore),
        ensures
            final(self).wf(),
            r == (restore.slot, restore.reuse),
            final(self)@ == old(self)@.resident(restore.id@, restore.slot, restore.reuse as nat),
    {
        self.make_resident(restore.id.as_str(), restore.slot, restore.reuse);
        (restore.slot, restore.reuse)
    }
}

proof fn lemma_free_is_none(owner: Seq<Option<Seq<char>>>, i: nat)
    ensures
        first_free(owner, i) matches Some(at) ==> i <= at < owner.len() && owner[at as int] is None,
    decreases owner.len() - i,
{
    if i < owner.len() && owner[i as int] is Some {
        lemma_free_is_none(owner, i + 1);
    }
}

impl SessionStore {
    /// Record the context a finished generation leaves in the slot.
    pub fn commit(&mut self, id: &str, tokens: Vec<u32>)
        requires
            old(self).wf(),
            old(self)@.clock < u64::MAX,
        ensures
            final(self).wf(),
            final(self)@ == old(self)@.committed(id@, tokens@),
    {
        let ghost v = self@;
        self.clock += 1;
        let now: u64 = self.clock;
        proof {
            lemma_committed_wf(v, id@, tokens@);
        }
        match self.find(id) {
            Some(at) => {
                let ghost before = self.sessions@;
                assert(v.sessions[id@].turns <= v.clock);
                self.sessions[at].1.tokens = tokens;
                self.sessions[at].1.turns += 1;
                self.sessions[at].1.last_used = now;
                proof {
                    let after = self.sessions@;
                    let w = v.committed(id@, tokens@);
                    assert(after =~= before.update(at as int, after[at as int]));
                    lemma_table_update(before, after, at as int);
                    assert(after[at as int].1@ == w.sessions[id@]);
                    assert(session_map(after) =~= w.sessions);
                    assert(self@ == w);
                }
            },
            None => {
                assert(self@ == v.committed(id@, tokens@));
            },
        }
    }

    /// Forget session `id`, freeing its slot; whether there was one.
    pub fn forget(&mut self, id: &str) -> (was: bool)
        requires
            old(self).wf(),
        ensures
            final(self).wf(),
            was == old(self)@.sessions.contains_key(id@),
            final(self)@ == old(self)@.forgotten(id@),
    {
        let ghost v = self@;
        proof {
            lemma_forgotten_wf(v, id@);
        }
        match self.find(id) {
            Some(at) => {
                let ghost before = self.sessions@;
                if let Some(slot) = self.sessions[at].1.slot {
                    assert(v.sessions[id@].slot == Some(slot));
                    self.owner.set(slot - 1, None);
                    assert(self@.owner =~= v.owner.update(slot - 1, None));
                }
                self.sessions.remove(at);
                proof {
                    lemma_table_remove(before, at as int);
                    assert(session_map(self.sessions@) =~= v.sessions.remove(id@));
                    assert(self@ == v.forgotten(id@));
                }
                true
            },
            None => {
                assert(v.sessions.remove(id@) =~= v.sessions);
                false
            },
        }
    }

    /// The ids of the sessions, in ascending order.
    pub closed spec fn ids(self) -> Seq<Seq<char>> {
        Seq::new(self.sessions@.len(), |i: int| self.sessions@[i].0@)
    }

    /// The ids list every session, each once.
    pub proof fn law_ids_list_every_session(self)
        requires
            self.wf(),
        ensures
            self.ids().len() == self@.sessions.dom().len(),
            forall|i: int, j: int|
                #![trigger self.ids()[i], self.ids()[j]]
                0 <= i < j < self.ids().len() ==> text_less(self.ids()[i], self.ids()[j]),
            forall|id: Seq<char>| #[trigger]
                self@.sessions.contains_key(id) <==> self.ids().contains(id),
    {
        lemma_session_count(self.sessions@);
        let k = keyed(self.sessions@);
        assert forall|i: int, j: int|
            #![trigger self.ids()[i], self.ids()[j]]
            0 <= i < j < self.ids().len() implies text_less(self.ids()[i], self.ids()[j]) by {
            assert(text_less(k[i].0, k[j].0));
        }
        assert forall|id: Seq<char>| #[trigger]
            self@.sessions.contains_key(id) <==> self.ids().contains(id) by {
            if names_it(k, id) {
                let i = choose|i: int| 0 <= i < k.len() && (#[trigger] k[i]).0 == id;
                assert(self.ids()[i] == id);
            }
            if self.ids().contains(id) {
                let i = choose|i: int| 0 <= i < self.ids().len() && self.ids()[i] == id;
                assert(k[i].0 == id);
            }
        }
    }

    /// How many sessions there are.
    pub fn len(&self) -> (n: usize)
        ensures
            n == self.ids().len(),
    {
        self.sessions.len()
    }

    /// Id and state of session `i`, in ascending order of ids.
    pub fn at(&self, i: usize) -> (s: (&str, &Session))
        requires
            self.wf(),
            i < self.ids().len(),
        ensures
            s.0@ == self.ids()[i as int],
            self@.sessions.contains_key(s.0@),
            self@.sessions[s.0@] == s.1@,
    {
        proof {
            lemma_table_entry(self.sessions@, i as int);
        }
        let e: &(String, Session) = &self.sessions[i];
        (e.0.as_str(), &e.1)
    }
}

proof fn lemma_session_count(table: Seq<(String, Session)>)
    requires
        sorted_names(keyed(table)),
    ensures
        session_map(table).dom().finite(),
        session_map(table).dom().len() == table.len(),
    decreases table.len(),
{
    lemma_table_finite(table);
    assert(session_map(table).dom() =~= table_map(table).dom());
    if table.len() > 0 {
        let n = table.len() - 1;
        lemma_table_remove(table, n);
        lemma_table_entry(table, n);
        lemma_session_count(table.remove(n));
        assert(session_map(table.remove(n)).dom() =~= session_map(table).dom().remove(
            table[n].0@,
        ));
    } else {
        assert(session_map(table).dom() =~= Set::<Seq<char>>::empty());
    }
}

impl StoreView {
    /// The store when a generation of session `id` has left `tokens` in its
    /// slot.
    pub open spec fn committed(self, id: Seq<char>, tokens: Seq<u32>) -> StoreView {
        let now = self.clock + 1;
        StoreView {
            sessions: if self.sessions.contains_key(id) {
                let s = self.sessions[id];
                self.sessions.insert(
                    id,
                    SessionView { tokens, turns: s.turns + 1, last_used: now, ..s },
                )
            } else {
                self.sessions
            },
            clock: now,
            ..self
        }
    }

    /// The store without session `id`.
    pub open spec fn forgotten(self, id: Seq<char>) -> StoreView {
        StoreView {
            sessions: self.sessions.remove(id),
            owner: if self.sessions.contains_key(id) {
                match self.sessions[id].slot {
                    Some(slot) => self.owner.update(slot - 1, None),
                    None => self.owner,
                }
            } else {
                self.owner
            },
            ..self
        }
    }
}

proof fn lemma_committed_wf(v: StoreView, id: Seq<char>, tokens: Seq<u32>)
    requires
        v.wf(),
    ensures
        v.committed(id, tokens).wf(),
{
    let w = v.committed(id, tokens);
    if v.sessions.contains_key(id) {
        lemma_total_insert(v.sessions, id, w.sessions[id]);
    }
    assert forall|k: Seq<char>| #![trigger w.sessions[k]] w.sessions.contains_key(k) implies {
        &&& w.sessions[k].slot matches Some(s) ==> {
            &&& 1 <= s <= w.owner.len()
            &&& w.owner[s - 1] == Some(k)
            &&& w.sessions[k].parked is None
        }
        &&& w.sessions[k].last_used <= w.clock
        &&& w.sessions[k].turns <= w.clock
    } by {
        assert(v.sessions.contains_key(k));
        assert(v.sessions[k].last_used <= v.clock);
    }
    assert forall|a: Seq<char>, b: Seq<char>|
        #![trigger w.sessions[a], w.sessions[b]]
        w.sessions.contains_key(a) && w.sessions.contains_key(b) && a != b implies w.sessions[a].last_used
        != w.sessions[b].last_used by {
        assert(v.sessions[a].last_used <= v.clock);
        assert(v.sessions[b].last_used <= v.clock);
        assert(v.sessions[a].last_used != v.sessions[b].last_used);
    }
}

proof fn lemma_forgotten_wf(v: StoreView, id: Seq<char>)
    requires
        v.wf(),
    ensures
        v.forgotten(id).wf(),
{
    let w = v.forgotten(id);
    if v.sessions.contains_key(id) {
        lemma_total_remove(v.sessions, id);
    } else {
        assert(w.sessions =~= v.sessions);
    }
    assert forall|k: Seq<char>| #![trigger w.sessions[k]] w.sessions.contains_key(k) implies {
        &&& w.sessions[k].slot matches Some(s) ==> {
            &&& 1 <= s <= w.owner.len()
            &&& w.owner[s - 1] == Some(k)
            &&& w.sessions[k].parked is None
        }
        &&& w.sessions[k].last_used <= w.clock
        &&& w.sessions[k].turns <= w.clock
    } by {
        assert(v.sessions.contains_key(k));
        assert(v.sessions[k].last_used <= v.clock);
        if v.sessions.contains_key(id) {
            assert(v.sessions[id].slot matches Some(s) ==> v.owner[s - 1] == Some(id));
        }
    }
    assert forall|a: Seq<char>, b: Seq<char>|
        #![trigger w.sessions[a], w.sessions[b]]
        w.sessions.contains_key(a) && w.sessions.contains_key(b) && a != b implies w.sessions[a].last_used
        != w.sessions[b].last_used by {
        assert(v.sessions[a].last_used != v.sessions[b].last_used);
    }
}

/// No two sessions share a sequence slot, and none has slot 0.
pub proof fn law_slots_are_exclusive(v: StoreView, a: Seq<char>, b: Seq<char>)
    requires
        v.wf(),
        v.sessions.contains_key(a),
        v.sessions.contains_key(b),
        v.sessions[a].slot is Some,
    ensures
        v.sessions[a].slot != Some(0usize),
        a != b ==> v.sessions[a].slot != v.sessions[b].slot,
{
    assert(v.sessions[b].slot matches Some(s) ==> v.owner[s - 1] == Some(b));
}

/// `a` is the front of `b`.
pub open spec fn is_front(a: Seq<u32>, b: Seq<u32>) -> bool {
    a.len() <= b.len() && b.take(a.len() as int) == a
}

/// Every session's tokens are backed by KV: what its slot holds starts with
/// them, or what it has parked does. `kv` gives the tokens whose KV each slot
/// holds, `content` those whose KV a parked copy holds.
pub open spec fn backed(
    v: StoreView,
    kv: Map<usize, Seq<u32>>,
    content: spec_fn(Seq<u8>) -> Seq<u32>,
) -> bool {
    forall|id: Seq<char>|
        #![trigger v.sessions[id]]
        v.sessions.contains_key(id) ==> {
            &&& v.sessions[id].slot matches Some(s) ==> is_front(v.sessions[id].tokens, kv[s])
            &&& v.sessions[id].parked matches Some(b) ==> is_front(
                v.sessions[id].tokens,
                content(b),
            )
        }
}

/// What a step of an acquisition for `prompt` promises: a ready slot holds KV
/// for the part of the prompt that is to be skipped, and a copy that is to be
/// restored makes the slot hold it. A copy that is to be made covers all of
/// the victim's tokens.
pub open spec fn honoured(
    step: AcquireStep,
    after: StoreView,
    id: Seq<char>,
    prompt: Seq<u32>,
    kv: Map<usize, Seq<u32>>,
    content: spec_fn(Seq<u8>) -> Seq<u32>,
) -> bool {
    match step {
        AcquireStep::Ready { slot, reuse } => {
            &&& reuse <= prompt.len()
            &&& is_front(prompt.take(reuse as int), kv[slot])
        },
        AcquireStep::Import { slot, len, blob, restore } => {
            let restored = kv.insert(slot, content(blob@));
            &&& restore.reuse <= prompt.len()
            &&& is_front(prompt.take(restore.reuse as int), restored[slot])
            &&& backed(after.resident(id, slot, restore.reuse as nat), restored, content)
        },
        AcquireStep::Export { slot, len, wait } => {
            &&& wait.id@ == id
            &&& after.sessions[wait.victim@].tokens.len() == len
            &&& wait.reuse <= prompt.len()
            &&& is_front(prompt.take(wait.reuse as int), after.sessions[id].tokens)
            &&& blob_view(wait.parked) matches Some(b) ==> is_front(
                after.sessions[id].tokens,
                content(b),
            )
        },
        _ => true,
    }
}

proof fn lemma_front_of_front(a: Seq<u32>, b: Seq<u32>, c: Seq<u32>)
    requires
        is_front(a, b),
        is_front(b, c),
    ensures
        is_front(a, c),
{
    assert(c.take(a.len() as int) =~= c.take(b.len() as int).take(a.len() as int));
}

proof fn lemma_settled_backed(
    v: StoreView,
    id: Seq<char>,
    slot: usize,
    parked: Option<Seq<u8>>,
    reuse: nat,
    stored: nat,
    step: AcquireStep,
    after: StoreView,
    prompt: Seq<u32>,
    kv: Map<usize, Seq<u32>>,
    content: spec_fn(Seq<u8>) -> Seq<u32>,
)
    requires
        v.wf(),
        backed(v, kv, content),
        settled(v, id, slot, parked, reuse, stored, step, after),
        1 <= slot <= v.owner.len(),
        v.owner[slot - 1] == Some(id),
        v.sessions.contains_key(id),
        v.sessions[id].slot is None,
        v.sessions[id].parked is None,
        reuse <= prompt.len(),
        is_front(prompt.take(reuse as int), v.sessions[id].tokens),
        parked matches Some(b) ==> is_front(v.sessions[id].tokens, content(b)),
    ensures
        backed(after, kv, content),
        honoured(step, after, id, prompt, kv, content),
{
    let tokens = v.sessions[id].tokens;
    match parked {
        Some(b) if reuse > 0 => {
            let restored = kv.insert(slot, content(b));
            let w = after.resident(id, slot, reuse);
            lemma_front_of_front(prompt.take(reuse as int), tokens, content(b));
            assert(tokens.take(reuse as int) =~= prompt.take(reuse as int));
            assert forall|k: Seq<char>| #![trigger w.sessions[k]] w.sessions.contains_key(k) implies {
                &&& w.sessions[k].slot matches Some(s) ==> is_front(
                    w.sessions[k].tokens,
                    restored[s],
                )
                &&& w.sessions[k].parked matches Some(b) ==> is_front(
                    w.sessions[k].tokens,
                    content(b),
                )
            } by {
                if k != id {
                    assert(v.sessions.contains_key(k));
                    assert(v.sessions[k].slot matches Some(s) ==> v.owner[s - 1] == Some(k));
                }
            }
        },
        _ => {
            assert(prompt.take(0) =~= Seq::<u32>::empty());
            assert(tokens.take(0) =~= Seq::<u32>::empty());
            assert(kv[slot].take(0) =~= Seq::<u32>::empty());
            assert forall|k: Seq<char>|
                #![trigger after.sessions[k]]
                after.sessions.contains_key(k) implies {
                &&& after.sessions[k].slot matches Some(s) ==> is_front(
                    after.sessions[k].tokens,
                    kv[s],
                )
                &&& after.sessions[k].parked matches Some(b) ==> is_front(
                    after.sessions[k].tokens,
                    content(b),
                )
            } by {
                if k != id {
                    assert(v.sessions.contains_key(k));
                }
            }
        },
    }
}

/// The store never claims reuse that it cannot honour: where every session's
/// tokens are backed by KV and a copy of the victim's KV has been parked, what
/// the acquisition goes on to do keeps them backed and holds its promise.
pub proof fn law_takeover_is_honoured(
    v: StoreView,
    victim: Seq<char>,
    slot: usize,
    blob: Option<Seq<u8>>,
    id: Seq<char>,
    parked: Option<Seq<u8>>,
    reuse: nat,
    stored: nat,
    step: AcquireStep,
    after: StoreView,
    prompt: Seq<u32>,
    kv: Map<usize, Seq<u32>>,
    content: spec_fn(Seq<u8>) -> Seq<u32>,
)
    requires
        v.wf(),
        backed(v, kv, content),
        took_over(v, victim, slot, blob, id, parked, reuse, stored, step, after),
        v.sessions.contains_key(victim),
        v.sessions[victim].slot == Some(slot),
        blob matches Some(b) ==> is_front(v.sessions[victim].tokens, content(b)),
        v.sessions.contains_key(id),
        v.sessions[id].slot is None,
        v.sessions[id].parked is None,
        reuse <= prompt.len(),
        is_front(prompt.take(reuse as int), v.sessions[id].tokens),
        parked matches Some(b) ==> is_front(v.sessions[id].tokens, content(b)),
    ensures
        backed(after, kv, content),
        honoured(step, after, id, prompt, kv, content),
{
    let w = v.evicted(victim, slot, blob);
    let sessions = choose|sessions: Map<Seq<char>, SessionView>|
        {
            &&& #[trigger] trimmed(w.sessions, sessions, v.ram_budget)
            &&& settled(
                (StoreView { sessions, ..w }).owned(slot - 1, Some(id)),
                id,
                slot,
                parked,
                reuse,
                stored,
                step,
                after,
            )
        };
    let x = StoreView { sessions, ..w };
    let y = x.owned(slot - 1, Some(id));
    lemma_evicted_wf(v, victim, slot, blob);
    lemma_trimmed_wf(w, x);
    assert forall|k: Seq<char>|
        #![trigger x.sessions[k]]
        x.sessions.contains_key(k) implies x.sessions[k].slot != Some(slot) by {
        assert(w.sessions.contains_key(k));
        assert(w.sessions[k].slot != Some(slot));
    }
    lemma_owned_wf(x, slot - 1, Some(id));
    assert(w.sessions.contains_key(id));
    assert(x.sessions[id] == w.sessions[id]);
    assert(backed(y, kv, content)) by {
        assert forall|k: Seq<char>| #![trigger y.sessions[k]] y.sessions.contains_key(k) implies {
            &&& y.sessions[k].slot matches Some(s) ==> is_front(y.sessions[k].tokens, kv[s])
            &&& y.sessions[k].parked matches Some(b) ==> is_front(
                y.sessions[k].tokens,
                content(b),
            )
        } by {
            assert(x.sessions.contains_key(k) && w.sessions.contains_key(k));
            assert(x.sessions[k] == w.sessions[k] || x.sessions[k] == dropped(w.sessions[k]));
            assert(v.sessions.contains_key(k));
            assert(v.sessions[k].slot matches Some(s) ==> is_front(v.sessions[k].tokens, kv[s]));
            if w.sessions[k].slot is Some {
                assert(w.sessions[k].parked is None);
            }
        }
    }
    lemma_settled_backed(
        y,
        id,
        slot,
        parked,
        reuse,
        stored,
        step,
        after,
        prompt,
        kv,
        content,
    );
}

/// The store never claims reuse that it cannot honour: where every session's
/// tokens are backed by KV, an acquisition keeps them backed, and what it says
/// may be skipped of the prompt is in the slot, or comes into it with the copy
/// that it asks for.
pub proof fn law_reuse_is_honoured(
    v: StoreView,
    id: Seq<char>,
    prompt: Seq<u32>,
    step: AcquireStep,
    after: StoreView,
    kv: Map<usize, Seq<u32>>,
    content: spec_fn(Seq<u8>) -> Seq<u32>,
)
    requires
        v.wf(),
        v.owner.len() < usize::MAX,
        v.session(id).tokens.len() <= usize::MAX,
        prompt.len() <= usize::MAX,
        backed(v, kv, content),
        acquired(v, id, prompt, step, after),
    ensures
        backed(after, kv, content),
        honoured(step, after, id, prompt, kv, content),
{
    let s = v.session(id);
    let reuse = v.covered(id, prompt);
    let stored = s.tokens.len();
    let w = v.opened(id);
    lemma_opened_wf(v, id);
    law_common_prefix(s.tokens, prompt);
    let n = common_prefix_len(s.tokens, prompt);
    assert(prompt.take(reuse as int) =~= prompt.take(n as int).take(reuse as int));
    assert(s.tokens.take(reuse as int) =~= s.tokens.take(n as int).take(reuse as int));
    assert(is_front(prompt.take(reuse as int), s.tokens));
    if v.owner.len() > 0 {
        assert(backed(w, kv, content)) by {
            assert forall|k: Seq<char>| #![trigger w.sessions[k]] w.sessions.contains_key(k) implies {
                &&& w.sessions[k].slot matches Some(s) ==> is_front(w.sessions[k].tokens, kv[s])
                &&& w.sessions[k].parked matches Some(b) ==> is_front(
                    w.sessions[k].tokens,
                    content(b),
                )
            } by {
                if v.sessions.contains_key(k) {
                    assert(v.sessions[k].slot matches Some(s) ==> is_front(
                        v.sessions[k].tokens,
                        kv[s],
                    ));
                }
            }
        }
        if v.sessions.contains_key(id) {
            assert(v.sessions[id].parked matches Some(b) ==> is_front(s.tokens, content(b)));
        }
        match s.slot {
            Some(slot) => {
                assert(w.sessions[id].slot == Some(slot));
                lemma_front_of_front(prompt.take(reuse as int), s.tokens, kv[slot]);
                assert(s.tokens.take(reuse as int) =~= prompt.take(reuse as int));
                assert forall|k: Seq<char>|
                    #![trigger after.sessions[k]]
                    after.sessions.contains_key(k) implies {
                    &&& after.sessions[k].slot matches Some(s) ==> is_front(
                        after.sessions[k].tokens,
                        kv[s],
                    )
                    &&& after.sessions[k].parked matches Some(b) ==> is_front(
                        after.sessions[k].tokens,
                        content(b),
                    )
                } by {
                    assert(w.sessions.contains_key(k));
                    assert(w.sessions[k].slot is Some ==> w.sessions[k].parked is None);
                }
            },
            None => match first_free(w.owner, 0) {
                Some(i) => {
                    lemma_free_is_none(w.owner, 0);
                    lemma_free_slot(w, i as int);
                    lemma_owned_wf(w, i as int, Some(id));
                    let x = w.owned(i as int, Some(id));
                    assert(backed(x, kv, content)) by {
                        assert forall|k: Seq<char>|
                            #![trigger x.sessions[k]]
                            x.sessions.contains_key(k) implies {
                            &&& x.sessions[k].slot matches Some(s) ==> is_front(
                                x.sessions[k].tokens,
                                kv[s],
                            )
                            &&& x.sessions[k].parked matches Some(b) ==> is_front(
                                x.sessions[k].tokens,
                                content(b),
                            )
                        } by {
                            assert(w.sessions.contains_key(k));
                        }
                    }
                    lemma_settled_backed(
                        x,
                        id,
                        (i + 1) as usize,
                        s.parked,
                        reuse,
                        stored,
                        step,
                        after,
                        prompt,
                        kv,
                        content,
                    );
                },
                None => {
                    let j = choose|j: int| #[trigger]
                        w.oldest_owner(j) && displaced(
                            w,
                            j,
                            id,
                            s.parked,
                            reuse,
                            stored,
                            step,
                            after,
                        );
                    let victim = w.owner[j]->0;
                    if w.sessions.contains_key(victim) && w.sessions[victim].slot is Some {
                        let slot = w.sessions[victim].slot->0;
                        if w.sessions[victim].tokens.len() == 0 {
                            law_takeover_is_honoured(
                                w,
                                victim,
                                slot,
                                None,
                                id,
                                s.parked,
                                reuse,
                                stored,
                                step,
                                after,
                                prompt,
                                kv,
                                content,
                            );
                        }
                    }
                },
            },
        }
    }
}

/// A finished generation keeps the store backed: its context is what its slot
/// then holds.
pub proof fn law_commit_stays_backed(
    v: StoreView,
    id: Seq<char>,
    slot: usize,
    context: Seq<u32>,
    kv: Map<usize, Seq<u32>>,
    content: spec_fn(Seq<u8>) -> Seq<u32>,
    held: Seq<u32>,
)
    requires
        v.wf(),
        backed(v, kv, content),
        v.sessions.contains_key(id),
        v.sessions[id].slot == Some(slot),
        is_front(context, held),
    ensures
        backed(v.committed(id, context), kv.insert(slot, held), content),
{
    let w = v.committed(id, context);
    let after = kv.insert(slot, held);
    assert(v.sessions[id].parked is None);
    assert forall|k: Seq<char>| #![trigger w.sessions[k]] w.sessions.contains_key(k) implies {
        &&& w.sessions[k].slot matches Some(s) ==> is_front(w.sessions[k].tokens, after[s])
        &&& w.sessions[k].parked matches Some(b) ==> is_front(w.sessions[k].tokens, content(b))
    } by {
        assert(v.sessions.contains_key(k));
        if k != id {
            assert(v.sessions[k].slot matches Some(s) ==> v.owner[s - 1] == Some(k));
            assert(v.owner[slot - 1] == Some(id));
        }
    }
}

/// Forgetting a session frees its slot and leaves every other session as it
/// was.
pub proof fn law_forget_frees_slot(v: StoreView, id: Seq<char>, other: Seq<char>)
    requires
        v.wf(),
        v.sessions.contains_key(id),
    ensures
        !v.forgotten(id).sessions.contains_key(id),
        v.sessions[id].slot matches Some(s) ==> v.forgotten(id).owner[s - 1] is None,
        other != id && v.sessions.contains_key(other) ==> v.forgotten(id).sessions[other]
            == v.sessions[other],
{
}

} // verus!
