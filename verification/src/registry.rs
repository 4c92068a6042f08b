//! The registry of sessions: which identifiers are live, and the answer
//! filed under each.
//!
//! A fresh identifier is found from a seed, which the caller draws at
//! random: the seed itself where it is free, else the next free number
//! after it. So no two live sessions ever share an identifier, whatever
//! the seeds are.

use crate::error::SignalError;
use crate::resource::ResourceId;
use crate::sdp::description::SessionDescription;
use std::collections::HashMap;
use vstd::prelude::*;

verus! {

broadcast use vstd::std_specs::hash::group_hash_axioms;

/// The number of tokens there are.
pub open spec fn token_count() -> nat {
    (u128::MAX + 1) as nat
}

/// The token `k` steps after `seed`, going round from the highest to zero.
pub open spec fn step(seed: u128, k: nat) -> u128 {
    if seed + k <= u128::MAX {
        (seed + k) as u128
    } else {
        (seed + k - token_count()) as u128
    }
}

/// Whether the token `k` steps after `seed` is free and all before it are live.
pub open spec fn is_gap(live: Set<u128>, seed: u128, k: nat) -> bool {
    &&& !live.contains(step(seed, k))
    &&& forall|j: nat| j < k ==> live.contains(#[trigger] step(seed, j))
}

/// The first free token at or after `seed`.
pub open spec fn first_free(live: Set<u128>, seed: u128) -> u128 {
    step(seed, choose|k: nat| is_gap(live, seed, k))
}

/// There is one gap at most, and it gives the first free token.
pub proof fn lemma_gap_is_first_free(live: Set<u128>, seed: u128, k: nat)
    requires
        is_gap(live, seed, k),
    ensures
        first_free(live, seed) == step(seed, k),
        !live.contains(first_free(live, seed)),
{
    let c = choose|c: nat| is_gap(live, seed, c);
    if c < k {
        assert(live.contains(step(seed, c)));
    } else if k < c {
        assert(live.contains(step(seed, k)));
    }
}

/// A free seed is its own first free token.
pub proof fn lemma_free_seed(live: Set<u128>, seed: u128)
    requires
        !live.contains(seed),
    ensures
        first_free(live, seed) == seed,
{
    assert(step(seed, 0) == seed);
    assert(is_gap(live, seed, 0));
    lemma_gap_is_first_free(live, seed, 0);
}

/// The tokens of the first `k` steps after `seed`.
pub open spec fn run(seed: u128, k: nat) -> Set<u128> {
    Set::new(|t: u128| exists|j: nat| j < k && #[trigger] step(seed, j) == t)
}

/// The first `k` steps reach `k` different tokens.
pub proof fn lemma_run_len(seed: u128, k: nat)
    requires
        k <= token_count(),
    ensures
        run(seed, k).finite(),
        run(seed, k).len() == k,
    decreases k,
{
    if k == 0 {
        assert(run(seed, 0) =~= Set::<u128>::empty());
    } else {
        let before = (k - 1) as nat;
        lemma_run_len(seed, before);
        let last = step(seed, before);
        assert(!run(seed, before).contains(last)) by {
            if run(seed, before).contains(last) {
                let j = choose|j: nat| j < before && #[trigger] step(seed, j) == last;
                assert(false);
            }
        }
        assert(run(seed, k) =~= run(seed, before).insert(last)) by {
            assert forall|t: u128| run(seed, k).contains(t) implies run(seed, before).insert(
                last,
            ).contains(t) by {
                let j = choose|j: nat| j < k && #[trigger] step(seed, j) == t;
                if j < before {
                    assert(run(seed, before).contains(t));
                }
            }
            assert forall|t: u128| run(seed, before).insert(last).contains(
                t,
            ) implies run(seed, k).contains(t) by {
                if t == last {
                    assert(step(seed, before) == t);
                } else {
                    let j = choose|j: nat| j < before && #[trigger] step(seed, j) == t;
                    assert(j < k && step(seed, j) == t);
                }
            }
        }
    }
}

/// Where the first `k` steps after `seed` are all live, there are `k` live
/// tokens at least.
pub proof fn lemma_live_run_is_bounded(live: Set<u128>, seed: u128, k: nat)
    requires
        live.finite(),
        k <= token_count(),
        forall|j: nat| j < k ==> live.contains(#[trigger] step(seed, j)),
    ensures
        k <= live.len(),
{
    lemma_run_len(seed, k);
    assert(run(seed, k).subset_of(live)) by {
        assert forall|t: u128| run(seed, k).contains(t) implies live.contains(t) by {
            let j = choose|j: nat| j < k && #[trigger] step(seed, j) == t;
        }
    }
    vstd::set_lib::lemma_len_subset(run(seed, k), live);
}

/// A free token some steps after `seed` shows that there is a gap no later.
pub proof fn lemma_gap_before(live: Set<u128>, seed: u128, n: nat)
    requires
        !live.contains(step(seed, n)),
    ensures
        exists|k: nat| k <= n && is_gap(live, seed, k),
    decreases n,
{
    if forall|j: nat| j < n ==> live.contains(#[trigger] step(seed, j)) {
        assert(is_gap(live, seed, n));
    } else {
        let j = choose|j: nat| j < n && !live.contains(#[trigger] step(seed, j));
        lemma_gap_before(live, seed, j);
        let k = choose|k: nat| k <= j && is_gap(live, seed, k);
        assert(k <= n && is_gap(live, seed, k));
    }
}

/// While not every token is live, the first free token after a seed is free.
pub proof fn lemma_first_free_is_free(live: Set<u128>, seed: u128)
    requires
        live.finite(),
        live.len() < token_count(),
    ensures
        !live.contains(first_free(live, seed)),
{
    let n = live.len() + 1;
    if forall|j: nat| j < n ==> live.contains(#[trigger] step(seed, j)) {
        lemma_live_run_is_bounded(live, seed, n);
    } else {
        let j = choose|j: nat| j < n && !live.contains(#[trigger] step(seed, j));
        lemma_gap_before(live, seed, j);
        let k = choose|k: nat| k <= j && is_gap(live, seed, k);
        lemma_gap_is_first_free(live, seed, k);
    }
}

/// The sessions of a registry as specification: each live token with the
/// text of the answer filed under it, if one was.
pub type Slots = Map<u128, Option<Seq<char>>>;

/// The answer filed under `token`, if the session is live and has one.
pub open spec fn answer_of(slots: Slots, token: u128) -> Option<Seq<char>> {
    if slots.contains_key(token) {
        slots[token]
    } else {
        None
    }
}

/// What filing `answer` under `token` gives: the sessions after it, and
/// the outcome. An unknown session and one that has its answer refuse, and
/// nothing changes.
pub open spec fn file_answer(slots: Slots, token: u128, answer: Seq<char>) -> (
    Slots,
    Result<(), SignalError>,
) {
    if !slots.contains_key(token) {
        (slots, Err(SignalError::NotFound))
    } else if slots[token] is Some {
        (slots, Err(SignalError::Conflict))
    } else {
        (slots.insert(token, Some(answer)), Ok(()))
    }
}

/// The text of an answer slot.
pub open spec fn slot_text(slot: Option<SessionDescription>) -> Option<Seq<char>> {
    match slot {
        Some(answer) => Some(answer@),
        None => None,
    }
}

/// The live sessions, each with its answer slot.
pub struct Registry {
    sessions: HashMap<u128, Option<SessionDescription>>,
}

impl View for Registry {
    type V = Slots;

    closed spec fn view(&self) -> Slots {
        self.sessions@.map_values(|slot: Option<SessionDescription>| slot_text(slot))
    }
}

impl Registry {
    /// A registry without sessions.
    pub fn new() -> (registry: Registry)
        ensures
            registry@ == Slots::empty(),
    {
        let registry = Registry { sessions: HashMap::new() };
        assert(registry@ =~= Slots::empty());
        registry
    }

    /// The sessions of a registry are finite in number, and never all tokens.
    pub proof fn lemma_bounded(&self)
        ensures
            self@.dom().finite(),
            self@.dom().len() <= usize::MAX,
            self@.dom().len() < token_count(),
    {
        assert(self@.dom() =~= self.sessions@.dom());
        assert(self.sessions@.len() == vstd::std_specs::hash::spec_hash_map_len(&self.sessions));
    }

    /// The number of live sessions.
    pub fn len(&self) -> (n: usize)
        ensures
            n == self@.dom().len(),
    {
        assert(self@.dom() =~= self.sessions@.dom());
        self.sessions.len()
    }

    /// Whether a session is live.
    pub fn is_live(&self, id: ResourceId) -> (live: bool)
        ensures
            live == self@.contains_key(id.token),
    {
        self.sessions.contains_key(&id.token)
    }

    /// Opens a session under a fresh identifier, with an empty answer slot.
    /// The identifier is the seed where no live session has it, else the
    /// next free one after it.
    pub fn allocate(&mut self, seed: u128) -> (id: ResourceId)
        ensures
            id.token == first_free(old(self)@.dom(), seed),
            !old(self)@.contains_key(id.token),
            final(self)@ == old(self)@.insert(id.token, None),
    {
        let ghost live = self@.dom();
        proof {
            self.lemma_bounded();
            assert(live =~= self.sessions@.dom());
            assert(step(seed, 0) == seed);
        }
        let mut candidate: u128 = seed;
        let ghost mut k: nat = 0;
        while self.sessions.contains_key(&candidate)
            invariant
                live == self.sessions@.dom(),
                live.finite(),
                live.len() < token_count(),
                candidate == step(seed, k),
                k <= live.len(),
                forall|j: nat| j < k ==> live.contains(#[trigger] step(seed, j)),
            decreases live.len() - k,
        {
            proof {
                lemma_live_run_is_bounded(live, seed, k + 1);
            }
            candidate = if candidate == u128::MAX {
                0
            } else {
                candidate + 1
            };
            proof {
                k = k + 1;
            }
        }
        proof {
            assert(is_gap(live, seed, k));
            lemma_gap_is_first_free(live, seed, k);
        }
        self.sessions.insert(candidate, None);
        assert(self@ =~= old(self)@.insert(candidate, None));
        ResourceId { token: candidate }
    }

    /// A copy of the answer filed under an identifier, if the session is
    /// live and has one.
    pub fn answer(&self, id: ResourceId) -> (answer: Option<SessionDescription>)
        ensures
            slot_text(answer) == answer_of(self@, id.token),
    {
        match self.sessions.get(&id.token) {
            Some(Some(answer)) => Some(answer.clone()),
            _ => None,
        }
    }

    /// Files an answer under an identifier, once. A session that is not
    /// live refuses with `NotFound`, one that has its answer with `Conflict`,
    /// and the registry stays as it was.
    pub fn file(&mut self, id: ResourceId, answer: SessionDescription) -> (r: Result<
        (),
        SignalError,
    >)
        ensures
            (final(self)@, r) == file_answer(old(self)@, id.token, answer@),
    {
        match self.sessions.get(&id.token) {
            None => Err(SignalError::NotFound),
            Some(Some(_)) => Err(SignalError::Conflict),
            Some(None) => {
                let ghost text = answer@;
                self.sessions.insert(id.token, Some(answer));
                assert(self@ =~= old(self)@.insert(id.token, Some(text)));
                Ok(())
            },
        }
    }

    /// Ends a session: its identifier is live no more and its answer slot
    /// is gone. Says whether the session was live.
    pub fn release(&mut self, id: ResourceId) -> (was_live: bool)
        ensures
            was_live == old(self)@.contains_key(id.token),
            final(self)@ == old(self)@.remove(id.token),
    {
        let removed = self.sessions.remove(&id.token);
        assert(self@ =~= old(self)@.remove(id.token));
        removed.is_some()
    }
}

} // verus!
