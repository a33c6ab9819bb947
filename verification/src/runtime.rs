//! Bookkeeping of the reactive runtime: which signals and effects exist, which effect
//! is running, and which effects read which signal and so run again when it changes.
//! The signal values and the effect closures themselves are held by the caller, keyed
//! by the identifiers handed out here.
use vstd::prelude::*;
use std::collections::{HashMap, HashSet};
use vstd::std_specs::hash::spec_hash_keys_iter;
use vstd::std_specs::iter::IteratorSpec;

verus! {

broadcast use vstd::std_specs::hash::group_hash_axioms;

/// Identifies a signal.
#[derive(Clone, Copy, Debug, PartialEq, Eq, Hash, Structural)]
pub struct SignalId(pub u128);

/// Identifies an effect.
#[derive(Clone, Copy, Debug, PartialEq, Eq, Hash, Structural)]
pub struct EffectId(pub u128);

/// `uuid::Uuid::new_v4`, as its 128-bit value: random, with the version nibble set to
/// 4 and the two variant bits set to `10`.
#[verifier::external_body]
fn random_uuid() -> (id: u128)
    ensures
        (id >> 76u128) & 0xf == 4,
        (id >> 62u128) & 0x3 == 2,
{
    uuid::Uuid::new_v4().as_u128()
}

/// The effects that read signal `s`, in the subscription map `subs`.
pub open spec fn subscribers_in(subs: Map<u128, Set<u128>>, s: u128) -> Set<u128> {
    if subs.contains_key(s) {
        subs[s]
    } else {
        Set::empty()
    }
}

/// The subscription map after signal `s` was read while `running` ran: the running
/// effect, if there is one, now reads `s`.
pub open spec fn after_read(subs: Map<u128, Set<u128>>, running: Option<EffectId>, s: u128) -> Map<u128, Set<u128>> {
    match running {
        Some(e) => subs.insert(s, subscribers_in(subs, s).insert(e.0)),
        None => subs,
    }
}

/// The bookkeeping of one reactive runtime.
pub struct Runtime {
    signals: HashSet<u128>,
    effects: HashSet<u128>,
    running_effect: Option<EffectId>,
    signal_subscribers: HashMap<u128, HashSet<u128>>,
}

impl Runtime {
    /// The signals created so far.
    pub closed spec fn signal_set(&self) -> Set<u128> {
        self.signals@
    }

    /// The effects created so far.
    pub closed spec fn effect_set(&self) -> Set<u128> {
        self.effects@
    }

    /// The effect that is running, if any.
    pub closed spec fn running(&self) -> Option<EffectId> {
        self.running_effect
    }

    /// For each signal that some effect read, the effects that read it.
    pub closed spec fn subscriptions(&self) -> Map<u128, Set<u128>> {
        self.signal_subscribers@.map_values(|h: HashSet<u128>| h@)
    }

    /// A runtime with no signals, no effects and nothing running.
    pub fn new() -> (r: Runtime)
        ensures
            r.signal_set() == Set::<u128>::empty(),
            r.effect_set() == Set::<u128>::empty(),
            r.running() == None::<EffectId>,
            r.subscriptions() == Map::<u128, Set<u128>>::empty(),
    {
        let r = Runtime {
            signals: HashSet::new(),
            effects: HashSet::new(),
            running_effect: None,
            signal_subscribers: HashMap::new(),
        };
        assert(r.subscriptions() =~= Map::<u128, Set<u128>>::empty());
        r
    }

    /// Registers a new signal under a fresh random identifier.
    pub fn create_signal(&mut self) -> (id: SignalId)
        ensures
            final(self).signal_set() == old(self).signal_set().insert(id.0),
            final(self).effect_set() == old(self).effect_set(),
            final(self).running() == old(self).running(),
            final(self).subscriptions() == old(self).subscriptions(),
            (id.0 >> 76u128) & 0xf == 4,
            (id.0 >> 62u128) & 0x3 == 2,
    {
        let id: u128 = random_uuid();
        self.signals.insert(id);
        SignalId(id)
    }

    /// Registers a new effect under a fresh random identifier.
    pub fn create_effect(&mut self) -> (id: EffectId)
        ensures
            final(self).effect_set() == old(self).effect_set().insert(id.0),
            final(self).signal_set() == old(self).signal_set(),
            final(self).running() == old(self).running(),
            final(self).subscriptions() == old(self).subscriptions(),
            (id.0 >> 76u128) & 0xf == 4,
            (id.0 >> 62u128) & 0x3 == 2,
    {
        let id: u128 = random_uuid();
        self.effects.insert(id);
        EffectId(id)
    }

    /// Marks effect `id` as running before it is run; gives the effect that ran
    /// before, to be handed back to `end_effect` once `id` has finished.
    pub fn begin_effect(&mut self, id: EffectId) -> (prev: Option<EffectId>)
        requires
            old(self).effect_set().contains(id.0),
        ensures
            prev == old(self).running(),
            final(self).running() == Some(id),
            final(self).signal_set() == old(self).signal_set(),
            final(self).effect_set() == old(self).effect_set(),
            final(self).subscriptions() == old(self).subscriptions(),
    {
        let prev = self.running_effect;
        self.running_effect = Some(id);
        prev
    }

    /// Marks `prev` as running again after an effect has finished.
    pub fn end_effect(&mut self, prev: Option<EffectId>)
        ensures
            final(self).running() == prev,
            final(self).signal_set() == old(self).signal_set(),
            final(self).effect_set() == old(self).effect_set(),
            final(self).subscriptions() == old(self).subscriptions(),
    {
        self.running_effect = prev;
    }

    /// Records that `signal` was read: the running effect, if any, now depends on it.
    pub fn track_read(&mut self, signal: SignalId)
        requires
            old(self).signal_set().contains(signal.0),
        ensures
            final(self).subscriptions() == after_read(old(self).subscriptions(), old(self).running(), signal.0),
            final(self).signal_set() == old(self).signal_set(),
            final(self).effect_set() == old(self).effect_set(),
            final(self).running() == old(self).running(),
    {
        match self.running_effect {
            Some(e) => {
                let ghost before = self.subscriptions();
                let mut set = match self.signal_subscribers.remove(&signal.0) {
                    Some(s) => s,
                    None => HashSet::new(),
                };
                assert(set@ == subscribers_in(before, signal.0));
                set.insert(e.0);
                self.signal_subscribers.insert(signal.0, set);
                assert(self.subscriptions() =~= after_read(before, Some(e), signal.0));
            },
            None => {},
        }
    }

    /// The effects to run again after `signal` changed: every effect that read it,
    /// each once, in no particular order.
    pub fn subscribers(&self, signal: SignalId) -> (effects: Vec<EffectId>)
        requires
            self.signal_set().contains(signal.0),
        ensures
            forall|x: u128|
                subscribers_in(self.subscriptions(), signal.0).contains(x) <==> effects@.contains(EffectId(x)),
            effects@.no_duplicates(),
    {
        let mut out: Vec<EffectId> = Vec::new();
        match self.signal_subscribers.get(&signal.0) {
            None => {
                assert(subscribers_in(self.subscriptions(), signal.0) =~= Set::<u128>::empty());
            },
            Some(set) => {
                assert(set@ == subscribers_in(self.subscriptions(), signal.0));
                let ghost keys = spec_hash_keys_iter(set).remaining();
                for x in it: set.iter()
                    invariant
                        it.seq() == keys,
                        out@ == it.seq().take(it.index() as int).map_values(|y: &u128| EffectId(*y)),
                {
                    out.push(EffectId(*x));
                }
                assert(keys.take(keys.len() as int) =~= keys);
                assert(out@ =~= keys.map_values(|y: &u128| EffectId(*y)));
                assert(keys.unref().to_set() == set@);
                assert forall|x: u128| set@.contains(x) <==> out@.contains(EffectId(x)) by {
                    if set@.contains(x) {
                        assert(keys.unref().to_set().contains(x));
                        let k = choose|k: int| 0 <= k < keys.len() && *keys[k] == x;
                        assert(out@[k] == EffectId(x));
                    }
                    if out@.contains(EffectId(x)) {
                        let k = choose|k: int| 0 <= k < out@.len() && out@[k] == EffectId(x);
                        assert(*keys[k] == x);
                        assert(keys.unref()[k] == x);
                        assert(keys.unref().contains(x));
                        assert(keys.unref().to_set().contains(x));
                    }
                }
                assert(out@.no_duplicates());
            },
        }
        out
    }
}

/// An effect that reads a signal while it runs is among the effects that the signal's
/// next change runs again.
pub proof fn lemma_read_subscribes_running_effect(subs: Map<u128, Set<u128>>, e: EffectId, s: u128)
    ensures
        subscribers_in(after_read(subs, Some(e), s), s).contains(e.0),
{
}

/// A read while no effect runs subscribes nothing.
pub proof fn lemma_read_outside_effects_changes_nothing(subs: Map<u128, Set<u128>>, s: u128)
    ensures
        after_read(subs, None, s) == subs,
{
}

/// A read drops no subscription, and subscribes only to the signal read.
pub proof fn lemma_read_only_adds(subs: Map<u128, Set<u128>>, running: Option<EffectId>, s: u128, t: u128, x: u128)
    ensures
        subscribers_in(subs, t).contains(x) ==> subscribers_in(after_read(subs, running, s), t).contains(x),
        t != s ==> subscribers_in(after_read(subs, running, s), t) == subscribers_in(subs, t),
        subscribers_in(after_read(subs, running, s), s) == match running {
            Some(e) => subscribers_in(subs, s).insert(e.0),
            None => subscribers_in(subs, s),
        },
{
}

} // verus!
