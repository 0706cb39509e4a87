//! The event emitter: registers listeners per event type, decides which
//! listeners an event reaches, and forgets "once" listeners after their
//! event.

use std::collections::HashMap;
use dashmap::DashMap;
use vstd::prelude::*;
use crate::listener::{Listener, ListenerId, lists_listeners, listeners_in};
use crate::model::{EmitterModel, persistent, lemma_ids_among_bounded, lemma_ids_among_insert};
use crate::table::{table_contents, table_new, table_with_capacity, table_get, table_insert, table_entries};

verus! {

broadcast use vstd::std_specs::hash::group_hash_axioms;

/// The core of the event handling system: the listeners registered for
/// each event type, and the counter that numbers them.
pub struct EventEmitter {
    events: DashMap<u64, HashMap<usize, bool>>,
    next_id: usize,
}

impl View for EventEmitter {
    type V = EmitterModel;

    closed spec fn view(&self) -> EmitterModel {
        EmitterModel { types: table_contents(self.events), next_id: self.next_id as nat }
    }
}

/// The keys of the first `n` entries of `entries`.
spec fn keys_before(entries: Seq<(u64, HashMap<usize, bool>)>, n: int) -> Set<u64> {
    Set::new(|k: u64| exists|j: int| 0 <= j < n && (#[trigger] entries[j]).0 == k)
}

impl Default for EventEmitter {
    /// Creates an emitter with no listeners; the same as `new`.
    fn default() -> (s: Self)
        ensures
            s@ == EmitterModel::empty(),
            s@.types.dom().is_empty(),
            s@.next_id == 0,
            s@.wf(),
    {
        Self::new()
    }
}

impl EventEmitter {
    /// Creates an emitter with no listeners.
    pub fn new() -> (s: Self)
        ensures
            s@ == EmitterModel::empty(),
            s@.types.dom().is_empty(),
            s@.next_id == 0,
            s@.wf(),
    {
        let s = EventEmitter { events: table_new(), next_id: 0 };
        assert(s@.types =~= Map::<u64, Map<usize, bool>>::empty());
        s
    }

    /// Creates an emitter with no listeners, whose table starts with room
    /// for `capacity` event types.
    pub fn with_capacity(capacity: usize) -> (s: Self)
        ensures
            s@ == EmitterModel::empty(),
            s@.types.dom().is_empty(),
            s@.next_id == 0,
            s@.wf(),
    {
        let s = EventEmitter { events: table_with_capacity(capacity), next_id: 0 };
        assert(s@.types =~= Map::<u64, Map<usize, bool>>::empty());
        s
    }

    /// The id that the next registered listener receives.
    pub fn next_listener_id(&self) -> (n: usize)
        ensures
            n == self@.next_id,
    {
        self.next_id
    }

    /// Registers a listener for event type `type_id`; it fires on every
    /// event of that type until it is removed.
    pub fn on(&mut self, type_id: u64) -> (lid: ListenerId)
        requires
            old(self)@.wf(),
            old(self)@.next_id < usize::MAX,
        ensures
            final(self)@ == old(self)@.add(type_id, false),
            final(self)@.types.dom() == old(self)@.types.dom().insert(type_id),
            forall|k: u64| k != type_id && #[trigger] old(self)@.types.contains_key(k) ==> final(self)@.types[k] == old(self)@.types[k],
            final(self)@.wf(),
            lid == (ListenerId { id: old(self)@.next_id as usize, type_id }),
    {
        self.add_listener(type_id, false)
    }

    /// Registers a listener for event type `type_id` that is removed after
    /// the first event of that type.
    pub fn once(&mut self, type_id: u64) -> (lid: ListenerId)
        requires
            old(self)@.wf(),
            old(self)@.next_id < usize::MAX,
        ensures
            final(self)@ == old(self)@.add(type_id, true),
            final(self)@.types.dom() == old(self)@.types.dom().insert(type_id),
            forall|k: u64| k != type_id && #[trigger] old(self)@.types.contains_key(k) ==> final(self)@.types[k] == old(self)@.types[k],
            final(self)@.wf(),
            lid == (ListenerId { id: old(self)@.next_id as usize, type_id }),
    {
        self.add_listener(type_id, true)
    }

    fn add_listener(&mut self, type_id: u64, once: bool) -> (lid: ListenerId)
        requires
            old(self)@.wf(),
            old(self)@.next_id < usize::MAX,
        ensures
            final(self)@ == old(self)@.add(type_id, once),
            final(self)@.types.dom() == old(self)@.types.dom().insert(type_id),
            forall|k: u64| k != type_id && #[trigger] old(self)@.types.contains_key(k) ==> final(self)@.types[k] == old(self)@.types[k],
            final(self)@.wf(),
            lid == (ListenerId { id: old(self)@.next_id as usize, type_id }),
    {
        let ghost m = self@;
        let id = self.next_id;
        self.next_id = id + 1;
        let listener_id = ListenerId { id, type_id };
        let listener = Listener::new(once, listener_id);
        let mut listeners = match table_get(&self.events, type_id) {
            Some(listeners) => listeners,
            None => HashMap::new(),
        };
        listeners.insert(listener.id.id, listener.once);
        table_insert(&mut self.events, type_id, listeners);
        proof {
            assert(self@.types =~= m.add(type_id, once).types);
        }
        listener_id
    }

    /// Removes the listener `listener_id`, so that no later event reaches
    /// it. Its event type keeps its entry, even when no listener is left.
    pub fn remove_listener(&mut self, listener_id: ListenerId)
        requires
            old(self)@.wf(),
        ensures
            final(self)@ == old(self)@.remove(listener_id),
            final(self)@.types.dom() == old(self)@.types.dom(),
            forall|k: u64| k != listener_id.type_id && #[trigger] old(self)@.types.contains_key(k) ==> final(self)@.types[k] == old(self)@.types[k],
            final(self)@.wf(),
    {
        let ghost m = self@;
        if let Some(mut listeners) = table_get(&self.events, listener_id.type_id) {
            listeners.remove(&listener_id.id);
            table_insert(&mut self.events, listener_id.type_id, listeners);
            proof {
                assert(self@.types =~= m.remove(listener_id).types);
            }
        }
    }

    /// Removes the listener `listener_id`; the same as `remove_listener`.
    pub fn off(&mut self, listener_id: ListenerId)
        requires
            old(self)@.wf(),
        ensures
            final(self)@ == old(self)@.remove(listener_id),
            final(self)@.types.dom() == old(self)@.types.dom(),
            forall|k: u64| k != listener_id.type_id && #[trigger] old(self)@.types.contains_key(k) ==> final(self)@.types[k] == old(self)@.types[k],
            final(self)@.wf(),
    {
        self.remove_listener(listener_id)
    }

    /// The listeners registered for event type `type_id`: `None` when the
    /// type has no listener, else each of its listeners once.
    pub fn get_event_listeners(&self, type_id: u64) -> (r: Option<Vec<Listener>>)
        ensures
            r is None <==> self@.listeners_of(type_id).dom().is_empty(),
            r matches Some(v) ==> lists_listeners(v@, type_id, self@.listeners_of(type_id)),
    {
        match table_get(&self.events, type_id) {
            Some(listeners) => {
                if listeners.len() == 0 {
                    proof {
                        vstd::set_lib::lemma_set_empty_equivalency_len(listeners@.dom());
                    }
                    None
                } else {
                    Some(listeners_in(&listeners, type_id))
                }
            },
            None => None,
        }
    }

    /// The number of listeners registered for event type `type_id`: `None`
    /// when the type never had a listener.
    pub fn event_listeners_count(&self, type_id: u64) -> (r: Option<usize>)
        ensures
            r is None <==> !self@.types.contains_key(type_id),
            r matches Some(n) ==> n == self@.types[type_id].len(),
    {
        match table_get(&self.events, type_id) {
            Some(listeners) => Some(listeners.len()),
            None => None,
        }
    }

    /// The number of listeners registered, over all event types.
    pub fn listeners_count(&self) -> (n: usize)
        requires
            self@.wf(),
        ensures
            n == self@.count(),
    {
        let entries = table_entries(&self.events);
        let ghost m = self@;
        let mut total: usize = 0;
        let mut i: usize = 0;
        proof {
            assert(m.ids_among(keys_before(entries@, 0)) =~= Set::<usize>::empty());
        }
        while i < entries.len()
            invariant
                m == self@,
                m.wf(),
                i <= entries@.len(),
                forall|j: int| 0 <= j < entries@.len() ==> #[trigger] m.types.contains_key(entries@[j].0),
                forall|j: int| 0 <= j < entries@.len() ==> (#[trigger] entries@[j]).1@ == m.types[entries@[j].0],
                forall|a: int, b: int| 0 <= a < entries@.len() && 0 <= b < entries@.len() && a != b ==> (#[trigger] entries@[a]).0 != (#[trigger] entries@[b]).0,
                total == m.ids_among(keys_before(entries@, i as int)).len(),
            decreases entries@.len() - i,
        {
            let k = entries[i].0;
            proof {
                assert(keys_before(entries@, i + 1) =~= keys_before(entries@, i as int).insert(k)) by {
                    assert(entries@[i as int].0 == k);
                }
                if keys_before(entries@, i as int).contains(k) {
                    let j = choose|j: int| 0 <= j < i && (#[trigger] entries@[j]).0 == k;
                    assert(entries@[j].0 == entries@[i as int].0);
                }
                lemma_ids_among_insert(m, keys_before(entries@, i as int), k);
                lemma_ids_among_bounded(m, keys_before(entries@, i + 1));
            }
            total = total + entries[i].1.len();
            i = i + 1;
        }
        proof {
            assert(keys_before(entries@, i as int) =~= m.types.dom()) by {
                assert forall|k: u64| m.types.contains_key(k) implies keys_before(entries@, i as int).contains(k) by {
                    let j = choose|j: int| 0 <= j < entries@.len() && (#[trigger] entries@[j]).0 == k;
                }
            }
        }
        total
    }

    /// Emits an event of type `type_id`: returns the listeners it reaches,
    /// each once, and removes those among them that fire only once. The
    /// caller runs the handlers of the returned listeners.
    pub fn emit(&mut self, type_id: u64) -> (fired: Vec<Listener>)
        requires
            old(self)@.wf(),
        ensures
            final(self)@ == old(self)@.after_emit(type_id),
            final(self)@.types.dom() == old(self)@.types.dom(),
            !old(self)@.types.contains_key(type_id) ==> final(self)@ == old(self)@,
            forall|k: u64| k != type_id && #[trigger] old(self)@.types.contains_key(k) ==> final(self)@.types[k] == old(self)@.types[k],
            final(self)@.wf(),
            lists_listeners(fired@, type_id, old(self)@.listeners_of(type_id)),
    {
        let ghost m = self@;
        let listeners = match table_get(&self.events, type_id) {
            Some(listeners) => listeners,
            None => {
                return Vec::new();
            },
        };
        let fired = listeners_in(&listeners, type_id);
        let mut to_remove: Vec<usize> = Vec::new();
        let mut i: usize = 0;
        while i < fired.len()
            invariant
                i <= fired@.len(),
                lists_listeners(fired@, type_id, listeners@),
                forall|id: usize| to_remove@.contains(id) <==> exists|j: int| 0 <= j < i && (#[trigger] fired@[j]).id.id == id && fired@[j].once,
            decreases fired@.len() - i,
        {
            let ghost before = to_remove@;
            if fired[i].once {
                to_remove.push(fired[i].id.id);
            }
            proof {
                assert forall|id: usize| to_remove@.contains(id) <==> exists|j: int| 0 <= j < i + 1 && (#[trigger] fired@[j]).id.id == id && fired@[j].once by {
                    if to_remove@.contains(id) {
                        if before.contains(id) {
                            let j = choose|j: int| 0 <= j < i && (#[trigger] fired@[j]).id.id == id && fired@[j].once;
                            assert(0 <= j < i + 1 && fired@[j].id.id == id && fired@[j].once);
                        } else {
                            assert(fired@[i as int].once);
                            assert(to_remove@ == before.push(fired@[i as int].id.id));
                            let k = choose|k: int| 0 <= k < to_remove@.len() && to_remove@[k] == id;
                            if k < before.len() {
                                assert(before[k] == id);
                            }
                            assert(fired@[i as int].id.id == id);
                        }
                    }
                    if exists|j: int| 0 <= j < i + 1 && (#[trigger] fired@[j]).id.id == id && fired@[j].once {
                        let j = choose|j: int| 0 <= j < i + 1 && (#[trigger] fired@[j]).id.id == id && fired@[j].once;
                        if j < i {
                            assert(before.contains(id));
                            let k = choose|k: int| 0 <= k < before.len() && before[k] == id;
                            if fired@[i as int].once {
                                assert(to_remove@ == before.push(fired@[i as int].id.id));
                            }
                            assert(to_remove@[k] == id);
                        } else {
                            assert(to_remove@ == before.push(fired@[i as int].id.id));
                            assert(to_remove@[before.len() as int] == id);
                        }
                    }
                }
            }
            i = i + 1;
        }
        if to_remove.len() > 0 {
            let mut kept = listeners;
            let mut j: usize = 0;
            while j < to_remove.len()
                invariant
                    j <= to_remove@.len(),
                    forall|id: usize| #[trigger] kept@.contains_key(id) <==> listeners@.contains_key(id) && !to_remove@.take(j as int).contains(id),
                    forall|id: usize| #[trigger] kept@.contains_key(id) ==> kept@[id] == listeners@[id],
                decreases to_remove@.len() - j,
            {
                let ghost before = kept@;
                kept.remove(&to_remove[j]);
                proof {
                    assert(kept@ == before.remove(to_remove@[j as int]));
                    assert(to_remove@.take(j + 1) =~= to_remove@.take(j as int).push(to_remove@[j as int]));
                    assert forall|id: usize| #[trigger] kept@.contains_key(id) <==> listeners@.contains_key(id) && !to_remove@.take(j + 1).contains(id) by {
                        if to_remove@.take(j as int).contains(id) {
                            let k = choose|k: int| 0 <= k < j && (#[trigger] to_remove@.take(j as int)[k]) == id;
                            assert(to_remove@.take(j + 1)[k] == id);
                        }
                        if to_remove@.take(j + 1).contains(id) && id != to_remove@[j as int] {
                            let k = choose|k: int| 0 <= k < j + 1 && (#[trigger] to_remove@.take(j + 1)[k]) == id;
                            assert(to_remove@.take(j as int)[k] == id);
                        }
                        if id == to_remove@[j as int] {
                            assert(to_remove@.take(j + 1)[j as int] == id);
                        }
                    }
                }
                j = j + 1;
            }
            proof {
                assert(to_remove@.take(j as int) =~= to_remove@);
                assert(kept@ =~= persistent(listeners@)) by {
                    assert forall|id: usize| #[trigger] kept@.contains_key(id) <==> persistent(listeners@).contains_key(id) by {
                        if listeners@.contains_key(id) {
                            let k = choose|k: int| 0 <= k < fired@.len() && (#[trigger] fired@[k]).id.id == id;
                            if to_remove@.contains(id) {
                                let k2 = choose|k2: int| 0 <= k2 < i && (#[trigger] fired@[k2]).id.id == id && fired@[k2].once;
                            }
                        }
                    }
                }
            }
            table_insert(&mut self.events, type_id, kept);
        } else {
            proof {
                assert(persistent(listeners@) =~= listeners@) by {
                    assert forall|id: usize| #[trigger] listeners@.contains_key(id) implies !listeners@[id] by {
                        let k = choose|k: int| 0 <= k < fired@.len() && (#[trigger] fired@[k]).id.id == id;
                        if listeners@[id] {
                            assert(to_remove@.contains(id));
                        }
                    }
                }
                assert(m.types.insert(type_id, listeners@) =~= m.types);
            }
        }
        proof {
            assert(self@.types =~= m.after_emit(type_id).types);
        }
        fired
    }
}

} // verus!
