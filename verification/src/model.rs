//! The mathematical model of an event emitter: which listeners are
//! registered for which event type, and the number the next listener
//! will be registered under.

use vstd::prelude::*;
use crate::listener::ListenerId;

verus! {

/// The abstract state of an `EventEmitter`.
pub struct EmitterModel {
    /// For each event type that ever had a listener registered: the map
    /// from listener id to whether that listener fires only once.
    pub types: Map<u64, Map<usize, bool>>,
    /// The id that the next registered listener receives.
    pub next_id: nat,
}

/// One operation on an emitter, as its model sees it.
pub enum Op {
    /// `on` for an event type.
    On(u64),
    /// `once` for an event type.
    Once(u64),
    /// `emit` of an event type.
    Emit(u64),
    /// `remove_listener` (or `off`) of a listener.
    Remove(ListenerId),
}

/// The number of operations in `ops` that register a listener.
pub open spec fn adds(ops: Seq<Op>) -> nat
    decreases ops.len(),
{
    if ops.len() == 0 {
        0
    } else {
        adds(ops.drop_last()) + match ops.last() {
            Op::On(_) | Op::Once(_) => 1nat,
            _ => 0nat,
        }
    }
}

/// The listeners of a map that stay registered after an event: those
/// that are not "once" listeners.
pub open spec fn persistent(listeners: Map<usize, bool>) -> Map<usize, bool> {
    Map::new(|id: usize| listeners.contains_key(id) && !listeners[id], |id: usize| listeners[id])
}

impl EmitterModel {
    /// The state of a freshly created emitter.
    pub open spec fn empty() -> Self {
        EmitterModel { types: Map::empty(), next_id: 0 }
    }

    /// Every registered id is below `next_id`, and no id is registered
    /// for two event types.
    pub open spec fn wf(self) -> bool {
        &&& self.types.dom().finite()
        &&& forall|k: u64| #[trigger] self.types.contains_key(k) ==> self.types[k].dom().finite()
        &&& forall|k: u64, id: usize|
            self.types.contains_key(k) && #[trigger] self.types[k].contains_key(id) ==> id < self.next_id
        &&& forall|k1: u64, k2: u64, id: usize|
            self.types.contains_key(k1) && self.types.contains_key(k2)
                && #[trigger] self.types[k1].contains_key(id) && #[trigger] self.types[k2].contains_key(id)
                ==> k1 == k2
    }

    /// The listeners registered for event type `k` (none if the type never
    /// had one).
    pub open spec fn listeners_of(self, k: u64) -> Map<usize, bool> {
        if self.types.contains_key(k) { self.types[k] } else { Map::empty() }
    }

    /// Whether the listener `lid` is registered.
    pub open spec fn has_listener(self, lid: ListenerId) -> bool {
        self.types.contains_key(lid.type_id) && self.types[lid.type_id].contains_key(lid.id)
    }

    /// The ids of the listeners registered for some type in `keys`.
    pub open spec fn ids_among(self, keys: Set<u64>) -> Set<usize> {
        Set::new(|id: usize| exists|k: u64| keys.contains(k) && #[trigger] self.listeners_of(k).contains_key(id))
    }

    /// The ids of all registered listeners.
    pub open spec fn listener_ids(self) -> Set<usize> {
        self.ids_among(self.types.dom())
    }

    /// The number of registered listeners, over all event types.
    pub open spec fn count(self) -> nat {
        self.listener_ids().len()
    }

    /// The state after registering a listener for type `k`.
    pub open spec fn add(self, k: u64, once: bool) -> Self {
        EmitterModel {
            types: self.types.insert(k, self.listeners_of(k).insert(self.next_id as usize, once)),
            next_id: self.next_id + 1,
        }
    }

    /// The state after removing listener `lid`: its type keeps its entry,
    /// possibly with no listener left.
    pub open spec fn remove(self, lid: ListenerId) -> Self {
        if self.types.contains_key(lid.type_id) {
            EmitterModel {
                types: self.types.insert(lid.type_id, self.types[lid.type_id].remove(lid.id)),
                next_id: self.next_id,
            }
        } else {
            self
        }
    }

    /// The state after one operation.
    pub open spec fn step(self, op: Op) -> Self {
        match op {
            Op::On(k) => self.add(k, false),
            Op::Once(k) => self.add(k, true),
            Op::Emit(k) => self.after_emit(k),
            Op::Remove(lid) => self.remove(lid),
        }
    }

    /// The state after the operations of `ops`, in order.
    pub open spec fn run(self, ops: Seq<Op>) -> Self
        decreases ops.len(),
    {
        if ops.len() == 0 {
            self
        } else {
            self.run(ops.drop_last()).step(ops.last())
        }
    }

    /// The state after an event of type `k`: its "once" listeners are gone.
    pub open spec fn after_emit(self, k: u64) -> Self {
        if self.types.contains_key(k) {
            EmitterModel { types: self.types.insert(k, persistent(self.types[k])), next_id: self.next_id }
        } else {
            self
        }
    }
}

/// The ids below `n`.
pub open spec fn ids_below(n: nat) -> Set<usize> {
    Set::new(|id: usize| id < n)
}

/// There are at most `n` ids below `n`.
pub proof fn lemma_ids_below(n: nat)
    ensures
        ids_below(n).finite(),
        ids_below(n).len() <= n,
    decreases n,
{
    if n == 0 {
        assert(ids_below(0) =~= Set::<usize>::empty());
    } else {
        let m = (n - 1) as nat;
        lemma_ids_below(m);
        if m <= usize::MAX {
            assert(ids_below(n) =~= ids_below(m).insert(m as usize));
        } else {
            assert(ids_below(n) =~= ids_below(m));
        }
    }
}

/// In a well-formed state the registered ids, among any set of types,
/// are finitely many and no more than `next_id`.
pub proof fn lemma_ids_among_bounded(m: EmitterModel, keys: Set<u64>)
    requires
        m.wf(),
    ensures
        m.ids_among(keys).finite(),
        m.ids_among(keys).len() <= m.next_id,
{
    lemma_ids_below(m.next_id);
    assert(m.ids_among(keys).subset_of(ids_below(m.next_id)));
    vstd::set_lib::lemma_len_subset(m.ids_among(keys), ids_below(m.next_id));
}

/// Adding a registered type to a set of types adds exactly its listeners
/// to the ids among them.
pub proof fn lemma_ids_among_insert(m: EmitterModel, keys: Set<u64>, k: u64)
    requires
        m.wf(),
        !keys.contains(k),
        m.types.contains_key(k),
    ensures
        m.ids_among(keys.insert(k)).len() == m.ids_among(keys).len() + m.types[k].len(),
{
    let a = m.ids_among(keys);
    let b = m.types[k].dom();
    assert(m.ids_among(keys.insert(k)) =~= a + b) by {
        assert forall|id: usize| m.ids_among(keys.insert(k)).contains(id) implies (a + b).contains(id) by {
            let k2 = choose|k2: u64| keys.insert(k).contains(k2) && #[trigger] m.listeners_of(k2).contains_key(id);
            if k2 != k {
                assert(keys.contains(k2) && m.listeners_of(k2).contains_key(id));
            }
        }
        assert forall|id: usize| (a + b).contains(id) implies m.ids_among(keys.insert(k)).contains(id) by {
            if b.contains(id) {
                assert(keys.insert(k).contains(k) && m.listeners_of(k).contains_key(id));
            } else {
                let k2 = choose|k2: u64| keys.contains(k2) && #[trigger] m.listeners_of(k2).contains_key(id);
                assert(keys.insert(k).contains(k2) && m.listeners_of(k2).contains_key(id));
            }
        }
    }
    assert(a.disjoint(b)) by {
        assert forall|id: usize| a.contains(id) implies !b.contains(id) by {
            let k2 = choose|k2: u64| keys.contains(k2) && #[trigger] m.listeners_of(k2).contains_key(id);
            assert(m.types.contains_key(k2));
            if b.contains(id) {
                assert(m.types[k2].contains_key(id) && m.types[k].contains_key(id));
            }
        }
    }
    lemma_ids_among_bounded(m, keys);
    vstd::set_lib::lemma_set_disjoint_lens(a, b);
}

} // verus!
