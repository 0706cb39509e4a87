//! Listener identifiers and the listener records that the registry hands out.

use std::collections::HashMap;
use vstd::prelude::*;
use vstd::std_specs::iter::IteratorSpec;

verus! {

broadcast use vstd::std_specs::hash::group_hash_axioms;

/// Unique identifier for each listener: the number it was registered
/// under and the key of the event type it listens to.
#[derive(Clone, Copy, Debug, PartialEq, Eq, Hash, Structural)]
pub struct ListenerId {
    pub id: usize,
    pub type_id: u64,
}

/// A registered listener: its identifier and whether it is removed after
/// the first event it handles.
#[derive(Clone, Copy, Debug, PartialEq, Eq, Structural)]
pub struct Listener {
    pub id: ListenerId,
    pub once: bool,
}

impl Listener {
    /// Creates the record of a listener.
    pub fn new(once: bool, listener_id: ListenerId) -> (l: Self)
        ensures
            l.id == listener_id,
            l.once == once,
    {
        Listener { id: listener_id, once }
    }
}

/// `v` lists, each exactly once, the listeners of event type `type_id`
/// whose ids and "once" flags `listeners` holds.
pub open spec fn lists_listeners(v: Seq<Listener>, type_id: u64, listeners: Map<usize, bool>) -> bool {
    &&& v.len() == listeners.len()
    &&& forall|i: int| 0 <= i < v.len() ==> (#[trigger] v[i]).id.type_id == type_id
    &&& forall|i: int| 0 <= i < v.len() ==> listeners.contains_key((#[trigger] v[i]).id.id)
    &&& forall|i: int| 0 <= i < v.len() ==> (#[trigger] v[i]).once == listeners[v[i].id.id]
    &&& forall|i: int, j: int| 0 <= i < v.len() && 0 <= j < v.len() && i != j ==> (#[trigger] v[i]).id.id != (#[trigger] v[j]).id.id
    &&& forall|id: usize| #[trigger] listeners.contains_key(id) ==> exists|i: int| 0 <= i < v.len() && (#[trigger] v[i]).id.id == id
}

/// Lists the listeners of event type `type_id` held in `listeners`, in the
/// order in which the map hands out its entries.
pub(crate) fn listeners_in(listeners: &HashMap<usize, bool>, type_id: u64) -> (v: Vec<Listener>)
    ensures
        lists_listeners(v@, type_id, listeners@),
{
    let mut v: Vec<Listener> = Vec::new();
    for entry in it: listeners.iter()
        invariant
            v@.len() == it.index(),
            it.seq() == vstd::std_specs::hash::spec_hash_map_iter(listeners).remaining(),
            forall|i: int| 0 <= i < v@.len() ==> (#[trigger] v@[i]) == (Listener { id: ListenerId { id: *it.seq()[i].0, type_id }, once: *it.seq()[i].1 }),
    {
        let (id, once) = entry;
        v.push(Listener { id: ListenerId { id: *id, type_id }, once: *once });
    }
    proof {
        let pairs = vstd::std_specs::hash::spec_hash_map_iter(listeners).remaining();
        assert(pairs.len() == listeners@.dom().len());
        assert forall|i: int| 0 <= i < v@.len() implies listeners@.contains_key((#[trigger] v@[i]).id.id)
            && v@[i].once == listeners@[v@[i].id.id] by {
            assert(listeners@.contains_key(*pairs[i].0));
        }
        assert forall|i: int, j: int| 0 <= i < v@.len() && 0 <= j < v@.len() && i != j
            implies (#[trigger] v@[i]).id.id != (#[trigger] v@[j]).id.id by {
            assert(listeners@.contains_key(*pairs[i].0));
            assert(listeners@.contains_key(*pairs[j].0));
            assert(pairs.no_duplicates());
        }
        assert forall|id: usize| #[trigger] listeners@.contains_key(id)
            implies exists|i: int| 0 <= i < v@.len() && (#[trigger] v@[i]).id.id == id by {
            assert(pairs.contains((&id, &listeners@[id])));
            let i = choose|i: int| 0 <= i < pairs.len() && pairs[i] == (&id, &listeners@[id]);
            assert(v@[i].id.id == id);
        }
    }
    v
}

} // verus!
