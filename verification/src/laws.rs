//! What holds of the emitter across its operations, stated over its model.

use vstd::prelude::*;
use crate::listener::ListenerId;
use crate::model::{EmitterModel, Op, adds, lemma_ids_among_bounded};

verus! {

/// Registering, removing and emitting keep the emitter well formed: ids
/// stay below the counter and no id belongs to two event types.
pub proof fn law_operations_keep_wf(m: EmitterModel, k: u64, once: bool, lid: ListenerId)
    requires
        m.wf(),
    ensures
        m.next_id <= usize::MAX ==> m.add(k, once).wf(),
        m.remove(lid).wf(),
        m.after_emit(k).wf(),
{
    if m.types.contains_key(k) {
        let p = crate::model::persistent(m.types[k]);
        assert(p.dom().subset_of(m.types[k].dom()));
        vstd::set_lib::lemma_len_subset(p.dom(), m.types[k].dom());
    }
}

/// A new listener gets an id that no registered listener has, and it is
/// registered for its type with its "once" flag.
pub proof fn law_new_listener_is_fresh(m: EmitterModel, k: u64, once: bool)
    requires
        m.wf(),
        m.next_id <= usize::MAX,
    ensures
        !m.listener_ids().contains(m.next_id as usize),
        m.add(k, once).has_listener(ListenerId { id: m.next_id as usize, type_id: k }),
        m.add(k, once).listeners_of(k)[m.next_id as usize] == once,
        forall|k2: u64| k2 != k ==> #[trigger] m.add(k, once).listeners_of(k2) == m.listeners_of(k2),
{
    if m.listener_ids().contains(m.next_id as usize) {
        let k2 = choose|k2: u64| m.types.dom().contains(k2) && #[trigger] m.listeners_of(k2).contains_key(m.next_id as usize);
        assert(m.types[k2].contains_key(m.next_id as usize));
    }
}

/// Registering a listener adds one to the number of listeners.
pub proof fn law_add_counts_one(m: EmitterModel, k: u64, once: bool)
    requires
        m.wf(),
        m.next_id <= usize::MAX,
    ensures
        m.add(k, once).count() == m.count() + 1,
{
    let m2 = m.add(k, once);
    let id = m.next_id as usize;
    law_new_listener_is_fresh(m, k, once);
    assert(m2.listener_ids() =~= m.listener_ids().insert(id)) by {
        assert forall|x: usize| m2.listener_ids().contains(x) implies m.listener_ids().insert(id).contains(x) by {
            let k2 = choose|k2: u64| m2.types.dom().contains(k2) && #[trigger] m2.listeners_of(k2).contains_key(x);
            if x != id {
                assert(m.types.dom().contains(k2) && m.listeners_of(k2).contains_key(x));
            }
        }
        assert forall|x: usize| m.listener_ids().insert(id).contains(x) implies m2.listener_ids().contains(x) by {
            if x == id {
                assert(m2.types.dom().contains(k) && m2.listeners_of(k).contains_key(x));
            } else {
                let k2 = choose|k2: u64| m.types.dom().contains(k2) && #[trigger] m.listeners_of(k2).contains_key(x);
                assert(m2.types.dom().contains(k2) && m2.listeners_of(k2).contains_key(x));
            }
        }
    }
    lemma_ids_among_bounded(m, m.types.dom());
}

/// A removed listener is no longer registered, so no later event reaches
/// it; the other listeners stay as they were.
pub proof fn law_removed_listener_is_gone(m: EmitterModel, lid: ListenerId)
    requires
        m.wf(),
    ensures
        !m.remove(lid).has_listener(lid),
        forall|other: ListenerId| other != lid ==> (#[trigger] m.remove(lid).has_listener(other) <==> m.has_listener(other)),
        forall|k: u64, id: usize| #[trigger] m.remove(lid).listeners_of(k).contains_key(id) ==> m.remove(lid).listeners_of(k)[id] == m.listeners_of(k)[id],
{
}

/// Removing a registered listener takes one from the number of
/// listeners; removing one that is not registered changes nothing.
pub proof fn law_remove_counts(m: EmitterModel, lid: ListenerId)
    requires
        m.wf(),
    ensures
        m.has_listener(lid) ==> m.remove(lid).count() + 1 == m.count(),
        !m.has_listener(lid) ==> m.remove(lid).count() == m.count(),
{
    let m2 = m.remove(lid);
    if m.has_listener(lid) {
        assert(m2.listener_ids() =~= m.listener_ids().remove(lid.id)) by {
            assert forall|x: usize| m2.listener_ids().contains(x) implies m.listener_ids().remove(lid.id).contains(x) by {
                let k2 = choose|k2: u64| m2.types.dom().contains(k2) && #[trigger] m2.listeners_of(k2).contains_key(x);
                assert(m.types.dom().contains(k2) && m.listeners_of(k2).contains_key(x));
            }
            assert forall|x: usize| m.listener_ids().remove(lid.id).contains(x) implies m2.listener_ids().contains(x) by {
                let k2 = choose|k2: u64| m.types.dom().contains(k2) && #[trigger] m.listeners_of(k2).contains_key(x);
                assert(m2.types.dom().contains(k2) && m2.listeners_of(k2).contains_key(x));
            }
        }
        assert(m.listener_ids().contains(lid.id)) by {
            assert(m.types.dom().contains(lid.type_id) && m.listeners_of(lid.type_id).contains_key(lid.id));
        }
        lemma_ids_among_bounded(m, m.types.dom());
    } else {
        assert(m2.listener_ids() =~= m.listener_ids()) by {
            assert forall|x: usize| m2.listener_ids().contains(x) implies m.listener_ids().contains(x) by {
                let k2 = choose|k2: u64| m2.types.dom().contains(k2) && #[trigger] m2.listeners_of(k2).contains_key(x);
                assert(m.types.dom().contains(k2) && m.listeners_of(k2).contains_key(x));
            }
            assert forall|x: usize| m.listener_ids().contains(x) implies m2.listener_ids().contains(x) by {
                let k2 = choose|k2: u64| m.types.dom().contains(k2) && #[trigger] m.listeners_of(k2).contains_key(x);
                assert(m2.types.dom().contains(k2) && m2.listeners_of(k2).contains_key(x));
            }
        }
    }
}

/// Removing a listener right after registering it leaves every event
/// type with the listeners it had before, and the count unchanged.
pub proof fn law_remove_undoes_add(m: EmitterModel, k: u64, once: bool)
    requires
        m.wf(),
        m.next_id <= usize::MAX,
    ensures
        forall|k2: u64| #[trigger] m.add(k, once).remove(ListenerId { id: m.next_id as usize, type_id: k }).listeners_of(k2) == m.listeners_of(k2),
        m.add(k, once).remove(ListenerId { id: m.next_id as usize, type_id: k }).count() == m.count(),
{
    let lid = ListenerId { id: m.next_id as usize, type_id: k };
    let m2 = m.add(k, once).remove(lid);
    law_new_listener_is_fresh(m, k, once);
    assert forall|k2: u64| #[trigger] m2.listeners_of(k2) == m.listeners_of(k2) by {
        if k2 == k {
            if m.types.contains_key(k) {
                assert(!m.types[k].contains_key(lid.id));
            }
            assert(m2.listeners_of(k) =~= m.listeners_of(k));
        }
    }
    law_add_counts_one(m, k, once);
    law_operations_keep_wf(m, k, once, lid);
    law_remove_counts(m.add(k, once), lid);
}

/// An event reaches a listener registered with `once`, and the next event
/// of the same type no longer does: such a listener is handled at most once.
pub proof fn law_once_listener_fires_once(m: EmitterModel, k: u64)
    requires
        m.wf(),
        m.next_id <= usize::MAX,
    ensures
        m.add(k, true).listeners_of(k).contains_key(m.next_id as usize),
        !m.add(k, true).after_emit(k).listeners_of(k).contains_key(m.next_id as usize),
{
}

/// After an event of type `k`, no listener of `k` fires only once: a
/// second event reaches exactly the listeners that the first one left,
/// and changes nothing more.
pub proof fn law_emit_twice_is_emit_once(m: EmitterModel, k: u64)
    requires
        m.wf(),
    ensures
        forall|id: usize| #[trigger] m.after_emit(k).listeners_of(k).contains_key(id) ==> !m.after_emit(k).listeners_of(k)[id],
        m.after_emit(k).after_emit(k) == m.after_emit(k),
{
    if m.types.contains_key(k) {
        let m1 = m.after_emit(k);
        assert(crate::model::persistent(m1.types[k]) =~= m1.types[k]);
        assert(m1.types.insert(k, m1.types[k]) =~= m1.types);
    }
}

/// A listener registered with `on` keeps receiving events: an event of its
/// type leaves it registered, and an event only changes the listeners of
/// its own type.
pub proof fn law_emit_keeps_persistent_listeners(m: EmitterModel, k: u64)
    requires
        m.wf(),
    ensures
        forall|id: usize| #[trigger] m.listeners_of(k).contains_key(id) && !m.listeners_of(k)[id]
            ==> m.after_emit(k).listeners_of(k).contains_key(id) && !m.after_emit(k).listeners_of(k)[id],
        forall|k2: u64| k2 != k ==> #[trigger] m.after_emit(k).listeners_of(k2) == m.listeners_of(k2),
        m.after_emit(k).next_id == m.next_id,
{
}

/// The state after the first `j + 1` operations is the state after the
/// first `j`, then operation `j`; the count of registrations grows by one
/// exactly when operation `j` registers.
pub proof fn lemma_run_prefix(m: EmitterModel, ops: Seq<Op>, j: int)
    requires
        0 <= j < ops.len(),
    ensures
        m.run(ops.take(j + 1)) == m.run(ops.take(j)).step(ops[j]),
        adds(ops.take(j + 1)) == adds(ops.take(j)) + (if ops[j] is On || ops[j] is Once { 1nat } else { 0nat }),
{
    assert(ops.take(j + 1).drop_last() =~= ops.take(j));
}

/// A prefix of the operations registers no more listeners than all of them.
pub proof fn lemma_adds_prefix(ops: Seq<Op>, j: int)
    requires
        0 <= j <= ops.len(),
    ensures
        adds(ops.take(j)) <= adds(ops),
    decreases ops.len() - j,
{
    if j == ops.len() {
        assert(ops.take(j) =~= ops);
    } else {
        lemma_adds_prefix(ops, j + 1);
        lemma_run_prefix(EmitterModel::empty(), ops, j);
    }
}

/// The counter grows by one for each registration, whatever else happens.
pub proof fn law_counter_counts_registrations(m: EmitterModel, ops: Seq<Op>)
    ensures
        m.run(ops).next_id == m.next_id + adds(ops),
    decreases ops.len(),
{
    if ops.len() > 0 {
        law_counter_counts_registrations(m, ops.drop_last());
    }
}

/// On a fresh emitter, listener ids count up from 0 in call order: the
/// `j`-th operation, if it registers, registers the listener whose id is
/// the number of registrations before it.
pub proof fn law_ids_count_up(ops: Seq<Op>, j: int)
    requires
        0 <= j < ops.len(),
        adds(ops.take(j)) <= usize::MAX,
    ensures
        EmitterModel::empty().run(ops.take(j)).next_id == adds(ops.take(j)),
        ops[j] matches Op::On(k) ==> EmitterModel::empty().run(ops.take(j + 1)).has_listener(ListenerId { id: adds(ops.take(j)) as usize, type_id: k }),
        ops[j] matches Op::Once(k) ==> EmitterModel::empty().run(ops.take(j + 1)).has_listener(ListenerId { id: adds(ops.take(j)) as usize, type_id: k }),
{
    law_counter_counts_registrations(EmitterModel::empty(), ops.take(j));
    lemma_run_prefix(EmitterModel::empty(), ops, j);
}

/// Along any run whose ids all fit in a `usize`, every intermediate state
/// is well formed and its counter is the initial one plus the
/// registrations so far.
pub proof fn lemma_prefix_state(m: EmitterModel, ops: Seq<Op>, j: int)
    requires
        m.wf(),
        m.next_id + adds(ops) <= usize::MAX + 1,
        0 <= j <= ops.len(),
    ensures
        m.run(ops.take(j)).wf(),
        m.run(ops.take(j)).next_id == m.next_id + adds(ops.take(j)),
        adds(ops.take(j)) <= adds(ops),
    decreases j,
{
    lemma_adds_prefix(ops, j);
    law_counter_counts_registrations(m, ops.take(j));
    if j == 0 {
        assert(ops.take(0) =~= Seq::<Op>::empty());
    } else {
        lemma_prefix_state(m, ops, j - 1);
        lemma_run_prefix(m, ops, j - 1);
        let s = m.run(ops.take(j - 1));
        match ops[j - 1] {
            Op::On(k) => law_operations_keep_wf(s, k, false, ListenerId { id: 0, type_id: 0 }),
            Op::Once(k) => law_operations_keep_wf(s, k, true, ListenerId { id: 0, type_id: 0 }),
            Op::Emit(k) => law_operations_keep_wf(s, k, false, ListenerId { id: 0, type_id: 0 }),
            Op::Remove(lid) => law_operations_keep_wf(s, 0, false, lid),
        }
    }
}

/// A listener that is not registered, with an id already handed out, stays
/// unregistered from state `i` of a run to state `j`.
proof fn lemma_absent_from(m: EmitterModel, ops: Seq<Op>, lid: ListenerId, i: int, j: int)
    requires
        m.wf(),
        m.next_id + adds(ops) <= usize::MAX + 1,
        0 <= i <= j <= ops.len(),
        lid.id < m.run(ops.take(i)).next_id,
        !m.run(ops.take(i)).has_listener(lid),
    ensures
        !m.run(ops.take(j)).has_listener(lid),
    decreases j - i,
{
    if j > i {
        lemma_absent_from(m, ops, lid, i, j - 1);
        lemma_prefix_state(m, ops, j - 1);
        lemma_prefix_state(m, ops, i);
        lemma_adds_prefix(ops.take(j - 1), i);
        assert(ops.take(j - 1).take(i) =~= ops.take(i));
        lemma_prefix_state(m, ops, j);
        lemma_run_prefix(m, ops, j - 1);
        let s = m.run(ops.take(j - 1));
        assert(lid.id < s.next_id);
        match ops[j - 1] {
            Op::On(_) => {
                assert(s.next_id <= usize::MAX);
                assert((s.next_id as usize) != lid.id);
            },
            Op::Once(_) => {
                assert(s.next_id <= usize::MAX);
                assert((s.next_id as usize) != lid.id);
            },
            Op::Emit(_) | Op::Remove(_) => {},
        }
    }
}

/// A registered listener stays registered, with its flag, through a run
/// that never removes it and, if it fires only once, never emits its type.
pub proof fn law_listener_stays_registered(m: EmitterModel, ops: Seq<Op>, lid: ListenerId)
    requires
        m.wf(),
        m.next_id + adds(ops) <= usize::MAX + 1,
        m.has_listener(lid),
        forall|i: int| 0 <= i < ops.len() ==> ops[i] != Op::Remove(lid),
        m.types[lid.type_id][lid.id] ==> forall|i: int| 0 <= i < ops.len() ==> ops[i] != Op::Emit(lid.type_id),
    ensures
        forall|j: int| #![trigger m.run(ops.take(j))] 0 <= j <= ops.len() ==> m.run(ops.take(j)).has_listener(lid)
            && m.run(ops.take(j)).types[lid.type_id][lid.id] == m.types[lid.type_id][lid.id],
{
    assert forall|j: int| #![trigger m.run(ops.take(j))] 0 <= j <= ops.len() implies m.run(ops.take(j)).has_listener(lid)
        && m.run(ops.take(j)).types[lid.type_id][lid.id] == m.types[lid.type_id][lid.id] by {
        lemma_stays_to(m, ops, lid, j);
    }
}

proof fn lemma_stays_to(m: EmitterModel, ops: Seq<Op>, lid: ListenerId, j: int)
    requires
        m.wf(),
        m.next_id + adds(ops) <= usize::MAX + 1,
        m.has_listener(lid),
        forall|i: int| 0 <= i < ops.len() ==> ops[i] != Op::Remove(lid),
        m.types[lid.type_id][lid.id] ==> forall|i: int| 0 <= i < ops.len() ==> ops[i] != Op::Emit(lid.type_id),
        0 <= j <= ops.len(),
    ensures
        m.run(ops.take(j)).has_listener(lid),
        m.run(ops.take(j)).types[lid.type_id][lid.id] == m.types[lid.type_id][lid.id],
    decreases j,
{
    if j == 0 {
        assert(ops.take(0) =~= Seq::<Op>::empty());
    } else {
        lemma_stays_to(m, ops, lid, j - 1);
        lemma_prefix_state(m, ops, j - 1);
        lemma_prefix_state(m, ops, j);
        lemma_run_prefix(m, ops, j - 1);
        assert(ops[j - 1] != Op::Remove(lid));
    }
}

/// A listener registered with `on` is reached by every later event of its
/// type until it is removed: at each emit of its type it is registered.
pub proof fn law_on_listener_reached_by_every_emit(m: EmitterModel, ops: Seq<Op>, lid: ListenerId)
    requires
        m.wf(),
        m.next_id + adds(ops) <= usize::MAX + 1,
        m.has_listener(lid),
        !m.types[lid.type_id][lid.id],
        forall|i: int| 0 <= i < ops.len() ==> ops[i] != Op::Remove(lid),
    ensures
        forall|j: int| 0 <= j < ops.len() && ops[j] == Op::Emit(lid.type_id)
            ==> #[trigger] m.run(ops.take(j)).listeners_of(lid.type_id).contains_key(lid.id),
        m.run(ops).has_listener(lid),
{
    law_listener_stays_registered(m, ops, lid);
    assert forall|j: int| 0 <= j < ops.len() && ops[j] == Op::Emit(lid.type_id)
        implies #[trigger] m.run(ops.take(j)).listeners_of(lid.type_id).contains_key(lid.id) by {
        assert(m.run(ops.take(j)).has_listener(lid));
    }
    assert(ops.take(ops.len() as int) =~= ops);
    assert(m.run(ops.take(ops.len() as int)).has_listener(lid));
}

/// A listener that fires only once is reached by at most one event: once
/// an event of its type reaches it, no later state of the run holds it,
/// so no later emit reaches it.
pub proof fn law_once_listener_reached_at_most_once(m: EmitterModel, ops: Seq<Op>, lid: ListenerId, i: int)
    requires
        m.wf(),
        m.next_id + adds(ops) <= usize::MAX + 1,
        0 <= i < ops.len(),
        m.run(ops.take(i)).has_listener(lid),
        m.run(ops.take(i)).types[lid.type_id][lid.id],
        ops[i] == Op::Emit(lid.type_id),
    ensures
        forall|j: int| i < j <= ops.len() ==> !(#[trigger] m.run(ops.take(j)).has_listener(lid)),
{
    lemma_prefix_state(m, ops, i);
    lemma_prefix_state(m, ops, i + 1);
    lemma_run_prefix(m, ops, i);
    assert forall|j: int| i < j <= ops.len() implies !(#[trigger] m.run(ops.take(j)).has_listener(lid)) by {
        lemma_absent_from(m, ops, lid, i + 1, j);
    }
}

/// A removed listener is reached by no later event: no state of the run
/// after its removal holds it.
pub proof fn law_removed_listener_never_returns(m: EmitterModel, ops: Seq<Op>, lid: ListenerId, i: int)
    requires
        m.wf(),
        m.next_id + adds(ops) <= usize::MAX + 1,
        0 <= i < ops.len(),
        m.run(ops.take(i)).has_listener(lid),
        ops[i] == Op::Remove(lid),
    ensures
        forall|j: int| i < j <= ops.len() ==> !(#[trigger] m.run(ops.take(j)).has_listener(lid)),
{
    lemma_prefix_state(m, ops, i);
    lemma_prefix_state(m, ops, i + 1);
    lemma_run_prefix(m, ops, i);
    assert forall|j: int| i < j <= ops.len() implies !(#[trigger] m.run(ops.take(j)).has_listener(lid)) by {
        lemma_absent_from(m, ops, lid, i + 1, j);
    }
}

/// A fresh emitter knows no event type: no type has an entry, no
/// listener is registered, and the first id is 0.
pub proof fn law_fresh_emitter_has_no_types()
    ensures
        EmitterModel::empty().types.dom() == Set::<u64>::empty(),
        forall|k: u64| !#[trigger] EmitterModel::empty().types.contains_key(k),
        EmitterModel::empty().count() == 0,
        EmitterModel::empty().next_id == 0,
        EmitterModel::empty().wf(),
{
    assert(EmitterModel::empty().types.dom() =~= Set::<u64>::empty());
    assert(EmitterModel::empty().listener_ids() =~= Set::<usize>::empty());
}

/// Registering a listener for type `k` gives `k` an entry and touches no
/// other type: every other type keeps its entry, or its lack of one, and
/// its listeners.
pub proof fn law_add_touches_only_its_type(m: EmitterModel, k: u64, once: bool)
    ensures
        m.add(k, once).types.dom() == m.types.dom().insert(k),
        forall|k2: u64| k2 != k ==> (#[trigger] m.add(k, once).types.contains_key(k2) <==> m.types.contains_key(k2)),
        forall|k2: u64| k2 != k && m.types.contains_key(k2) ==> #[trigger] m.add(k, once).types[k2] == m.types[k2],
        m.add(k, once).next_id == m.next_id + 1,
{
    assert(m.add(k, once).types.dom() =~= m.types.dom().insert(k));
}

/// Removing a listener never adds or drops an event type's entry, and
/// touches only the entry of the listener's own type.
pub proof fn law_remove_keeps_types(m: EmitterModel, lid: ListenerId)
    ensures
        m.remove(lid).types.dom() == m.types.dom(),
        forall|k: u64| k != lid.type_id && m.types.contains_key(k) ==> #[trigger] m.remove(lid).types[k] == m.types[k],
        m.types.contains_key(lid.type_id) ==> m.remove(lid).types[lid.type_id].dom() == m.types[lid.type_id].dom().remove(lid.id),
        m.remove(lid).next_id == m.next_id,
{
    assert(m.remove(lid).types.dom() =~= m.types.dom());
    if m.types.contains_key(lid.type_id) {
        assert(m.remove(lid).types[lid.type_id].dom() =~= m.types[lid.type_id].dom().remove(lid.id));
    }
}

/// Emitting never adds or drops an event type's entry; emitting a type
/// with no entry changes nothing at all, and an emit touches only the
/// entry of its own type, keeping exactly its listeners that do not fire
/// only once.
pub proof fn law_emit_keeps_types(m: EmitterModel, k: u64)
    ensures
        m.after_emit(k).types.dom() == m.types.dom(),
        !m.types.contains_key(k) ==> m.after_emit(k) == m,
        forall|k2: u64| k2 != k && m.types.contains_key(k2) ==> #[trigger] m.after_emit(k).types[k2] == m.types[k2],
        m.types.contains_key(k) ==> forall|id: usize| #[trigger] m.after_emit(k).types[k].contains_key(id)
            <==> m.types[k].contains_key(id) && !m.types[k][id],
        m.after_emit(k).next_id == m.next_id,
{
    assert(m.after_emit(k).types.dom() =~= m.types.dom());
}

/// Over any sequence of operations, an event type has an entry exactly
/// when it had one at the start or some operation registered a listener
/// for it: emitting and removing never create or drop entries.
pub proof fn law_types_come_only_from_registration(m: EmitterModel, ops: Seq<Op>)
    ensures
        forall|k: u64| #[trigger] m.run(ops).types.contains_key(k) <==> m.types.contains_key(k)
            || exists|i: int| 0 <= i < ops.len() && (ops[i] == Op::On(k) || ops[i] == Op::Once(k)),
    decreases ops.len(),
{
    if ops.len() > 0 {
        let init = ops.drop_last();
        law_types_come_only_from_registration(m, init);
        let s = m.run(init);
        assert forall|k: u64| #[trigger] m.run(ops).types.contains_key(k) <==> m.types.contains_key(k)
            || exists|i: int| 0 <= i < ops.len() && (ops[i] == Op::On(k) || ops[i] == Op::Once(k)) by {
            match ops.last() {
                Op::On(k1) => law_add_touches_only_its_type(s, k1, false),
                Op::Once(k1) => law_add_touches_only_its_type(s, k1, true),
                Op::Emit(k1) => law_emit_keeps_types(s, k1),
                Op::Remove(lid) => law_remove_keeps_types(s, lid),
            }
            if exists|i: int| 0 <= i < ops.len() && (ops[i] == Op::On(k) || ops[i] == Op::Once(k)) {
                let i = choose|i: int| 0 <= i < ops.len() && (ops[i] == Op::On(k) || ops[i] == Op::Once(k));
                if i < init.len() {
                    assert(init[i] == ops[i]);
                }
            }
            if exists|i: int| 0 <= i < init.len() && (init[i] == Op::On(k) || init[i] == Op::Once(k)) {
                let i = choose|i: int| 0 <= i < init.len() && (init[i] == Op::On(k) || init[i] == Op::Once(k));
                assert(ops[i] == init[i]);
            }
        }
    }
}

} // verus!
