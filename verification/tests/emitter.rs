use async_events_emitter::{Event, EventEmitter, EventError, Listener, ListenerId};

// Event type keys standing for the two event types of the scenarios.
const CUSTOM_EVENT_1: u64 = 1;
const CUSTOM_EVENT_2: u64 = 2;

fn ids(listeners: &[Listener]) -> Vec<usize> {
    let mut v: Vec<usize> = listeners.iter().map(|l| l.id.id).collect();
    v.sort();
    v
}

#[test]
fn test_event_once() {
    let mut event_emitter = EventEmitter::new();
    event_emitter.once(CUSTOM_EVENT_1);
    let mut handle_count = 0;
    handle_count += event_emitter.emit(CUSTOM_EVENT_1).len();
    handle_count += event_emitter.emit(CUSTOM_EVENT_1).len();
    assert_eq!(event_emitter.listeners_count(), 0);
    assert_eq!(handle_count, 1);
}

#[test]
fn test_unsubscribe_functionality() {
    let mut event_emitter = EventEmitter::new();
    let listener_id = event_emitter.on(CUSTOM_EVENT_1);
    event_emitter.remove_listener(listener_id);
    let fired = event_emitter.emit(CUSTOM_EVENT_1);
    let received_flag = fired.iter().any(|l| l.id == listener_id);
    assert_eq!(received_flag, false);
}

#[test]
fn test_multiple_subscribers() {
    let mut event_emitter = EventEmitter::new();
    let handler1 = event_emitter.on(CUSTOM_EVENT_1);
    let handler2 = event_emitter.on(CUSTOM_EVENT_1);
    let data = event_emitter.emit(CUSTOM_EVENT_1);
    assert_eq!(data.len(), 2);
    assert!(data.contains(&Listener::new(false, handler1)));
    assert!(data.contains(&Listener::new(false, handler2)));
}

#[test]
fn test_high_load() {
    let mut event_emitter = EventEmitter::new();
    let event_count = 1000;
    let handler_count = 100;
    for _ in 0..handler_count {
        event_emitter.on(CUSTOM_EVENT_1);
    }
    let mut handled_events = 0;
    for _ in 0..event_count {
        handled_events += event_emitter.emit(CUSTOM_EVENT_1).len();
    }
    let total_events = event_count * handler_count;
    assert_eq!(handled_events, total_events, "Not all events were handled correctly");
}

#[test]
fn test_event_emitter() {
    let mut event_emitter = EventEmitter::new();
    event_emitter.on(CUSTOM_EVENT_1);
    let listener_id = event_emitter.on(CUSTOM_EVENT_2);
    let mut data = String::new();
    for _ in event_emitter.emit(CUSTOM_EVENT_1) {
        data = format!("{} - Event Handled", data);
    }
    event_emitter.remove_listener(listener_id);
    for _ in event_emitter.emit(CUSTOM_EVENT_2) {
        data = format!("{} - Event Handled", data);
    }
    assert_eq!(data, " - Event Handled")
}

#[test]
fn test_listeners() {
    let mut ee = EventEmitter::with_capacity(1);
    ee.on(CUSTOM_EVENT_1);
    ee.on(CUSTOM_EVENT_1);
    ee.on(CUSTOM_EVENT_2);
    let listeners = ee.get_event_listeners(CUSTOM_EVENT_1).unwrap();
    assert_eq!(listeners.len(), 2);
}

#[test]
fn ids_are_handed_out_in_order() {
    let mut ee = EventEmitter::new();
    assert_eq!(ee.next_listener_id(), 0);
    assert_eq!(ee.on(7), ListenerId { id: 0, type_id: 7 });
    assert_eq!(ee.once(8), ListenerId { id: 1, type_id: 8 });
    assert_eq!(ee.on(7), ListenerId { id: 2, type_id: 7 });
    assert_eq!(ee.next_listener_id(), 3);
}

#[test]
fn default_is_empty() {
    let ee = EventEmitter::default();
    assert_eq!(ee.listeners_count(), 0);
    assert_eq!(ee.event_listeners_count(CUSTOM_EVENT_1), None);
    assert!(ee.get_event_listeners(CUSTOM_EVENT_1).is_none());
}

#[test]
fn counts_follow_registration_and_removal() {
    let mut ee = EventEmitter::new();
    assert_eq!(ee.event_listeners_count(CUSTOM_EVENT_1), None);
    let a = ee.on(CUSTOM_EVENT_1);
    let b = ee.once(CUSTOM_EVENT_1);
    ee.on(CUSTOM_EVENT_2);
    assert_eq!(ee.listeners_count(), 3);
    assert_eq!(ee.event_listeners_count(CUSTOM_EVENT_1), Some(2));
    assert_eq!(ee.event_listeners_count(CUSTOM_EVENT_2), Some(1));
    ee.off(a);
    assert_eq!(ee.listeners_count(), 2);
    ee.remove_listener(b);
    // The event type keeps its entry once its last listener is gone, but
    // no listener is left to list.
    assert_eq!(ee.event_listeners_count(CUSTOM_EVENT_1), Some(0));
    assert!(ee.get_event_listeners(CUSTOM_EVENT_1).is_none());
    assert_eq!(ee.listeners_count(), 1);
}

#[test]
fn removing_an_unknown_listener_changes_nothing() {
    let mut ee = EventEmitter::new();
    ee.on(CUSTOM_EVENT_1);
    ee.remove_listener(ListenerId { id: 5, type_id: CUSTOM_EVENT_1 });
    ee.remove_listener(ListenerId { id: 0, type_id: CUSTOM_EVENT_2 });
    assert_eq!(ee.listeners_count(), 1);
    assert_eq!(ee.event_listeners_count(CUSTOM_EVENT_2), None);
}

#[test]
fn emit_reaches_only_its_type_and_drops_once_listeners() {
    let mut ee = EventEmitter::new();
    let a = ee.on(CUSTOM_EVENT_1);
    let b = ee.once(CUSTOM_EVENT_1);
    let c = ee.once(CUSTOM_EVENT_2);
    let first = ee.emit(CUSTOM_EVENT_1);
    assert_eq!(ids(&first), vec![a.id, b.id]);
    assert!(first.contains(&Listener::new(true, b)));
    let second = ee.emit(CUSTOM_EVENT_1);
    assert_eq!(second, vec![Listener::new(false, a)]);
    assert_eq!(ee.get_event_listeners(CUSTOM_EVENT_2).unwrap(), vec![Listener::new(true, c)]);
    assert!(ee.emit(99).is_empty());
    assert_eq!(ee.listeners_count(), 2);
    ee.once(CUSTOM_EVENT_2);
    ee.emit(CUSTOM_EVENT_2);
    // Every listener of the type fired as a "once" listener: none is left.
    assert!(ee.get_event_listeners(CUSTOM_EVENT_2).is_none());
}

#[test]
fn listener_records_keep_their_fields() {
    let lid = ListenerId { id: 3, type_id: 4 };
    let l = Listener::new(true, lid);
    assert_eq!(l.id, lid);
    assert!(l.once);
    assert_ne!(lid, ListenerId { id: 3, type_id: 5 });
    assert_ne!(lid, ListenerId { id: 2, type_id: 4 });
}

struct Ping;
struct Pong;
impl Event for Ping {}
impl Event for Pong {}

#[test]
fn event_types_have_distinct_ids() {
    assert_eq!(Event::type_id(&Ping), Event::type_id(&Ping));
    assert_ne!(Event::type_id(&Ping), Event::type_id(&Pong));
}

#[test]
fn event_error_carries_its_message() {
    let e = EventError::HandlerError("boom".to_string());
    assert_eq!(format!("{:?}", e), "HandlerError(\"boom\")");
}

#[test]
fn listeners_over_a_sequence_of_events() {
    let mut ee = EventEmitter::new();
    let persistent = ee.on(CUSTOM_EVENT_1);
    let single = ee.once(CUSTOM_EVENT_1);
    let removed = ee.on(CUSTOM_EVENT_1);
    ee.remove_listener(removed);
    let mut reached = vec![0usize; 4];
    for _ in 0..3 {
        for l in ee.emit(CUSTOM_EVENT_1) {
            reached[l.id.id] += 1;
        }
    }
    assert_eq!(reached[persistent.id], 3);
    assert_eq!(reached[single.id], 1);
    assert_eq!(reached[removed.id], 0);
    // Ids keep counting up, shared by all event types and both kinds.
    assert_eq!(ee.once(CUSTOM_EVENT_2).id, 3);
    assert_eq!(ee.on(CUSTOM_EVENT_1).id, 4);
}
