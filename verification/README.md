# async_events_emitter

An event emitter: listeners are registered per event type with `on` (every
event) or `once` (the next event only), removed with `off` /
`remove_listener`, and reached by `emit`.

- `src/` is the verified registry. `EventEmitter` keeps, in a
  `dashmap::DashMap`, the listeners of each event type (listener id to its
  "once" flag) and numbers new listeners. Its contracts are stated over
  `EmitterModel` (`src/model.rs`); `src/laws.rs` proves what holds across
  operations and over any sequence of operations (`Op`, `EmitterModel::run`):
  ids count up from 0 in call order, an `on` listener is reached by every
  later emit until removed, a `once` listener is reached by at most one
  emit, a removed listener by none, removal undoes registration, and counts
  follow registration and removal. `get_event_listeners` gives `None` for a
  type with no listener. Event types are known to the registry by a `u64`
  key.
- `app/` is the asynchronous layer: the `EventHandler` trait, the handlers
  themselves, the numbering of Rust event types, and the tokio tasks that
  run the handlers of the listeners that `EventEmitter::emit` returns.
- `tests/` exercises the registry on the scenarios of the library's usage.
