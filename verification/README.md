# rusmes_jmap

A JMAP (RFC 8620 / RFC 8621) server library for the RusMES mail server,
written in Verus: the rules of the protocol are executable Rust whose
behaviour is stated in `requires` / `ensures` contracts and proved.

## Layout

- `src/` — the verified library.
  - `api.rs` — request validation, result-reference resolution for a call,
    and `Batch`, which runs the calls of a request in order.
  - `back_reference.rs` — RFC 8620 §3.7 result references.
  - `auth.rs` — reading credentials from an `Authorization` header and the
    answer to a refused request.
  - `blob.rs` — the blob store, upload limits and content-addressed ids.
  - `eventsource.rs` — state-change notification and what the event stream
    sends for each event.
  - `methods/` — the method handlers: Email (get, set, query, changes,
    queryChanges, copy, import, parse), Mailbox, Thread, SearchSnippet,
    Identity, EmailSubmission and PushSubscription, and the routing of a
    call to its handler.
  - `json.rs`, `text.rs`, `maps.rs`, `types.rs` — JSON values with their
    mathematical model, text helpers, association lists, shared types.
  - `outside.rs` — the trusted calls into std and outside crates (clock,
    random ids, UUIDs, SHA-256, RFC 2822 dates, base64, the push registry).
  - Public `law_*` proof functions state the properties that hold across
    operations (what a read gives back after a write, what a destroy
    leaves, what a reference to a failed call resolves to, …).
- `tests/` — tests on concrete values.
- `app/` — the unverified parts: the axum routes and authentication
  middleware, blob and EventSource HTTP handlers, method dispatch over the
  message store, the files that keep identities and submissions, push
  delivery, and the JSON encoding of the library's types.

Verify with `verus` on `src/lib.rs`.
