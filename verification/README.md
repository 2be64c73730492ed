# three_rings

The decision-making core of the Three Rings collection manager's web UI,
written in Verus: every function states what it computes in `requires` /
`ensures`, and the properties the UI relies on across calls are proved as
`law_*` proof functions.

- `src/` — the verified library, one module per concern: the catalog
  page (URLs, pager strip, counts, error notes), the filter rail's
  query editing, the quick-add panel's key handling, the holding
  steppers, the ⌘K palette (matcher, ranking, recent ring, place index),
  the destination picker, selection tray, toasts, overlay stack, scroll
  lock, focus traps, cookies, and the small UI enums' class tables.
- `tests/` — ordinary Rust tests against the compiled library.
- `app/` — what stays outside verification: page-wide thread-local state,
  and the floating-point geometry and mana-value formatting.

Ids are UUIDs held as `u128`. The project's own shared types crate (ids,
cards, collections, the search grammar) is not part of this crate: ids
are written and read through the `uuid` crate instead, behind small
trusted wrappers in `src/ids.rs`, and the filter rail works on search
terms that are already parsed.
