# farm_os

The decision core of a local farm app for microgreens growers: the life of a
tray on the shelf, the recount, the today view, the Stripe records and the
capacity rules around them, the static shop page, snapshots and their
retention, and the replay check's comparison of a farm rebuilt from its event
log with the live one, and its verdict.

Every function in `src/` is verified with Verus against a contract over
mathematical models (`Seq`, `Map`, `Multiset`, `int`). The few calls into
chrono, base64 and std's path joining sit behind small trusted wrappers whose
contracts say what those crates document.

- `src/trays.rs` — tray states, shelf order, consume, discard and harvest plans (and how a discard is undone), recount, today view
- `src/capacity.rs` — capacity per harvest date: trays ready less trays sold
- `src/tray_events.rs`, `src/money_events.rs` — writing event payloads and reading them back
- `src/money.rs`, `src/stripe_client.rs`, `src/poll.rs`, `src/offers.rs` — selling online
- `src/verify.rs`, `src/table_compare.rs` — the replay check's comparison and verdict
- `src/snapshots.rs`, `src/shop.rs`, `src/mileage.rs`, `src/seed_prefill.rs` — the rest
- `app/` — the shell: HTTP, files, SQLite reads, JSON and float arithmetic
- `tests/` — concrete scenarios for the contracts and laws
