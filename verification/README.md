# op-cache, verified core

A read-through, in-memory cache of 1Password secrets in front of the `op`
command line tool. This crate is the part of it that decides things, proved
with Verus:

- `src/cache.rs`: the daemon's store of secrets, with lifetimes capped at a
  day, and the laws that tie reads to writes.
- `src/daemon.rs`: the answer to each request the daemon is sent.
- `src/mask.rs`: the masked preview that `inspect` shows of a secret.
- `src/wizard.rs`: the decisions of the interactive setup, among them the
  dialog about per-reference lifetimes.
- `src/op.rs`: small decisions around calls of `op`.
- `src/keyed.rs`, `src/order.rs`, `src/text.rs`: a map kept sorted by key in
  the order of `str`, that order, and string helpers.

`app/` holds the unverified input and output around it: the daemon's socket
and threads, the wire format, the processes it starts, and the prompts.
