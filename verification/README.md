# Shreds subscribe

Watches a Solana shred stream for transactions that clients have subscribed to, and tells them how
long each took to be observed. The logic is a Verus library; what talks to sockets, files and the
ledger stands around it.

## Layout

- `src/` is the verified library.
  - `shred`, `tracker`: shreds, their comparison, and what is known of the data shreds of a slot.
  - `reconstruction`, `deshred`, `reconstruction_laws`, `replay_laws`: the state of reconstruction,
    the steps from an event to the next action, and what holds over any number of them.
  - `scan`, `subscriptions`, `signature`: the table of subscriptions and the search of entries.
  - `json`, `jsonrpc`, `rpc`, `websocket`, `websocket_laws`: the two protocols by which clients
    subscribe.
  - `followup`, `ws_task`: what is done for a transaction once it is subscribed to.
  - `config`, `clock`, `latency`, `text`: settings, time, the measuring client, and texts.
- `app/` is the service: sockets, threads, files, and the calls to the ledger and to a Solana node.
- `tests/` runs the library.

## What is trusted

The functions marked `external_body` call other crates or the standard library; their doc comments
say which, and what is claimed of them. Where a result takes pages to state it has a name (`json_of`,
`entries_in`, `signature_bytes` and the like) that the contracts speak of.

The ledger crate has to be a local checkout with a public `merkle` module.
