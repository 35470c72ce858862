# x0x-compute

Trusted-friends compute mesh built on x0x identities, trust and gossip.

The library in `src/` is written in Verus and proved:

- `identity` — x0x machine, agent and user ids as full lowercase hexadecimal,
  parsing back to 32 bytes, and the round trip between the two.
- `capability` — the capability announcement a node advertises.
- `mesh` — screening of incoming capability gossip and the trusted peer
  registry, with x0x's trust evaluation handed in by the caller.
- `runtime` — the static model inventory, slot reservations that never exceed
  a model's capacity, and the skeleton OpenAI-compatible gateway.
- `config`, `error` — configuration, defaults, and errors with their HTTP status.
- `text`, `keyed`, `clock` — text handling, key-ordered tables and wall time.

`app/` is the daemon and CLI around it: configuration files, the x0x agent,
gossip, the system probe and the HTTP surface.
