# minecraft_pinger

Pings Minecraft servers (Java and Bedrock editions) for their status, players
and metadata. The protocol logic is a Verus library whose functions carry
`requires` / `ensures` contracts that Verus proves.

## Layout

- `src/` — the verified library.
  - `common/protocol.rs`: VarInts and length-prefixed strings, the byte-at-a-time
    `VarIntDecoder`, and the round-trip laws.
  - `common/ip_filter.rs`: which IPv4/IPv6 addresses are public, and how the
    resolved addresses are filtered.
  - `common/dns.rs`: the order of address resolution (IP literal, SRV record,
    host lookup) as a step function from state and answer to next action.
  - `java/`: handshake and status-request packets, packet parsing, and the
    status data model.
  - `bedrock/`: the unconnected ping and pong, and parsing of the `;`-separated
    status text.
  - `buffers.rs`, `text.rs`: the contracts of the `bytes` buffers and the
    string conversions that the protocol code relies on.
  - `error.rs`: `PingError` and its messages.
- `app/` — the asynchronous networking around the library: `MinecraftPinger`,
  DNS lookups, TCP/UDP exchanges with timeouts, configuration builders, and the
  serde/thiserror forms of the library's types.
- `tests/` — tests of the library on concrete values.
