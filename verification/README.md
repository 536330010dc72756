# p2proxy

The decision logic of p2proxy, a peer-to-peer SOCKS5 proxy daemon on libp2p,
as a Verus-verified library, with a thin command-line program around it.

## Layout

- `src/` — the verified library.
  - `config`, `filters`: server options, filter fingerprints, hub requirements.
  - `route`, `selection`, `text`: peer ids and multiaddresses as plain values.
  - `sticky`: the remembered exit pools (most-recently-used first).
  - `flow`, `connect`: the connect state machine (pinned list, remembered
    pool, discovery), driven step by step by its caller.
  - `network`, `discovery`: the network and discovery actors' decisions.
  - `pool`, `streams`: per-peer stream accounting and open-failure handling.
  - `wireguard`, `sessions`: WireGuard packet checks, rate limit and sessions.
  - `socks_session`: the SOCKS5 session's stages as a step function from
    state and event to next state and actions.
  - `socks`, `server_state`, `events`, `errors`: session bookkeeping and UI state.
  - `auth`, `identity`: federated-token checks and the signed auth request.
- `tests/` — tests run against the compiled library.
- `app/` — the program: configuration files, the sticky-store file, the
  keypair file, and the float-valued stream health policy.
