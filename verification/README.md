# fleetix

Fleet topology library: typed hosts, links, domains, services and
deployment intents, the accessors derived from them, cross-reference
validation, the text handling of modular Pkl topologies, and the SSH
trust observer. Each public operation of the library states what it
returns or changes in an `ensures` contract that Verus proves; the laws
that relate several operations are public proof functions.

## Layout

- `src/topology.rs` — the topology model.
- `src/accessors.rs` — link servers and peers, host addresses, endpoints,
  DNS zones, relative names and CNAME intents.
- `src/validate/` — validation: identifiers, domains, hardware, VPN
  profiles, deployment, services and routes, links, dynamic hosts and
  redirects. `validation_issues` states every issue and its order.
- `src/flatten.rs` — imported module paths, import stripping, brace
  matching and the self-contained topology text.
- `src/trust/` — known_hosts parsing and entry ids, declared keys and the
  classification of entries, Trust.pkl patching, prompts and decisions.
- `src/pkl.rs` — Pkl string literals (with a proved read-back law).
- `src/cli.rs` — command data, exit codes and the decisions the commands
  take.
- `src/text.rs`, `src/strs.rs`, `src/seqs.rs`, `src/sorted.rs`,
  `src/net.rs`, `src/dns.rs`, `src/maps.rs` — the text, sequence, ordering,
  address and map foundations, each specified over `Seq`, `Set` and `Map`.
- `app/` — the `fleetix` command: argument parsing, Pkl evaluation through
  `pklx`, file and process work, JSON output.
- `tests/` — behavioural tests of the library.

Outside crates enter the library through small trusted items: the
`indexmap::IndexMap` operations the logic uses (`src/maps.rs`),
`sha2::Sha256` for entry ids, and `core::net::IpAddr` parsing.
