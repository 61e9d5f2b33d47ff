# hematite

A default-deny egress boundary for untrusted workloads: a firewall that speaks
HTTP. It sits between a sandbox (a CI job, an agent, a container) and the
internet, terminates TLS, enforces an allowlist, swaps proxy tokens for real
credentials at the boundary, and leaves one audit record per request.

The boundary has to be more trustworthy than the workload it guards. What it
decides is therefore written in Verus and proved; what it does to sockets, files
and clocks is ordinary Rust around those decisions.

## Layout

- `src/`: the decisions, each with a contract. No I/O, no clock, no environment.
  - `pipeline`, `transforms`, `secrets`, `secret`, `matcher`, `codec`, `summary`,
    `verdict`, `config`: what passes, what is rewritten on the way, and how the
    pipeline is built.
  - `target`, `http`, `hop`, `dial`, `pool`, `state`: one request from its head to
    its answer.
  - `listen`, `tunnel`, `tls`, `mint`: tunnels, terminated TLS and leaves.
  - `resolve`, `wire`: the DNS server.
  - `yaml`, `settings`, `duration`, `management`, `resolver`: configuration,
    reloading, and how long a secret is kept.
  - `audit`, `metrics`: records and counters.
  - `text`, `strmap`, `ip`: what the rest is stated over.
- `app/`: the program: listeners, sockets, TLS sessions, files, the clock.
- `tests/`: runs of the library on concrete values.

Public proof functions state what holds of the library as a whole, such as that
a host that no allowlist names never passes, that only addresses the guard
accepts are dialled, or that a refused reload leaves the old state serving.

## Running

    hematite -config hematite.yaml
