# Oracle Monitor

Small service that monitors the reports of an oracle set and exposes Prometheus metrics for each of its members. What it
decides, reads and writes is proved with Verus.

## What it does

- Fetches the oracle members on-chain via `getMembers()`
- Searches for the latest report transaction of each member
- Exposes metrics at `/metrics`
- Exposes health at `/healthz`: 200 if the last poll succeeded, otherwise 503

## Run

```bash
oracle-monitor <network: mainnet|hoodi> <rpc_url>
```

`ORACLE_MEMBERS_SOURCE_ADDRESS` names another contract that has `getMembers()`.

## Layout

- `src/` is the verified library. `poll` and `scan` are state machines: they say what to ask the node next and take in the
  reply. `poll_laws` and `scan_laws` state what comes of a whole poll.
- `app/` sends the requests, runs the timer, and serves the endpoints.
- `tests/` runs the library on concrete values.
