# aoe2_tournament_bot

A Discord bot that records AoE2 tournament match-result messages in a Google
Sheet and stores replay attachments in a GCS bucket. The logic of the bot is a
library verified with Verus; the program around it (Discord gateway, Google
APIs, configuration files, logging) is ordinary Rust.

## Layout

- `src/` — the verified library:
  - `config` — configuration blocks, their validation (with the exact reason
    a configuration is rejected) and the derived GCS prefix of a tournament
    name;
  - `tournament`, `handler` — routing a message to the first tournament that
    claims its channel, and which gateway events are processed;
  - `parse` — the message grammar: player mentions, map and civ draft links,
    the score line;
  - `entry`, `worker`, `sheets` — the sheet row, the attachment objects and
    links, the A1 range of an append, the tabs to create;
  - `notify`, `diag`, `retry` — the admin notification body and its size
    limit, error-chain rendering, which failed requests are retried;
  - `pattern`, `text` — compiled channel patterns (the `regex` crate) and
    character and decimal helpers.
- `app/` — the binary: gateway handler, background worker, Google clients,
  configuration loading and logging, calling the library for every decision.
- `tests/` — tests of the library, including the message grammar checked
  against the same patterns run by the `regex` crate.
