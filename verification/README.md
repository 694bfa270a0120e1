# blockcell

The verified core of the blockcell agent runtime, written in Verus.

- `src/` is the library, verified by Verus. Its functions state in their
  contracts what they compute, except those whose result is a clock reading
  or a random number (such as `total_elapsed_ms`, `ScopedTimer::elapsed_ms`
  and `rand_u32`), of which nothing more can be said. It covers session
  keys, system events and their delivery, the QQ, WhatsApp and Weixin
  channels' message handling and gateway state machines, the cron
  scheduler's tick and job runs, skill versioning, tool argument validation,
  HTML to Markdown cleanup, the web search fallback chain, the updater's
  checks, and the command line's decisions. Calls into outside crates go
  through small trusted wrappers whose contracts are stated beside them.
  Properties that span several calls are stated as public proof functions
  (`lemma_*`).
- `tests/` runs the library on concrete values.
- `app/` is the `blockcell` program: it reads files and the network, hands
  the library plain values and prints or sends what comes back.
