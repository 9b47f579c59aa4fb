# agent

The logic of an agent's error collector and subagent tools, verified with
[Verus](https://github.com/verus-lang/verus).

- `src/` is the library. Every function in it is proved against its contract, except the calls
  into other code that are named at the end.
  - `error_collector`: error observations, deduplicated by a fingerprint and queried by when they
    were last seen.
  - `claw_callback`: which callbacks of a completed subagent are taken up, and the callback URL.
  - `subagent_notifier`: which notification files a poll cycle takes up, and the messages that they
    become.
  - `tools`: `read_errors`, `check_subagent_status` and `spawn_agent`.
  - `json`, `text`, `clock`: JSON values over `serde_json`, strings, and the system clock.
- `app/` is what reads and writes: the store, the notifications directory, terminals, subagents and
  the callback server. It hands the library plain values and carries out what the library decides.
- `tests/` runs the library.

The functions whose names begin with `law_` state what holds of the library as a whole. What is
trusted without proof is marked `external_body`: the calls into `serde_json`, into the standard
library's hashing and into its clock.
