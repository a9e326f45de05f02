# lianbot

The logic of a QQ group-chat bot that talks to NapCat over OneBot 11:
command parsing and routing, access control, the in-memory message pool,
the daily chat report ("smy") and the benchmark of its pipeline. The
library is written in Verus; each public function states what it returns in
its contract, and the contracts are proved.

## Layout

- `src/` — the verified library.
  - `text`, `strmap`, `intmap`, `order`: strings, maps keyed by text or
    integers, and orderings, with their specifications.
  - `parser`, `command`, `registry`, `dispatch`: how a message becomes a
    command, which command it names, and what the bot does with it.
  - `permission`: roles, blocked users and enabled groups.
  - `message`, `pool`: OneBot message segments and the per-group pool of
    recent messages.
  - `smy`, `report_text`, `report`, `bench`: statistics, prompts and the
    HTML of the daily report, and the benchmark's own steps.
  - `api`, `config`, `time`, `webhook`, `services`: request shapes,
    configuration defaults, clock arithmetic, signature checks and the
    decisions of the background services.
- `tests/` — tests of the library on concrete values.
- `app/` — the program around the library: configuration files, HTTP
  calls to NapCat and the language model, SQLite, the headless browser,
  the scheduler and the benchmark's command line.
