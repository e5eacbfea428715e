# route-warden

A daemon for Mihomo/Clash that keeps each site group on the node that serves
it best: it probes every candidate node of a group through a dedicated probe
group, scores the nodes (availability first, then latency and jitter), and
switches a group's strategy group only when the best node has won several
rounds in a row, is clearly better, and the group's cooldown has passed, or
at once when the current node keeps failing.

## Layout

- `src/` is the verified library (Verus):
  - `probe.rs`: which HTTP statuses count as success per target, and the
    failure kind of a transport error;
  - `score.rs`: percentiles, jitter, node scores and the ranking;
  - `select.rs`: the switch decision and its laws;
  - `memory.rs`: the per-group streak of the best candidate;
  - `round.rs`: the jobs of a round and the probe session, a state machine
    that asks for one controller or HTTP step at a time;
  - `group.rs`: a group's decision after its round, what is switched, and
    what is saved;
  - `config.rs`: the configuration model, its defaults and validation;
  - `controller.rs`: the controller endpoint and switch checks;
  - `clash_verge.rs`: which groups and rules enhancement files to write,
    how the managed groups are merged into them, and the routing rules;
  - `report.rs`: the rows of the status report and relative times;
  - `runner.rs`: a round of user-supplied hooks;
  - `store.rs`, `cli.rs`, `text.rs`: records, the command line, strings.
- `app/` is the program around it: command-line parsing, the YAML files,
  HTTP, the controller API, SQLite, logging and the daemon loop.
- `tests/` exercises the library.

Fractions are held in parts per million and scores in units of 10^-12, so
that the library has no floating point.
