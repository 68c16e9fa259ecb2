# ringi

Ringi is a local orchestrator for Agent CLIs: a dossier records a decision to be made,
deliberation rounds let agents respond, arbitrate and evaluate conditions, and a reconcile
loop drives a set of steps to done with every side effect executed exactly once.

## Layout

- `src/` — the library, verified by Verus. Each module states its behaviour in
  `requires`/`ensures` over spec models (`Seq`, `Set`, `Map`, views) and proves it.
  - `dossier`, `revision`, `digest`, `event`, `deliberation`, `convergence` — the dossier
    lifecycle, revision moves, the digest of a revision, events and their visibility, and
    the readiness rules of a deliberation.
  - `lease`, `residual_plan`, `reconcile` — the reconcile loop over a lease registry
    (pacta), a witness ledger (shaahid) and a convergence planner (suunta), with the
    exactly-once and convergence laws.
  - `agent`, `exec`, `verify`, `deliberate_loop`, `dossier_cli`, `archive`, `store`,
    `config`, `run`, `ids`, `text` — the decisions and text handling around agent calls,
    verification commands, the CLI, archives and stored rows.
- `app/` — the program around the library: the command line, files, subprocesses, SQLite,
  and the serde copies of the library's types.
- `tests/` — tests of the library through its public interface.

Calls into outside crates go through small trusted wrappers whose doc comments say what
their contracts claim.
