# scarab_server

The control plane of a CI system, split in two.

- `src/` is the verified library: every decision that the server takes, as functions from plain
  values to plain values with contracts that Verus proves. Where outside work and decisions take
  turns, a module holds a state machine whose `step` takes the outcome of one action and names the
  next.
- `app/` is the server around it: HTTP routing, the database, object store and forge behind ports,
  and the loops that perform the actions which the machines name.
- `tests/` runs the library on concrete values.

Main modules of the library:

| area | modules |
| --- | --- |
| starting runs | `trigger`, `event`, `refs`, `catalog`, `create_run`, `persist` |
| governance | `admission`, `gates`, `secrets`, `step_secrets` |
| identity | `authz`, `bindings`, `login`, `exchange`, `sessions`, `oauth`, `oidc`, `jwt` |
| forges | `webhooks`, `connections`, `onboarding`, `forge_status` |
| workspaces | `changeset`, `overlay`, `settle`, `publish`, `flush`, `merged`, `left_view`, `snapshots` |
| retention | `mark`, `cas_pass`, `retention` |
| logs | `logs`, `log_tail`, `log_view` |
| reading | `runs`, `evidence`, `metrics`, `router` |

The calls into outside crates stand behind small trusted functions in `ids`, `jwt`, `logs`,
`oauth`, `oidc`, `step_secrets` and `text`; the doc comment of each says what is taken on trust.
