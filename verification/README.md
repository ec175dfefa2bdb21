# uncia

Drift detection for infrastructure as code that goes beyond value diffs: it catches infrastructure
that looks unchanged but no longer means what it used to.

Declared state (`terraform show -json`, `tofu show -json` or a raw `.tfstate`) is joined by cloud id
with what the cloud reports, and compared twice: field by field, and by what the fields mean. A
security group that trusts another group means something else once a machine joins that group, though
no field of either has changed.

## Layout

- `src/` is the library, verified with Verus. Each function states what it returns; what holds of
  several functions together stands beside them as public proof functions.
  - `text`, `json`, `set`, `ordered`: the values everything else is written in
  - `document`: the boundary to `serde_json`
  - `state`: reads declared state, and rejects every document that is not one; `state::raw` cuts a raw
    state into the fields of its records
  - `collector`: what the AWS APIs report, in the shape Terraform records it
  - `diff`: the two passes; `diff::semantic` has the graph, the relations and what the internet can
    reach
  - `report`, `tui`: the report as text, and as the screens of a browser
- `app/` is the command: arguments, AWS calls, the terminal.
- `tests/` runs the library.

What is believed without proof is marked `external_body` or `assume_specification`: the calls into
`serde_json` in `document`, appending a character and writing capitals in `text`, and moving a
selection with `ratatui` in `tui::app`.
