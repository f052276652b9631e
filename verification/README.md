# chalk

Ranks a user's projects: each project file scores a set of attributes,
the configuration weighs them, and the weighted totals order the projects.
Prompts built from the projects, their commit history and a model's answers
lead to a priority report that is posted as an issue.

- `src/` is the verified library (Verus): bounded scores and weights
  (`units`), sorted text-keyed tables (`keys`, `table`), the configuration
  and project checks with their weighted totals (`parser`), the retry policy
  and the reading of request output (`request`), history paths and dates
  (`github`), prompt and report text (`prompts`, `report`), the ranking
  (`ranking`) and token counts (`usage`).
- `app/` is the program around it: reading files and the environment,
  TOML and JSON decoding, running `gh` and `curl`, printing.
- `tests/` exercises the library on concrete values.
