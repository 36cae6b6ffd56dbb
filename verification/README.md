# github_gc

Finds the branches and forks of a GitHub user that can be deleted because the
pull requests made from them were merged or closed.

- `src/` is the verified library: turning GitHub's answers into forks, branches
  and pull requests (`get_forks`, `get_prs`), deciding what an answer gives and
  how a paginated query proceeds (`general`), and judging forks and branches
  (`collect_dead_forks`, `collect_merged_branches`, `find_garbage`).
  `seq_map` holds the model of a map built by successive insertions.
- `app/` is the program around it: reading the token from the environment,
  the GraphQL queries over HTTP, and logging.
- `tests/` runs the library on concrete values.
