# pidx

A project index over GitHub repositories: it syncs repository metadata,
commits, issues and releases into SQLite, shows status, activity and
report views, exports per-repository Markdown for LLM analysis, and reads
the analysis back.

- `src/` is the library, verified with Verus: commit classification
  (`classify`), time spans (`span`), the GitHub records (`github`,
  `records`, `dates`), the exported documents (`docs`), the analysis read
  back (`ingest`), the status and report views (`report`, `health`,
  `activity`), file locations and repository selection (`config`), and the
  character-level text operations they share (`text`).
- `app/` is the command-line tool around it: argument parsing, the
  configuration file, the SQLite database, the GitHub API client, the
  clock, terminal tables, and the floating-point health score.
- `tests/` runs the library on concrete inputs.
