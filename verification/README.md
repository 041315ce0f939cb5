# graveyard

A polyglot dead-code scanner for Python, JavaScript, TypeScript, Go and Rust, with its
core verified by Verus.

The scanner walks a repository, extracts definitions and calls with tree-sitter, builds a
call graph, finds what no entry point reaches, scores each finding with git age and churn,
and reports the findings as a table, JSON, CSV or SARIF.

## Layout

- `src/` is the verified library:
  - `walker.rs`, `glob.rs`, `paths.rs`: which files are scanned and in which language,
    exclusion globs, and a textual model of paths;
  - `parse/`: syntax trees copied out of tree-sitter into plain data, and the extractors
    for each language over them; the parse cache key;
  - `graph/`: the call graph over `petgraph`, reachability from entry points, dead
    candidates, dead cycles, test-only symbols, and what they promise together;
  - `scoring/`: the discrete score factors, git-history arithmetic, and the assembly,
    filtering and ranking of findings;
  - `baseline.rs`: reporting only the findings a baseline does not list;
  - `output/`: the CSV report, the terminal table (with its colour codes) and the SARIF
    results;
  - `cli.rs`, `config.rs`, `error.rs`: durations, verbosity, configuration values and
    exit codes.
- `app/` is the command-line program around it: argument parsing, the configuration file,
  the file system walk, parallel parsing with a cache, the git history walk, the
  floating-point confidence formula, and writing reports.
- `tests/` exercises the library.
