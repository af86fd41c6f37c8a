# deepdeps

See what you are really installing: `deepdeps` reads a project's manifest and
lock file, lists every package that gets installed, weighs and scores each
one, looks up known vulnerabilities, and shows the result as a summary, a
dependency tree or a comparison of two analyses.

The library (`src/`) is written in Verus and verified: every public function
states what it returns in its contract, and the properties that hold across
functions are stated and proved as proof functions.

- `manifest` — finding the manifest, its ecosystem, and the declared dependencies
- `resolver` — installed packages from lock files (`package-lock.json`,
  `Cargo.lock`, `go.sum`, `go.mod`, `pom.xml`, `packages.lock.json`, `*.csproj`)
- `health`, `risk` — the health score (0–100) and the risk level of a package
- `weight`, `security` — package sizes and vulnerability reports, from what the
  registries and vulnerability databases answer
- `analyzer` — the project summary: totals, depth, licenses
- `tree`, `diff`, `display` — the dependency tree, analysis comparison, and
  what the command line lists
- `text`, `paths`, `models`, `cli` — text handling, paths and the data model

The program (`app/`) does the file, network and database work and the
floating-point formatting, and hands plain values to the library.
