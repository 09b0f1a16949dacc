# bonsai_lint

A cognitive complexity linter for PHP, TypeScript/JavaScript, Vue, Go, Java and Python. Its
scoring walk, naming, suppression, baseline and configuration rules are verified with Verus.
The parse itself is tree-sitter's: what a grammar answers and what a parse holds are named
(`parse.rs`) as functions of the grammar's id, the text and the region, and taken on trust, so
what a file scores is proved to be the walk of the tree its parse reads into.

## Layout

- `src/` — the verified library.
  - `spec`, `language`, `compile`, `languages`: what a language is made of, and how a spec is
    checked against a grammar and compiled into kind and field tables.
  - `parse`, `syntax`, `grammars`, `grammar_types`: the parser, behind small trusted wrappers,
    and the plain tree it is read into.
  - `walk`, `hooks`, `dialect` and the per-language modules (`go`, `java`, `java_names`, `php`,
    `python`, `typescript`, `vue`): the scoring walk and what each language reads differently.
  - `collect`, `suppression`, `names`, `scope`, `source`: units, their names, their markers,
    and a whole file's findings.
  - `baseline`, `paths`, `rank`, `scan`, `policy`, `verdict`, `registry`: the debt ledger,
    reported paths and keys, ordering, planning and gathering a scan, configuration as policy,
    and what a run decides and prints.
- `tests/` — tests of the library, run against the real grammars.
- `app/` — the `bonsai` command: arguments, the disk, threads, stdin and output.
