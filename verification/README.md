# rung submit

`rung submit` pushes the branches of a stack of dependent branches and
creates or updates their GitHub pull requests, each based on its parent
branch, and keeps a comment on every pull request that lists the whole
stack.

The decisions of the command are a library verified with Verus:

- `src/text.rs` — whitespace, trimming, lines, words, joining, decimal
  numerals and substring search on characters;
- `src/title.rs` — the title and description of a pull request, from the
  tip commit message or from the branch name;
- `src/stack.rs` — the stack, the walk up through parent branches, and the
  chain of related branches (ancestors, the branch, descendants);
- `src/comment.rs` — the stack comment of a pull request and how an
  existing one is recognized;
- `src/report.rs` — notices, per-branch records and the summaries;
- `src/session.rs` — the submit run as a state machine: each step takes the
  outcome of the previous operation and decides the next one;
- `src/laws.rs` — properties of the whole: the chain holds all descendants
  and no branch twice, a generated comment is recognized again and points
  at its pull request, a dry run changes nothing, JSON output prints no
  notice, every step keeps the run consistent.

`app/` is the program around it: the command line, printing, and the
operations on git (through `git`), on GitHub (through `gh`) and on the
stack file.
