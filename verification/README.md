# gg_core

The core of `gg`, a tool for stacked diffs on GitHub and GitLab: one branch
per stack, one commit per entry, each commit tracked by a `GG-ID:` trailer and
linked to the entry below by a `GG-Parent:` trailer, each entry pushed to its
own branch and reviewed in its own pull or merge request.

The library in `src/` is written in Verus. Every function states what it
returns in `requires` / `ensures` contracts over mathematical models (`Seq`,
`Map`, `int`) and Verus proves the code against them. Where the library calls
another crate (regex, uuid, dirs, console) or std without a specification, the
call sits in a small `#[verifier::external_body]` wrapper whose contract says
what that crate's source or documentation promises.

## Layout

- `src/text.rs`, `src/line_edit.rs`: strings as `Seq<char>`: searching,
  trimming, lines, UTF-8 byte offsets, editing a line of text.
- `src/git.rs`: branch names, GG-ID / GG-Parent trailers (the regexes are
  specified exactly), push errors, the lock steps, planning the metadata
  normalization of a stack.
- `src/stack.rs`, `src/stack_nav.rs`, `src/immutability.rs`: stacks and their
  entries, targets, navigation, which commits may be rewritten.
- `src/config.rs`, `src/keyed.rs`: the configuration and the keyed list that
  holds per-stack settings without duplicate keys.
- `src/gh.rs`, `src/provider.rs`, `src/github_stacks.rs`, `src/template.rs`,
  `src/managed_body.rs`: reading `gh` output, PR states and CI status, PR
  bodies, the managed block and the breadcrumbs.
- `src/operations.rs`: the operation log and the undo decision.
- `src/commands/`: the decisions of `sync` (a step function), `undo`,
  `unstack` and the two terminal pickers (their state and key handling).
- `src/output.rs`, `src/mcp.rs`, `src/error.rs`: the JSON shapes and errors.

Laws that relate several functions are public proof functions (their names
start with `lemma_`), for example reading back a GG-ID after setting it,
reading back the managed block after replacing it, round trips of branch
names, and that the hunk picker lists every hunk exactly once.

`app/` is ordinary Rust around the library: git through libgit2 and the
command line, the `gh` tool, files, locks, JSON on standard output, and the
loops that run `sync`, `undo` and `unstack` on the library's decisions.
`tests/` holds the tests.
