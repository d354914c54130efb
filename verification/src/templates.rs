//! The texts that an adapter writes for an agent to read. The product's name
//! stands in them as a mark.
use vstd::prelude::*;

verus! {

/// The command that restores an earlier checkpoint.
pub const REWIND_COMMAND: &'static str = r#"---
description: Restore the working tree to an earlier checkpoint (untracked and gitignored files included)
---

Restore this repo to an earlier {{name}} checkpoint. Follow exactly:

1. Run `{{name}} timeline` and show the user the recent checkpoints.
2. Ask which checkpoint to restore (or confirm if they already named one:
   $ARGUMENTS).
3. Run `{{name}} rewind <id> --yes`.
4. Run `cd "$PWD"` in your shell. A rewind swaps the repo directory, and a
   shell that stays in the old inode silently runs every later command in
   the replaced tree.
5. Tell the user: the tree is restored exactly (including generated and
   gitignored files); a safety checkpoint of the pre-rewind state was taken
   automatically; and they should reload their editor, since open buffers
   still show the replaced tree.
6. Do not run any other write operations until the rewind completes.
"#;

/// The command that answers questions of history.
pub const TIMELINE_COMMAND: &'static str = r#"---
description: Show the repo's history as conversation turns, diff what a turn changed, or restore one file from an earlier point
---

Answer the user's history question with {{name}}'s timeline. Request:
$ARGUMENTS

Pick the matching step:

- "What happened / what did each turn do": run `{{name}} turns` (add
  `--session <id>` for an older session from `{{name}} sessions`) and
  summarize which prompt led to which checkpoints.
- "What did turn N change" or "what did approach X look like": run
  `{{name}} diff --turn N` and list the files; for an abandoned attempt the
  session brief names its checkpoint range, so `{{name}} diff <a> <b>`.
- "Why did file X change": run `{{name}} timeline --limit 200`, then
  `{{name}} show <id>` on the checkpoint after the change to get the turn
  and the prompt that caused it.
- "Bring back just file X from earlier": `{{name}} restore <id> <path>`.
  Only that path changes; the rest of the tree is untouched. Tell the user
  a checkpoint recorded the restore, so it is itself undoable.

Never guess at history from memory when the timeline can answer exactly.
"#;

/// The skill of trying risky changes on checkpoints.
pub const SELF_ROLLBACK_SKILL: &'static str = r#"---
name: {{name}}-self-rollback
description: Use {{name}} checkpoints to try risky changes safely - checkpoint before an attempt, rewind cleanly on failure instead of hand-reverting, and show a blast-radius diff before finishing. Use when a task is risky (migrations, refactors, codegen, dependency changes), when a failed attempt needs undoing, or before declaring multi-file work done.
---

# Self-rollback with {{name}}

This repo checkpoints automatically around your tool calls (an {{name}}
daemon snapshots the working tree, including untracked and gitignored
files). You can also use it deliberately:

## Before a risky attempt
Run `{{name}} checkpoint --wait -m "before <attempt>"`. Note the printed
checkpoint id.

## When an attempt fails
Do NOT hand-revert edits (more edits poison the tree). Instead:
1. `{{name}} timeline` - find the checkpoint from before the attempt.
2. `{{name}} rewind <id> --yes` - the tree is back exactly, including
   generated files and Bash side effects.
3. Try the next approach from the clean state.

## Before declaring work done
Run `{{name}} diff --stat` and review the blast radius: every file the
session changed, including what scripts and generators wrote. Mention
anything unexpected to the user.

## History across the conversation
Every checkpoint is linked to the conversation turn (prompt) that caused
it, and history survives across sessions:
- `{{name}} turns` - which prompt led to which checkpoints.
- `{{name}} diff --turn N` - exactly what turn N changed.
- `{{name}} show <id>` - a checkpoint's session, turn, and prompt.
- `{{name}} restore <id> <path>` - bring back ONE file from any checkpoint
  (an earlier abandoned approach, say) without touching the rest.
The session-start brief in your context names the previous session's end
checkpoint and any abandoned branches; use their ids directly.

## Rules
- After ANY `{{name}} rewind` or `{{name}} promote`, run `cd "$PWD"` before
  the next command. Both swap the repo directory; a shell left in the old
  inode silently operates on the replaced tree.
- Rewind restores file contents and modes, not mtimes: expect rebuilds.
- Paths listed under `exclude` in .{{name}}/config.toml (secrets, bulky
  generated state) are never checkpointed: a rewind leaves them exactly
  as they are now, and `{{name}} restore` refuses them. Do not rely on a
  checkpoint to undo an edit to an excluded file.
- After a rewind, the user's editor may show stale buffers - say so.
- If `{{name}}` reports the daemon is not running, checkpointing is off;
  tell the user to run `{{name}} init` rather than working around it.
"#;

/// The command that races approaches in forks.
pub const FORK_COMMAND: &'static str = r#"---
description: Race N approaches to a task in isolated forks and land the winner, or run one risky step in a fork first
---

Use the {{name}}-fork-decompose skill for this request. Arguments: $ARGUMENTS

Parse the arguments for parameter overrides in the form `key=value`
(fan_out, max_depth, max_forks, require_tests, test_command, tie_break);
everything else is the task. Run `{{name}} policy` for the defaults, apply
the overrides, and state the effective parameters in one line before
forking.
"#;

/// The skill of splitting work across forks.
pub const FORK_DECOMPOSE_SKILL: &'static str = r#"---
name: {{name}}-fork-decompose
description: Solve a large or uncertain task with isolated {{name}} forks - race alternative approaches and land one winner, partition independent parts across forks and land them all, or prove a risky step in a fork before it touches the real tree. Use when two or more designs are plausible, when a task splits into parts that touch different files, or when the user runs /fork. Not for small edits: checkpoint and do those in place.
---

# Fork decomposition with {{name}}

You are the ROOT agent in the real repository. Only the root can fork.
Subagents work inside fork directories and NEVER run `{{name}}`. Recursion
is you repeating ROUND: fork, race, promote one, re-fork from the new tree.

## 0. Parameters (read first, every time)

Run `{{name}} policy`. It prints:

```
fan_out = N          forks per race
max_depth = N        rounds before you must check in with the user
max_forks = N        total forks for one task
require_tests = bool a fork can win only if its tests pass
test_command = ...   command each subagent runs, or "(infer from the repo)"
tie_break = ...      "smallest-diff" | "first-passing" | "ask-user"
```

`/fork` arguments of the form `key=value` override these. State the
effective values in ONE line before the first fork, e.g.
`fork policy: fan_out=3 max_depth=2 max_forks=8 tests=required tie=smallest-diff`.

## 1. Decide ONCE, locally: DO, RACE, PARTITION, or SEQUENCE

- **DO** — one obvious approach, or a handful of edits. Run
  `{{name}} checkpoint -m "before <task>"` and work in the real tree.
  If unsure, prefer DO. Rewind already makes a wrong turn cheap; a fork
  must beat rewind, not beat nothing.
- **RACE** — one goal, 2 or more genuinely different approaches, and a
  wrong choice would be expensive. Fork `fan_out` ways, one approach each,
  land ONE.
- **PARTITION** — independent parts. Fork one per part, land EVERY
  passing fork. Promote merges each fork onto the moved mainline: paths
  only that fork touched are written in place ("promoted by replay"), and
  a file both sides edited is merged three-way by content ("promoted by
  merge"). Only edits to the SAME LINES conflict: the promote then writes
  conflict markers into that fork and lands nothing; resolve them in the
  fork and promote again. ADJACENT lines count as the same region (a
  three-way merge cannot split one hunk), so a list of bullets or a
  block of imports is one region: give it to one fork. Assign ownership
  by file, or by region of a shared file, in each child prompt so
  conflicts stay rare. Edits other parts depend on (a type, an
  interface, a config key) go first as a SEQUENCE step, then partition
  the rest. Gitignored files (bytecode caches, build output, .env) never
  conflict: the mainline keeps its own copy and promote says so.
- **SEQUENCE** — several dependent steps where a later step must not start
  until an earlier one is proven. One fork per step, promote, re-fork.

## 2. One ROUND

Depth starts at 1 and increases by one per round.

1. `{{name}} checkpoint -m "round <depth>: before <goal>"`.
2. `{{name}} fork -n <fan_out>`. Note each id and path and whether it says
   `(mount)` or `(copy)`. Copy forks cost time proportional to the tree:
   keep them few and short-lived.
3. Dispatch ALL subagents in one turn, one per fork, using the CHILD
   PROMPT below. Do not keep one approach for yourself.
4. **Freeze.** Make NO edits to the real tree while forks are live. A
   real-tree edit merges like another fork would: fine when disjoint,
   a conflict to resolve when it touches the same lines.
5. When all reports are in, `{{name}} fork-diff <id>` for each fork.
6. RACE: pick the winner by the SELECTION RULE and `{{name}} promote <winner>`.
   PARTITION: `{{name}} promote <id>` for every fork that passed, in
   dispatch order. Every promote writes the fork's paths into the real
   tree in place; the repo directory is never replaced.
7. Read each promote's output: `promoted` / `promoted by merge` landed;
   `N file(s) conflict` wrote markers into that fork (see section 6).
8. `{{name}} fork-drop <id>` for every fork you will not land, immediately.
9. Report the round in the ROUND REPORT shape.
10. If work remains and depth < max_depth and forks used < max_forks,
    start the next round from the promoted tree. Otherwise stop and
    report to the user.

## 3. CHILD PROMPT (copy exactly, fill the angle brackets)

```
You are working in an isolated fork of the repository at:
  <absolute fork path>
Use ONLY absolute paths under that directory. Do not cd elsewhere. Do not
run any `{{name}}` command: this directory is a fork, not the repository.
Do not read or write the real repository at <absolute repo root>.

GOAL: <one sentence, verbatim from the task>
YOUR APPROACH (<kebab-case-id>): <one or two sentences naming this
approach and what makes it different from the alternatives>
YOU OWN: <PARTITION only: the files, directories, or regions of a shared
file this fork may change; touch nothing else, or your promote will
conflict with a sibling's>
DEPTH: <depth> of <max_depth>

Do the work. Make your first tool call a write to the file you own most.
Before reporting, run the tests with the fork directory as the working
directory, e.g. `cd <absolute fork path> && <test_command>`:
  <test_command, or: infer the project's test command and run it>

Reply with exactly this shape and nothing else:

## APPROACH: <kebab-case-id>
### RESULT: PASS | FAIL | PARTIAL
### TESTS: <command run> -> <pass/fail count or "not run: reason">
### FILES: <one path per line, absolute path stripped to repo-relative>
### RISKS: <one line each, or "none">
### RECOMMEND: <one line: land | drop | needs <what>>
```

## 4. SELECTION RULE

1. Discard any fork whose RESULT is FAIL, and any with RESULT PARTIAL
   unless every fork is PARTIAL.
2. If `require_tests` is true, discard any fork whose TESTS did not pass.
3. If none remain: drop all forks, run ONE more round with the failures
   named in each child's approach text, then stop and report. Never
   promote a partial without saying so in the report.
4. If several remain, apply `tie_break`:
   - `smallest-diff`: fewest paths in `{{name}} fork-diff`, not counting
     `m` (metadata) lines or `(gitignored)` lines, then fewest RISKS.
   - `first-passing`: the first fork id in dispatch order that passed.
   - `ask-user`: show each candidate's fork-diff and RISKS, ask, wait.
5. A fork must be clearly better than doing nothing. If the winner's
   fork-diff is empty, drop it and treat the round as DO.

## 5. ROUND REPORT (to the user, after every round)

```
round <depth>/<max_depth> · <goal>
  winner  <id> <approach-id>  tests <result>  <N> paths
  dropped <id> <approach-id>  <one-line reason>
  (one dropped line per loser)
  forks used <n>/<max_forks>
```

After the final round: `{{name}} diff <first checkpoint> <latest>` and
summarise the blast radius, ignoring `m` (metadata-only) lines. Mention
anything a script or generator wrote.

## 6. Failure and fallback

- A promote that reports `N file(s) conflict` has written conflict
  markers into THAT FORK (the mainline is untouched) and moved the fork
  onto the current tree. Open each named file in the fork, resolve every
  `<<<<<<<` / `|||||||` / `=======` / `>>>>>>>` block (the middle block is
  the original), leave no markers, then `{{name}} promote <id>` again. A
  `(deleted)` label means one side deleted the file: keep it without
  markers or delete it. `unresolved conflict markers` means a block is
  still there.
- A promote that says paths `cannot be merged` (binary, too large, a kind
  change, a directory deleted on one side and changed inside on the
  other) cannot be resolved in place: one fork must own that path. The
  fork is untouched; re-fork from the current tree and redo that part
  with tighter ownership.
- `{{name}} forks` says none are live after a daemon restart: every fork is
  lost. Re-run the round; nothing was landed.
- `{{name}} fork` fails with a mounts error: read `{{name}} status`, tell the
  user what it says, and fall back to DO.
- Two rounds in a row with no winner: stop and ask the user.

## Quick decision reference

| Situation | Action |
|---|---|
| One obvious approach, or a handful of edits | DO |
| 2+ genuinely different designs, expensive to guess wrong | RACE |
| Dependent steps, each must be proven first | SEQUENCE |
| Independent parts, different files | PARTITION |
| Independent parts that share a file, different regions | PARTITION; the merge is line-level |
| Independent parts that share lines, or a type/interface others use | SEQUENCE that edit first, then PARTITION |
| depth == max_depth and work remains | Stop, report, ask |
| forks used == max_forks | Stop, report, ask |
| Winner's fork-diff is empty | Drop it; the round was DO |
"#;

/// What follows the heading of the cheatsheet.
pub const AGENTS_MD_REST: &'static str = r#"

This repo uses {{name}}: the working tree (untracked + gitignored files
included) is snapshotted by a local daemon. Useful commands:

    {{name}} checkpoint --wait -m "msg"   snapshot now, note the id
    {{name}} timeline                     recent checkpoints
    {{name}} rewind <id> --yes            restore the tree exactly
    {{name}} diff --stat                  everything changed this session
    {{name}} turns                        which prompt caused which checkpoints
    {{name}} diff --turn N                what one conversation turn changed
    {{name}} restore <id> <path>          bring back one file, leave the rest
    {{name}} brief                        where the previous session ended

Before a risky change, checkpoint. After a failed attempt, rewind instead
of hand-reverting. Before finishing, review `{{name}} diff`. Paths under
`exclude` in .{{name}}/config.toml are never checkpointed; a rewind leaves
them untouched.

## Splitting work across isolated forks

A fork is a writable copy-on-write view of the tree, cut in well under a
second however large the repo. Work inside one is invisible to the real
tree until you promote it.

    {{name}} policy                  the decomposition limits for this repo
    {{name}} fork -n N               cut N forks; each prints its path
    {{name}} fork-diff <id>          what one fork changed, before landing it
    {{name}} promote <id>            land that fork into the real tree
    {{name}} fork-drop <id>          discard it; its changes evaporate
    {{name}} forks                   what is live right now

Read `{{name}} policy` first and stay inside its limits. Then pick ONE:

- **DO** - one obvious approach, or a handful of edits. Checkpoint and work
  in the real tree. If unsure, prefer this: a fork must beat rewind, not
  beat nothing.
- **PARTITION** - independent parts touching different files. One fork per
  part, promote every fork that passed.
- **RACE** - one goal, 2+ genuinely different designs, expensive to guess
  wrong. One fork per approach, land exactly one.
- **SEQUENCE** - dependent steps. One fork per step, promote, re-fork.

Rules that are easy to get wrong:

- **Never fork a step that cannot be parallelised.** A summary, a merge, a
  reconciliation or a final ranking has no alternatives to race and nothing
  to split - forking it only adds coordination. Do it yourself.
- **Give each fork enough work to be worth it.** Coordination costs roughly
  a fixed amount per fork; if a fork's share is smaller than that, you are
  slower than doing it serially.
- **Freeze while forks are live.** Do not edit the real tree; a real-tree
  edit merges like another fork would.
- **Subagents never run `{{name}}`.** They work inside their fork directory
  by absolute path. Only you fork, promote and drop.
- A promote reporting `N file(s) conflict` wrote diff3 markers into THAT
  FORK and landed nothing. Resolve them there, then promote again.
"#;

/// The rule that one host applies always.
pub const CURSOR_RULE: &'static str = r#"---
description: {{name}} checkpoints - use the CLI to inspect and restore history
alwaysApply: true
---

## {{name}} checkpoints

This repo uses {{name}}: the working tree (untracked + gitignored files
included) is snapshotted by a local daemon. Useful commands:

    {{name}} checkpoint --wait -m "msg"   snapshot now, note the id
    {{name}} timeline                     recent checkpoints
    {{name}} rewind <id> --yes            restore the tree exactly
    {{name}} diff --stat                  everything changed this session
    {{name}} turns                        which prompt caused which checkpoints
    {{name}} diff --turn N                what one conversation turn changed
    {{name}} restore <id> <path>          bring back one file, leave the rest
    {{name}} brief                        where the previous session ended

Before a risky change, checkpoint. After a failed attempt, rewind instead
of hand-reverting. Before finishing, review `{{name}} diff`. Paths under
`exclude` in .{{name}}/config.toml are never checkpointed; a rewind leaves
them untouched.

## Splitting work across isolated forks

A fork is a writable copy-on-write view of the tree, cut in well under a
second however large the repo. Work inside one is invisible to the real
tree until you promote it.

    {{name}} policy                  the decomposition limits for this repo
    {{name}} fork -n N               cut N forks; each prints its path
    {{name}} fork-diff <id>          what one fork changed, before landing it
    {{name}} promote <id>            land that fork into the real tree
    {{name}} fork-drop <id>          discard it; its changes evaporate
    {{name}} forks                   what is live right now

Read `{{name}} policy` first and stay inside its limits. Then pick ONE:

- **DO** - one obvious approach, or a handful of edits. Checkpoint and work
  in the real tree. If unsure, prefer this: a fork must beat rewind, not
  beat nothing.
- **PARTITION** - independent parts touching different files. One fork per
  part, promote every fork that passed.
- **RACE** - one goal, 2+ genuinely different designs, expensive to guess
  wrong. One fork per approach, land exactly one.
- **SEQUENCE** - dependent steps. One fork per step, promote, re-fork.

Rules that are easy to get wrong:

- **Never fork a step that cannot be parallelised.** A summary, a merge, a
  reconciliation or a final ranking has no alternatives to race and nothing
  to split - forking it only adds coordination. Do it yourself.
- **Give each fork enough work to be worth it.** Coordination costs roughly
  a fixed amount per fork; if a fork's share is smaller than that, you are
  slower than doing it serially.
- **Freeze while forks are live.** Do not edit the real tree; a real-tree
  edit merges like another fork would.
- **Subagents never run `{{name}}`.** They work inside their fork directory
  by absolute path. Only you fork, promote and drop.
- A promote reporting `N file(s) conflict` wrote diff3 markers into THAT
  FORK and landed nothing. Resolve them there, then promote again.
"#;

/// Whether a heading at a position of a text begins with the letter of the only
/// one that follows the cheatsheet's own.
pub open spec fn later_heading(s: Seq<char>, j: int) -> bool {
    0 <= j && j + 3 < s.len() && s[j] == '#' && s[j + 1] == '#' && s[j + 2] == ' ' ==> s[j + 3]
        == 'S'
}

/// What follows the heading of the cheatsheet has no other heading than that.
/// Only of a literal are the characters known, so the text stands here again.
pub proof fn lemma_later_headings()
    ensures
        forall|j: int| #[trigger] later_heading(AGENTS_MD_REST@, j),
{
    reveal_strlit(r#"

This repo uses {{name}}: the working tree (untracked + gitignored files
included) is snapshotted by a local daemon. Useful commands:

    {{name}} checkpoint --wait -m "msg"   snapshot now, note the id
    {{name}} timeline                     recent checkpoints
    {{name}} rewind <id> --yes            restore the tree exactly
    {{name}} diff --stat                  everything changed this session
    {{name}} turns                        which prompt caused which checkpoints
    {{name}} diff --turn N                what one conversation turn changed
    {{name}} restore <id> <path>          bring back one file, leave the rest
    {{name}} brief                        where the previous session ended

Before a risky change, checkpoint. After a failed attempt, rewind instead
of hand-reverting. Before finishing, review `{{name}} diff`. Paths under
`exclude` in .{{name}}/config.toml are never checkpointed; a rewind leaves
them untouched.

## Splitting work across isolated forks

A fork is a writable copy-on-write view of the tree, cut in well under a
second however large the repo. Work inside one is invisible to the real
tree until you promote it.

    {{name}} policy                  the decomposition limits for this repo
    {{name}} fork -n N               cut N forks; each prints its path
    {{name}} fork-diff <id>          what one fork changed, before landing it
    {{name}} promote <id>            land that fork into the real tree
    {{name}} fork-drop <id>          discard it; its changes evaporate
    {{name}} forks                   what is live right now

Read `{{name}} policy` first and stay inside its limits. Then pick ONE:

- **DO** - one obvious approach, or a handful of edits. Checkpoint and work
  in the real tree. If unsure, prefer this: a fork must beat rewind, not
  beat nothing.
- **PARTITION** - independent parts touching different files. One fork per
  part, promote every fork that passed.
- **RACE** - one goal, 2+ genuinely different designs, expensive to guess
  wrong. One fork per approach, land exactly one.
- **SEQUENCE** - dependent steps. One fork per step, promote, re-fork.

Rules that are easy to get wrong:

- **Never fork a step that cannot be parallelised.** A summary, a merge, a
  reconciliation or a final ranking has no alternatives to race and nothing
  to split - forking it only adds coordination. Do it yourself.
- **Give each fork enough work to be worth it.** Coordination costs roughly
  a fixed amount per fork; if a fork's share is smaller than that, you are
  slower than doing it serially.
- **Freeze while forks are live.** Do not edit the real tree; a real-tree
  edit merges like another fork would.
- **Subagents never run `{{name}}`.** They work inside their fork directory
  by absolute path. Only you fork, promote and drop.
- A promote reporting `N file(s) conflict` wrote diff3 markers into THAT
  FORK and landed nothing. Resolve them there, then promote again.
"#);
}

} // verus!
