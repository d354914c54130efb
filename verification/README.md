# acyclic

Checkpoints, rewind and blast-radius diff of a working tree, for sessions of
coding agents. A daemon per repository snapshots the whole tree, untracked and
ignored files included, around every tool call; a bad attempt is rewound, one
path is restored, or a fork of the tree is promoted, without losing what was
there before.

`src/` is the library: everything the product decides, written in Verus and
proved against its contracts. It does no I/O. What needs the host (files, the
snapshot engine, sockets, processes) is asked for step by step: a state machine
of the library says what to do next and takes what came of it. `app/` is the
program around it: it performs the steps.

| Modules | What they hold |
| --- | --- |
| `index`, `history`, `brief`, `speculate` | the checkpoint rows, what the timeline, the sessions and the brief say of them |
| `pipeline` | requests to the daemon's engine, one at a time, and what each leaves on record |
| `diff`, `walk`, `order` | the changes between two trees |
| `rewind`, `forward`, `recovery`, `crash` | replacing the tree step by step, and finishing or unwinding it after a crash |
| `restore`, `restore_crash`, `nodes` | restoring one path |
| `fork`, `promote`, `merge`, `sides` | forks, and landing one path by path |
| `server`, `proto`, `client` | the daemon's state, the messages, the caller's end |
| `cli`, `report`, `hook`, `mcp` | commands, what they print, hooks and tools |
| `install`, `servers`, `adapters`, `again`, `templates`, `product`, `json` | wiring hosts into a repository, once and again |
| `config`, `store`, `spec_runner` | settings, where state lives, runs of a configured command |
| `path`, `text`, `digest`, `error`, `sorting`, `vecs` | what the rest is built from |

Two of the hosts carry the name of their maker in their ids and paths; the
program is told that name (`--maker`, `ACYCLIC_MAKER`) and the library takes it
as an argument.

The public proof functions named `law_…` state what holds across functions: after
a crash at any step of a rewind, recovery makes the repository the old tree or the
new one, whole, and the old one is kept; a checkpoint is recorded as it was asked
for; a restore stays below its root; a refused promotion keeps the fork; rows are
never dropped or rewritten; a merge loses no change; installing again leaves the
same bytes, where serde_json reads back what it wrote (always, but for some numbers
with a fraction or an exponent). What they say of the host, they say of one whose renames take place
at once and whose file operations do what they report.
