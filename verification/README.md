# dotsync

dotsync keeps config files on a graph of scopes, one branch each. A change is
recorded on the scope it belongs to, merged into every scope below, and written
from this machine's own scope into home.

- `src/` is the library: the rules, the state machines and the rendering, with
  contracts that Verus proves. It holds no repo, no remote and no file. A caller
  hands in what those said and does what comes back.
- `app/` is the program around it: arguments, jj, git and the file system.
- `tests/` runs the library on concrete values.

Where to start reading:

| module | what it decides |
| --- | --- |
| `scope_graph`, `lineage`, `growth` | the graph, read off the history, and what creating a scope does to it |
| `drift` | where a file stands between the last sync, home and the scope |
| `selection`, `walk` | which files a commit records |
| `commit`, `cascade` | the course of a commit and of its cascade |
| `converge`, `pass`, `settled`, `resume` | the merges that bring every scope up to date, what they leave, and how a stopped one goes on |
| `sync`, `sync_run`, `home`, `working_copy` | how home moves |
| `error`, `teaching`, `render`, `answer`, `cli` | what is said, to people and to machines |

Laws that span functions are the public proof functions whose names begin with
`law_`.

`kstring` is named in `Cargo.toml` only to hold it at a version that the compiler
in use can build: git support pulls it in, and no code here calls it.
