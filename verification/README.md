# aidev

The core of a coding agent for the terminal, as a verified library: sessions with their histories,
channels into directories and containers, permissions, dialogs, and the configuration.

- `src/` is the library. Its functions carry contracts over mathematical models of their data, and
  Verus proves them; methods of a trait have theirs from the trait, and reading the clock promises
  nothing. Functions named `law_…` state what holds of the library as a whole.
- `app/` is ordinary Rust around it: the terminal, files, commands and threads. The library never
  waits for the outside; it hands out a `Task`, and `app/` hands the result back. What draws, what
  talks to models and what works on repositories is given to `app/` through three traits.
- `tests/` runs the library on concrete values.

| Module         | Content                                                                 |
|----------------|-------------------------------------------------------------------------|
| `app`          | sessions, keys, dialogs, the channel builder, commands, worker reports  |
| `channel`      | paths, searches, ignore rules, running commands, containers, worktrees  |
| `chat`         | the history, what goes to the model, token counts                       |
| `config`       | models, providers, defaults                                             |
| `editor`       | the input field                                                         |
| `perm`         | read, write, execute                                                    |
| `json`, `llm`  | values of the connection to models                                      |
| `table`, `text`| tables and texts                                                        |

What the library takes from other crates and from the standard library without proof stands in a
few wrappers, each with a comment that names the function behind it: in `json`, `table`, `chat`,
`text` and `channel::run`.
