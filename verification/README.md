# agterm

The core of a terminal for working with command-line agents, verified with
Verus: the data structures, parsers and decision logic behind the terminal,
each public function with a contract that states what it returns or changes.

## Layout

- `src/` is the verified library.
  - `text`, `fmt`, `strings`: character sequences, number formatting, and the
    string operations the rest is specified with.
  - `diff_view`: the Myers diff, proved to give a shortest diff (its unchanged
    lines are a longest common subsequence), and its side-by-side and unified
    rendering.
  - `automation`: keys, output patterns, conditions, the script language and
    its parser, and the engine's decisions; the caller performs the terminal
    input and output that a decision asks for.
  - `taskgraph`, `scheduler`, `digraph`: the task graph on top of `petgraph`,
    and the scheduler's reactions to task events.
  - `aliases`, `bookmarks`, `broadcast`, `clipboard`, `annotations`,
    `completion`, `command_validator`, `config`, `settings`, `accessibility`,
    `memory`, `encoding`, `color`, `tasks`, `session`, `runtime`, `debug`: the
    remaining managers and models.
  - `clock`, `ident`, `pattern`: the calls into the clock, `uuid` and `regex`,
    behind functions whose contracts say what those crates promise.
- `tests/` runs the library on concrete inputs.
- `app/` is the unverified rim: loading and saving files, the environment,
  the runner that carries out scheduler and automation decisions, and the
  measures computed with floating point.

## Checking

The library is verified by running Verus on `src/lib.rs`; the tests run with
`cargo test`.
