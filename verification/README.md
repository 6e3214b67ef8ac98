# polybar_modules

Modules for [Polybar](https://polybar.github.io/): each one watches something (updates, network, sound,
power, tasks, weather...), keeps its state, and writes the markup that the bar shows.

- `src/` is the library, verified with Verus. `markup`, `theme`, `text`, `numeral`, `double`,
  `fixed_digits` and `quotient` hold what all modules share; `backoff` the growing delays between
  attempts; `polybar_module` one file for each module. A module takes what programs, files and servers
  gave as plain values, and says what to show, what to ask for next and how long to wait.
- `tests/` run the library on concrete values.
- `app/` is the program: arguments and configuration, processes, sockets, HTTP, and the loop that
  updates a module and prints its markup.

Where the library calls another crate, the call stands behind a function marked
`#[verifier::external_body]`, whose comment says what is claimed of it without proof.
