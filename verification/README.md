# updSH

A Linux shell with a built-in package manager. The library in `src/` holds
the shell's logic with contracts proved by Verus; `app/` is the program
around it: the line editor, signals, `fork`/`exec`, files and the network.

## Layout

- `src/text.rs`, `src/num.rs`, `src/order.rs`: characters, trimming, words,
  lines, decimal numbers and string order.
- `src/parser.rs`: the command-line tokenizer (quotes, escapes, `$VAR`,
  `${VAR}`, `$$`, `~`, redirections including `2>&1`, `|`, `;`, `&`,
  comments).
- `src/builtins.rs`: what each built-in decides; the caller carries out the
  returned action.
- `src/job.rs`, `src/alias.rs`, `src/history.rs`: the job table, the alias
  table with the text of its file, and the command history.
- `src/config.rs`, `src/prompt.rs`: the configuration file and the four
  prompt styles.
- `src/completer.rs`: tab completion and history-based suggestions.
- `src/executor.rs`: program lookup, pipeline and command plans, exit codes.
- `src/pkg.rs`, `src/recipes.rs`: the package manager: the security scan,
  enable scripts, registry search and listings, build and compile plans.
- `src/session.rs`: which input lines run, and the greeting.

The tests in `tests/` exercise the library on concrete values.
