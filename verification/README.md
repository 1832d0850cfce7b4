# cli_rust

A small command shell whose parsing and decision logic is verified with Verus.

- `src/modules/input/` turns a command line into a pipeline of commands:
  `tokenizer` (words, quotes, unquoted `|`), `quote_handler` (quote and
  escape removal), `expander` (`$NAME` and `${NAME}` substitution) and
  `input_processor` (redirections and the whole pipeline).
- `src/modules/environment.rs` holds the shell variables; `init.rs` the
  session configuration and `cd`; `pipeline.rs` the step-by-step running of a
  pipeline; `repl.rs` what the shell does with each input line.
- `src/grep.rs` is the engine of the `grep` command (regular expressions from
  the `regex` crate, word boundaries, case folding, trailing context).
- `app/` is the program: it reads input, reads files, starts processes and
  parses `grep` arguments with `clap`, and asks the library what to do.
