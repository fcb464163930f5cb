# codecrafters_shell

A small interactive shell. The library (`src/`) holds its logic, verified with Verus:

- `parser`: the tokenizer (unquoted, single-quoted and double-quoted parts, backslash
  escapes) and the parsing of tokens into commands (redirects, a trailing `&`) and pipelines.
- `command`, `pipeline`, `token`: the parsed values and how a command is written back.
- `builtin`, `cd`, `history`, `vars`, `completer`, `jobs`: the builtins and the state they
  keep (registered completion commands, variables, background jobs), and the text they write.
- `expand`: `$name` expansion in unquoted text.
- `shell`: what a line of input asks the shell to do, and how the stages of a pipeline run.
- `table`, `text`: a name-to-value table and character-level string helpers.

`app/` is the program around it: the line editor (rustyline), files, processes and pipes.
