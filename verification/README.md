# embassy-shell

A small interactive shell in the spirit of bash, for serial consoles, verified
with [Verus](https://github.com/verus-lang/verus).

* Line editing: cursor keys, `Home`/`End`, `Delete`, `Backspace`, `Ctrl-U` (kill
  line), `Ctrl-W` (delete word), `Ctrl-L` (clear screen), UTF-8 input.
* Tab completion of command names, and of arguments from fixed option lists or
  custom callbacks.
* History with `Up`/`Down` and the `history` built-in.
* `Ctrl-C` interrupts a running command.
* Built-ins `help`, `history`, `clear`, which user commands can shadow.

## Layout

* `src/` is the shell itself. It decides and prints into a buffer, and performs no
  input or output. Every function states in its contract what it does; the modules
  under `src/laws/` prove what holds of the shell as a whole.
* `app/` is the front end over `embedded-io-async`: it reads bytes, writes what the
  shell prints, and runs command handlers as boxed futures.
* `tests/` runs whole sessions byte by byte, and the parts on their own.

The contracts of the few functions of the standard library that `vstd` does not
specify stand at the top of `src/text.rs`.
