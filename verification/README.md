# regname

A mass renamer for the terminal: a regex selects files in a directory and a
replacement (with `$1`, `${name}` group references) gives their new names.
Safe mode is on by default: the rename asks for confirmation and is refused
when it would overwrite or delete files.

- `src/` is the verified library:
  - `pattern` compiles match patterns with the `regex` crate;
  - `safety` computes the rename plan, the file counts before and after, and
    the checks that refuse a rename (fewer distinct names afterwards, or a
    file moved onto the name of a file that has not moved yet), with the proof
    that a rename passing the checks never overwrites a file;
  - `cli` reads the command-line options;
  - `history` stores executed `(match, rename)` pairs, most recent first;
  - `cursor` and `field` edit the input fields with byte-offset cursors;
  - `listing` orders and labels directory entries;
  - `ui` is the state machine of the interface: what each key press does.
- `app/` holds the terminal interface (`iocraft`), directory listing, file
  renames and the history file.
- `tests/` runs the library on concrete values.
