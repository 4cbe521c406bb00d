# sudo-rs

A `sudo` and `su` whose decision logic is a library verified with Verus.

## Layout

- `src/` — the library, every function with a contract proved by Verus:
  - `sudoers/` — the sudoers grammar (`char_stream`, `basic_parser`, `tokens`, `ast`),
    alias checking (`aliases`), `Defaults` settings (`defaults`), matching users, hosts
    and commands (`matching`), the policy decision (`mod.rs`, `policy`) and the
    `sudo --list` entries (`entry`);
  - `sudo_cli`, `su_cli`, `sudoedit_cli`, `help`, `help_edit` — the command lines;
  - `environment` — the environment a command runs with;
  - `timestamp`, `record_file`, `time`, `interface` — session records and their file;
  - `list` — what `sudo --list` prints;
  - `audit`, `system`, `users`, `diagnostic`, `path_name`, `tokens`, `wildcard_match`,
    `text` — file permission checks, kernel and group handling, user records, error
    citations and text helpers.
- `tests/` — tests of the library.
- `app/` — the programs around it: reading files and the user database, running the
  command, printing.

The library uses `glob` (shell patterns for command paths); the programs use `libc` for
the user and group databases and for the system's `PATH_MAX`, which they hand to the
library.
