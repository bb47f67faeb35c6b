# vmb

A command line tool for Road to Vostok mod developers: it creates mod
boilerplate (`init`), edits a mod's `mod.txt` (`modify`), packs a mod into a
`.vmz` archive (`pack`), installs an archive or a mod root into the game's mods
directory (`install`), shows and follows the game's log (`log`), and runs the
game while streaming its output (`run`).

## Layout

- `src/` is the library, verified with Verus. It holds the tool's decisions:
  the INI/TOML conversion of the mod loader's config, mod names and ids,
  `mod.txt` changes, config profiles and their ordering, archive entry names
  and timestamps, the text of an archive's `mod.txt`, where to install and
  what to run, which log lines get which colour, and the state machines behind
  watching the log and running the game. Each public function carries a
  contract, and the library's laws (round trips, idempotence, what a log watch
  shows) are proof functions.
- `app/` is the program around it: argument parsing, files, processes,
  terminal output and the serde forms of `mod.txt` and the config.
- `tests/` runs the library on concrete values.
