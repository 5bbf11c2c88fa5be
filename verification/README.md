# makutweaker

A system tweaker for Linux desktops. `src/` is the verified library: every
decision the tweaker makes is a function with a Verus contract — which
commands each tweak runs, how the hosts file is rewritten to block Yandex,
how the block list, `flatpak`, `lspci` and `systemctl` outputs are read, how
the process list is filtered and ordered, how the tweak search is built from
the localization catalog (parsed by `serde_json` behind a trusted wrapper)
and answered, and how the processor limit is written
and read back. `app/` runs those commands, reads and writes the files, and
talks to `sysinfo`; it runs the action named on its command line, or prints
the state the main window opens with.

`src/text.rs` holds the verified text primitives (Unicode whitespace, trimming,
substring search, decimal rendering and parsing, line and word splitting);
`src/command.rs` the command type that the handlers return.
