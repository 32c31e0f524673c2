# deemo

Run a command in the background and keep its output in `~/.deemo`.

```bash
deemo -- <CMD>                 # detach (default): own session, shell returns now
deemo --foreground -- <CMD>    # stay attached; $? is the child's exit code
<cmd> | deemo                  # pipe filter
<cmd> | deemo --background     # detach the pipe pump

deemo ps                       # label, pid, status, log
deemo stop <LABEL|PID>         # stop it
deemo logs <LABEL>             # newest log: path + last ~4 KiB
deemo kill <PORT>              # free a port
```

## Layout

- `src/` is the library, verified with Verus: what deemo reads, decides and says,
  on plain values.
  - `text`, `order`: texts, numerals, sorting.
  - `cli`, `run`: the command line, the modes and what is said in them.
  - `stream`: passing a stream through to stdout and the log.
  - `clock`, `sink`: log names, pruning, the newest log.
  - `registry`, `stop`: pid files, `ps`, and what `stop` does.
  - `port`, `signal`, `kill`: who holds a port, signal names, and what `kill`
    does.
  - `terminate`: SIGTERM, the grace period, SIGKILL.
- `app/` is the program around it: arguments, files, processes, signals.
- `tests/` runs the library on concrete values.

What Verus takes on trust is marked `external_body` or `assume_specification`
in `src/`, each with what it claims of the code outside: the signal numbers of
`libc`, the clock of `chrono`, and three functions of std.

The library reads the unix signal constants of `libc`, so it builds on unix.
What deemo decides on Windows is there as a value of `signal::Platform`.
