# attach

A command-line tool that lists, attaches to, sends keys to and captures
terminals of Docker containers (`docker://name`, `docker://project/service`)
and tmux panes (`tmux://session/window/pane`, `tmux://%3`).

The library under `src/` is verified with Verus:

- `keys` — xdotool key names (`Return`, `ctrl+c`, `shift+Up`) to terminal bytes;
- `docker`, `tmux` — target paths, command arguments, parsing of `docker ps`
  and `tmux list-panes`, and the steps of lending a tmux pane to a temporary
  session;
- `backends` — target URLs and the backend each one names;
- `listing` — merging the backends' lists, the target table and menu;
- `screen` — the frame size and the bytes of a captured frame;
- `created` — readable creation times (through `chrono` and `chrono-humanize`);
- `text` — the character-level operations the rest is built on.

`app/main.rs` is the program around it: argument parsing, running `docker` and
`tmux`, pseudo-terminals, and printing.
