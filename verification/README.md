# hyperpanes_core

The rules of the hyperpanes terminal multiplexer, as a Verus library: every
function says in its contract what it returns or changes, and Verus proves it.

- `src/session/` holds the sessions. The daemon that owns the terminals
  (`daemon`), its clients (`daemon_client`, `shadow`, `attach`), who is
  responsible for which pane (`claims`), the tmux control mode (`control_mode`),
  the directories that shells report (`cwd`), the environment of new sessions
  (`env`), and the smaller parts they rest on.
- `src/persistence/` holds what is kept on disk: where each file lives, the
  projects, the settings, the window's frame, the paired devices.
- `src/permissions/` holds what is known of the rights that an operating system
  gates.
- `src/text.rs` and `src/assoc.rs` hold strings as sequences of characters and
  maps as ordered sequences of pairs.

The library opens no file, no socket and no terminal. Functions take what was
read as plain values and return what is to be done. `app/` is the ordinary Rust
that reads, asks and carries out. How frames stand on a socket, and the registry
that runs the terminals, are traits there (`Wire`, `Sessions`, `Transport`).

Functions whose names begin with `law_` state what holds of several functions
together: that a claim is granted to one connection only, that a daemon with live
sessions is never torn down, that what is escaped is read back.
