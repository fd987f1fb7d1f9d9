# keylock

Run a command behind an input lock, so a stray key cannot interrupt it.

`keylock` runs the command in its own pseudo-terminal and sits in between: while
the session is locked, every key, Ctrl+C, mouse click and paste is dropped.
Output always passes through.

```sh
keylock run --locked -- ./migrate.sh     # start locked
keylock run -- ./migrate.sh              # start unlocked, lock later
```

| To | Do |
|----|----|
| Lock from inside the terminal | Ctrl+] then `l` |
| Lock from another shell | `keylock on migrate.sh` |
| Unlock from inside the terminal | type `unlock` and Enter |
| Unlock from another shell | `keylock off migrate.sh` |
| See sessions | `keylock ls` |
| Check one session | `keylock status migrate.sh` |

## Layout

- `src/` decides: which input reaches the command (`gate`), what the command's
  output looks like to the user (`title`), what a session does about each thing
  that happens (`relay`), session names, sockets and the control protocol
  (`control`), arguments (`cli`), and what a client prints (`report`). Every
  function there is proved with Verus to do what its contract says. What holds
  of all inputs stands in the proof functions whose names start with `law_`.
- `app/` acts: descriptors, the pty, signals, sockets and the clock.
- `tests/` runs the library on concrete values.
