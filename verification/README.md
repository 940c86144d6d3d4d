# zellij_ext

Verified logic for additions to the zellij terminal multiplexer: a panel of
agents, a tab bar tinted by them, tabs that name themselves, a jump tree over the
tabs of all sessions, the win32-input-mode encoder, and small parts of server,
client and tools.

- `src/` is the library, written in Verus. It performs no I/O: a part that
  alternates with the outside answers an event with what is to be done next.
- `app/` performs it: files, threads, the console. What only zellij itself can do
  comes in through traits.
- `tests/` runs the library on concrete values.

The directory in which the agents keep their state, relative to the user's home, is
handed to the plugins by whoever loads them, as `state_dir`.
