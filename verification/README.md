# 观棋 (Guanqi)

A Go board with an analysis engine, written in Verus: the rules of the game, the tree of moves,
game records, clocks, the engine's protocol, the desktop's file dialog and the application's own
state are verified Rust with contracts; drawing, files, processes and sockets are ordinary Rust
around them.

## Layout

- `src/board`: coordinates, captures and ko, and the tree of moves with its cursor.
- `src/sgf`: SGF records: reading, what is kept of them, writing, and that a saved game loads.
- `src/play`: games against the engine, and clocks.
- `src/engine`: settings, the engine's own file, requests, replies, and the account of a running
  engine.
- `src/portal`: the wire format of D-Bus, a connection, and the steps of a file dialog.
- `src/app`: documents and copies, dialogs, questions to the user, what a frame does.
- `src/text.rs`: text, character by character; `src/number.rs`: numbers written in decimal;
  `src/double.rs`: the double nearest to a decimal number and the shortest decimal number for a
  double; `src/natural.rs`: natural numbers of any size.
- `app/`: the program: the window, the engine's process, the session bus, settings on disk.
- `tests/`: tests of the library.

In each part `laws.rs` (in `src/sgf` also `keeping.rs`, `again.rs` and `block.rs`) holds what is true
of several operations together.

Floating point stays out of the library: a double is its 64 bits or the shortest decimal number that
denotes it. Komi is the one text that shows its double, time limits are decimal numbers of seconds,
and the numbers that the engine reports and window geometry are text. Clocks run in whole
nanoseconds, and waiting for an engine's answer is counted in milliseconds.
