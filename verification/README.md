# backroll

Rollback networking for peer-to-peer games. Every player simulates the game with the inputs
that are known and predicts the others. When an input comes that was predicted wrong, the
game goes back to the state before it and simulates the frames since again.

`src/` is the library, verified with Verus:

- `input`, `input_value`: inputs, and the queue of the inputs of one player with its
  predictions;
- `sync`, `command`: the frames, saved states and rollbacks of a session, and the commands
  that it has for its client;
- `client`: what a client comes to that executes these commands;
- `protocol`: the connection with a remote peer: handshake, messages, the inputs that are
  under way, and their compression;
- `time_sync`, `stage`: how far the players are apart, and when a game waits for the others;
- `id`, `transport`, `backend`: shared ids, the ends of a connection, backends.

`app/` is what runs it: clocks, tasks, sockets, and a plugin for Bevy. `tests/` holds the
tests of the library.
