# chess_game

The shared logic of a two-player networked chess game, written in Verus and
proved against its contracts, with the server program around it.

- `src/` is the verified library:
  - `chess/`: positions, squares, bitboards, the board (FEN reading, moves,
    flipping) and move generation;
  - `server/`: the lobby and the games the server hosts (players as
    mailboxes), and the decisions of a client proxy. One tick of the
    server is stated exactly: `server_tick` (in `manager.rs`) relates the
    server before and after it through a pass of the lobby (`lobby_run`,
    in `lobby.rs`) and one update of each game (`game_step`, in
    `game.rs`);
  - `ui/`: the state of user-interface elements (hovered, clicked, focused),
    groups of elements, the element registry, and the buttons of the board
    squares;
  - `maths/vec2d.rs`: a row-major grid and its rectangle iterations;
  - `time.rs`, `framestats.rs`: stopwatches, delays, frame timings;
  - `game.rs`, `message.rs`, `networking.rs`: what clients and server tell
    each other, and the packet framing;
  - `logger.rs`, `file.rs`, `text.rs`, `threading.rs`, `random.rs`, `id.rs`:
    smaller helpers.
- `tests/` runs the library on concrete values.
- `app/` is the server program: sockets, threads, serialization with serde
  and bincode, logging with fern, the main loop; and the floating-point
  screen geometry of the user interface.
