# school_sanctioned_gambling

Texas hold'em for a table of players, with computer opponents and online lobbies.

The library under `src/` holds the game and is verified with Verus:

- `cards`: the deck, dealing, and the showdown's winners.
- `hand`: scoring five-card hands, comparing them, and finding the best hand in
  more cards.
- `table`: the state of a round and the betting actions.
- `round`: one step of the game loop (dealing, blinds, betting, showdown).
- `local_game`: the betting rules of the game against the computer.
- `preflop`, `easy_ai`, `cheating_ai`: the computer opponents' choices.
- `setup`: the options screen, setting up and resetting the table, the buttons.
- `lobby`: the central server's lobby list, the lobby server's decisions, and
  the client's side.
- `frame`: messages over a byte stream, each prefixed by its length.
- `leaderboard`: reading, ordering and updating the leaderboard lines.
- `text`: decimal numbers in text.
- `random`, `updates`: randomness and event channels taken from outside crates.

`app/` is the program around it: the servers' sockets and threads, the client,
a game on the terminal, the leaderboard and save files, and the opponents whose
play is computed with floating-point numbers. `tests/` exercises the library.
