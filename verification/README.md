# referee

The referee of a maze game. It seats the players, asks each of them in turn for a move, throws out
whoever misbehaves, hands out goals, and names the winners.

The library under `src/` is written in Verus. Its rules are proved against their contracts, whatever
the players, the observers and the board answer:

| module | what it holds |
| --- | --- |
| `grid`, `board`, `player`, `observer`, `config` | tiles and distances, and what the rules ask of the world |
| `state` | a game as it stands |
| `history` | what the referee has said, in which order, and what it was answered |
| `random` | the seeded generator behind the draws |
| `seating` | the start of a game: board, homes, goals, colors, and how the players hear of it |
| `turn`, `round`, `referee` | one turn, one round, and a whole game |
| `winners` | who has won, and how the players hear of it |
| `remote` | a player at the other end of a connection |
| `laws`, `protocol`, `replay` | what holds of every game: in its course, of what is said, and when it is played again |

`random` holds the two calls into `rand` and `rand_chacha` on whose contracts the proofs rest.

`app/` speaks JSON over TCP to remote players, and `tests/` plays games.
