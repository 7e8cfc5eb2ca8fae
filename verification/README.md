# apery

A shogi engine core whose rules and data structures are written in Verus and proved
against their contracts, with a thin USI front end around it.

## Layout

- `src/` — the verified library:
  - `types.rs`, `hand.rs`, `bitboard.rs`, `movetypes.rs`: squares, pieces, hands, bitboards
    and attack tables, moves.
  - `position.rs`: positions — SFEN reading and writing, attackers, static exchange
    evaluation, pseudo-legality and legality, checks, entering-king declaration, Huffman
    coded positions; `position/moves.rs`: making and taking back moves, and a position
    with its stack of states.
  - `kppt.rs`: the KPP/KKP evaluation — full and difference evaluation, evaluation list
    and hash, and the laws that tie the difference evaluation to the full one.
  - `movepick.rs`: move scoring and selection for the search stages.
  - `thread.rs`: the decisions of iterative deepening — the aspiration window of a
    principal line and how it moves after each search, the depth of each search, which
    depths a helper thread leaves out, and when deepening stops.
  - `tt.rs`: the transposition table; `usioption.rs`: USI options; `timeman.rs`,
    `search.rs`, `piecevalue.rs`, `sfen.rs`, `strings.rs`: supporting pieces.
- `tests/`: tests run against the compiled library.
- `app/`: the USI program: reading commands, loading evaluation tables from disk, time
  arithmetic in floating point.

## Use

The program reads USI commands on standard input, for example:

```
usi
isready
position startpos moves 7g7f
```

`usi`, `isready`, `setoption`, `position` (with moves) and `usinewgame` are served.
Searching (`go`) is not: the library has no move generator and no alpha-beta search; of
iterative deepening it holds the decisions, not the searches they ask for.
