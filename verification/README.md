# stockfish_rs

A chess engine library whose logic is written in Verus and proved against
its contracts, with a small UCI program around it.

## Layout

- `src/types.rs` – colours, pieces, squares, files, ranks, castling rights,
  the 16-bit move encoding and the search value constants.
- `src/bitboard.rs` – bitboards: bit access, population count, least and most
  significant bit, shifts, and the attack sets of every piece (sliding
  attacks computed by walking rays, lines and squares between).
- `src/magic.rs` – magic bitboards: per-square attack tables for rooks and
  bishops indexed by a multiply-and-shift hash of the relevant occupancy;
  each entry carries the blockers it was made for, so a lookup is exact on
  every board.
- `src/zobrist.rs` – the pseudo-random generator and the Zobrist key table.
- `src/position.rs`, `src/position/fen.rs` – the position (mailbox,
  bitboards, counts, state stack), reading and writing FEN, making and
  taking back moves, check and pin information, legality and repetition.
- `src/movegen.rs` – pseudo-legal and legal move generation.
- `src/gen_split.rs` – capture and quiet generation split all moves.
- `src/legality.rs` – what the legality test means for king moves and
  en-passant captures, and the king steps the legal generator gives.
- `src/perft.rs` – counting the leaves of the move tree.
- `src/evaluate.rs` – material, piece-square tables, mobility, bishop pair
  and rooks on open files.
- `src/tt.rs` – the transposition table.
- `src/search.rs` – search limits and the stopping rule, the depth
  schedule of iterative deepening, alpha-beta with quiescence search.
- `src/uci.rs` – the protocol's commands and their arguments, move text.
- `src/text.rs` – splitting words, reading numbers, UTF-8 lengths.
- `app/main.rs` – the program: reads commands, prints answers, times the
  search and perft.
- `tests/` – the tests.

## What is proved

Every public function in `src/` has a contract over mathematical models
(sequences of squares, bitboards as sets of bits, views of the position and
table), and Verus proves each body against it. Among the properties proved:

- a position read from FEN is consistent: mailbox, bitboards and counts
  agree, so each colour-and-type bitboard holds exactly the squares with
  that piece and the two colours share no square;
- taking back a move restores the position, and the incremental Zobrist key
  equals the key computed from scratch, for every move that puts pieces on
  free squares (castling included);
- after a move the checkers are the opponent's pieces attacking the king,
  the halfmove clock restarts exactly after a pawn move or a capture, and the
  en-passant square is the one a double step passed over;
- the attackers of a square are exactly the pieces that attack it;
- capture generation and quiet generation together give exactly the moves
  of all-move generation (queen promotions with the captures,
  under-promotions with the quiets);
- a king move (other than castling) passes the legality test exactly when no
  enemy piece attacks the king's new square on the board after the move;
  every king step the legal generator gives leaves the king unattacked, and
  every such safe step is given;
- an en-passant capture passes the legality test exactly when the king is
  not attacked after it (when no enemy pawn, knight or king other than the
  captured pawn attacks the king before);
- perft at depth 1 counts the legal moves, and perft leaves the position
  unchanged when its tree's moves can be taken back;
- a magic-table lookup gives the same attacks as walking the rays, on every
  square and every board;
- probing right after a store finds the stored entry;
- the evaluation negates when the side to move changes;
- the text of a legal move reads back to a move with the same squares and
  promotion;
- the search gives the alpha-beta value (with table cut-offs, mate and
  stalemate scores and the quiescence search) whenever it is not stopped,
  and stops exactly when its node or time limit is reached.
