//! Reading and writing positions in Forsyth-Edwards Notation.

use vstd::prelude::*;
use crate::position::{
    BoardView, Position, PositionView, StateInfo, put_spec, put_ok, kings_present, castling_paths_spec,
    key_spec, check_info_spec, flip, empty_board, empty_view, board_wf, count_in, lemma_put_wf, wf, rook_sq_is,
    lemma_and_u8,
};
use crate::text::{
    chars_eq_str, owned, push_all, push_str, str_chars, string_from_chars, split_whitespace, split_char, ws_split, sep_split, parse_u32, parse_u32_spec,
    decimal, decimal_chars, utf8_len, utf8_len_capped, is_digit, all_digits, digits_value, digit_char,
};
use crate::types::{CastlingRights, Color, File, Piece, PieceType, Rank, Square, piece_of, piece_num, square_at};

verus! {

/// The piece a FEN letter stands for.
pub open spec fn fen_piece(c: char) -> Option<Piece> {
    if c == 'P' {
        Some(Piece::WPawn)
    } else if c == 'N' {
        Some(Piece::WKnight)
    } else if c == 'B' {
        Some(Piece::WBishop)
    } else if c == 'R' {
        Some(Piece::WRook)
    } else if c == 'Q' {
        Some(Piece::WQueen)
    } else if c == 'K' {
        Some(Piece::WKing)
    } else if c == 'p' {
        Some(Piece::BPawn)
    } else if c == 'n' {
        Some(Piece::BKnight)
    } else if c == 'b' {
        Some(Piece::BBishop)
    } else if c == 'r' {
        Some(Piece::BRook)
    } else if c == 'q' {
        Some(Piece::BQueen)
    } else if c == 'k' {
        Some(Piece::BKing)
    } else {
        None
    }
}

fn fen_piece_of(c: char) -> (r: Option<Piece>)
    ensures
        r == fen_piece(c),
{
    match c {
        'P' => Some(Piece::make(Color::White, PieceType::Pawn)),
        'N' => Some(Piece::make(Color::White, PieceType::Knight)),
        'B' => Some(Piece::make(Color::White, PieceType::Bishop)),
        'R' => Some(Piece::make(Color::White, PieceType::Rook)),
        'Q' => Some(Piece::make(Color::White, PieceType::Queen)),
        'K' => Some(Piece::make(Color::White, PieceType::King)),
        'p' => Some(Piece::make(Color::Black, PieceType::Pawn)),
        'n' => Some(Piece::make(Color::Black, PieceType::Knight)),
        'b' => Some(Piece::make(Color::Black, PieceType::Bishop)),
        'r' => Some(Piece::make(Color::Black, PieceType::Rook)),
        'q' => Some(Piece::make(Color::Black, PieceType::Queen)),
        'k' => Some(Piece::make(Color::Black, PieceType::King)),
        _ => None,
    }
}

/// "Rank {n} has too many files".
pub open spec fn msg_too_many(n: nat) -> Seq<char> {
    "Rank "@ + decimal(n) + " has too many files"@
}

/// "Invalid piece character: {c}".
pub open spec fn msg_bad_piece(c: char) -> Seq<char> {
    "Invalid piece character: "@.push(c)
}

/// "Rank {n} has {f} files instead of 8".
pub open spec fn msg_rank_files(n: nat, f: nat) -> Seq<char> {
    "Rank "@ + decimal(n) + " has "@ + decimal(f) + " files instead of 8"@
}

/// Reading the first `i` characters of the FEN rank `s` (the `rank_idx`-th from
/// the top) onto `b`: the pieces, the next file, and an error if one occurred.
pub open spec fn rank_state(b: BoardView, rank_idx: int, s: Seq<char>, i: int) -> (BoardView, int, Option<Seq<char>>)
    decreases i,
{
    if i <= 0 {
        (b, 0, None)
    } else {
        let (b1, file, err) = rank_state(b, rank_idx, s, i - 1);
        let c = s[i - 1];
        if err is Some {
            (b1, file, err)
        } else if file >= 8 {
            (b1, file, Some(msg_too_many((rank_idx + 1) as nat)))
        } else if is_digit(c) {
            (b1, file + (c as int - '0' as int), None)
        } else {
            match fen_piece(c) {
                Some(p) => (put_spec(b1, p, 8 * (7 - rank_idx) + file), file + 1, None),
                None => (b1, file, Some(msg_bad_piece(c))),
            }
        }
    }
}

/// Reading a whole FEN rank: the pieces and an error if one occurred.
pub open spec fn rank_result(b: BoardView, rank_idx: int, s: Seq<char>) -> (BoardView, Option<Seq<char>>) {
    let (b1, file, err) = rank_state(b, rank_idx, s, s.len() as int);
    if err is Some {
        (b1, err)
    } else if file != 8 {
        (b1, Some(msg_rank_files((rank_idx + 1) as nat, file as nat)))
    } else {
        (b1, None)
    }
}

/// Reading the first `n` FEN ranks onto `b`, stopping at the first error.
pub open spec fn board_state(b: BoardView, ranks: Seq<Seq<char>>, n: int) -> (BoardView, Option<Seq<char>>)
    decreases n,
{
    if n <= 0 {
        (b, None)
    } else {
        let (b1, e) = board_state(b, ranks, n - 1);
        if e is Some {
            (b1, e)
        } else {
            rank_result(b1, n - 1, ranks[n - 1])
        }
    }
}

/// Every piece count is at most `n`.
pub open spec fn counts_at_most(b: BoardView, n: int) -> bool {
    forall|i: int| 0 <= i < 16 ==> #[trigger] b.piece_count[i] <= n
}


fn too_many_message(n: usize) -> (r: Vec<char>)
    ensures
        r@ == msg_too_many(n as nat),
{
    let mut v: Vec<char> = Vec::new();
    push_str(&mut v, "Rank ");
    let d = decimal_chars(n as u64);
    push_all(&mut v, &d);
    push_str(&mut v, " has too many files");
    proof {
        assert(v@ =~= msg_too_many(n as nat));
    }
    v
}

fn bad_piece_message(c: char) -> (r: Vec<char>)
    ensures
        r@ == msg_bad_piece(c),
{
    let mut v: Vec<char> = Vec::new();
    push_str(&mut v, "Invalid piece character: ");
    v.push(c);
    proof {
        assert(v@ =~= msg_bad_piece(c));
    }
    v
}

fn rank_files_message(n: usize, f: usize) -> (r: Vec<char>)
    ensures
        r@ == msg_rank_files(n as nat, f as nat),
{
    let mut v: Vec<char> = Vec::new();
    push_str(&mut v, "Rank ");
    let d = decimal_chars(n as u64);
    push_all(&mut v, &d);
    push_str(&mut v, " has ");
    let d2 = decimal_chars(f as u64);
    push_all(&mut v, &d2);
    push_str(&mut v, " files instead of 8");
    proof {
        assert(v@ =~= msg_rank_files(n as nat, f as nat));
    }
    v
}

proof fn lemma_put_counts(b: BoardView, p: Piece, sq: int, n: int)
    requires
        counts_at_most(b, n),
        b.piece_count.len() == 16,
    ensures
        counts_at_most(put_spec(b, p, sq), n + 1),
{
    let b2 = put_spec(b, p, sq);
    assert forall|i: int| 0 <= i < 16 implies #[trigger] b2.piece_count[i] <= n + 1 by {
        assert(b.piece_count[i] <= n);
    }
}

impl Position {
    /// Reads one FEN rank onto the board; returns the error message if it is malformed.
    fn place_rank(&mut self, rank_idx: usize, s: &Vec<char>) -> (r: Option<Vec<char>>)
        requires
            rank_idx < 8,
            counts_at_most(old(self)@.board, 8 * rank_idx as int),
        ensures
            final(self)@ == (PositionView { board: rank_result(old(self)@.board, rank_idx as int, s@).0, ..old(self)@ }),
            r is Some <==> rank_result(old(self)@.board, rank_idx as int, s@).1 is Some,
            r matches Some(e) ==> Some(e@) == rank_result(old(self)@.board, rank_idx as int, s@).1,
            r is None ==> counts_at_most(final(self)@.board, 8 * (rank_idx + 1)),
    {
        let ghost v = self@;
        let rank = Rank::from_index(7 - rank_idx);
        let mut file: usize = 0;
        let mut i: usize = 0;
        while i < s.len()
            invariant
                rank_idx < 8,
                v == old(self)@,
                rank as int == 7 - rank_idx,
                i <= s@.len(),
                file <= 16,
                rank_state(v.board, rank_idx as int, s@, i as int) == (self@.board, file as int, None::<Seq<char>>),
                self@ == (PositionView { board: self@.board, ..v }),
                counts_at_most(self@.board, 8 * rank_idx + file),
            decreases s@.len() - i,
        {
            let c = s[i];
            if file >= 8 {
                let msg = too_many_message(rank_idx + 1);
                proof {
                    assert(rank_state(v.board, rank_idx as int, s@, i as int + 1) == (self@.board, file as int, Some(
                        msg_too_many((rank_idx + 1) as nat))));
                    lemma_rank_state_stuck(v.board, rank_idx as int, s@, i as int + 1);
                    let rs = rank_state(v.board, rank_idx as int, s@, s@.len() as int);
                    assert(rs.2 == Some(msg@));
                    assert(rank_result(v.board, rank_idx as int, s@) == (rs.0, rs.2));
                }
                return Some(msg);
            }
            if '0' <= c && c <= '9' {
                let skip = (c as u32 - '0' as u32) as usize;
                file = file + skip;
            } else {
                match fen_piece_of(c) {
                    Some(piece) => {
                        let sq = Square::make(File::from_index(file), rank);
                        proof {
                            lemma_put_counts(self@.board, piece, sq as int, 8 * rank_idx + file);
                        }
                        self.put_piece(piece, sq);
                        file = file + 1;
                    },
                    None => {
                        let msg = bad_piece_message(c);
                        proof {
                            lemma_rank_state_stuck(v.board, rank_idx as int, s@, i as int + 1);
                        }
                        return Some(msg);
                    },
                }
            }
            i = i + 1;
        }
        if file != 8 {
            return Some(rank_files_message(rank_idx + 1, file));
        }
        None
    }
}

/// Once an error occurs in a rank, reading on keeps it.
proof fn lemma_rank_state_stuck(b: BoardView, rank_idx: int, s: Seq<char>, i: int)
    requires
        0 <= i <= s.len(),
        rank_state(b, rank_idx, s, i).2 is Some,
    ensures
        rank_state(b, rank_idx, s, s.len() as int) == rank_state(b, rank_idx, s, i),
    decreases s.len() - i,
{
    if i < s.len() {
        lemma_rank_state_stuck(b, rank_idx, s, i + 1);
    }
}


/// "Invalid castling character: {c}".
pub open spec fn msg_bad_castle(c: char) -> Seq<char> {
    "Invalid castling character: "@.push(c)
}

/// Reading the first `i` characters of the FEN castling field over the pieces
/// `b`: the rights, the castling rook squares and an error if one occurred.
pub open spec fn castle_state(b: BoardView, s: Seq<char>, i: int) -> (u8, Seq<Option<Square>>, Option<Seq<char>>)
    decreases i,
{
    if i <= 0 {
        (0u8, seq![None::<Square>, None, None, None], None)
    } else {
        let (cr, rooks, err) = castle_state(b, s, i - 1);
        let c = s[i - 1];
        if err is Some {
            (cr, rooks, err)
        } else if c == 'K' {
            (cr | 1u8, if b.squares[7] == Some(Piece::WRook) { rooks.update(0, Some(Square::H1)) } else { rooks }, None)
        } else if c == 'Q' {
            (cr | 2u8, if b.squares[0] == Some(Piece::WRook) { rooks.update(1, Some(Square::A1)) } else { rooks }, None)
        } else if c == 'k' {
            (cr | 4u8, if b.squares[63] == Some(Piece::BRook) { rooks.update(2, Some(Square::H8)) } else { rooks }, None)
        } else if c == 'q' {
            (cr | 8u8, if b.squares[56] == Some(Piece::BRook) { rooks.update(3, Some(Square::A8)) } else { rooks }, None)
        } else if c == '-' {
            (cr, rooks, None)
        } else {
            (cr, rooks, Some(msg_bad_castle(c)))
        }
    }
}

proof fn lemma_or_small(a: u8, b: u8)
    requires
        a < 16,
        b < 16,
    ensures
        a | b < 16,
{
    assert(a | b < 16) by (bit_vector)
        requires
            a < 16,
            b < 16,
    ;
}

proof fn lemma_castle_state_stuck(b: BoardView, s: Seq<char>, i: int)
    requires
        0 <= i <= s.len(),
        castle_state(b, s, i).2 is Some,
    ensures
        castle_state(b, s, s.len() as int) == castle_state(b, s, i),
    decreases s.len() - i,
{
    if i < s.len() {
        lemma_castle_state_stuck(b, s, i + 1);
    }
}

/// "{what}{field}" for the en-passant errors.
pub open spec fn ep_error(which: int, s: Seq<char>) -> Seq<char> {
    if which == 0 {
        "Invalid en passant square: "@ + s
    } else if which == 1 {
        "Invalid en passant file: "@ + s
    } else {
        "Invalid en passant rank: "@ + s
    }
}

/// Reading the FEN en-passant field (other than "-").
pub open spec fn ep_result(s: Seq<char>) -> Result<Option<Square>, Seq<char>> {
    if utf8_len(s) != 2 {
        Err(ep_error(0, s))
    } else if !('a' <= s[0] <= 'h') {
        Err(ep_error(1, s))
    } else if !('1' <= s[1] <= '8') {
        Err(ep_error(2, s))
    } else {
        Ok(Some(square_at(8 * (s[1] as int - '1' as int) + (s[0] as int - 'a' as int))))
    }
}

proof fn lemma_utf8_two(s: Seq<char>)
    requires
        utf8_len(s) == 2,
    ensures
        s.len() >= 1,
        s.len() == 1 ==> crate::text::utf8_width(s[0]) == 2,
{
    if s.len() == 0 {
    } else if s.len() == 1 {
        assert(s.drop_last().len() == 0);
        assert(utf8_len(s.drop_last()) == 0);
        assert(s.last() == s[0]);
    }
}

fn parse_en_passant(s: &Vec<char>) -> (r: Result<Option<Square>, String>)
    ensures
        match r {
            Ok(x) => ep_result(s@) == Ok::<Option<Square>, Seq<char>>(x),
            Err(e) => ep_result(s@) == Err::<Option<Square>, Seq<char>>(e@),
        },
{
    if utf8_len_capped(s, 2) != 2 {
        let mut v: Vec<char> = Vec::new();
        push_str(&mut v, "Invalid en passant square: ");
        push_all(&mut v, s);
        return Err(string_from_chars(&v));
    }
    proof {
        lemma_utf8_two(s@);
    }
    let c0 = s[0];
    if !('a' <= c0 && c0 <= 'h') {
        let mut v: Vec<char> = Vec::new();
        push_str(&mut v, "Invalid en passant file: ");
        push_all(&mut v, s);
        return Err(string_from_chars(&v));
    }
    let c1 = s[1];
    if !('1' <= c1 && c1 <= '8') {
        let mut v: Vec<char> = Vec::new();
        push_str(&mut v, "Invalid en passant rank: ");
        push_all(&mut v, s);
        return Err(string_from_chars(&v));
    }
    let file = File::from_index((c0 as u32 - 'a' as u32) as usize);
    let rank = Rank::from_index((c1 as u32 - '1' as u32) as usize);
    Ok(Some(Square::make(file, rank)))
}

impl Position {
    /// Reads the FEN castling field: sets the rights and records the rooks
    /// standing on their corner squares; returns the error message if a
    /// character is not understood.
    fn parse_castling(&mut self, s: &Vec<char>) -> (r: Option<Vec<char>>)
        requires
            old(self)@.state.castling_rights == 0,
            old(self)@.castling_rook_sq == seq![None::<Square>, None, None, None],
            old(self)@.board.squares.len() == 64,
        ensures
            final(self)@ == (PositionView {
                state: StateInfo { castling_rights: castle_state(old(self)@.board, s@, s@.len() as int).0, ..old(self)@.state },
                castling_rook_sq: castle_state(old(self)@.board, s@, s@.len() as int).1,
                ..old(self)@
            }),
            r is Some <==> castle_state(old(self)@.board, s@, s@.len() as int).2 is Some,
            r matches Some(e) ==> Some(e@) == castle_state(old(self)@.board, s@, s@.len() as int).2,
            final(self)@.state.castling_rights < 16,
    {
        let ghost v = self@;
        let mut i: usize = 0;
        while i < s.len()
            invariant
                v == old(self)@,
                i <= s@.len(),
                v.board.squares.len() == 64,
                castle_state(v.board, s@, i as int) == (self@.state.castling_rights, self@.castling_rook_sq, None::<Seq<char>>),
                self@ == (PositionView {
                    state: StateInfo { castling_rights: self@.state.castling_rights, ..v.state },
                    castling_rook_sq: self@.castling_rook_sq,
                    ..v
                }),
                self@.state.castling_rights < 16,
            decreases s@.len() - i,
        {
            let c = s[i];
            proof {
                lemma_or_small(self.state.castling_rights, 1);
                lemma_or_small(self.state.castling_rights, 2);
                lemma_or_small(self.state.castling_rights, 4);
                lemma_or_small(self.state.castling_rights, 8);
            }
            if c == 'K' {
                self.state.castling_rights = self.state.castling_rights | 1;
                if self.board[7] == Some(Piece::WRook) {
                    self.castling_rook_sq[0] = Some(Square::H1);
                }
            } else if c == 'Q' {
                self.state.castling_rights = self.state.castling_rights | 2;
                if self.board[0] == Some(Piece::WRook) {
                    self.castling_rook_sq[1] = Some(Square::A1);
                }
            } else if c == 'k' {
                self.state.castling_rights = self.state.castling_rights | 4;
                if self.board[63] == Some(Piece::BRook) {
                    self.castling_rook_sq[2] = Some(Square::H8);
                }
            } else if c == 'q' {
                self.state.castling_rights = self.state.castling_rights | 8;
                if self.board[56] == Some(Piece::BRook) {
                    self.castling_rook_sq[3] = Some(Square::A8);
                }
            } else if c != '-' {
                let mut m: Vec<char> = Vec::new();
                push_str(&mut m, "Invalid castling character: ");
                m.push(c);
                proof {
                    assert(m@ =~= msg_bad_castle(c));
                    lemma_castle_state_stuck(v.board, s@, i as int + 1);
                }
                return Some(m);
            }
            i = i + 1;
            proof {
                assert(self@.castling_rook_sq =~= castle_state(v.board, s@, i as int).1);
            }
        }
        None
    }
}


/// The words of a FEN string.
pub open spec fn fen_fields(fen: Seq<char>) -> Seq<Seq<char>> {
    ws_split(fen)
}

/// The pieces placed by the first FEN field, or the first error.
pub open spec fn fen_board(fen: Seq<char>) -> (BoardView, Option<Seq<char>>) {
    board_state(empty_board(), sep_split(fen_fields(fen)[0], '/'), 8)
}

/// The side to move read from the second field (white when absent).
pub open spec fn fen_side(fen: Seq<char>) -> Result<Color, Seq<char>> {
    let f = fen_fields(fen);
    if f.len() > 1 {
        if f[1] == "w"@ {
            Ok(Color::White)
        } else if f[1] == "b"@ {
            Ok(Color::Black)
        } else {
            Err("Invalid side to move: "@ + f[1])
        }
    } else {
        Ok(Color::White)
    }
}

/// The castling rights, rooks and error read from the third field.
pub open spec fn fen_castling(fen: Seq<char>) -> (u8, Seq<Option<Square>>, Option<Seq<char>>) {
    let f = fen_fields(fen);
    if f.len() > 2 {
        castle_state(fen_board(fen).0, f[2], f[2].len() as int)
    } else {
        (0u8, seq![None::<Square>, None, None, None], None)
    }
}

/// The en-passant square read from the fourth field.
pub open spec fn fen_ep(fen: Seq<char>) -> Result<Option<Square>, Seq<char>> {
    let f = fen_fields(fen);
    if f.len() > 3 && f[3] != "-"@ {
        ep_result(f[3])
    } else {
        Ok(None)
    }
}

/// The halfmove clock read from the fifth field (0 when absent or unreadable).
pub open spec fn fen_rule50(fen: Seq<char>) -> u32 {
    let f = fen_fields(fen);
    if f.len() > 4 {
        match parse_u32_spec(f[4]) {
            Some(n) => n,
            None => 0,
        }
    } else {
        0
    }
}

/// The fullmove number read from the sixth field (1 when unreadable).
pub open spec fn fen_fullmove(fen: Seq<char>) -> int {
    let f = fen_fields(fen);
    match parse_u32_spec(f[5]) {
        Some(n) => n as int,
        None => 1,
    }
}

/// The position read up to the castling field, with castling paths computed.
pub open spec fn fen_base(fen: Seq<char>) -> PositionView {
    let side = fen_side(fen)->Ok_0;
    let cs = fen_castling(fen);
    let v = PositionView {
        board: fen_board(fen).0,
        side_to_move: side,
        state: StateInfo { castling_rights: cs.0, ..StateInfo::empty_spec() },
        history: Seq::empty(),
        castling_rook_sq: cs.1,
        castling_path: Seq::new(4, |i: int| 0u64),
    };
    PositionView { castling_path: castling_paths_spec(v), ..v }
}

/// The position with the remaining fields read, before the key and checks.
pub open spec fn fen_filled(fen: Seq<char>) -> PositionView {
    let v = fen_base(fen);
    let f = fen_fields(fen);
    let ply = if f.len() > 5 {
        (2 * (fen_fullmove(fen) - 1) + (if v.side_to_move == Color::Black { 1int } else { 0int })) as u32
    } else {
        0u32
    };
    PositionView {
        state: StateInfo { ep_square: fen_ep(fen)->Ok_0, rule50: fen_rule50(fen), ply, ..v.state },
        ..v
    }
}

/// What reading a FEN string gives: the position, or the first error message.
pub open spec fn fen_spec(fen: Seq<char>) -> Result<PositionView, Seq<char>> {
    let f = fen_fields(fen);
    if f.len() == 0 {
        Err("Empty FEN string"@)
    } else if sep_split(f[0], '/').len() != 8 {
        Err("FEN must have 8 ranks"@)
    } else if fen_board(fen).1 is Some {
        Err(fen_board(fen).1->Some_0)
    } else if fen_side(fen) is Err {
        Err(fen_side(fen)->Err_0)
    } else if fen_castling(fen).2 is Some {
        Err(fen_castling(fen).2->Some_0)
    } else if fen_ep(fen) is Err {
        Err(fen_ep(fen)->Err_0)
    } else {
        let v = fen_filled(fen);
        let w = PositionView { state: StateInfo { key: key_spec(v), ..v.state }, ..v };
        Ok(PositionView { state: check_info_spec(w), ..w })
    }
}

/// The error for a FEN string that names no position this library can hold.
pub open spec fn msg_unsupported() -> Seq<char> {
    "FEN without both kings, or with a fullmove number of 0 or too large"@
}

/// Reading the FEN string does not fail: when the first three fields are
/// read, both kings are on the board, and a fullmove number is at least 1
/// and small enough for the ply count.
pub open spec fn fen_ok(fen: Seq<char>) -> bool {
    let f = fen_fields(fen);
    let reaches_paths = f.len() > 0 && sep_split(f[0], '/').len() == 8 && fen_board(fen).1 is None
        && fen_side(fen) is Ok && fen_castling(fen).2 is None;
    &&& reaches_paths ==> kings_present(fen_board(fen).0)
    &&& (reaches_paths && fen_ep(fen) is Ok && f.len() > 5) ==> (1 <= fen_fullmove(fen) && 2 * (fen_fullmove(fen) - 1)
        + (if fen_side(fen)->Ok_0 == Color::Black { 1int } else { 0int }) <= u32::MAX)
}

proof fn lemma_board_state_stuck(b: BoardView, ranks: Seq<Seq<char>>, i: int, n: int)
    requires
        0 <= i <= n,
        board_state(b, ranks, i).1 is Some,
    ensures
        board_state(b, ranks, n) == board_state(b, ranks, i),
    decreases n - i,
{
    if i < n {
        lemma_board_state_stuck(b, ranks, i, n - 1);
    }
}

impl Position {
    /// Reads a position from FEN: placement, side to move, castling rights,
    /// en-passant square, halfmove clock and fullmove number (the fields after
    /// the first may be missing). A board without both kings, or a fullmove
    /// number of 0 or one too large for the ply count, is an error.
    pub fn from_fen(fen: &str) -> (r: Result<Position, String>)
        ensures
            fen_ok(fen@) ==> match r {
                Ok(p) => fen_spec(fen@) == Ok::<PositionView, Seq<char>>(p@),
                Err(e) => fen_spec(fen@) == Err::<PositionView, Seq<char>>(e@),
            },
            !fen_ok(fen@) ==> (r matches Err(e) && e@ == msg_unsupported()),
    {
        match Self::from_fen_checked(fen) {
            Some(r) => r,
            None => {
                proof {
                    reveal_strlit("FEN without both kings, or with a fullmove number of 0 or too large");
                }
                Err(owned("FEN without both kings, or with a fullmove number of 0 or too large"))
            },
        }
    }

    /// Reads a position from FEN as `from_fen` does, and gives `None` for the
    /// strings that name no position this library can hold: a board without
    /// both kings, or a fullmove number of 0 or one too large for the ply count.
    pub fn from_fen_checked(fen: &str) -> (r: Option<Result<Position, String>>)
        ensures
            match r {
                None => !fen_ok(fen@),
                Some(Ok(p)) => fen_ok(fen@) && fen_spec(fen@) == Ok::<PositionView, Seq<char>>(p@),
                Some(Err(e)) => fen_ok(fen@) && fen_spec(fen@) == Err::<PositionView, Seq<char>>(e@),
            },
    {
        let mut pos = Position::new();
        let chars = str_chars(fen);
        let parts = split_whitespace(&chars);
        if parts.len() == 0 {
            return Some(Err(owned("Empty FEN string")));
        }
        let ranks = split_char(&parts[0], '/');
        if ranks.len() != 8 {
            return Some(Err(owned("FEN must have 8 ranks")));
        }
        let ghost fields = fen_fields(fen@);
        let ghost rks = sep_split(fields[0], '/');
        let mut rank_idx: usize = 0;
        proof {
            assert(pos@.board == empty_board());
            assert(counts_at_most(pos@.board, 0));
        }
        while rank_idx < 8
            invariant
                rank_idx <= 8,
                ranks@.len() == 8,
                rks.len() == 8,
                fen_fields(fen@).len() > 0,
                rks == sep_split(fen_fields(fen@)[0], '/'),
                forall|j: int| 0 <= j < 8 ==> #[trigger] ranks@[j]@ == rks[j],
                board_state(empty_board(), rks, rank_idx as int) == (pos@.board, None::<Seq<char>>),
                pos@ == (PositionView { board: pos@.board, ..empty_view() }),
                counts_at_most(pos@.board, 8 * rank_idx),
            decreases 8 - rank_idx,
        {
            let ghost b0 = pos@.board;
            proof {
                assert(ranks@[rank_idx as int]@ == rks[rank_idx as int]);
                assert(board_state(empty_board(), rks, rank_idx as int + 1) == rank_result(b0, rank_idx as int, rks[rank_idx as int]));
            }
            let res = pos.place_rank(rank_idx, &ranks[rank_idx]);
            match res {
                Some(e) => {
                    proof {
                        lemma_board_state_stuck(empty_board(), rks, rank_idx as int + 1, 8);
                    }
                    return Some(Err(string_from_chars(&e)));
                },
                None => {},
            }
            rank_idx = rank_idx + 1;
        }
        if parts.len() > 1 {
            if chars_eq_str(&parts[1], "w") {
                pos.side_to_move = Color::White;
            } else if chars_eq_str(&parts[1], "b") {
                pos.side_to_move = Color::Black;
            } else {
                let mut m: Vec<char> = Vec::new();
                push_str(&mut m, "Invalid side to move: ");
                push_all(&mut m, &parts[1]);
                return Some(Err(string_from_chars(&m)));
            }
        }
        proof {
            assert(pos@.castling_rook_sq =~= seq![None::<Square>, None, None, None]);
        }
        if parts.len() > 2 {
            let res = pos.parse_castling(&parts[2]);
            match res {
                Some(e) => {
                    return Some(Err(string_from_chars(&e)));
                },
                None => {},
            }
        }
        proof {
            assert(pos@ =~= (PositionView { castling_path: Seq::new(4, |i: int| 0u64), ..pos@ }));
            assert(pos@.state == StateInfo { castling_rights: fen_castling(fen@).0, ..StateInfo::empty_spec() });
        }
        if pos.pieces_cp(Color::White, PieceType::King) == 0 || pos.pieces_cp(Color::Black, PieceType::King) == 0 {
            return None;
        }
        pos.update_castling_paths();
        proof {
            assert(pos@ == fen_base(fen@));
        }
        if parts.len() > 3 && !chars_eq_str(&parts[3], "-") {
            let res = parse_en_passant(&parts[3]);
            match res {
                Ok(ep) => {
                    pos.state.ep_square = ep;
                },
                Err(e) => {
                    return Some(Err(e));
                },
            }
        }
        if parts.len() > 4 {
            let r50 = parse_u32(&parts[4]);
            pos.state.rule50 = match r50 {
                Some(n) => n,
                None => 0,
            };
        }
        if parts.len() > 5 {
            let fm = parse_u32(&parts[5]);
            let fullmove: u32 = match fm {
                Some(n) => n,
                None => 1,
            };
            let extra: u64 = if pos.side_to_move == Color::Black { 1 } else { 0 };
            if fullmove == 0 || 2 * (fullmove as u64 - 1) + extra > u32::MAX as u64 {
                return None;
            }
            pos.state.ply = (2 * (fullmove as u64 - 1) + extra) as u32;
        }
        proof {
            assert(pos@ =~= fen_filled(fen@));
        }
        pos.state.key = pos.compute_key();
        pos.set_check_info();
        Some(Ok(pos))
    }
}


/// The FEN letter of a piece.
pub open spec fn fen_char(p: Piece) -> char {
    match p {
        Piece::WPawn => 'P',
        Piece::WKnight => 'N',
        Piece::WBishop => 'B',
        Piece::WRook => 'R',
        Piece::WQueen => 'Q',
        Piece::WKing => 'K',
        Piece::BPawn => 'p',
        Piece::BKnight => 'n',
        Piece::BBishop => 'b',
        Piece::BRook => 'r',
        Piece::BQueen => 'q',
        Piece::BKing => 'k',
    }
}

fn fen_char_of(p: Piece) -> (r: char)
    ensures
        r == fen_char(p),
{
    match (p.color(), p.piece_type()) {
        (Color::White, PieceType::Pawn) => 'P',
        (Color::White, PieceType::Knight) => 'N',
        (Color::White, PieceType::Bishop) => 'B',
        (Color::White, PieceType::Rook) => 'R',
        (Color::White, PieceType::Queen) => 'Q',
        (Color::White, PieceType::King) => 'K',
        (Color::Black, PieceType::Pawn) => 'p',
        (Color::Black, PieceType::Knight) => 'n',
        (Color::Black, PieceType::Bishop) => 'b',
        (Color::Black, PieceType::Rook) => 'r',
        (Color::Black, PieceType::Queen) => 'q',
        (Color::Black, PieceType::King) => 'k',
    }
}

/// Writing the first `n` files of rank `r`: the text so far and the number of
/// empty squares not yet written.
pub open spec fn rank_text_state(sq: Seq<Option<Piece>>, r: int, n: int) -> (Seq<char>, nat)
    decreases n,
{
    if n <= 0 {
        (Seq::empty(), 0)
    } else {
        let (t, empty) = rank_text_state(sq, r, n - 1);
        match sq[8 * r + n - 1] {
            Some(p) => ((if empty > 0 { t + decimal(empty) } else { t }).push(fen_char(p)), 0),
            None => (t, empty + 1),
        }
    }
}

/// The FEN text of rank `r`.
pub open spec fn rank_text(sq: Seq<Option<Piece>>, r: int) -> Seq<char> {
    let (t, empty) = rank_text_state(sq, r, 8);
    if empty > 0 {
        t + decimal(empty)
    } else {
        t
    }
}

/// The FEN text of the top `k` ranks, each but rank 1 followed by a slash.
pub open spec fn board_text(sq: Seq<Option<Piece>>, k: int) -> Seq<char>
    decreases k,
{
    if k <= 0 {
        Seq::empty()
    } else {
        let r = 8 - k;
        let t = board_text(sq, k - 1) + rank_text(sq, r);
        if r > 0 {
            t.push('/')
        } else {
            t
        }
    }
}

/// The FEN castling field.
pub open spec fn castling_text(cr: u8) -> Seq<char> {
    let t = (if cr & 1 != 0 { seq!['K'] } else { Seq::empty() }) + (if cr & 2 != 0 { seq!['Q'] } else { Seq::empty() })
        + (if cr & 4 != 0 { seq!['k'] } else { Seq::empty() }) + (if cr & 8 != 0 { seq!['q'] } else { Seq::empty() });
    if t.len() == 0 {
        seq!['-']
    } else {
        t
    }
}

/// The FEN en-passant field.
pub open spec fn ep_text(ep: Option<Square>) -> Seq<char> {
    match ep {
        Some(s) => seq![(('a' as int + (s as int) % 8) as u32) as char, (('1' as int + (s as int) / 8) as u32) as char],
        None => seq!['-'],
    }
}

/// The FEN text of a position.
pub open spec fn fen_text(v: PositionView) -> Seq<char> {
    board_text(v.board.squares, 8) + seq![' ', if v.side_to_move == Color::White { 'w' } else { 'b' }, ' ']
        + castling_text(v.state.castling_rights) + seq![' '] + ep_text(v.state.ep_square) + seq![' ']
        + decimal(v.state.rule50 as nat) + seq![' '] + decimal((v.state.ply / 2 + 1) as nat)
}

impl Position {
    /// The text of one rank.
    fn rank_fen(&self, r: usize) -> (t: Vec<char>)
        requires
            r < 8,
        ensures
            t@ == rank_text(self@.board.squares, r as int),
    {
        let mut out: Vec<char> = Vec::new();
        let mut empty: u64 = 0;
        let mut file: usize = 0;
        while file < 8
            invariant
                r < 8,
                file <= 8,
                empty <= file,
                rank_text_state(self@.board.squares, r as int, file as int) == (out@, empty as nat),
            decreases 8 - file,
        {
            let sq = Square::make(File::from_index(file), Rank::from_index(r));
            if let Some(piece) = self.piece_on(sq) {
                if empty > 0 {
                    let d = decimal_chars(empty);
                    push_all(&mut out, &d);
                    empty = 0;
                }
                out.push(fen_char_of(piece));
            } else {
                empty = empty + 1;
            }
            file = file + 1;
        }
        if empty > 0 {
            let d = decimal_chars(empty);
            push_all(&mut out, &d);
        }
        out
    }

    /// The position in FEN.
    pub fn to_fen(&self) -> (r: String)
        ensures
            r@ == fen_text(self@),
    {
        let mut fen: Vec<char> = Vec::new();
        let mut k: usize = 0;
        while k < 8
            invariant
                k <= 8,
                fen@ == board_text(self@.board.squares, k as int),
            decreases 8 - k,
        {
            let rank_idx = 7 - k;
            let t = self.rank_fen(rank_idx);
            push_all(&mut fen, &t);
            if rank_idx > 0 {
                fen.push('/');
            }
            k = k + 1;
        }
        let ghost b = fen@;
        fen.push(' ');
        fen.push(if self.side_to_move == Color::White { 'w' } else { 'b' });
        fen.push(' ');
        let c = castling_chars(self.state.castling_rights);
        push_all(&mut fen, &c);
        fen.push(' ');
        let e = ep_chars(self.state.ep_square);
        push_all(&mut fen, &e);
        fen.push(' ');
        let r50 = decimal_chars(self.state.rule50 as u64);
        push_all(&mut fen, &r50);
        fen.push(' ');
        let fm = decimal_chars((self.state.ply / 2 + 1) as u64);
        push_all(&mut fen, &fm);
        proof {
            assert(fen@ =~= fen_text(self@));
        }
        string_from_chars(&fen)
    }
}

fn castling_chars(cr: u8) -> (r: Vec<char>)
    ensures
        r@ == castling_text(cr),
{
    let mut castling: Vec<char> = Vec::new();
    if CastlingRights::can_castle_kingside(cr, Color::White) {
        castling.push('K');
    }
    if CastlingRights::can_castle_queenside(cr, Color::White) {
        castling.push('Q');
    }
    if CastlingRights::can_castle_kingside(cr, Color::Black) {
        castling.push('k');
    }
    if CastlingRights::can_castle_queenside(cr, Color::Black) {
        castling.push('q');
    }
    proof {
        let t = (if cr & 1 != 0 { seq!['K'] } else { Seq::empty() }) + (if cr & 2 != 0 { seq!['Q'] } else { Seq::empty() })
            + (if cr & 4 != 0 { seq!['k'] } else { Seq::empty() }) + (if cr & 8 != 0 { seq!['q'] } else { Seq::empty() });
        assert(castling@ =~= t);
    }
    if castling.len() == 0 {
        let mut d: Vec<char> = Vec::new();
        d.push('-');
        proof {
            assert(d@ =~= seq!['-']);
        }
        d
    } else {
        castling
    }
}

fn ep_chars(ep: Option<Square>) -> (r: Vec<char>)
    ensures
        r@ == ep_text(ep),
{
    let mut v: Vec<char> = Vec::new();
    if let Some(ep_sq) = ep {
        v.push(file_letter(ep_sq.file().index()));
        v.push(rank_digit(ep_sq.rank().index()));
    } else {
        v.push('-');
    }
    proof {
        assert(v@ =~= ep_text(ep));
    }
    v
}

fn file_letter(k: usize) -> (r: char)
    requires
        k < 8,
    ensures
        r == (('a' as int + k) as u32) as char,
{
    match k {
        0 => 'a',
        1 => 'b',
        2 => 'c',
        3 => 'd',
        4 => 'e',
        5 => 'f',
        6 => 'g',
        _ => 'h',
    }
}

fn rank_digit(k: usize) -> (r: char)
    requires
        k < 8,
    ensures
        r == (('1' as int + k) as u32) as char,
{
    match k {
        0 => '1',
        1 => '2',
        2 => '3',
        3 => '4',
        4 => '5',
        5 => '6',
        6 => '7',
        _ => '8',
    }
}

/// The FEN string of the standard starting position.
pub const START_FEN: &'static str = "rnbqkbnr/pppppppp/8/8/8/8/PPPPPPPP/RNBQKBNR w KQkq - 0 1";

impl Position {
    /// The standard starting position, read from `START_FEN`.
    pub fn startpos() -> (r: Position)
        ensures
            fen_ok(START_FEN@) ==> match fen_spec(START_FEN@) {
                Ok(v) => r@ == v,
                Err(_) => r@ == empty_view(),
            },
            !fen_ok(START_FEN@) ==> r@ == empty_view(),
    {
        match Self::from_fen_checked(START_FEN) {
            Some(Ok(p)) => p,
            _ => Position::new(),
        }
    }
}

impl Default for Position {
    /// An empty board with white to move.
    fn default() -> (r: Position)
        ensures
            r@ == empty_view(),
    {
        Position::new()
    }
}

/// A position read from FEN carries the Zobrist key computed from scratch.
pub proof fn lemma_fen_key(fen: Seq<char>)
    requires
        fen_spec(fen) is Ok,
    ensures
        fen_spec(fen)->Ok_0.state.key == key_spec(fen_spec(fen)->Ok_0),
{
    reveal(check_info_spec);
}

proof fn lemma_count_empty(p: Piece, n: int)
    requires
        0 <= n <= 64,
    ensures
        count_in(empty_board().squares, p, n) == 0,
    decreases n,
{
    if n > 0 {
        lemma_count_empty(p, n - 1);
    }
}

proof fn lemma_empty_board_wf()
    ensures
        board_wf(empty_board()),
{
    let b = empty_board();
    assert forall|s: int, t: int| 0 <= s < 64 && 1 <= t <= 6 implies (#[trigger] crate::bitboard::has(b.by_type[t], s)
        <==> (b.squares[s] matches Some(p) && crate::types::pt_num(crate::types::piece_pt(p)) == t)) by {
        crate::bitboard::lemma_bit_zero(s as u64);
    }
    assert forall|s: int, c: int| 0 <= s < 64 && 0 <= c < 2 implies (#[trigger] crate::bitboard::has(b.by_color[c], s)
        <==> (b.squares[s] matches Some(p) && crate::types::piece_color(p) as int == c)) by {
        crate::bitboard::lemma_bit_zero(s as u64);
    }
    assert forall|p: Piece| #[trigger] b.piece_count[piece_num(p)] == count_in(b.squares, p, 64) by {
        lemma_count_empty(p, 64);
        assert(0 <= piece_num(p) < 16);
    }
}

/// The squares a FEN rank still has to fill are empty: every square below
/// row `row`, and the squares of row `row` from file `file` on.
pub open spec fn unfilled_from(b: BoardView, row: int, file: int) -> bool {
    forall|q: int| 0 <= q < 64 && (q < 8 * row || (q / 8 == row && q % 8 >= file)) ==> #[trigger] b.squares[q] is None
}

proof fn lemma_rank_state_wf(b: BoardView, rank_idx: int, s: Seq<char>, i: int)
    requires
        board_wf(b),
        0 <= rank_idx < 8,
        unfilled_from(b, 7 - rank_idx, 0),
        i <= s.len(),
    ensures
        board_wf(rank_state(b, rank_idx, s, i).0),
        rank_state(b, rank_idx, s, i).1 >= 0,
        rank_state(b, rank_idx, s, i).2 is None ==> unfilled_from(
            rank_state(b, rank_idx, s, i).0,
            7 - rank_idx,
            rank_state(b, rank_idx, s, i).1,
        ),
        unfilled_from(rank_state(b, rank_idx, s, i).0, 7 - rank_idx, 8),
    decreases i,
{
    if i > 0 {
        lemma_rank_state_wf(b, rank_idx, s, i - 1);
        let (b1, file, err) = rank_state(b, rank_idx, s, i - 1);
        let c = s[i - 1];
        if err is None && file < 8 && !is_digit(c) && fen_piece(c) is Some {
            let q = 8 * (7 - rank_idx) + file;
            assert(q / 8 == 7 - rank_idx && q % 8 == file);
            lemma_put_wf(b1, fen_piece(c)->Some_0, q);
            let b2 = put_spec(b1, fen_piece(c)->Some_0, q);
            assert forall|r: int| 0 <= r < 64 && (r < 8 * (7 - rank_idx) || (r / 8 == 7 - rank_idx && r % 8 >= file + 1))
                implies #[trigger] b2.squares[r] is None by {
                assert(b1.squares[r] is None);
            }
            assert forall|r: int| 0 <= r < 64 && (r < 8 * (7 - rank_idx) || (r / 8 == 7 - rank_idx && r % 8 >= 8))
                implies #[trigger] b2.squares[r] is None by {
                assert(b1.squares[r] is None);
            }
        }
    }
}

proof fn lemma_board_state_wf(ranks: Seq<Seq<char>>, n: int)
    requires
        0 <= n <= 8,
        n <= ranks.len(),
    ensures
        board_wf(board_state(empty_board(), ranks, n).0),
        unfilled_from(board_state(empty_board(), ranks, n).0, 8 - n, 8),
    decreases n,
{
    if n == 0 {
        lemma_empty_board_wf();
    } else {
        lemma_board_state_wf(ranks, n - 1);
        let (b1, e) = board_state(empty_board(), ranks, n - 1);
        if e is None {
            let s = ranks[n - 1];
            assert forall|q: int| 0 <= q < 64 && (q < 8 * (8 - n) || (q / 8 == 8 - n && q % 8 >= 0))
                implies #[trigger] b1.squares[q] is None by {
                assert(q < 8 * (9 - n));
            }
            lemma_rank_state_wf(b1, n - 1, s, s.len() as int);
        } else {
            let b2 = board_state(empty_board(), ranks, n).0;
            assert forall|q: int| 0 <= q < 64 && (q < 8 * (8 - n) || (q / 8 == 8 - n && q % 8 >= 8))
                implies #[trigger] b2.squares[q] is None by {
                assert(q < 8 * (9 - n));
            }
        }
    }
}

/// A position read from a FEN string is consistent: the mailbox, the
/// bitboards and the counts agree.
pub proof fn lemma_fen_wf(fen: Seq<char>)
    requires
        fen_spec(fen) is Ok,
    ensures
        wf(fen_spec(fen)->Ok_0),
{
    reveal(check_info_spec);
    lemma_board_state_wf(sep_split(fen_fields(fen)[0], '/'), 8);
    let f = fen_fields(fen);
    if f.len() > 2 {
        lemma_castle_state_len(fen_board(fen).0, f[2], f[2].len() as int);
    }
}

proof fn lemma_castle_state_len(b: BoardView, s: Seq<char>, i: int)
    ensures
        castle_state(b, s, i).1.len() == 4,
    decreases i,
{
    if i > 0 {
        lemma_castle_state_len(b, s, i - 1);
    }
}

/// The castling rook squares read from FEN are the corner squares: h1 and
/// a1 for white, h8 and a8 for black.
pub open spec fn corner_rooks(rooks: Seq<Option<Square>>) -> bool {
    &&& rooks.len() == 4
    &&& (rooks[0] is None || rooks[0] == Some(Square::H1))
    &&& (rooks[1] is None || rooks[1] == Some(Square::A1))
    &&& (rooks[2] is None || rooks[2] == Some(Square::H8))
    &&& (rooks[3] is None || rooks[3] == Some(Square::A8))
}

proof fn lemma_castle_state_corners(b: BoardView, s: Seq<char>, i: int)
    ensures
        corner_rooks(castle_state(b, s, i).1),
    decreases i,
{
    if i > 0 {
        lemma_castle_state_corners(b, s, i - 1);
    }
}

/// A position read from FEN has its castling rooks on the corners, so the
/// two castling rook squares of a side are different.
pub proof fn lemma_fen_castling_rooks(fen: Seq<char>)
    requires
        fen_spec(fen) is Ok,
    ensures
        corner_rooks(fen_spec(fen)->Ok_0.castling_rook_sq),
        forall|c: Color, sq: int|
            !(#[trigger] rook_sq_is(fen_spec(fen)->Ok_0.castling_rook_sq, c, 0, sq) && rook_sq_is(
                fen_spec(fen)->Ok_0.castling_rook_sq,
                c,
                1,
                sq,
            )),
{
    reveal(check_info_spec);
    let f = fen_fields(fen);
    if f.len() > 2 {
        lemma_castle_state_corners(fen_board(fen).0, f[2], f[2].len() as int);
    }
    assert(castling_paths_spec(fen_base(fen)).len() == 4);
}

/// The digits of `n` are digits and read back as `n`.
pub proof fn lemma_decimal_reads_back(n: nat)
    ensures
        decimal(n).len() >= 1,
        all_digits(decimal(n)),
        digits_value(decimal(n)) == n,
    decreases n,
{
    if n < 10 {
        assert(digit_char(n) as int == n + 48);
        assert(decimal(n).drop_last() =~= Seq::<char>::empty());
        assert(digits_value(decimal(n).drop_last()) == 0);
    } else {
        lemma_decimal_reads_back(n / 10);
        let d = decimal(n);
        assert(d.drop_last() =~= decimal(n / 10));
        assert(d.last() == digit_char(n % 10));
        assert(digit_char(n % 10) as int == n % 10 + 48);
        assert(digits_value(d) == 10 * (n / 10) + n % 10);
        assert forall|i: int| 0 <= i < d.len() implies is_digit(#[trigger] d[i]) by {
            if i < d.len() - 1 {
                assert(d[i] == decimal(n / 10)[i]);
            }
        }
    }
}

/// The halfmove clock read from FEN: when the fifth field is a decimal
/// number `n` (digits only, at most `u32::MAX`), the position read has
/// halfmove clock `n`.
pub proof fn lemma_fen_rule50(fen: Seq<char>)
    requires
        fen_spec(fen) is Ok,
        fen_fields(fen).len() > 4,
        fen_fields(fen)[4].len() > 0,
        all_digits(fen_fields(fen)[4]),
        digits_value(fen_fields(fen)[4]) <= u32::MAX,
    ensures
        fen_spec(fen)->Ok_0.state.rule50 == digits_value(fen_fields(fen)[4]),
{
    reveal(check_info_spec);
    let d = fen_fields(fen)[4];
    assert(d[0] != '+') by {
        assert(is_digit(d[0]));
    }
    crate::text::lemma_digits_value_nonneg(d);
    assert(parse_u32_spec(d) == Some(digits_value(d) as u32));
    assert(fen_rule50(fen) == digits_value(d));
    assert(fen_spec(fen)->Ok_0.state.rule50 == fen_filled(fen).state.rule50);
}

/// A halfmove clock written in FEN as the digits of `n` reads back as `n`.
pub proof fn lemma_fen_rule50_decimal(fen: Seq<char>, n: u32)
    requires
        fen_spec(fen) is Ok,
        fen_fields(fen).len() > 4,
        fen_fields(fen)[4] == decimal(n as nat),
    ensures
        fen_spec(fen)->Ok_0.state.rule50 == n,
{
    lemma_decimal_reads_back(n as nat);
    lemma_fen_rule50(fen);
}

/// The side to move read from FEN: `w` is white, `b` is black, and white
/// when the field is missing.
pub proof fn lemma_fen_side(fen: Seq<char>)
    requires
        fen_spec(fen) is Ok,
    ensures
        fen_fields(fen).len() <= 1 ==> fen_spec(fen)->Ok_0.side_to_move == Color::White,
        fen_fields(fen).len() > 1 && fen_fields(fen)[1] == "w"@ ==> fen_spec(fen)->Ok_0.side_to_move == Color::White,
        fen_fields(fen).len() > 1 && fen_fields(fen)[1] == "b"@ ==> fen_spec(fen)->Ok_0.side_to_move == Color::Black,
{
    reveal(check_info_spec);
    reveal_strlit("w");
    reveal_strlit("b");
    assert("w"@ != "b"@) by {
        assert("w"@[0] != "b"@[0]);
    }
}

/// The ply count read from FEN: with a fullmove number `n` (decimal digits,
/// at least 1) in the sixth field, the ply is `2 * (n - 1)`, plus one when
/// black is to move.
pub proof fn lemma_fen_ply(fen: Seq<char>)
    requires
        fen_spec(fen) is Ok,
        fen_fields(fen).len() > 5,
        fen_fields(fen)[5].len() > 0,
        all_digits(fen_fields(fen)[5]),
        1 <= digits_value(fen_fields(fen)[5]),
        2 * (digits_value(fen_fields(fen)[5]) - 1) + 1 <= u32::MAX,
    ensures
        fen_spec(fen)->Ok_0.state.ply == 2 * (digits_value(fen_fields(fen)[5]) - 1) + (if fen_spec(
            fen,
        )->Ok_0.side_to_move == Color::Black {
            1int
        } else {
            0int
        }),
{
    reveal(check_info_spec);
    let d = fen_fields(fen)[5];
    assert(d[0] != '+') by {
        assert(is_digit(d[0]));
    }
    crate::text::lemma_digits_value_nonneg(d);
    assert(parse_u32_spec(d) == Some(digits_value(d) as u32));
    assert(fen_fullmove(fen) == digits_value(d));
}

/// Whether the letter `c` is among the first `i` characters of `s`.
pub open spec fn letter_in(s: Seq<char>, c: char, i: int) -> bool {
    exists|j: int| 0 <= j < i && #[trigger] s[j] == c
}

proof fn lemma_castle_state_letters(b: BoardView, s: Seq<char>, i: int)
    requires
        0 <= i <= s.len(),
        castle_state(b, s, i).2 is None,
    ensures
        (castle_state(b, s, i).0 & 1u8 != 0) == letter_in(s, 'K', i),
        (castle_state(b, s, i).0 & 2u8 != 0) == letter_in(s, 'Q', i),
        (castle_state(b, s, i).0 & 4u8 != 0) == letter_in(s, 'k', i),
        (castle_state(b, s, i).0 & 8u8 != 0) == letter_in(s, 'q', i),
    decreases i,
{
    if i == 0 {
        lemma_and_u8(0, 0, 1);
        lemma_and_u8(0, 0, 2);
        lemma_and_u8(0, 0, 4);
        lemma_and_u8(0, 0, 8);
    } else {
        let (cr, rooks, err) = castle_state(b, s, i - 1);
        assert(err is None);
        lemma_castle_state_letters(b, s, i - 1);
        let c = s[i - 1];
        let z: u8 = if c == 'K' { 1 } else if c == 'Q' { 2 } else if c == 'k' { 4 } else { 8 };
        lemma_and_u8(cr, z, 1);
        lemma_and_u8(cr, z, 2);
        lemma_and_u8(cr, z, 4);
        lemma_and_u8(cr, z, 8);
        assert forall|l: char| letter_in(s, l, i) == (letter_in(s, l, i - 1) || c == l) by {
            if c == l {
                assert(s[i - 1] == l);
            }
            if letter_in(s, l, i) && c != l {
                let j = choose|j: int| 0 <= j < i && #[trigger] s[j] == l;
                assert(j < i - 1);
            }
        }
    }
}

/// The castling rights read from FEN: white may castle kingside exactly when
/// the third field holds `K`, queenside when it holds `Q`, and black likewise
/// with `k` and `q`.
pub proof fn lemma_fen_castling_rights(fen: Seq<char>)
    requires
        fen_spec(fen) is Ok,
        fen_fields(fen).len() > 2,
    ensures
        ({
            let f = fen_fields(fen)[2];
            let cr = fen_spec(fen)->Ok_0.state.castling_rights;
            &&& (cr & 1u8 != 0) == letter_in(f, 'K', f.len() as int)
            &&& (cr & 2u8 != 0) == letter_in(f, 'Q', f.len() as int)
            &&& (cr & 4u8 != 0) == letter_in(f, 'k', f.len() as int)
            &&& (cr & 8u8 != 0) == letter_in(f, 'q', f.len() as int)
        }),
{
    reveal(check_info_spec);
    let f = fen_fields(fen)[2];
    lemma_castle_state_letters(fen_board(fen).0, f, f.len() as int);
}

} // verus!
