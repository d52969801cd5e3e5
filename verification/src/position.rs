//! The chess position: mailbox and bitboards, state stack, Zobrist key,
//! check and pin information, and making and unmaking moves.

use vstd::prelude::*;
use crate::bitboard::{
    bit, has, lemma_bits_ext, lsb_spec, clear_lsb, pop_count, square_bb, lemma_bit_or, lemma_bit_xor, lemma_bit_and,
    lemma_bit_single, lemma_clear_lsb, lsb, pop_lsb, more_than_one, between_bb, between_spec,
    pawn_attacks_bb_sq, pawn_attacks_spec, knight_attacks_bb, knight_spec, king_attacks_bb, king_spec,
    bishop_attacks_bb, bishop_spec, rook_attacks_bb, rook_spec, line_bb, line_spec, attacks_bb,
    attacks_spec, lemma_bit_zero,
};
use crate::types::{
    Bitboard, Color, CastlingRights, File, Key, Move, Piece, PieceType, Square, castle_mask, file_of,
    rank_of, piece_color, piece_num, piece_pt, pt_num, piece_of, pt_of_num, square_at, mv_from, mv_to,
    mv_kind, mv_promo_code, piece_from_num,
};
use crate::zobrist::{Zobrist, piece_key_spec, enpassant_key_spec, castling_key_spec, side_key_spec};

pub mod fen;
pub use fen::START_FEN;

verus! {

/// What a move changes besides the pieces; saved on a stack to unmake moves.
#[derive(Clone, Copy)]
pub struct StateInfo {
    pub key: Key,
    pub checkers_bb: Bitboard,
    pub castling_rights: u8,
    pub ep_square: Option<Square>,
    pub rule50: u32,
    pub ply: u32,
    pub captured_piece: Option<Piece>,
    pub blockers_for_king: [Bitboard; 2],
    pub pinners: [Bitboard; 2],
    pub check_squares: [Bitboard; 7],
}

impl StateInfo {
    /// The all-zero state.
    pub open spec fn empty_spec() -> StateInfo {
        StateInfo {
            key: 0,
            checkers_bb: 0,
            castling_rights: 0,
            ep_square: None,
            rule50: 0,
            ply: 0,
            captured_piece: None,
            blockers_for_king: [0u64, 0u64],
            pinners: [0u64, 0u64],
            check_squares: [0u64, 0u64, 0u64, 0u64, 0u64, 0u64, 0u64],
        }
    }

    fn new() -> (r: StateInfo)
        ensures
            r == StateInfo::empty_spec(),
    {
        StateInfo {
            key: 0,
            checkers_bb: 0,
            castling_rights: 0,
            ep_square: None,
            rule50: 0,
            ply: 0,
            captured_piece: None,
            blockers_for_king: [0u64, 0u64],
            pinners: [0u64, 0u64],
            check_squares: [0u64, 0u64, 0u64, 0u64, 0u64, 0u64, 0u64],
        }
    }
}

/// A chess position.
pub struct Position {
    board: [Option<Piece>; 64],
    by_type: [Bitboard; 7],
    by_color: [Bitboard; 2],
    piece_count: [u8; 16],
    side_to_move: Color,
    state: StateInfo,
    state_history: Vec<StateInfo>,
    castling_rook_sq: [Option<Square>; 4],
    castling_path: [Bitboard; 4],
    zobrist: Zobrist,
}

/// The pieces of a position: mailbox, bitboards and counts.
#[verifier::ext_equal]
pub struct BoardView {
    /// The piece on each square (64 entries).
    pub squares: Seq<Option<Piece>>,
    /// Per piece type number (1..6) the squares holding such a piece; entry 0 unused.
    pub by_type: Seq<u64>,
    /// Per colour the squares holding its pieces.
    pub by_color: Seq<u64>,
    /// Per piece number (0..15) how many such pieces were placed.
    pub piece_count: Seq<u8>,
}

/// The abstract contents of a position.
#[verifier::ext_equal]
pub struct PositionView {
    pub board: BoardView,
    pub side_to_move: Color,
    pub state: StateInfo,
    /// Saved states, oldest first.
    pub history: Seq<StateInfo>,
    /// The castling rook squares, at 2 * colour + (0 kingside, 1 queenside).
    pub castling_rook_sq: Seq<Option<Square>>,
    /// The squares that must be empty to castle, indexed like the rook squares.
    pub castling_path: Seq<u64>,
}

impl View for Position {
    type V = PositionView;

    closed spec fn view(&self) -> PositionView {
        PositionView {
            board: BoardView {
                squares: self.board@,
                by_type: self.by_type@,
                by_color: self.by_color@,
                piece_count: self.piece_count@,
            },
            side_to_move: self.side_to_move,
            state: self.state,
            history: self.state_history@,
            castling_rook_sq: self.castling_rook_sq@,
            castling_path: self.castling_path@,
        }
    }
}

/// The lengths of the view's tables.
pub open spec fn shaped(v: PositionView) -> bool {
    &&& board_shaped(v.board)
    &&& v.castling_rook_sq.len() == 4
    &&& v.castling_path.len() == 4
}

pub open spec fn board_shaped(b: BoardView) -> bool {
    &&& b.squares.len() == 64
    &&& b.by_type.len() == 7
    &&& b.by_color.len() == 2
    &&& b.piece_count.len() == 16
}

/// The number of the first `n` squares that hold `p`.
pub open spec fn count_in(board: Seq<Option<Piece>>, p: Piece, n: int) -> nat
    decreases n,
{
    if n <= 0 {
        0
    } else {
        count_in(board, p, n - 1) + (if board[n - 1] == Some(p) { 1nat } else { 0nat })
    }
}

/// The mailbox, bitboards and counts agree.
pub open spec fn board_wf(b: BoardView) -> bool {
    &&& board_shaped(b)
    &&& b.by_type[0] == 0
    &&& forall|s: int, t: int|
        0 <= s < 64 && 1 <= t <= 6 ==> (#[trigger] has(b.by_type[t], s) <==> (b.squares[s] matches Some(p)
            && pt_num(piece_pt(p)) == t))
    &&& forall|s: int, c: int|
        0 <= s < 64 && 0 <= c < 2 ==> (#[trigger] has(b.by_color[c], s) <==> (b.squares[s] matches Some(p)
            && piece_color(p) as int == c))
    &&& forall|p: Piece| #[trigger] b.piece_count[piece_num(p)] == count_in(b.squares, p, 64)
    &&& b.piece_count[6] == 0
    &&& b.piece_count[7] == 0
    &&& b.piece_count[14] == 0
    &&& b.piece_count[15] == 0
}

/// A position whose pieces are consistent.
pub open spec fn wf(v: PositionView) -> bool {
    &&& shaped(v)
    &&& board_wf(v.board)
}

/// All pieces.
pub open spec fn occupied(b: BoardView) -> u64 {
    b.by_color[0] | b.by_color[1]
}

/// The pieces of colour `c`.
pub open spec fn pieces_of(b: BoardView, c: Color) -> u64 {
    b.by_color[c as int]
}

/// The pieces of type `pt`, both colours.
pub open spec fn pieces_type(b: BoardView, pt: PieceType) -> u64 {
    b.by_type[pt_num(pt)]
}

/// The pieces of colour `c` and type `pt`.
pub open spec fn pieces_ct(b: BoardView, c: Color, pt: PieceType) -> u64 {
    b.by_type[pt_num(pt)] & b.by_color[c as int]
}

/// The king square of `c`: the lowest square of its king bitboard.
pub open spec fn king_sq(b: BoardView, c: Color) -> int {
    lsb_spec(pieces_ct(b, c, PieceType::King))
}

/// The pieces with `p` put on `sq`.
pub open spec fn put_spec(v: BoardView, p: Piece, sq: int) -> BoardView {
    let b = 1u64 << (sq as u64);
    let t = pt_num(piece_pt(p));
    let c = piece_color(p) as int;
    let n = piece_num(p);
    BoardView {
        squares: v.squares.update(sq, Some(p)),
        by_type: v.by_type.update(t, v.by_type[t] | b),
        by_color: v.by_color.update(c, v.by_color[c] | b),
        piece_count: v.piece_count.update(n, (v.piece_count[n] + 1) as u8),
    }
}

/// Putting `p` does not overflow its count.
pub open spec fn put_ok(v: BoardView, p: Piece) -> bool {
    v.piece_count[piece_num(p)] < 255
}

/// The pieces with whatever stands on `sq` taken off.
pub open spec fn remove_spec(v: BoardView, sq: int) -> BoardView {
    match v.squares[sq] {
        Some(p) => {
            let b = 1u64 << (sq as u64);
            let t = pt_num(piece_pt(p));
            let c = piece_color(p) as int;
            let n = piece_num(p);
            BoardView {
                squares: v.squares.update(sq, None),
                by_type: v.by_type.update(t, v.by_type[t] ^ b),
                by_color: v.by_color.update(c, v.by_color[c] ^ b),
                piece_count: v.piece_count.update(n, (v.piece_count[n] - 1) as u8),
            }
        },
        None => v,
    }
}

/// Removing from `sq` does not underflow a count.
pub open spec fn remove_ok(v: BoardView, sq: int) -> bool {
    v.squares[sq] matches Some(p) ==> v.piece_count[piece_num(p)] >= 1
}

/// The pieces with the one on `from` moved to `to` (whatever stood on `to` is overwritten).
pub open spec fn move_spec(v: BoardView, from: int, to: int) -> BoardView {
    let p = v.squares[from]->Some_0;
    let b = (1u64 << (from as u64)) | (1u64 << (to as u64));
    let t = pt_num(piece_pt(p));
    let c = piece_color(p) as int;
    BoardView {
        squares: v.squares.update(from, None).update(to, Some(p)),
        by_type: v.by_type.update(t, v.by_type[t] ^ b),
        by_color: v.by_color.update(c, v.by_color[c] ^ b),
        piece_count: v.piece_count,
    }
}

/// The empty board.
pub open spec fn empty_board() -> BoardView {
    BoardView {
        squares: Seq::new(64, |i: int| None::<Piece>),
        by_type: Seq::new(7, |i: int| 0u64),
        by_color: Seq::new(2, |i: int| 0u64),
        piece_count: Seq::new(16, |i: int| 0u8),
    }
}

/// The empty position, white to move.
pub open spec fn empty_view() -> PositionView {
    PositionView {
        board: empty_board(),
        side_to_move: Color::White,
        state: StateInfo::empty_spec(),
        history: Seq::empty(),
        castling_rook_sq: Seq::new(4, |i: int| None::<Square>),
        castling_path: Seq::new(4, |i: int| 0u64),
    }
}

impl Position {
    /// An empty position, white to move.
    pub fn new() -> (r: Position)
        ensures
            r@ == empty_view(),
    {
        let r = Position {
            board: [None; 64],
            by_type: [0; 7],
            by_color: [0; 2],
            piece_count: [0; 16],
            side_to_move: Color::White,
            state: StateInfo::new(),
            state_history: Vec::new(),
            castling_rook_sq: [None; 4],
            castling_path: [0; 4],
            zobrist: Zobrist::init(),
        };
        proof {
            assert(r@.board.squares =~= Seq::new(64, |i: int| None::<Piece>));
            assert(r@.board.by_type =~= Seq::new(7, |i: int| 0u64));
            assert(r@.board.by_color =~= Seq::new(2, |i: int| 0u64));
            assert(r@.board.piece_count =~= Seq::new(16, |i: int| 0u8));
            assert(r@.castling_rook_sq =~= Seq::new(4, |i: int| None::<Square>));
            assert(r@.castling_path =~= Seq::new(4, |i: int| 0u64));
            assert(r@ =~= empty_view());
        }
        r
    }

    /// Places `piece` on `sq`.
    fn put_piece(&mut self, piece: Piece, sq: Square)
        requires
            put_ok(old(self)@.board, piece),
        ensures
            final(self)@ == (PositionView { board: put_spec(old(self)@.board, piece, sq as int), ..old(self)@ }),
    {
        let b = square_bb(sq);
        let t = piece.piece_type().index();
        let c = piece.color().index();
        let n = piece.index();
        self.board[sq.index()] = Some(piece);
        self.by_type[t] = self.by_type[t] | b;
        self.by_color[c] = self.by_color[c] | b;
        self.piece_count[n] = self.piece_count[n] + 1;
        proof {
            assert(self@ =~= (PositionView { board: put_spec(old(self)@.board, piece, sq as int), ..old(self)@ }));
        }
    }

    /// Takes whatever stands on `sq` off the board and returns it.
    fn remove_piece(&mut self, sq: Square) -> (r: Option<Piece>)
        requires
            remove_ok(old(self)@.board, sq as int),
        ensures
            r == old(self)@.board.squares[sq as int],
            final(self)@ == (PositionView { board: remove_spec(old(self)@.board, sq as int), ..old(self)@ }),
    {
        let piece = self.board[sq.index()];
        if let Some(p) = piece {
            let b = square_bb(sq);
            let t = p.piece_type().index();
            let c = p.color().index();
            let n = p.index();
            self.board[sq.index()] = None;
            self.by_type[t] = self.by_type[t] ^ b;
            self.by_color[c] = self.by_color[c] ^ b;
            self.piece_count[n] = self.piece_count[n] - 1;
            proof {
                assert(self@ =~= (PositionView { board: remove_spec(old(self)@.board, sq as int), ..old(self)@ }));
            }
        }
        proof {
            assert(self@ =~= (PositionView { board: remove_spec(old(self)@.board, sq as int), ..old(self)@ }));
        }
        piece
    }

    /// Moves the piece on `from` to `to`.
    fn move_piece(&mut self, from: Square, to: Square)
        requires
            old(self)@.board.squares[from as int] is Some,
        ensures
            final(self)@ == (PositionView { board: move_spec(old(self)@.board, from as int, to as int), ..old(self)@ }),
    {
        let piece = self.board[from.index()].unwrap();
        let sq_bb = square_bb(from) | square_bb(to);
        let t = piece.piece_type().index();
        let c = piece.color().index();
        self.board[from.index()] = None;
        self.board[to.index()] = Some(piece);
        self.by_type[t] = self.by_type[t] ^ sq_bb;
        self.by_color[c] = self.by_color[c] ^ sq_bb;
        proof {
            assert(self@ =~= (PositionView { board: move_spec(old(self)@.board, from as int, to as int), ..old(self)@ }));
        }
    }
}


/// The XOR of the piece keys of the first `n` squares.
pub open spec fn board_key(board: Seq<Option<Piece>>, n: int) -> u64
    decreases n,
{
    if n <= 0 {
        0
    } else {
        let k = board_key(board, n - 1);
        match board[n - 1] {
            Some(p) => k ^ piece_key_spec(piece_num(p), n - 1),
            None => k,
        }
    }
}

/// The Zobrist key of a position computed from scratch.
pub open spec fn key_spec(v: PositionView) -> u64 {
    let k1 = board_key(v.board.squares, 64);
    let k2 = match v.state.ep_square {
        Some(ep) => k1 ^ enpassant_key_spec(file_of(ep as int)),
        None => k1,
    };
    let k3 = k2 ^ castling_key_spec(v.state.castling_rights as int);
    if v.side_to_move == Color::Black {
        k3 ^ side_key_spec()
    } else {
        k3
    }
}

/// The pieces of either colour that attack `sq` over the board `occ`.
pub open spec fn attackers_spec(v: BoardView, sq: int, occ: u64) -> u64 {
    let b = 1u64 << (sq as u64);
    (pawn_attacks_spec(Color::Black, b) & pieces_ct(v, Color::White, PieceType::Pawn))
        | (pawn_attacks_spec(Color::White, b) & pieces_ct(v, Color::Black, PieceType::Pawn))
        | (knight_spec(sq) & pieces_type(v, PieceType::Knight))
        | (king_spec(sq) & pieces_type(v, PieceType::King))
        | (bishop_spec(sq, occ) & (pieces_type(v, PieceType::Bishop) | pieces_type(v, PieceType::Queen)))
        | (rook_spec(sq, occ) & (pieces_type(v, PieceType::Rook) | pieces_type(v, PieceType::Queen)))
}

/// What the sniper on `s` contributes to the blockers and pinners of the king of
/// `color` on `ksq`: a lone piece strictly between them is a blocker, and the
/// sniper pins it when it belongs to `color`.
pub open spec fn sniper_contrib(v: BoardView, color: Color, ksq: int, s: int) -> (u64, u64) {
    let btw = between_spec(ksq, s) & occupied(v) & !(1u64 << (s as u64));
    if btw != 0 && pop_count(btw) <= 1 {
        (btw, if btw & pieces_of(v, color) != 0 { 1u64 << (s as u64) } else { 0 })
    } else {
        (0, 0)
    }
}

/// The blockers and pinners contributed by the snipers in `b`.
pub open spec fn sniper_fold(v: BoardView, color: Color, ksq: int, b: u64) -> (u64, u64)
    decreases b,
{
    if b == 0 {
        (0, 0)
    } else {
        proof {
            lemma_clear_lsb(b);
        }
        let c = sniper_contrib(v, color, ksq, lsb_spec(b));
        let rest = sniper_fold(v, color, ksq, clear_lsb(b));
        (c.0 | rest.0, c.1 | rest.1)
    }
}

/// The enemy sliders that would attack the king of `color` on an empty board.
pub open spec fn snipers_spec(v: BoardView, color: Color) -> u64 {
    let ksq = king_sq(v, color);
    let snipers = ((pieces_type(v, PieceType::Rook) | pieces_type(v, PieceType::Queen)) & rook_spec(ksq, 0))
        | ((pieces_type(v, PieceType::Bishop) | pieces_type(v, PieceType::Queen)) & bishop_spec(ksq, 0));
    snipers & pieces_of(v, if color == Color::White { Color::Black } else { Color::White })
}

/// The blockers for the king of `color`, and the enemy pieces that pin them.
pub open spec fn slider_info(v: BoardView, color: Color) -> (u64, u64) {
    sniper_fold(v, color, king_sq(v, color), snipers_spec(v, color))
}

/// The pair `a` with entry `i` set to `x`.
pub open spec fn arr2_set(a: [u64; 2], i: int, x: u64) -> [u64; 2] {
    if i == 0 {
        [x, a[1]]
    } else {
        [a[0], x]
    }
}

pub open spec fn flip(c: Color) -> Color {
    if c == Color::White {
        Color::Black
    } else {
        Color::White
    }
}

/// Both kings are on the board (as far as the bitboards show).
pub open spec fn kings_present(v: BoardView) -> bool {
    pieces_ct(v, Color::White, PieceType::King) != 0 && pieces_ct(v, Color::Black, PieceType::King) != 0
}

/// The state with checkers, blockers, pinners and check squares recomputed.
#[verifier::opaque]
pub open spec fn check_info_spec(v: PositionView) -> StateInfo {
    let us = v.side_to_move;
    let them = flip(us);
    let bv = v.board;
    let ksq = king_sq(bv, us);
    let occ = occupied(bv);
    let tk = king_sq(bv, them);
    let w = slider_info(bv, Color::White);
    let b = slider_info(bv, Color::Black);
    let bsq = bishop_spec(tk, occ);
    let rsq = rook_spec(tk, occ);
    StateInfo {
        checkers_bb: attackers_spec(bv, ksq, occ) & pieces_of(bv, them),
        blockers_for_king: [w.0, b.0],
        pinners: [b.1, w.1],
        check_squares: [
            v.state.check_squares[0],
            pawn_attacks_spec(them, 1u64 << (tk as u64)),
            knight_spec(tk),
            bsq,
            rsq,
            bsq | rsq,
            0u64,
        ],
        ..v.state
    }
}

impl Position {
    pub fn side_to_move(&self) -> (r: Color)
        ensures
            r == self@.side_to_move,
    {
        self.side_to_move
    }

    /// All pieces.
    pub fn pieces(&self) -> (r: Bitboard)
        ensures
            r == occupied(self@.board),
    {
        self.by_color[0] | self.by_color[1]
    }

    /// The pieces of one colour.
    pub fn pieces_c(&self, color: Color) -> (r: Bitboard)
        ensures
            r == pieces_of(self@.board, color),
    {
        self.by_color[color.index()]
    }

    /// The pieces of one colour and type.
    pub fn pieces_cp(&self, color: Color, pt: PieceType) -> (r: Bitboard)
        ensures
            r == pieces_ct(self@.board, color, pt),
    {
        self.by_type[pt.index()] & self.by_color[color.index()]
    }

    /// The pieces of one type, both colours.
    pub fn pieces_p(&self, pt: PieceType) -> (r: Bitboard)
        ensures
            r == pieces_type(self@.board, pt),
    {
        self.by_type[pt.index()]
    }

    pub fn piece_on(&self, sq: Square) -> (r: Option<Piece>)
        ensures
            r == self@.board.squares[sq as int],
    {
        self.board[sq.index()]
    }

    /// The square of the king of `color` (the lowest one should there be several).
    pub fn king_square(&self, color: Color) -> (r: Square)
        requires
            pieces_ct(self@.board, color, PieceType::King) != 0,
        ensures
            r as int == king_sq(self@.board, color),
    {
        lsb(self.pieces_cp(color, PieceType::King))
    }

    pub fn checkers(&self) -> (r: Bitboard)
        ensures
            r == self@.state.checkers_bb,
    {
        self.state.checkers_bb
    }

    pub fn ep_square(&self) -> (r: Option<Square>)
        ensures
            r == self@.state.ep_square,
    {
        self.state.ep_square
    }

    /// Whether `color` keeps a castling right on either side.
    pub fn can_castle(&self, color: Color) -> (r: bool)
        ensures
            r == (self@.state.castling_rights & (if color == Color::White { 3u8 } else { 12u8 }) != 0),
    {
        let mask: u8 = if color == Color::White { 3 } else { 12 };
        (self.state.castling_rights & mask) != 0
    }

    pub fn can_castle_kingside(&self, color: Color) -> (r: bool)
        ensures
            r == (self@.state.castling_rights & castle_mask(color, true) != 0),
    {
        CastlingRights::can_castle_kingside(self.state.castling_rights, color)
    }

    pub fn can_castle_queenside(&self, color: Color) -> (r: bool)
        ensures
            r == (self@.state.castling_rights & castle_mask(color, false) != 0),
    {
        CastlingRights::can_castle_queenside(self.state.castling_rights, color)
    }

    /// The rook square recorded for castling on one side.
    pub fn castling_rook_square(&self, color: Color, kingside: bool) -> (r: Square)
        requires
            self@.castling_rook_sq[2 * (color as int) + (if kingside { 0int } else { 1int })] is Some,
        ensures
            Some(r) == self@.castling_rook_sq[2 * (color as int) + (if kingside { 0int } else { 1int })],
    {
        let side: usize = if kingside { 0 } else { 1 };
        self.castling_rook_sq[2 * color.index() + side].unwrap()
    }

    /// Whether a piece stands on the castling path of one side.
    pub fn castling_impeded(&self, color: Color, kingside: bool) -> (r: bool)
        ensures
            r == (occupied(self@.board) & self@.castling_path[2 * (color as int) + (if kingside { 0int } else { 1int })]
                != 0),
    {
        let side: usize = if kingside { 0 } else { 1 };
        let path = self.castling_path[2 * color.index() + side];
        (self.pieces() & path) != 0
    }

    /// Whether the side to move is in check.
    pub fn in_check(&self) -> (r: bool)
        ensures
            r == (self@.state.checkers_bb != 0),
    {
        self.state.checkers_bb != 0
    }

    pub fn key(&self) -> (r: Key)
        ensures
            r == self@.state.key,
    {
        self.state.key
    }

    pub fn rule50(&self) -> (r: u32)
        ensures
            r == self@.state.rule50,
    {
        self.state.rule50
    }

    pub fn ply(&self) -> (r: u32)
        ensures
            r == self@.state.ply,
    {
        self.state.ply
    }

    /// Whether fifty moves passed without a capture or a pawn move.
    pub fn fifty_move_rule(&self) -> (r: bool)
        ensures
            r == (self@.state.rule50 >= 100),
    {
        self.state.rule50 >= 100
    }

    /// How many times `piece` was counted onto the board.
    pub fn count(&self, piece: Piece) -> (r: u8)
        ensures
            r == self@.board.piece_count[piece_num(piece)],
    {
        self.piece_count[piece.index()]
    }

    pub fn blockers_for_king(&self, color: Color) -> (r: Bitboard)
        ensures
            r == self@.state.blockers_for_king[color as int],
    {
        self.state.blockers_for_king[color.index()]
    }

    pub fn pinners(&self, color: Color) -> (r: Bitboard)
        ensures
            r == self@.state.pinners[color as int],
    {
        self.state.pinners[color.index()]
    }

    pub fn check_squares(&self, pt: PieceType) -> (r: Bitboard)
        ensures
            r == self@.state.check_squares[pt_num(pt)],
    {
        self.state.check_squares[pt.index()]
    }

    /// The Zobrist key of the position computed from scratch.
    fn compute_key(&self) -> (r: Key)
        requires
            self@.state.castling_rights < 16,
        ensures
            r == key_spec(self@),
    {
        let mut key: u64 = 0;
        let mut sq_idx: usize = 0;
        while sq_idx < 64
            invariant
                sq_idx <= 64,
                self@.board.squares.len() == 64,
                key == board_key(self@.board.squares, sq_idx as int),
            decreases 64 - sq_idx,
        {
            if let Some(piece) = self.board[sq_idx] {
                key = key ^ self.zobrist.piece_key(piece, Square::from_index(sq_idx));
            }
            sq_idx = sq_idx + 1;
        }
        if let Some(ep_sq) = self.state.ep_square {
            key = key ^ self.zobrist.enpassant_key(ep_sq.file());
        }
        key = key ^ self.zobrist.castling_key(self.state.castling_rights);
        if self.side_to_move == Color::Black {
            key = key ^ self.zobrist.side_key();
        }
        key
    }

    /// All pieces, of either colour, attacking `sq` over the board `occupied`.
    pub fn attackers_to(&self, sq: Square, occupied: Bitboard) -> (r: Bitboard)
        ensures
            r == attackers_spec(self@.board, sq as int, occupied),
    {
        (pawn_attacks_bb_sq(Color::Black, sq) & self.pieces_cp(Color::White, PieceType::Pawn))
            | (pawn_attacks_bb_sq(Color::White, sq) & self.pieces_cp(Color::Black, PieceType::Pawn))
            | (knight_attacks_bb(sq) & self.pieces_p(PieceType::Knight))
            | (king_attacks_bb(sq) & self.pieces_p(PieceType::King))
            | (bishop_attacks_bb(sq, occupied) & (self.pieces_p(PieceType::Bishop) | self.pieces_p(PieceType::Queen)))
            | (rook_attacks_bb(sq, occupied) & (self.pieces_p(PieceType::Rook) | self.pieces_p(PieceType::Queen)))
    }

    /// Recomputes the blockers for the king of `color`, and the pinners of
    /// its pieces, which are filed under the pinning side.
    fn update_slider_blockers(&mut self, color: Color)
        requires
            pieces_ct(old(self)@.board, color, PieceType::King) != 0,
        ensures
            final(self)@ == (PositionView {
                state: StateInfo {
                    blockers_for_king: arr2_set(old(self)@.state.blockers_for_king, color as int, slider_info(old(self)@.board, color).0),
                    pinners: arr2_set(old(self)@.state.pinners, flip(color) as int, slider_info(old(self)@.board, color).1),
                    ..old(self)@.state
                },
                ..old(self)@
            }),
    {
        let ghost v = self@;
        let ksq = self.king_square(color);
        let snipers = ((self.pieces_p(PieceType::Rook) | self.pieces_p(PieceType::Queen)) & rook_attacks_bb(ksq, 0))
            | ((self.pieces_p(PieceType::Bishop) | self.pieces_p(PieceType::Queen)) & bishop_attacks_bb(ksq, 0));
        let mut blockers: u64 = 0;
        let mut pinners: u64 = 0;
        let mut snipers_for_color = snipers & self.pieces_c(color.flip());
        let ghost all = snipers_for_color;
        proof {
            assert(all == snipers_spec(v.board, color));
            lemma_or_zero(sniper_fold(v.board, color, ksq as int, all).0);
            lemma_or_zero(sniper_fold(v.board, color, ksq as int, all).1);
        }
        while snipers_for_color != 0
            invariant
                self@ == v,
                ksq as int == king_sq(v.board, color),
                blockers | sniper_fold(v.board, color, ksq as int, snipers_for_color).0 == sniper_fold(v.board, color, ksq as int, all).0,
                pinners | sniper_fold(v.board, color, ksq as int, snipers_for_color).1 == sniper_fold(v.board, color, ksq as int, all).1,
            decreases snipers_for_color,
        {
            let ghost before = snipers_for_color;
            proof {
                lemma_clear_lsb(before);
            }
            let sniper_sq = pop_lsb(&mut snipers_for_color);
            let between = between_bb(ksq, sniper_sq) & self.pieces() & !square_bb(sniper_sq);
            let ghost c = sniper_contrib(v.board, color, ksq as int, sniper_sq as int);
            let ghost rest = sniper_fold(v.board, color, ksq as int, snipers_for_color);
            proof {
                lemma_or3(blockers, c.0, rest.0);
                lemma_or3(pinners, c.1, rest.1);
            }
            if between != 0 && !more_than_one(between) {
                blockers = blockers | between;
                if (between & self.pieces_c(color)) != 0 {
                    pinners = pinners | square_bb(sniper_sq);
                } else {
                    proof {
                        lemma_or_zero(pinners);
                    }
                }
            } else {
                proof {
                    lemma_or_zero(pinners);
                    lemma_or_zero(blockers);
                }
            }
        }
        proof {
            lemma_or_zero(blockers);
            lemma_or_zero(pinners);
        }
        self.state.blockers_for_king[color.index()] = blockers;
        self.state.pinners[color.flip().index()] = pinners;
        proof {
            assert(self.state.blockers_for_king =~= arr2_set(v.state.blockers_for_king, color as int, blockers));
            assert(self.state.pinners =~= arr2_set(v.state.pinners, flip(color) as int, pinners));
        }
    }

    /// Recomputes checkers, blockers, pinners and check squares.
    fn set_check_info(&mut self)
        requires
            kings_present(old(self)@.board),
        ensures
            final(self)@ == (PositionView { state: check_info_spec(old(self)@), ..old(self)@ }),
    {
        let ghost v = self@;
        let us = self.side_to_move;
        let them = us.flip();
        let ksq = self.king_square(us);
        self.state.checkers_bb = self.attackers_to(ksq, self.pieces()) & self.pieces_c(them);
        self.update_slider_blockers(Color::White);
        self.update_slider_blockers(Color::Black);
        let occupied = self.pieces();
        let tk = self.king_square(them);
        self.state.check_squares[1] = pawn_attacks_bb_sq(them, tk);
        self.state.check_squares[2] = knight_attacks_bb(tk);
        self.state.check_squares[3] = bishop_attacks_bb(tk, occupied);
        self.state.check_squares[4] = rook_attacks_bb(tk, occupied);
        self.state.check_squares[5] = self.state.check_squares[3] | self.state.check_squares[4];
        self.state.check_squares[6] = 0;
        proof {
            reveal(check_info_spec);
            let s = check_info_spec(v);
            assert(self.state.check_squares =~= s.check_squares);
            assert(self.state.blockers_for_king =~= s.blockers_for_king);
            assert(self.state.pinners =~= s.pinners);
            assert(self@ =~= (PositionView { state: check_info_spec(v), ..v }));
        }
    }
}

proof fn lemma_or_zero(a: u64)
    ensures
        a | 0 == a,
        0 | a == a,
{
    assert(a | 0 == a) by (bit_vector);
    assert(0 | a == a) by (bit_vector);
}

proof fn lemma_or3(a: u64, b: u64, c: u64)
    ensures
        a | (b | c) == (a | b) | c,
{
    assert(a | (b | c) == (a | b) | c) by (bit_vector);
}


/// The castling rook of `c` on side `side` (0 kingside, 1 queenside) stands on `sq`.
pub open spec fn rook_sq_is(rooks: Seq<Option<Square>>, c: Color, side: int, sq: int) -> bool {
    rooks[2 * (c as int) + side] matches Some(s) && s as int == sq
}

/// The castling rights after the move `m`: a king move drops both rights of its
/// side, a move from or a capture on a castling rook square drops that right.
#[verifier::opaque]
pub open spec fn castling_after(b: BoardView, us: Color, c0: u8, rooks: Seq<Option<Square>>, m: Move) -> u8 {
    let them = flip(us);
    let from = mv_from(m);
    let to = mv_to(m);
    let piece = b.squares[from]->Some_0;
    let c1 = if piece_pt(piece) == PieceType::King {
        c0 & (if us == Color::White { 12u8 } else { 3u8 })
    } else if piece_pt(piece) == PieceType::Rook {
        if rook_sq_is(rooks, us, 0, from) {
            c0 & (if us == Color::White { 14u8 } else { 11u8 })
        } else if rook_sq_is(rooks, us, 1, from) {
            c0 & (if us == Color::White { 13u8 } else { 7u8 })
        } else {
            c0
        }
    } else {
        c0
    };
    match b.squares[to] {
        Some(cap) => if piece_pt(cap) == PieceType::Rook {
            if rook_sq_is(rooks, them, 0, to) {
                c1 & (if them == Color::White { 14u8 } else { 11u8 })
            } else if rook_sq_is(rooks, them, 1, to) {
                c1 & (if them == Color::White { 13u8 } else { 7u8 })
            } else {
                c1
            }
        } else {
            c1
        },
        None => c1,
    }
}

/// A castling move towards a higher file.
pub open spec fn kingside(m: Move) -> bool {
    file_of(mv_to(m)) > file_of(mv_from(m))
}

/// Where the rook lands when castling: next to the king, on the side it came
/// from (f1/d1 for a white king castling from e1).
pub open spec fn castle_rook_to(m: Move) -> int {
    if kingside(m) {
        mv_from(m) + 1
    } else {
        mv_from(m) - 1
    }
}

/// Where the king lands when castling.
pub open spec fn castle_king_to(m: Move) -> int {
    if kingside(m) {
        mv_from(m) + 2
    } else {
        mv_from(m) - 2
    }
}

/// The square of the pawn taken en passant by `us` moving to `to`.
pub open spec fn ep_victim_sq(us: Color, to: int) -> int {
    if us == Color::White {
        to - 8
    } else {
        to + 8
    }
}

/// The piece a promotion move promotes to.
pub open spec fn promo_piece(us: Color, m: Move) -> Piece {
    piece_of(us, pt_of_num(mv_promo_code(m) + 2))
}

/// The pieces after playing `m` (castling, en passant, promotion or normal move).
#[verifier::opaque]
pub open spec fn board_after(b: BoardView, us: Color, m: Move) -> BoardView {
    let from = mv_from(m);
    let to = mv_to(m);
    let piece = b.squares[from]->Some_0;
    if mv_kind(m) == 3 {
        let rook = piece_of(us, PieceType::Rook);
        let b1 = remove_spec(b, from);
        let b2 = remove_spec(b1, to);
        let b3 = put_spec(b2, piece, castle_king_to(m));
        put_spec(b3, rook, castle_rook_to(m))
    } else if mv_kind(m) == 2 {
        move_spec(remove_spec(b, ep_victim_sq(us, to)), from, to)
    } else if mv_kind(m) == 1 {
        let b1 = remove_spec(b, from);
        let b2 = if b.squares[to] is Some { remove_spec(b1, to) } else { b1 };
        put_spec(b2, promo_piece(us, m), to)
    } else {
        let b1 = if b.squares[to] is Some { remove_spec(b, to) } else { b };
        move_spec(b1, from, to)
    }
}

/// Playing `m` on the pieces neither leaves the board nor breaks a count.
#[verifier::opaque]
pub open spec fn board_after_ok(b: BoardView, us: Color, m: Move) -> bool {
    let from = mv_from(m);
    let to = mv_to(m);
    let piece = b.squares[from]->Some_0;
    if mv_kind(m) == 3 {
        let rook = piece_of(us, PieceType::Rook);
        let b1 = remove_spec(b, from);
        let b2 = remove_spec(b1, to);
        let b3 = put_spec(b2, piece, castle_king_to(m));
        &&& 0 <= castle_rook_to(m) < 64
        &&& 0 <= castle_king_to(m) < 64
        &&& remove_ok(b, from)
        &&& remove_ok(b1, to)
        &&& put_ok(b2, piece)
        &&& put_ok(b3, rook)
    } else if mv_kind(m) == 2 {
        let vs = ep_victim_sq(us, to);
        &&& 0 <= vs < 64
        &&& b.squares[vs] is Some
        &&& remove_ok(b, vs)
        &&& remove_spec(b, vs).squares[from] is Some
    } else if mv_kind(m) == 1 {
        let b1 = remove_spec(b, from);
        let b2 = if b.squares[to] is Some { remove_spec(b1, to) } else { b1 };
        &&& remove_ok(b, from)
        &&& (b.squares[to] is Some ==> remove_ok(b1, to))
        &&& put_ok(b2, promo_piece(us, m))
    } else {
        let b1 = if b.squares[to] is Some { remove_spec(b, to) } else { b };
        &&& (b.squares[to] is Some ==> remove_ok(b, to))
        &&& b1.squares[from] is Some
    }
}

/// The key `k` updated for the pieces that `m` moves, puts and takes.
#[verifier::opaque]
pub open spec fn key_after_board(b: BoardView, us: Color, m: Move, k: u64) -> u64 {
    let from = mv_from(m);
    let to = mv_to(m);
    let piece = b.squares[from]->Some_0;
    let pn = piece_num(piece);
    if mv_kind(m) == 3 {
        let rn = piece_num(piece_of(us, PieceType::Rook));
        (((k ^ piece_key_spec(pn, from)) ^ piece_key_spec(rn, to)) ^ piece_key_spec(pn, castle_king_to(m)))
            ^ piece_key_spec(rn, castle_rook_to(m))
    } else if mv_kind(m) == 2 {
        let vs = ep_victim_sq(us, to);
        ((k ^ piece_key_spec(piece_num(b.squares[vs]->Some_0), vs)) ^ piece_key_spec(pn, from)) ^ piece_key_spec(pn, to)
    } else if mv_kind(m) == 1 {
        let k1 = k ^ piece_key_spec(pn, from);
        let k2 = match b.squares[to] {
            Some(cap) => k1 ^ piece_key_spec(piece_num(cap), to),
            None => k1,
        };
        k2 ^ piece_key_spec(piece_num(promo_piece(us, m)), to)
    } else {
        let k1 = match b.squares[to] {
            Some(cap) => k ^ piece_key_spec(piece_num(cap), to),
            None => k,
        };
        (k1 ^ piece_key_spec(pn, from)) ^ piece_key_spec(pn, to)
    }
}

/// The piece `m` takes, as recorded for unmaking.
pub open spec fn captured_by(b: BoardView, us: Color, m: Move) -> Option<Piece> {
    if mv_kind(m) == 3 {
        None
    } else if mv_kind(m) == 2 {
        b.squares[ep_victim_sq(us, mv_to(m))]
    } else {
        b.squares[mv_to(m)]
    }
}

/// A pawn move of two ranks.
pub open spec fn double_push(v: PositionView, m: Move) -> bool {
    piece_pt(v.board.squares[mv_from(m)]->Some_0) == PieceType::Pawn && (mv_to(m) - mv_from(m) == 16 || mv_from(m)
        - mv_to(m) == 16)
}

/// Whether `m` resets the halfmove clock: a pawn move or a capture (castling
/// moves onto the own rook's square and captures nothing).
pub open spec fn resets_rule50(v: PositionView, m: Move) -> bool {
    piece_pt(v.board.squares[mv_from(m)]->Some_0) == PieceType::Pawn || (mv_kind(m) != 3 && v.board.squares[mv_to(
        m,
    )] is Some)
}

/// The state after `m`, before checks and pins are recomputed.
pub open spec fn state_after(v: PositionView, m: Move) -> StateInfo {
    let from = mv_from(m);
    let to = mv_to(m);
    let piece = v.board.squares[from]->Some_0;
    let k0 = v.state.key;
    let k1 = match v.state.ep_square {
        Some(ep) => k0 ^ enpassant_key_spec(file_of(ep as int)),
        None => k0,
    };
    let c0 = v.state.castling_rights;
    let c2 = castling_after(v.board, v.side_to_move, v.state.castling_rights, v.castling_rook_sq, m);
    let k2 = if c0 != c2 {
        (k1 ^ castling_key_spec(c0 as int)) ^ castling_key_spec(c2 as int)
    } else {
        k1
    };
    let k3 = key_after_board(v.board, v.side_to_move, m, k2);
    let ep_sq = (from + to) / 2;
    let k4 = if double_push(v, m) { k3 ^ enpassant_key_spec(file_of(ep_sq)) } else { k3 };
    StateInfo {
        key: k4 ^ side_key_spec(),
        castling_rights: c2,
        ep_square: if double_push(v, m) { Some(square_at(ep_sq)) } else { None },
        rule50: if resets_rule50(v, m) { 0 } else { (v.state.rule50 + 1) as u32 },
        ply: (v.state.ply + 1) as u32,
        captured_piece: captured_by(v.board, v.side_to_move, m),
        ..v.state
    }
}

/// The position after `m`, before checks and pins are recomputed.
pub open spec fn pre_check_after(v: PositionView, m: Move) -> PositionView {
    PositionView {
        board: board_after(v.board, v.side_to_move, m),
        side_to_move: flip(v.side_to_move),
        state: state_after(v, m),
        history: v.history.push(v.state),
        ..v
    }
}

/// The position after making `m`.
pub open spec fn do_move_spec(v: PositionView, m: Move) -> PositionView {
    let w = pre_check_after(v, m);
    PositionView { state: check_info_spec(w), ..w }
}

/// Making `m` does not fail: there is a piece on its origin, the rights to
/// re-key are in range, the pieces move within the board and the counts, the
/// counters do not overflow, and both kings are still found afterwards.
pub open spec fn do_move_ok(v: PositionView, m: Move) -> bool {
    let from = mv_from(m);
    let to = mv_to(m);
    let piece = v.board.squares[from]->Some_0;
    &&& v.board.squares[from] is Some
    &&& (v.state.castling_rights != castling_after(v.board, v.side_to_move, v.state.castling_rights, v.castling_rook_sq, m) ==> v.state.castling_rights < 16)
    &&& board_after_ok(v.board, v.side_to_move, m)
    &&& (!resets_rule50(v, m) ==> v.state.rule50 < u32::MAX)
    &&& v.state.ply < u32::MAX
    &&& kings_present(board_after(v.board, v.side_to_move, m))
}

proof fn lemma_and_le(a: u8, b: u8)
    ensures
        a & b <= a,
{
    assert(a & b <= a) by (bit_vector);
}

impl Position {
    /// The castling rights after `m` (see `castling_after`).
    fn castling_after_move(&self, m: Move, piece: Piece, captured: Option<Piece>) -> (r: u8)
        requires
            self@.board.squares[mv_from(m)] == Some(piece),
            self@.board.squares[mv_to(m)] == captured,
        ensures
            r == castling_after(self@.board, self@.side_to_move, self@.state.castling_rights, self@.castling_rook_sq, m),
            r <= self@.state.castling_rights,
    {
        proof {
            reveal(castling_after);
        }
        let us = self.side_to_move;
        let them = us.flip();
        let from = m.from_sq();
        let to = m.to_sq();
        let old_castling = self.state.castling_rights;
        let mut new_castling = old_castling;
        if piece.piece_type() == PieceType::King {
            new_castling &= if us == Color::White { 0b1100 } else { 0b0011 };
        } else if piece.piece_type() == PieceType::Rook {
            if Some(from) == self.castling_rook_sq[2 * us.index()] {
                new_castling &= if us == Color::White { 0b1110 } else { 0b1011 };
            } else if Some(from) == self.castling_rook_sq[2 * us.index() + 1] {
                new_castling &= if us == Color::White { 0b1101 } else { 0b0111 };
            }
        }
        proof {
            lemma_and_le(old_castling, 12);
            lemma_and_le(old_castling, 3);
            lemma_and_le(old_castling, 14);
            lemma_and_le(old_castling, 11);
            lemma_and_le(old_castling, 13);
            lemma_and_le(old_castling, 7);
            lemma_and_le(new_castling, 14);
            lemma_and_le(new_castling, 11);
            lemma_and_le(new_castling, 13);
            lemma_and_le(new_castling, 7);
        }
        if let Some(cap) = captured {
            if cap.piece_type() == PieceType::Rook {
                if Some(to) == self.castling_rook_sq[2 * them.index()] {
                    new_castling &= if them == Color::White { 0b1110 } else { 0b1011 };
                } else if Some(to) == self.castling_rook_sq[2 * them.index() + 1] {
                    new_castling &= if them == Color::White { 0b1101 } else { 0b0111 };
                }
            }
        }
        new_castling
    }
}


impl Position {
    /// Castling: takes king and rook off and puts them on their new squares.
    #[verifier::spinoff_prover]
    #[verifier::rlimit(60)]
    fn apply_castle(&mut self, m: Move, piece: Piece, key: Key) -> (r: Key)
        requires
            mv_kind(m) == 3,
            old(self)@.board.squares[mv_from(m)] == Some(piece),
            board_after_ok(old(self)@.board, old(self)@.side_to_move, m),
        ensures
            final(self)@ == (PositionView {
                board: board_after(old(self)@.board, old(self)@.side_to_move, m),
                state: StateInfo { captured_piece: None, ..old(self)@.state },
                ..old(self)@
            }),
            r == key_after_board(old(self)@.board, old(self)@.side_to_move, m, key),
    {
        proof {
            reveal(board_after);
            reveal(board_after_ok);
            reveal(key_after_board);
        }
        let ghost v = self@;
        let us = self.side_to_move;
        let from = m.from_sq();
        let to = m.to_sq();
        let mut new_key = key;
        let ks = to.file().index() > from.file().index();
        let rook_from = to;
        let rook_to = if ks { Square::from_index(from.index() + 1) } else { Square::from_index(from.index() - 1) };
        let king_to = if ks { Square::from_index(from.index() + 2) } else { Square::from_index(from.index() - 2) };
        let rook = Piece::make(us, PieceType::Rook);
        new_key = new_key ^ self.zobrist.piece_key(piece, from);
        new_key = new_key ^ self.zobrist.piece_key(rook, rook_from);
        self.remove_piece(from);
        self.remove_piece(rook_from);
        new_key = new_key ^ self.zobrist.piece_key(piece, king_to);
        new_key = new_key ^ self.zobrist.piece_key(rook, rook_to);
        self.put_piece(piece, king_to);
        self.put_piece(rook, rook_to);
        self.state.captured_piece = None;
        proof {
            assert(self@ =~= (PositionView {
                board: board_after(v.board, v.side_to_move, m),
                state: StateInfo { captured_piece: None, ..v.state },
                ..v
            }));
        }
        new_key
    }

    /// En passant: takes the passed pawn and moves the capturing one.
    fn apply_en_passant(&mut self, m: Move, piece: Piece, key: Key) -> (r: Key)
        requires
            mv_kind(m) == 2,
            old(self)@.board.squares[mv_from(m)] == Some(piece),
            board_after_ok(old(self)@.board, old(self)@.side_to_move, m),
        ensures
            final(self)@ == (PositionView {
                board: board_after(old(self)@.board, old(self)@.side_to_move, m),
                state: StateInfo {
                    captured_piece: captured_by(old(self)@.board, old(self)@.side_to_move, m),
                    ..old(self)@.state
                },
                ..old(self)@
            }),
            r == key_after_board(old(self)@.board, old(self)@.side_to_move, m, key),
    {
        proof {
            reveal(board_after);
            reveal(board_after_ok);
            reveal(key_after_board);
        }
        let ghost v = self@;
        let us = self.side_to_move;
        let from = m.from_sq();
        let to = m.to_sq();
        let mut new_key = key;
        let offset: i8 = if us == Color::White { -8 } else { 8 };
        let captured_sq = Square::from_index((to.index() as i8 + offset) as usize);
        let captured_pawn = self.remove_piece(captured_sq).unwrap();
        new_key = new_key ^ self.zobrist.piece_key(captured_pawn, captured_sq);
        new_key = new_key ^ self.zobrist.piece_key(piece, from);
        new_key = new_key ^ self.zobrist.piece_key(piece, to);
        self.move_piece(from, to);
        self.state.captured_piece = Some(captured_pawn);
        proof {
            assert(self@ =~= (PositionView {
                board: board_after(v.board, v.side_to_move, m),
                state: StateInfo { captured_piece: captured_by(v.board, v.side_to_move, m), ..v.state },
                ..v
            }));
        }
        new_key
    }

    /// Promotion: takes the pawn and any captured piece and puts the new piece.
    fn apply_promotion(&mut self, m: Move, piece: Piece, captured: Option<Piece>, key: Key) -> (r: Key)
        requires
            mv_kind(m) == 1,
            old(self)@.board.squares[mv_from(m)] == Some(piece),
            old(self)@.board.squares[mv_to(m)] == captured,
            board_after_ok(old(self)@.board, old(self)@.side_to_move, m),
        ensures
            final(self)@ == (PositionView {
                board: board_after(old(self)@.board, old(self)@.side_to_move, m),
                state: StateInfo { captured_piece: captured, ..old(self)@.state },
                ..old(self)@
            }),
            r == key_after_board(old(self)@.board, old(self)@.side_to_move, m, key),
    {
        proof {
            reveal(board_after);
            reveal(board_after_ok);
            reveal(key_after_board);
        }
        let ghost v = self@;
        let us = self.side_to_move;
        let from = m.from_sq();
        let to = m.to_sq();
        let mut new_key = key;
        let promo_piece = Piece::make(us, m.promotion_type().unwrap());
        new_key = new_key ^ self.zobrist.piece_key(piece, from);
        self.remove_piece(from);
        if let Some(cap) = captured {
            new_key = new_key ^ self.zobrist.piece_key(cap, to);
            self.remove_piece(to);
        }
        new_key = new_key ^ self.zobrist.piece_key(promo_piece, to);
        self.put_piece(promo_piece, to);
        self.state.captured_piece = captured;
        proof {
            assert(self@ =~= (PositionView {
                board: board_after(v.board, v.side_to_move, m),
                state: StateInfo { captured_piece: captured, ..v.state },
                ..v
            }));
        }
        new_key
    }

    /// A normal move: takes any captured piece and moves the piece.
    fn apply_normal(&mut self, m: Move, piece: Piece, captured: Option<Piece>, key: Key) -> (r: Key)
        requires
            mv_kind(m) == 0,
            old(self)@.board.squares[mv_from(m)] == Some(piece),
            old(self)@.board.squares[mv_to(m)] == captured,
            board_after_ok(old(self)@.board, old(self)@.side_to_move, m),
        ensures
            final(self)@ == (PositionView {
                board: board_after(old(self)@.board, old(self)@.side_to_move, m),
                state: StateInfo { captured_piece: captured, ..old(self)@.state },
                ..old(self)@
            }),
            r == key_after_board(old(self)@.board, old(self)@.side_to_move, m, key),
    {
        proof {
            reveal(board_after);
            reveal(board_after_ok);
            reveal(key_after_board);
        }
        let ghost v = self@;
        let from = m.from_sq();
        let to = m.to_sq();
        let mut new_key = key;
        if let Some(cap) = captured {
            new_key = new_key ^ self.zobrist.piece_key(cap, to);
            self.remove_piece(to);
        }
        new_key = new_key ^ self.zobrist.piece_key(piece, from);
        new_key = new_key ^ self.zobrist.piece_key(piece, to);
        self.move_piece(from, to);
        self.state.captured_piece = captured;
        proof {
            assert(self@ =~= (PositionView {
                board: board_after(v.board, v.side_to_move, m),
                state: StateInfo { captured_piece: captured, ..v.state },
                ..v
            }));
        }
        new_key
    }

    /// Moves, takes and puts the pieces of `m`, records the captured piece, and
    /// returns `key` updated for them.
    fn apply_move_pieces(&mut self, m: Move, piece: Piece, captured: Option<Piece>, key: Key) -> (r: Key)
        requires
            old(self)@.board.squares[mv_from(m)] == Some(piece),
            old(self)@.board.squares[mv_to(m)] == captured,
            board_after_ok(old(self)@.board, old(self)@.side_to_move, m),
        ensures
            final(self)@ == (PositionView {
                board: board_after(old(self)@.board, old(self)@.side_to_move, m),
                state: StateInfo {
                    captured_piece: captured_by(old(self)@.board, old(self)@.side_to_move, m),
                    ..old(self)@.state
                },
                ..old(self)@
            }),
            r == key_after_board(old(self)@.board, old(self)@.side_to_move, m, key),
    {
        if m.is_castle() {
            self.apply_castle(m, piece, key)
        } else if m.is_en_passant() {
            self.apply_en_passant(m, piece, key)
        } else if m.is_promotion() {
            self.apply_promotion(m, piece, captured, key)
        } else {
            proof {
                crate::types::lemma_move_kind(m);
            }
            self.apply_normal(m, piece, captured, key)
        }
    }

    /// Makes the move `m`, saving the state for `undo_move`.
    pub fn do_move(&mut self, m: Move)
        requires
            do_move_ok(old(self)@, m),
        ensures
            final(self)@ == do_move_spec(old(self)@, m),
    {
        let ghost v = self@;
        self.state_history.push(self.state);
        let us = self.side_to_move;
        let them = us.flip();
        let from = m.from_sq();
        let to = m.to_sq();
        let piece = self.piece_on(from).unwrap();
        let captured = self.piece_on(to);
        let mut new_key = self.state.key;
        if let Some(ep_sq) = self.state.ep_square {
            new_key = new_key ^ self.zobrist.enpassant_key(ep_sq.file());
        }
        let old_castling = self.state.castling_rights;
        let new_castling = self.castling_after_move(m, piece, captured);
        if old_castling != new_castling {
            new_key = new_key ^ self.zobrist.castling_key(old_castling);
            new_key = new_key ^ self.zobrist.castling_key(new_castling);
            self.state.castling_rights = new_castling;
        }
        new_key = self.apply_move_pieces(m, piece, captured, new_key);
        self.state.ep_square = None;
        if piece.piece_type() == PieceType::Pawn {
            let delta: i8 = if to.index() > from.index() {
                to.index() as i8 - from.index() as i8
            } else {
                from.index() as i8 - to.index() as i8
            };
            if delta == 16 {
                let ep_sq = Square::from_index((from.index() + to.index()) / 2);
                self.state.ep_square = Some(ep_sq);
                new_key = new_key ^ self.zobrist.enpassant_key(ep_sq.file());
            }
        }
        if piece.piece_type() == PieceType::Pawn || (!m.is_castle() && captured.is_some()) {
            self.state.rule50 = 0;
        } else {
            self.state.rule50 = self.state.rule50 + 1;
        }
        self.state.ply = self.state.ply + 1;
        new_key = new_key ^ self.zobrist.side_key();
        self.state.key = new_key;
        self.side_to_move = them;
        proof {
            assert(self@ =~= pre_check_after(v, m));
        }
        self.set_check_info();
    }
}


/// The pieces after taking back `m` played by `us`, which took `captured`.
#[verifier::opaque]
pub open spec fn board_before(b: BoardView, us: Color, m: Move, captured: Option<Piece>) -> BoardView {
    let from = mv_from(m);
    let to = mv_to(m);
    if mv_kind(m) == 3 {
        let b1 = remove_spec(b, castle_king_to(m));
        let b2 = remove_spec(b1, castle_rook_to(m));
        let b3 = put_spec(b2, piece_of(us, PieceType::King), from);
        put_spec(b3, piece_of(us, PieceType::Rook), to)
    } else if mv_kind(m) == 2 {
        put_spec(move_spec(b, to, from), captured->Some_0, ep_victim_sq(us, to))
    } else if mv_kind(m) == 1 {
        let b1 = put_spec(remove_spec(b, to), piece_of(us, PieceType::Pawn), from);
        if captured is Some { put_spec(b1, captured->Some_0, to) } else { b1 }
    } else {
        let b1 = move_spec(b, to, from);
        if captured is Some { put_spec(b1, captured->Some_0, to) } else { b1 }
    }
}

/// Taking back `m` neither leaves the board nor breaks a count.
#[verifier::opaque]
pub open spec fn board_before_ok(b: BoardView, us: Color, m: Move, captured: Option<Piece>) -> bool {
    let from = mv_from(m);
    let to = mv_to(m);
    if mv_kind(m) == 3 {
        let b1 = remove_spec(b, castle_king_to(m));
        let b2 = remove_spec(b1, castle_rook_to(m));
        let b3 = put_spec(b2, piece_of(us, PieceType::King), from);
        &&& 0 <= castle_rook_to(m) < 64
        &&& 0 <= castle_king_to(m) < 64
        &&& remove_ok(b, castle_king_to(m))
        &&& remove_ok(b1, castle_rook_to(m))
        &&& put_ok(b2, piece_of(us, PieceType::King))
        &&& put_ok(b3, piece_of(us, PieceType::Rook))
    } else if mv_kind(m) == 2 {
        let vs = ep_victim_sq(us, to);
        &&& b.squares[to] is Some
        &&& 0 <= vs < 64
        &&& captured is Some
        &&& put_ok(move_spec(b, to, from), captured->Some_0)
    } else if mv_kind(m) == 1 {
        let b1 = put_spec(remove_spec(b, to), piece_of(us, PieceType::Pawn), from);
        &&& remove_ok(b, to)
        &&& put_ok(remove_spec(b, to), piece_of(us, PieceType::Pawn))
        &&& (captured is Some ==> put_ok(b1, captured->Some_0))
    } else {
        &&& b.squares[to] is Some
        &&& (captured is Some ==> put_ok(move_spec(b, to, from), captured->Some_0))
    }
}

/// The position after taking back `m`: the pieces go back and the saved state returns.
pub open spec fn undo_move_spec(v: PositionView, m: Move) -> PositionView {
    let us = flip(v.side_to_move);
    PositionView {
        board: board_before(v.board, us, m, v.state.captured_piece),
        side_to_move: us,
        state: v.history.last(),
        history: v.history.drop_last(),
        ..v
    }
}

/// Taking back `m` does not fail: a state is saved and the pieces fit.
pub open spec fn undo_move_ok(v: PositionView, m: Move) -> bool {
    &&& v.history.len() > 0
    &&& board_before_ok(v.board, flip(v.side_to_move), m, v.state.captured_piece)
}

impl Position {
    /// Takes back the move `m`, the last one made.
    #[verifier::spinoff_prover]
    pub fn undo_move(&mut self, m: Move)
        requires
            undo_move_ok(old(self)@, m),
        ensures
            final(self)@ == undo_move_spec(old(self)@, m),
    {
        proof {
            reveal(board_before);
            reveal(board_before_ok);
        }
        let ghost v = self@;
        let from = m.from_sq();
        let to = m.to_sq();
        self.side_to_move = self.side_to_move.flip();
        let us = self.side_to_move;
        let captured = self.state.captured_piece;
        self.state = self.state_history.pop().unwrap();
        if m.is_castle() {
            let ks = to.file().index() > from.file().index();
            let rook_from = to;
            let rook_to = if ks { Square::from_index(from.index() + 1) } else { Square::from_index(from.index() - 1) };
            let king_to = if ks { Square::from_index(from.index() + 2) } else { Square::from_index(from.index() - 2) };
            self.remove_piece(king_to);
            self.remove_piece(rook_to);
            self.put_piece(Piece::make(us, PieceType::King), from);
            self.put_piece(Piece::make(us, PieceType::Rook), rook_from);
        } else if m.is_en_passant() {
            self.move_piece(to, from);
            let offset: i8 = if us == Color::White { -8 } else { 8 };
            let captured_sq = Square::from_index((to.index() as i8 + offset) as usize);
            self.put_piece(captured.unwrap(), captured_sq);
        } else if m.is_promotion() {
            self.remove_piece(to);
            self.put_piece(Piece::make(us, PieceType::Pawn), from);
            if let Some(cap) = captured {
                self.put_piece(cap, to);
            }
        } else {
            self.move_piece(to, from);
            if let Some(cap) = captured {
                self.put_piece(cap, to);
            }
        }
        proof {
            assert(self@ =~= undo_move_spec(v, m));
        }
    }
}


/// The squares from `lo` up to (not including) `n`, except `k` and `r`.
pub open spec fn path_bits(lo: int, n: int, k: int, r: int) -> u64
    decreases n - lo,
{
    if n <= lo {
        0
    } else {
        path_bits(lo, n - 1, k, r) | (if n - 1 != k && n - 1 != r { 1u64 << ((n - 1) as u64) } else { 0 })
    }
}

pub open spec fn min_int(a: int, b: int) -> int {
    if a < b { a } else { b }
}

pub open spec fn max_int(a: int, b: int) -> int {
    if a > b { a } else { b }
}

/// The castling path of one side: the squares the king and rook cross or land
/// on, without the squares they start from.
pub open spec fn castle_path_spec(v: PositionView, c: Color, side: int) -> u64 {
    let ksq = king_sq(v.board, c);
    let rsq = v.castling_rook_sq[2 * (c as int) + side]->Some_0 as int;
    let white = c == Color::White;
    if side == 0 {
        let king_to = if white { 6int } else { 62int };
        let rook_to = if white { 5int } else { 61int };
        path_bits(min_int(ksq, king_to), max_int(rsq, rook_to) + 1, ksq, rsq)
    } else {
        let king_to = if white { 2int } else { 58int };
        let rook_to = if white { 3int } else { 59int };
        path_bits(min_int(rsq, rook_to), max_int(ksq, king_to) + 1, ksq, rsq)
    }
}

/// The castling paths recomputed for every recorded castling rook.
pub open spec fn castling_paths_spec(v: PositionView) -> Seq<u64> {
    Seq::new(
        4,
        |i: int|
            if v.castling_rook_sq[i] is Some {
                castle_path_spec(v, if i < 2 { Color::White } else { Color::Black }, i % 2)
            } else {
                v.castling_path[i]
            },
    )
}

impl Position {
    /// The squares from `lo` to `end` (inclusive) except `ksq` and `rsq`.
    fn path_between(lo: usize, end: usize, ksq: usize, rsq: usize) -> (r: Bitboard)
        requires
            end < 64,
        ensures
            r == path_bits(lo as int, end as int + 1, ksq as int, rsq as int),
    {
        let mut path: u64 = 0;
        let mut sq = lo;
        proof {
            assert(path_bits(lo as int, lo as int, ksq as int, rsq as int) == 0);
        }
        if sq > end {
            proof {
                assert(path_bits(lo as int, end as int + 1, ksq as int, rsq as int) == 0);
            }
            return path;
        }
        while sq <= end
            invariant
                lo <= sq <= end + 1,
                end < 64,
                path == path_bits(lo as int, sq as int, ksq as int, rsq as int),
            decreases end + 1 - sq,
        {
            if sq != ksq && sq != rsq {
                path = path | (1u64 << (sq as u64));
            } else {
                proof {
                    lemma_or_zero(path);
                }
            }
            sq = sq + 1;
        }
        path
    }

    /// Recomputes the castling paths of the recorded castling rooks.
    fn update_castling_paths(&mut self)
        requires
            kings_present(old(self)@.board),
        ensures
            final(self)@ == (PositionView { castling_path: castling_paths_spec(old(self)@), ..old(self)@ }),
    {
        let ghost v = self@;
        let mut ci: usize = 0;
        while ci < 2
            invariant
                ci <= 2,
                kings_present(v.board),
                self@ == (PositionView { castling_path: self@.castling_path, ..v }),
                self@.castling_path.len() == 4,
                forall|i: int| 0 <= i < 2 * ci ==> #[trigger] self@.castling_path[i] == castling_paths_spec(v)[i],
                forall|i: int| 2 * ci <= i < 4 ==> #[trigger] self@.castling_path[i] == v.castling_path[i],
            decreases 2 - ci,
        {
            let color = if ci == 0 { Color::White } else { Color::Black };
            let ksq = self.king_square(color);
            if let Some(rook_sq) = self.castling_rook_sq[2 * ci] {
                let (king_to, rook_to): (usize, usize) = if color == Color::White { (6, 5) } else { (62, 61) };
                let lo = if ksq.index() < king_to { ksq.index() } else { king_to };
                let end = if rook_sq.index() > rook_to { rook_sq.index() } else { rook_to };
                let path = Self::path_between(lo, end, ksq.index(), rook_sq.index());
                self.castling_path[2 * ci] = path;
            }
            if let Some(rook_sq) = self.castling_rook_sq[2 * ci + 1] {
                let (king_to, rook_to): (usize, usize) = if color == Color::White { (2, 3) } else { (58, 59) };
                let lo = if rook_sq.index() < rook_to { rook_sq.index() } else { rook_to };
                let end = if ksq.index() > king_to { ksq.index() } else { king_to };
                let path = Self::path_between(lo, end, ksq.index(), rook_sq.index());
                self.castling_path[2 * ci + 1] = path;
            }
            ci = ci + 1;
        }
        proof {
            assert(self@.castling_path =~= castling_paths_spec(v));
            assert(self@ =~= (PositionView { castling_path: castling_paths_spec(v), ..v }));
        }
    }
}

/// The king of colour `c` is on the board.
pub open spec fn king_present(b: BoardView, c: Color) -> bool {
    pieces_ct(b, c, PieceType::King) != 0
}

/// Whether `m` checks the opponent: directly, by discovery, by an en-passant
/// discovery, by promotion, or by the rook of a castling.
pub open spec fn gives_check_spec(v: PositionView, m: Move) -> bool {
    let b = v.board;
    let us = v.side_to_move;
    let them = flip(us);
    let from = mv_from(m);
    let to = mv_to(m);
    let piece = b.squares[from]->Some_0;
    let tk = king_sq(b, them);
    let bto = 1u64 << (to as u64);
    let bfrom = 1u64 << (from as u64);
    if v.state.check_squares[pt_num(piece_pt(piece))] & bto != 0 {
        true
    } else if v.state.blockers_for_king[them as int] & bfrom != 0 && line_spec(from, to) & (1u64 << (tk as u64)) == 0 {
        true
    } else if piece_pt(piece) == PieceType::Pawn && mv_kind(m) == 2 {
        let cs = ep_victim_sq(us, to);
        let occ = ((occupied(b) ^ bfrom) ^ (1u64 << (cs as u64))) | bto;
        ((rook_spec(tk, occ) & (pieces_ct(b, us, PieceType::Rook) | pieces_ct(b, us, PieceType::Queen))) | (
        bishop_spec(tk, occ) & (pieces_ct(b, us, PieceType::Bishop) | pieces_ct(b, us, PieceType::Queen)))) != 0
    } else if piece_pt(piece) == PieceType::Pawn && mv_kind(m) == 1 {
        let occ = (occupied(b) ^ bfrom) | bto;
        attacks_spec(pt_of_num(mv_promo_code(m) + 2), to, occ) & (1u64 << (tk as u64)) != 0
    } else if piece_pt(piece) == PieceType::King && mv_kind(m) == 3 {
        let rto = castle_rook_to(m);
        let kto = castle_king_to(m);
        let occ = (((occupied(b) ^ bfrom) ^ bto) | (1u64 << (kto as u64))) | (1u64 << (rto as u64));
        rook_spec(rto, occ) & (1u64 << (tk as u64)) != 0
    } else {
        false
    }
}

/// `gives_check` does not fail on `m`.
pub open spec fn gives_check_ok(v: PositionView, m: Move) -> bool {
    let b = v.board;
    let us = v.side_to_move;
    let them = flip(us);
    let from = mv_from(m);
    let to = mv_to(m);
    let piece = b.squares[from]->Some_0;
    let direct = v.state.check_squares[pt_num(piece_pt(piece))] & (1u64 << (to as u64)) != 0;
    &&& b.squares[from] is Some
    &&& (!direct && v.state.blockers_for_king[them as int] & (1u64 << (from as u64)) != 0 ==> king_present(b, them))
    &&& (!direct && piece_pt(piece) == PieceType::Pawn && mv_kind(m) == 2 ==> 0 <= ep_victim_sq(us, to) < 64)
    &&& (!direct && piece_pt(piece) == PieceType::King && mv_kind(m) == 3 ==> 0 <= castle_rook_to(m) < 64
        && 0 <= castle_king_to(m) < 64)
    &&& (!direct && ((piece_pt(piece) == PieceType::Pawn && (mv_kind(m) == 2 || mv_kind(m) == 1)) || (piece_pt(
        piece) == PieceType::King && mv_kind(m) == 3)) ==> king_present(b, them))
}

/// Whether a move that passes the pseudo-legality filter of move generation is
/// legal: en passant and king moves may not leave the king attacked, castling
/// may not start on, cross or land on an attacked square, and a pinned piece
/// must stay on its pin line.
pub open spec fn is_legal_spec(v: PositionView, m: Move) -> bool {
    let b = v.board;
    let us = v.side_to_move;
    let them = flip(us);
    let from = mv_from(m);
    let to = mv_to(m);
    let occ = occupied(b);
    if mv_kind(m) == 2 {
        let ksq = king_sq(b, us);
        let cs = ep_victim_sq(us, to);
        let o = ((occ ^ (1u64 << (from as u64))) ^ (1u64 << (cs as u64))) | (1u64 << (to as u64));
        ((rook_spec(ksq, o) & (pieces_ct(b, them, PieceType::Rook) | pieces_ct(b, them, PieceType::Queen))) | (
        bishop_spec(ksq, o) & (pieces_ct(b, them, PieceType::Bishop) | pieces_ct(b, them, PieceType::Queen)))) == 0
    } else if mv_kind(m) == 3 {
        let kto = castle_king_to(m);
        forall|s: int| min_int(from, kto) <= s <= max_int(from, kto) ==> #[trigger] attackers_spec(b, s, occ) & pieces_of(b, them) == 0
    } else if piece_pt(b.squares[from]->Some_0) == PieceType::King {
        attackers_spec(b, to, occ ^ (1u64 << (from as u64))) & pieces_of(b, them) == 0
    } else if v.state.blockers_for_king[us as int] & (1u64 << (from as u64)) != 0 {
        line_spec(from, king_sq(b, us)) & (1u64 << (to as u64)) != 0
    } else {
        true
    }
}

/// `is_legal` does not fail on `m`.
pub open spec fn is_legal_ok(v: PositionView, m: Move) -> bool {
    let b = v.board;
    let us = v.side_to_move;
    let from = mv_from(m);
    &&& (mv_kind(m) == 2 ==> king_present(b, us) && 0 <= ep_victim_sq(us, mv_to(m)) < 64)
    &&& (mv_kind(m) == 3 ==> 0 <= castle_king_to(m) < 64)
    &&& (mv_kind(m) != 2 && mv_kind(m) != 3 ==> b.squares[from] is Some)
    &&& (mv_kind(m) != 2 && mv_kind(m) != 3 && piece_pt(b.squares[from]->Some_0) != PieceType::King
        && v.state.blockers_for_king[us as int] & (1u64 << (from as u64)) != 0 ==> king_present(b, us))
}

impl Position {
    /// Whether the move `m` gives check.
    pub fn gives_check(&self, m: Move) -> (r: bool)
        requires
            gives_check_ok(self@, m),
        ensures
            r == gives_check_spec(self@, m),
    {
        let us = self.side_to_move;
        let them = us.flip();
        let from = m.from_sq();
        let to = m.to_sq();
        let piece = self.piece_on(from).unwrap();
        if (self.state.check_squares[piece.piece_type().index()] & square_bb(to)) != 0 {
            return true;
        }
        if (self.state.blockers_for_king[them.index()] & square_bb(from)) != 0
            && (line_bb(from, to) & square_bb(self.king_square(them))) == 0 {
            return true;
        }
        match piece.piece_type() {
            PieceType::Pawn => {
                if m.is_en_passant() {
                    let offset: i8 = if us == Color::White { -8 } else { 8 };
                    let captured_sq = Square::from_index((to.index() as i8 + offset) as usize);
                    let occupied = (self.pieces() ^ square_bb(from) ^ square_bb(captured_sq)) | square_bb(to);
                    let ksq = self.king_square(them);
                    return ((rook_attacks_bb(ksq, occupied) & (self.pieces_cp(us, PieceType::Rook) | self.pieces_cp(us, PieceType::Queen)))
                        | (bishop_attacks_bb(ksq, occupied) & (self.pieces_cp(us, PieceType::Bishop) | self.pieces_cp(us, PieceType::Queen)))) != 0;
                }
                if m.is_promotion() {
                    let promo_type = m.promotion_type().unwrap();
                    let occupied = (self.pieces() ^ square_bb(from)) | square_bb(to);
                    return (attacks_bb(promo_type, to, occupied) & square_bb(self.king_square(them))) != 0;
                }
            },
            PieceType::King => {
                if m.is_castle() {
                    let rook_from = to;
                    let ks = to.file().index() > from.file().index();
                    let rook_to = if ks { Square::from_index(from.index() + 1) } else { Square::from_index(from.index() - 1) };
                    let king_to = if ks { Square::from_index(from.index() + 2) } else { Square::from_index(from.index() - 2) };
                    let occupied = (self.pieces() ^ square_bb(from) ^ square_bb(rook_from)) | square_bb(king_to) | square_bb(rook_to);
                    return (rook_attacks_bb(rook_to, occupied) & square_bb(self.king_square(them))) != 0;
                }
            },
            _ => {},
        }
        false
    }

    /// Whether the move `m`, produced by the move generator, is legal.
    pub fn is_legal(&self, m: Move) -> (r: bool)
        requires
            is_legal_ok(self@, m),
        ensures
            r == is_legal_spec(self@, m),
    {
        let ghost v = self@;
        let us = self.side_to_move;
        let them = us.flip();
        let from = m.from_sq();
        let to = m.to_sq();
        if m.is_en_passant() {
            let ksq = self.king_square(us);
            let offset: i8 = if us == Color::White { -8 } else { 8 };
            let captured_sq = Square::from_index((to.index() as i8 + offset) as usize);
            let occupied = (self.pieces() ^ square_bb(from) ^ square_bb(captured_sq)) | square_bb(to);
            return ((rook_attacks_bb(ksq, occupied) & (self.pieces_cp(them, PieceType::Rook) | self.pieces_cp(them, PieceType::Queen)))
                | (bishop_attacks_bb(ksq, occupied) & (self.pieces_cp(them, PieceType::Bishop) | self.pieces_cp(them, PieceType::Queen)))) == 0;
        }
        if m.is_castle() {
            let ks = to.file().index() > from.file().index();
            let end: i8 = if ks { from.index() as i8 + 2 } else { from.index() as i8 - 2 };
            let step: i8 = if ks { 1 } else { -1 };
            let mut sq: i8 = from.index() as i8;
            let occ = self.pieces();
            while sq != end
                invariant
                    self@ == v,
                    occ == occupied(v.board),
                    them == flip(v.side_to_move),
                    0 <= sq < 64,
                    0 <= end < 64,
                    end == castle_king_to(m),
                    from as int == mv_from(m),
                    mv_kind(m) == 3,
                    step == 1 ==> from as int <= sq <= end,
                    step == -1 ==> end <= sq <= from as int,
                    step == 1 <==> (end > from as int),
                    step == 1 || step == -1,
                    forall|s: int| min_int(from as int, sq as int) <= s <= max_int(from as int, sq as int) && s != sq ==> #[trigger] attackers_spec(v.board, s, occ) & pieces_of(v.board, them) == 0,
                decreases (if step == 1 { end - sq } else { sq - end }),
            {
                let test_sq = Square::from_index(sq as usize);
                if (self.attackers_to(test_sq, occ) & self.pieces_c(them)) != 0 {
                    proof {
                        assert(min_int(from as int, end as int) <= sq as int <= max_int(from as int, end as int));
                        assert(!(attackers_spec(v.board, sq as int, occ) & pieces_of(v.board, them) == 0));
                    }
                    return false;
                }
                sq = sq + step;
            }
            if (self.attackers_to(Square::from_index(end as usize), occ) & self.pieces_c(them)) != 0 {
                proof {
                    assert(!(attackers_spec(v.board, end as int, occ) & pieces_of(v.board, them) == 0));
                }
                return false;
            }
            proof {
                assert forall|s: int| min_int(from as int, end as int) <= s <= max_int(from as int, end as int) implies #[trigger] attackers_spec(v.board, s, occ) & pieces_of(v.board, them) == 0 by {
                    if s != sq {
                    }
                }
            }
            return true;
        }
        if self.piece_on(from).unwrap().piece_type() == PieceType::King {
            let occupied = self.pieces() ^ square_bb(from);
            return (self.attackers_to(to, occupied) & self.pieces_c(them)) == 0;
        }
        if (self.state.blockers_for_king[us.index()] & square_bb(from)) != 0 {
            return (line_bb(from, self.king_square(us)) & square_bb(to)) != 0;
        }
        true
    }
}

/// How many of the first `n` saved states, newest first, that had the same side
/// to move as now (2, 4, 6, ... plies back) carry the key `key`.
pub open spec fn rep_count(h: Seq<StateInfo>, key: u64, n: int) -> nat
    decreases n,
{
    if n <= 0 {
        0
    } else {
        let i = n - 1;
        rep_count(h, key, n - 1) + (if i % 2 == 1 && h[h.len() - 1 - i].key == key { 1nat } else { 0nat })
    }
}

/// The position repeats for the third time within the reversible moves.
pub open spec fn is_repetition_spec(v: PositionView) -> bool {
    let lookback = min_int(v.state.rule50 as int, v.history.len() as int);
    rep_count(v.history, v.state.key, lookback) >= 2
}

impl Position {
    /// Whether the current key occurred at least twice before among the
    /// positions with the same side to move since the last irreversible move.
    pub fn is_repetition(&self) -> (r: bool)
        ensures
            r == is_repetition_spec(self@),
    {
        let current_key = self.state.key;
        let mut count: u32 = 1;
        let len = self.state_history.len();
        let max_lookback: usize = if (self.state.rule50 as usize) < len { self.state.rule50 as usize } else { len };
        let mut i: u64 = 1;
        proof {
            assert(rep_count(self@.history, current_key, 0) == 0);
            assert(rep_count(self@.history, current_key, 1) == 0);
        }
        while i < max_lookback as u64
            invariant
                1 <= i <= max_lookback + 1,
                i % 2 == 1,
                max_lookback <= len,
                max_lookback <= u32::MAX,
                len == self@.history.len(),
                current_key == self@.state.key,
                max_lookback as int == min_int(self@.state.rule50 as int, len as int),
                count == 1 + rep_count(self@.history, current_key, i as int),
                count < 3,
            decreases max_lookback + 1 - i,
        {
            let idx = len - 1 - (i as usize);
            proof {
                assert(rep_count(self@.history, current_key, i as int + 1) == rep_count(self@.history, current_key, i as int)
                    + (if self@.history[len - 1 - i].key == current_key { 1nat } else { 0nat }));
                assert(rep_count(self@.history, current_key, i as int + 2) == rep_count(self@.history, current_key, i as int + 1));
            }
            if self.state_history[idx].key == current_key {
                count = count + 1;
                if count >= 3 {
                    proof {
                        lemma_rep_mono(self@.history, current_key, i as int + 1, max_lookback as int);
                    }
                    return true;
                }
            }
            i = i + 2;
        }
        proof {
            if i > max_lookback {
                assert(rep_count(self@.history, current_key, i as int) == rep_count(self@.history, current_key, max_lookback as int)) by {
                    assert(i == max_lookback + 1);
                    assert((i - 1) % 2 == 0);
                }
            }
        }
        false
    }
}

proof fn lemma_rep_mono(h: Seq<StateInfo>, key: u64, a: int, b: int)
    requires
        a <= b,
    ensures
        rep_count(h, key, a) <= rep_count(h, key, b),
    decreases b - a,
{
    if a < b {
        lemma_rep_mono(h, key, a, b - 1);
    }
}


/// Setting square `i` changes the count of `p` by what left and what came.
proof fn lemma_count_update(s: Seq<Option<Piece>>, i: int, x: Option<Piece>, p: Piece, n: int)
    requires
        0 <= i < s.len(),
        n <= s.len(),
    ensures
        count_in(s.update(i, x), p, n) + (if i < n && s[i] == Some(p) { 1int } else { 0int }) == count_in(s, p, n)
            + (if i < n && x == Some(p) { 1int } else { 0int }),
    decreases n,
{
    if n > 0 {
        lemma_count_update(s, i, x, p, n - 1);
    }
}

proof fn lemma_count_bounds(s: Seq<Option<Piece>>, p: Piece, n: int)
    requires
        0 <= n <= s.len(),
    ensures
        count_in(s, p, n) <= n,
    decreases n,
{
    if n > 0 {
        lemma_count_bounds(s, p, n - 1);
    }
}

proof fn lemma_count_pos(s: Seq<Option<Piece>>, p: Piece, i: int, n: int)
    requires
        0 <= i < n <= s.len(),
        s[i] == Some(p),
    ensures
        count_in(s, p, n) >= 1,
    decreases n,
{
    if n - 1 > i {
        lemma_count_pos(s, p, i, n - 1);
    }
}

/// In a consistent board a present piece is counted, and every count is at most 64.
pub proof fn lemma_wf_counts(b: BoardView, sq: int)
    requires
        board_wf(b),
        0 <= sq < 64,
    ensures
        remove_ok(b, sq),
        forall|p: Piece| #[trigger] put_ok(b, p),
{
    if b.squares[sq] is Some {
        let p = b.squares[sq]->Some_0;
        lemma_count_pos(b.squares, p, sq, 64);
    }
    assert forall|p: Piece| #[trigger] put_ok(b, p) by {
        lemma_count_bounds(b.squares, p, 64);
    }
}

proof fn lemma_bit_or_single(x: u64, s: u64, i: u64)
    requires
        s < 64,
        i < 64,
    ensures
        bit(x | (1u64 << s), i) == (bit(x, i) || i == s),
        bit(x ^ (1u64 << s), i) == (bit(x, i) != (i == s)),
{
    lemma_bit_or(x, 1u64 << s, i);
    lemma_bit_xor(x, 1u64 << s, i);
    lemma_bit_single(s, i);
}

proof fn lemma_bit_xor_two(x: u64, a: u64, b: u64, i: u64)
    requires
        a < 64,
        b < 64,
        i < 64,
    ensures
        bit(x ^ ((1u64 << a) | (1u64 << b)), i) == (bit(x, i) != (i == a || i == b)),
{
    lemma_bit_xor(x, (1u64 << a) | (1u64 << b), i);
    lemma_bit_or(1u64 << a, 1u64 << b, i);
    lemma_bit_single(a, i);
    lemma_bit_single(b, i);
}

/// Putting a piece on an empty square keeps the board consistent.
pub proof fn lemma_put_wf(b: BoardView, p: Piece, sq: int)
    requires
        board_wf(b),
        0 <= sq < 64,
        b.squares[sq] is None,
    ensures
        board_wf(put_spec(b, p, sq)),
{
    let b2 = put_spec(b, p, sq);
    let t = pt_num(piece_pt(p));
    let c = piece_color(p) as int;
    assert forall|s: int, tt: int| 0 <= s < 64 && 1 <= tt <= 6 implies (#[trigger] has(b2.by_type[tt], s) <==> (
    b2.squares[s] matches Some(q) && pt_num(piece_pt(q)) == tt)) by {
        lemma_bit_or_single(b.by_type[tt], sq as u64, s as u64);
        assert(has(b.by_type[tt], s) <==> (b.squares[s] matches Some(q) && pt_num(piece_pt(q)) == tt));
    }
    assert forall|s: int, cc: int| 0 <= s < 64 && 0 <= cc < 2 implies (#[trigger] has(b2.by_color[cc], s) <==> (
    b2.squares[s] matches Some(q) && piece_color(q) as int == cc)) by {
        lemma_bit_or_single(b.by_color[cc], sq as u64, s as u64);
        assert(has(b.by_color[cc], s) <==> (b.squares[s] matches Some(q) && piece_color(q) as int == cc));
    }
    assert forall|q: Piece| #[trigger] b2.piece_count[piece_num(q)] == count_in(b2.squares, q, 64) by {
        lemma_count_update(b.squares, sq, Some(p), q, 64);
        lemma_count_bounds(b.squares, q, 64);
        assert(b.piece_count[piece_num(q)] == count_in(b.squares, q, 64));
        assert(piece_num(q) == piece_num(p) <==> q == p);
    }
}

/// Taking a piece off keeps the board consistent.
pub proof fn lemma_remove_wf(b: BoardView, sq: int)
    requires
        board_wf(b),
        0 <= sq < 64,
    ensures
        board_wf(remove_spec(b, sq)),
        remove_spec(b, sq).squares == b.squares.update(sq, None),
{
    if b.squares[sq] is None {
        assert(b.squares.update(sq, None) =~= b.squares);
    } else {
        let p = b.squares[sq]->Some_0;
        let b2 = remove_spec(b, sq);
        lemma_count_pos(b.squares, p, sq, 64);
        assert forall|s: int, tt: int| 0 <= s < 64 && 1 <= tt <= 6 implies (#[trigger] has(b2.by_type[tt], s) <==> (
        b2.squares[s] matches Some(q) && pt_num(piece_pt(q)) == tt)) by {
            lemma_bit_or_single(b.by_type[tt], sq as u64, s as u64);
            assert(has(b.by_type[tt], s) <==> (b.squares[s] matches Some(q) && pt_num(piece_pt(q)) == tt));
            assert(has(b.by_type[tt], sq) <==> (b.squares[sq] matches Some(q) && pt_num(piece_pt(q)) == tt));
        }
        assert forall|s: int, cc: int| 0 <= s < 64 && 0 <= cc < 2 implies (#[trigger] has(b2.by_color[cc], s) <==> (
        b2.squares[s] matches Some(q) && piece_color(q) as int == cc)) by {
            lemma_bit_or_single(b.by_color[cc], sq as u64, s as u64);
            assert(has(b.by_color[cc], s) <==> (b.squares[s] matches Some(q) && piece_color(q) as int == cc));
            assert(has(b.by_color[cc], sq) <==> (b.squares[sq] matches Some(q) && piece_color(q) as int == cc));
        }
        assert forall|q: Piece| #[trigger] b2.piece_count[piece_num(q)] == count_in(b2.squares, q, 64) by {
            lemma_count_update(b.squares, sq, None, q, 64);
            assert(b.piece_count[piece_num(q)] == count_in(b.squares, q, 64));
            assert(piece_num(q) == piece_num(p) <==> q == p);
        }
    }
}

/// Moving a piece to an empty square keeps the board consistent.
pub proof fn lemma_move_wf(b: BoardView, from: int, to: int)
    requires
        board_wf(b),
        0 <= from < 64,
        0 <= to < 64,
        from != to,
        b.squares[from] is Some,
        b.squares[to] is None,
    ensures
        board_wf(move_spec(b, from, to)),
        move_spec(b, from, to).squares == b.squares.update(from, None).update(to, b.squares[from]),
{
    let p = b.squares[from]->Some_0;
    let b2 = move_spec(b, from, to);
    assert forall|s: int, tt: int| 0 <= s < 64 && 1 <= tt <= 6 implies (#[trigger] has(b2.by_type[tt], s) <==> (
    b2.squares[s] matches Some(q) && pt_num(piece_pt(q)) == tt)) by {
        lemma_bit_xor_two(b.by_type[tt], from as u64, to as u64, s as u64);
        assert(has(b.by_type[tt], s) <==> (b.squares[s] matches Some(q) && pt_num(piece_pt(q)) == tt));
        assert(has(b.by_type[tt], from) <==> (b.squares[from] matches Some(q) && pt_num(piece_pt(q)) == tt));
        assert(has(b.by_type[tt], to) <==> (b.squares[to] matches Some(q) && pt_num(piece_pt(q)) == tt));
    }
    assert forall|s: int, cc: int| 0 <= s < 64 && 0 <= cc < 2 implies (#[trigger] has(b2.by_color[cc], s) <==> (
    b2.squares[s] matches Some(q) && piece_color(q) as int == cc)) by {
        lemma_bit_xor_two(b.by_color[cc], from as u64, to as u64, s as u64);
        assert(has(b.by_color[cc], s) <==> (b.squares[s] matches Some(q) && piece_color(q) as int == cc));
        assert(has(b.by_color[cc], from) <==> (b.squares[from] matches Some(q) && piece_color(q) as int == cc));
        assert(has(b.by_color[cc], to) <==> (b.squares[to] matches Some(q) && piece_color(q) as int == cc));
    }
    assert forall|q: Piece| #[trigger] b2.piece_count[piece_num(q)] == count_in(b2.squares, q, 64) by {
        let s1 = b.squares.update(from, None);
        lemma_count_update(b.squares, from, None, q, 64);
        lemma_count_update(s1, to, Some(p), q, 64);
        assert(b.piece_count[piece_num(q)] == count_in(b.squares, q, 64));
    }
}

/// Two consistent boards with the same pieces on the same squares are equal.
pub proof fn lemma_wf_unique(b1: BoardView, b2: BoardView)
    requires
        board_wf(b1),
        board_wf(b2),
        b1.squares == b2.squares,
    ensures
        b1 == b2,
{
    assert forall|t: int| 0 <= t < 7 implies #[trigger] b1.by_type[t] == b2.by_type[t] by {
        if t > 0 {
            assert forall|i: u64| i < 64 implies #[trigger] bit(b1.by_type[t], i) == bit(b2.by_type[t], i) by {
                assert(has(b1.by_type[t], i as int) == has(b2.by_type[t], i as int));
            }
            lemma_bits_ext(b1.by_type[t], b2.by_type[t]);
        }
    }
    assert forall|c: int| 0 <= c < 2 implies #[trigger] b1.by_color[c] == b2.by_color[c] by {
        assert forall|i: u64| i < 64 implies #[trigger] bit(b1.by_color[c], i) == bit(b2.by_color[c], i) by {
            assert(has(b1.by_color[c], i as int) == has(b2.by_color[c], i as int));
        }
        lemma_bits_ext(b1.by_color[c], b2.by_color[c]);
    }
    assert forall|n: int| 0 <= n < 16 implies #[trigger] b1.piece_count[n] == b2.piece_count[n] by {
        if n != 6 && n != 7 && n != 14 && n != 15 {
            let p = piece_from_num(n);
            assert(piece_num(p) == n);
            assert(b1.piece_count[piece_num(p)] == count_in(b1.squares, p, 64));
            assert(b2.piece_count[piece_num(p)] == count_in(b2.squares, p, 64));
        }
    }
    assert(b1.by_type =~= b2.by_type);
    assert(b1.by_color =~= b2.by_color);
    assert(b1.piece_count =~= b2.piece_count);
}


/// A castling that taking back undoes: the king and the rook of `us` stand on
/// the move's squares, and the squares they land on are empty or left by them.
pub open spec fn castle_reversible(b: BoardView, us: Color, m: Move) -> bool {
    let from = mv_from(m);
    let to = mv_to(m);
    let kt = castle_king_to(m);
    let rt = castle_rook_to(m);
    &&& b.squares[from] == Some(piece_of(us, PieceType::King))
    &&& b.squares[to] == Some(piece_of(us, PieceType::Rook))
    &&& (b.squares[kt] is None || kt == from || kt == to)
    &&& (b.squares[rt] is None || rt == from || rt == to)
}

/// The moves a board can take back exactly: any normal move; a castling of
/// the mover's king and rook onto free squares; an en-passant capture onto an
/// empty square; a promotion of a pawn of the mover to another square. Every
/// legal move of a consistent position is one of these.
pub open spec fn reversible_move(b: BoardView, us: Color, m: Move) -> bool {
    &&& mv_kind(m) == 3 ==> castle_reversible(b, us, m)
    &&& mv_kind(m) == 2 ==> b.squares[mv_to(m)] is None
    &&& mv_kind(m) == 1 ==> b.squares[mv_from(m)] == Some(piece_of(us, PieceType::Pawn)) && mv_from(m) != mv_to(m)
}

pub proof fn lemma_move_fields(m: Move)
    ensures
        0 <= mv_from(m) < 64,
        0 <= mv_to(m) < 64,
        0 <= mv_kind(m) < 4,
        0 <= mv_promo_code(m) < 4,
{
    crate::types::lemma_move_kind(m);
}

proof fn lemma_castle_round_trip(b: BoardView, us: Color, m: Move)
    requires
        board_wf(b),
        0 <= mv_from(m) < 64,
        0 <= mv_to(m) < 64,
        mv_kind(m) == 3,
        board_after_ok(b, us, m),
        castle_reversible(b, us, m),
    ensures
        board_wf(board_after(b, us, m)),
        board_before_ok(board_after(b, us, m), us, m, captured_by(b, us, m)),
        board_before(board_after(b, us, m), us, m, captured_by(b, us, m)) == b,
{
    reveal(board_after);
    reveal(board_after_ok);
    reveal(board_before);
    reveal(board_before_ok);
    let from = mv_from(m);
    let to = mv_to(m);
    let p = b.squares[from]->Some_0;
    let cap = captured_by(b, us, m);
    let a = board_after(b, us, m);
    let kt = castle_king_to(m);
    let rt = castle_rook_to(m);
    let king = piece_of(us, PieceType::King);
    let rook = piece_of(us, PieceType::Rook);
    assert(from != to);
    let b1 = remove_spec(b, from);
    lemma_remove_wf(b, from);
    let b2 = remove_spec(b1, to);
    lemma_remove_wf(b1, to);
    let b3 = put_spec(b2, p, kt);
    lemma_put_wf(b2, p, kt);
    lemma_put_wf(b3, rook, rt);
    let c1 = remove_spec(a, kt);
    lemma_wf_counts(a, kt);
    lemma_remove_wf(a, kt);
    let c2 = remove_spec(c1, rt);
    lemma_wf_counts(c1, rt);
    lemma_remove_wf(c1, rt);
    let c3 = put_spec(c2, king, from);
    lemma_wf_counts(c2, from);
    lemma_put_wf(c2, king, from);
    lemma_wf_counts(c3, to);
    lemma_put_wf(c3, rook, to);
    assert(board_before(a, us, m, cap).squares =~= b.squares);
    lemma_wf_unique(board_before(a, us, m, cap), b);
}

/// Playing a reversible move on a consistent board keeps it consistent, and
/// taking it back restores the board.
#[verifier::spinoff_prover]
#[verifier::rlimit(50)]
pub proof fn lemma_board_round_trip(b: BoardView, us: Color, m: Move)
    requires
        board_wf(b),
        b.squares[mv_from(m)] is Some,
        board_after_ok(b, us, m),
        reversible_move(b, us, m),
    ensures
        board_wf(board_after(b, us, m)),
        board_before_ok(board_after(b, us, m), us, m, captured_by(b, us, m)),
        board_before(board_after(b, us, m), us, m, captured_by(b, us, m)) == b,
{
    reveal(board_after);
    reveal(board_after_ok);
    reveal(board_before);
    reveal(board_before_ok);
    lemma_move_fields(m);
    let from = mv_from(m);
    let to = mv_to(m);
    let p = b.squares[from]->Some_0;
    let cap = captured_by(b, us, m);
    let a = board_after(b, us, m);
    if mv_kind(m) == 3 {
        lemma_castle_round_trip(b, us, m);
    } else if mv_kind(m) == 2 {
        let vs = ep_victim_sq(us, to);
        let b1 = remove_spec(b, vs);
        lemma_remove_wf(b, vs);
        lemma_move_wf(b1, from, to);
        let c1 = move_spec(a, to, from);
        lemma_move_wf(a, to, from);
        lemma_wf_counts(c1, vs);
        lemma_put_wf(c1, cap->Some_0, vs);
        assert(board_before(a, us, m, cap).squares =~= b.squares);
        lemma_wf_unique(board_before(a, us, m, cap), b);
    } else if mv_kind(m) == 1 {
        let b1 = remove_spec(b, from);
        lemma_remove_wf(b, from);
        let b2 = if b.squares[to] is Some { remove_spec(b1, to) } else { b1 };
        lemma_remove_wf(b1, to);
        lemma_put_wf(b2, promo_piece(us, m), to);
        lemma_wf_counts(a, to);
        let c1 = remove_spec(a, to);
        lemma_remove_wf(a, to);
        lemma_wf_counts(c1, from);
        let c2 = put_spec(c1, piece_of(us, PieceType::Pawn), from);
        lemma_put_wf(c1, piece_of(us, PieceType::Pawn), from);
        lemma_wf_counts(c2, to);
        if cap is Some {
            lemma_put_wf(c2, cap->Some_0, to);
        }
        assert(board_before(a, us, m, cap).squares =~= b.squares);
        lemma_wf_unique(board_before(a, us, m, cap), b);
    } else {
        let b1 = if b.squares[to] is Some { remove_spec(b, to) } else { b };
        lemma_remove_wf(b, to);
        lemma_move_wf(b1, from, to);
        let c1 = move_spec(a, to, from);
        lemma_move_wf(a, to, from);
        lemma_wf_counts(c1, to);
        if cap is Some {
            lemma_put_wf(c1, cap->Some_0, to);
        }
        assert(board_before(a, us, m, cap).squares =~= b.squares);
        lemma_wf_unique(board_before(a, us, m, cap), b);
    }
}

/// Taking back a move just made restores the position: the pieces, the side to
/// move, the saved state and the history. This holds for the moves of
/// `reversible_move`, which leaves out only moves that put a piece on an
/// occupied square or promote something other than the mover's pawn.
pub proof fn lemma_undo_after_do(v: PositionView, m: Move)
    requires
        wf(v),
        do_move_ok(v, m),
        reversible_move(v.board, v.side_to_move, m),
    ensures
        wf(do_move_spec(v, m)),
        undo_move_ok(do_move_spec(v, m), m),
        undo_move_spec(do_move_spec(v, m), m) == v,
{
    reveal(check_info_spec);
    lemma_board_round_trip(v.board, v.side_to_move, m);
    let w = do_move_spec(v, m);
    assert(flip(w.side_to_move) == v.side_to_move);
    assert(w.history.drop_last() =~= v.history);
    assert(undo_move_spec(w, m) =~= v);
}

/// The key contribution of what stands on square `s`.
pub open spec fn square_key(x: Option<Piece>, s: int) -> u64 {
    match x {
        Some(p) => piece_key_spec(piece_num(p), s),
        None => 0,
    }
}

proof fn lemma_xor_basics(a: u64, b: u64, c: u64)
    by (bit_vector)
    ensures
        a ^ 0 == a,
        0u64 ^ a == a,
        a ^ a == 0,
        (a ^ b) ^ b == a,
        (a ^ b) ^ c == a ^ (b ^ c),
        (a ^ b) ^ c == (a ^ c) ^ b,
{
}

proof fn lemma_xor_shuffle(a: u64, b: u64, c: u64, d: u64)
    by (bit_vector)
    ensures
        ((a ^ b) ^ c) ^ d == ((a ^ d) ^ b) ^ c,
        ((a ^ b) ^ c) ^ d == a ^ ((b ^ c) ^ d),
{
}

proof fn lemma_xor_shuffle5(x: u64, a: u64, b: u64, c: u64, d: u64)
    by (bit_vector)
    ensures
        (((x ^ a) ^ b) ^ c) ^ d == x ^ (((a ^ b) ^ c) ^ d),
{
}

proof fn lemma_key_identity(
    k0: u64,
    bk: u64,
    e0: u64,
    c0: u64,
    s0: u64,
    c2: u64,
    d: u64,
    e1: u64,
    sk: u64,
    ba: u64,
    s1: u64,
)
    by (bit_vector)
    requires
        k0 == ((bk ^ e0) ^ c0) ^ s0,
        ba == bk ^ d,
        s1 == s0 ^ sk,
    ensures
        (((((k0 ^ e0) ^ c0) ^ c2) ^ d) ^ e1) ^ sk == ((ba ^ e1) ^ c2) ^ s1,
{
}

proof fn lemma_board_key_step(board: Seq<Option<Piece>>, n: int)
    requires
        n > 0,
    ensures
        board_key(board, n) == board_key(board, n - 1) ^ square_key(board[n - 1], n - 1),
{
    lemma_xor_basics(board_key(board, n - 1), 0, 0);
}

/// Changing what stands on one square changes the board key by the old and
/// the new contribution of that square.
proof fn lemma_board_key_update(board: Seq<Option<Piece>>, sq: int, x: Option<Piece>, n: int)
    requires
        0 <= sq < board.len(),
        0 <= n <= board.len(),
    ensures
        board_key(board.update(sq, x), n) == if sq < n {
            (board_key(board, n) ^ square_key(board[sq], sq)) ^ square_key(x, sq)
        } else {
            board_key(board, n)
        },
    decreases n,
{
    let b2 = board.update(sq, x);
    if n > 0 {
        lemma_board_key_update(board, sq, x, n - 1);
        lemma_board_key_step(board, n);
        lemma_board_key_step(b2, n);
        let k = board_key(board, n - 1);
        let o = square_key(board[sq], sq);
        let w = square_key(x, sq);
        if sq < n - 1 {
            let t = square_key(board[n - 1], n - 1);
            assert(b2[n - 1] == board[n - 1]);
            lemma_xor_shuffle(k, o, w, t);
        } else if sq == n - 1 {
            lemma_xor_basics(k, o, w);
        }
    }
}

proof fn lemma_key_normal(b: BoardView, us: Color, m: Move) -> (d: u64)
    requires
        board_wf(b),
        0 <= mv_from(m) < 64,
        0 <= mv_to(m) < 64,
        mv_kind(m) == 0,
        b.squares[mv_from(m)] is Some,
        board_after_ok(b, us, m),
    ensures
        board_key(board_after(b, us, m).squares, 64) == board_key(b.squares, 64) ^ d,
        forall|k: u64| #[trigger] key_after_board(b, us, m, k) == k ^ d,
{
    reveal(board_after);
    reveal(board_after_ok);
    reveal(key_after_board);
    let from = mv_from(m);
    let to = mv_to(m);
    let p = b.squares[from]->Some_0;
    let pn = piece_num(p);
    let bk = board_key(b.squares, 64);
    let kc = square_key(b.squares[to], to);
    let kf = piece_key_spec(pn, from);
    let kt = piece_key_spec(pn, to);
    let b1 = if b.squares[to] is Some { remove_spec(b, to) } else { b };
    lemma_board_key_update(b.squares, to, None, 64);
    lemma_xor_basics(bk, 0, 0);
    lemma_xor_basics(bk ^ kc, 0, 0);
    assert(board_key(b1.squares, 64) == bk ^ kc);
    assert(b1.squares[from] == Some(p));
    assert(b1.squares[to] is None);
    let s1 = b1.squares.update(from, None);
    lemma_board_key_update(b1.squares, from, None, 64);
    lemma_board_key_update(s1, to, Some(p), 64);
    lemma_xor_basics(bk ^ kc, kf, 0);
    lemma_xor_basics((bk ^ kc) ^ kf, 0, 0);
    assert(board_after(b, us, m).squares == s1.update(to, Some(p)));
    lemma_xor_shuffle(bk, kc, kf, kt);
    let d = (kc ^ kf) ^ kt;
    assert forall|k: u64| #[trigger] key_after_board(b, us, m, k) == k ^ d by {
        lemma_xor_shuffle(k, kc, kf, kt);
        lemma_xor_basics(k, 0, 0);
    }
    d
}

proof fn lemma_key_ep(b: BoardView, us: Color, m: Move) -> (d: u64)
    requires
        board_wf(b),
        0 <= mv_from(m) < 64,
        0 <= mv_to(m) < 64,
        mv_kind(m) == 2,
        b.squares[mv_from(m)] is Some,
        b.squares[mv_to(m)] is None,
        board_after_ok(b, us, m),
    ensures
        board_key(board_after(b, us, m).squares, 64) == board_key(b.squares, 64) ^ d,
        forall|k: u64| #[trigger] key_after_board(b, us, m, k) == k ^ d,
{
    reveal(board_after);
    reveal(board_after_ok);
    reveal(key_after_board);
    let from = mv_from(m);
    let to = mv_to(m);
    let p = b.squares[from]->Some_0;
    let pn = piece_num(p);
    let bk = board_key(b.squares, 64);
    let vs = ep_victim_sq(us, to);
    let victim = b.squares[vs]->Some_0;
    let b1 = remove_spec(b, vs);
    let kv = piece_key_spec(piece_num(victim), vs);
    let kf = piece_key_spec(pn, from);
    let kt = piece_key_spec(pn, to);
    lemma_board_key_update(b.squares, vs, None, 64);
    lemma_xor_basics(bk ^ kv, 0, 0);
    assert(board_key(b1.squares, 64) == bk ^ kv);
    assert(b1.squares[from] == Some(p));
    assert(b1.squares[to] is None);
    let s1 = b1.squares.update(from, None);
    lemma_board_key_update(b1.squares, from, None, 64);
    lemma_board_key_update(s1, to, Some(p), 64);
    lemma_xor_basics(bk ^ kv, kf, 0);
    lemma_xor_basics((bk ^ kv) ^ kf, 0, 0);
    assert(board_after(b, us, m).squares == s1.update(to, Some(p)));
    lemma_xor_shuffle(bk, kv, kf, kt);
    let d = (kv ^ kf) ^ kt;
    assert forall|k: u64| #[trigger] key_after_board(b, us, m, k) == k ^ d by {
        lemma_xor_shuffle(k, kv, kf, kt);
    }
    d
}

proof fn lemma_key_promo(b: BoardView, us: Color, m: Move) -> (d: u64)
    requires
        board_wf(b),
        0 <= mv_from(m) < 64,
        0 <= mv_to(m) < 64,
        mv_kind(m) == 1,
        mv_from(m) != mv_to(m),
        b.squares[mv_from(m)] is Some,
        board_after_ok(b, us, m),
    ensures
        board_key(board_after(b, us, m).squares, 64) == board_key(b.squares, 64) ^ d,
        forall|k: u64| #[trigger] key_after_board(b, us, m, k) == k ^ d,
{
    reveal(board_after);
    reveal(board_after_ok);
    reveal(key_after_board);
    let from = mv_from(m);
    let to = mv_to(m);
    let p = b.squares[from]->Some_0;
    let pn = piece_num(p);
    let bk = board_key(b.squares, 64);
    let b1 = remove_spec(b, from);
    let kf = piece_key_spec(pn, from);
    let kc = square_key(b.squares[to], to);
    let pp = promo_piece(us, m);
    let kp = piece_key_spec(piece_num(pp), to);
    lemma_board_key_update(b.squares, from, None, 64);
    lemma_xor_basics(bk ^ kf, 0, 0);
    assert(board_key(b1.squares, 64) == bk ^ kf);
    assert(b1.squares[to] == b.squares[to]);
    let b2 = if b.squares[to] is Some { remove_spec(b1, to) } else { b1 };
    lemma_board_key_update(b1.squares, to, None, 64);
    lemma_xor_basics((bk ^ kf) ^ kc, 0, 0);
    lemma_xor_basics(bk ^ kf, 0, 0);
    assert(board_key(b2.squares, 64) == (bk ^ kf) ^ kc);
    assert(b2.squares[to] is None);
    lemma_board_key_update(b2.squares, to, Some(pp), 64);
    lemma_xor_basics((bk ^ kf) ^ kc, 0, 0);
    lemma_xor_shuffle(bk, kf, kc, kp);
    let d = (kf ^ kc) ^ kp;
    assert forall|k: u64| #[trigger] key_after_board(b, us, m, k) == k ^ d by {
        lemma_xor_shuffle(k, kf, kc, kp);
        lemma_xor_basics(k ^ kf, 0, 0);
    }
    d
}

proof fn lemma_key_castle(b: BoardView, us: Color, m: Move) -> (d: u64)
    requires
        board_wf(b),
        0 <= mv_from(m) < 64,
        0 <= mv_to(m) < 64,
        mv_kind(m) == 3,
        board_after_ok(b, us, m),
        castle_reversible(b, us, m),
    ensures
        board_key(board_after(b, us, m).squares, 64) == board_key(b.squares, 64) ^ d,
        forall|k: u64| #[trigger] key_after_board(b, us, m, k) == k ^ d,
{
    reveal(board_after);
    reveal(board_after_ok);
    reveal(key_after_board);
    let from = mv_from(m);
    let to = mv_to(m);
    let kt = castle_king_to(m);
    let rt = castle_rook_to(m);
    let p = b.squares[from]->Some_0;
    let pn = piece_num(p);
    let rook = piece_of(us, PieceType::Rook);
    let rn = piece_num(rook);
    let bk = board_key(b.squares, 64);
    let kf = piece_key_spec(pn, from);
    let kr = piece_key_spec(rn, to);
    let kk = piece_key_spec(pn, kt);
    let kq = piece_key_spec(rn, rt);
    assert(from != to);
    let b1 = remove_spec(b, from);
    lemma_board_key_update(b.squares, from, None, 64);
    lemma_xor_basics(bk ^ kf, 0, 0);
    assert(board_key(b1.squares, 64) == bk ^ kf);
    assert(b1.squares[to] == Some(rook));
    let b2 = remove_spec(b1, to);
    lemma_board_key_update(b1.squares, to, None, 64);
    lemma_xor_basics((bk ^ kf) ^ kr, 0, 0);
    assert(board_key(b2.squares, 64) == (bk ^ kf) ^ kr);
    assert(b2.squares[kt] is None);
    let b3 = put_spec(b2, p, kt);
    lemma_board_key_update(b2.squares, kt, Some(p), 64);
    lemma_xor_basics((bk ^ kf) ^ kr, 0, 0);
    assert(board_key(b3.squares, 64) == ((bk ^ kf) ^ kr) ^ kk);
    assert(b3.squares[rt] is None);
    lemma_board_key_update(b3.squares, rt, Some(rook), 64);
    lemma_xor_basics(((bk ^ kf) ^ kr) ^ kk, 0, 0);
    lemma_xor_shuffle5(bk, kf, kr, kk, kq);
    let d = ((kf ^ kr) ^ kk) ^ kq;
    assert forall|k: u64| #[trigger] key_after_board(b, us, m, k) == k ^ d by {
        lemma_xor_shuffle5(k, kf, kr, kk, kq);
    }
    d
}

/// The change of the board key that playing `m` makes: the key goes from
/// `board_key(b)` to `board_key(b) ^ d`, and the incremental key update XORs `d`.
proof fn lemma_board_key_after(b: BoardView, us: Color, m: Move) -> (d: u64)
    requires
        board_wf(b),
        b.squares[mv_from(m)] is Some,
        board_after_ok(b, us, m),
        reversible_move(b, us, m),
    ensures
        board_key(board_after(b, us, m).squares, 64) == board_key(b.squares, 64) ^ d,
        forall|k: u64| #[trigger] key_after_board(b, us, m, k) == k ^ d,
{
    lemma_move_fields(m);
    if mv_kind(m) == 3 {
        lemma_key_castle(b, us, m)
    } else if mv_kind(m) == 2 {
        lemma_key_ep(b, us, m)
    } else if mv_kind(m) == 1 {
        lemma_key_promo(b, us, m)
    } else {
        lemma_key_normal(b, us, m)
    }
}

/// Making a move keeps the key equal to the key computed from scratch: the
/// incremental update of pieces, castling rights, en-passant file and side
/// to move gives the Zobrist key of the new position.
pub proof fn lemma_key_after_move(v: PositionView, m: Move)
    requires
        wf(v),
        do_move_ok(v, m),
        reversible_move(v.board, v.side_to_move, m),
        v.state.key == key_spec(v),
    ensures
        do_move_spec(v, m).state.key == key_spec(do_move_spec(v, m)),
{
    reveal(check_info_spec);
    lemma_move_fields(m);
    let us = v.side_to_move;
    let d = lemma_board_key_after(v.board, us, m);
    let w = do_move_spec(v, m);
    let from = mv_from(m);
    let to = mv_to(m);
    let bk = board_key(v.board.squares, 64);
    let e0 = match v.state.ep_square {
        Some(ep) => enpassant_key_spec(file_of(ep as int)),
        None => 0u64,
    };
    let c0v = v.state.castling_rights;
    let c0 = castling_key_spec(c0v as int);
    let sk = side_key_spec();
    let s0 = if us == Color::Black { sk } else { 0u64 };
    let c2v = castling_after(v.board, us, c0v, v.castling_rook_sq, m);
    let c2 = castling_key_spec(c2v as int);
    let ep_sq = (from + to) / 2;
    let e1 = if double_push(v, m) { enpassant_key_spec(file_of(ep_sq)) } else { 0u64 };
    let ba = board_key(w.board.squares, 64);
    let s1 = if flip(us) == Color::Black { sk } else { 0u64 };
    let k0 = v.state.key;
    lemma_xor_basics(bk, 0, 0);
    lemma_xor_basics(bk ^ e0, 0, 0);
    lemma_xor_basics((bk ^ e0) ^ c0, 0, 0);
    assert(k0 == ((bk ^ e0) ^ c0) ^ s0);
    let k1 = match v.state.ep_square {
        Some(ep) => k0 ^ enpassant_key_spec(file_of(ep as int)),
        None => k0,
    };
    lemma_xor_basics(k0, 0, 0);
    assert(k1 == k0 ^ e0);
    let k2 = if c0v != c2v { (k1 ^ c0) ^ c2 } else { k1 };
    lemma_xor_basics(k1, c0, 0);
    assert(k2 == (k1 ^ c0) ^ c2);
    let k3 = key_after_board(v.board, us, m, k2);
    assert(k3 == k2 ^ d);
    let k4 = if double_push(v, m) { k3 ^ enpassant_key_spec(file_of(ep_sq)) } else { k3 };
    lemma_xor_basics(k3, 0, 0);
    assert(k4 == k3 ^ e1);
    assert(w.state.key == k4 ^ sk);
    lemma_xor_basics(sk, sk, 0);
    assert(s1 == s0 ^ sk);
    lemma_key_identity(k0, bk, e0, c0, s0, c2, d, e1, sk, ba, s1);
    if double_push(v, m) {
        crate::types::lemma_square_at_index(ep_sq);
    }
    lemma_xor_basics(ba, 0, 0);
    lemma_xor_basics(ba ^ e1, 0, 0);
    lemma_xor_basics((ba ^ e1) ^ c2, 0, 0);
    assert(key_spec(w) == ((ba ^ e1) ^ c2) ^ s1);
}

/// Check detection after a move: the checkers are the opponent's pieces that
/// attack the king of the side now to move, over the new board.
pub proof fn lemma_checkers_after_move(v: PositionView, m: Move)
    ensures
        ({
            let w = do_move_spec(v, m);
            w.state.checkers_bb == attackers_spec(w.board, king_sq(w.board, w.side_to_move), occupied(w.board))
                & pieces_of(w.board, flip(w.side_to_move))
        }),
{
    reveal(check_info_spec);
}

/// The halfmove clock and the en-passant square after a move: the clock
/// restarts after a pawn move or a capture (castling captures nothing) and
/// counts up by one otherwise; the en-passant square is the square a pawn's
/// double step passed over, when the move was one, and there is none
/// otherwise.
pub proof fn lemma_clock_and_ep_after_move(v: PositionView, m: Move)
    requires
        do_move_ok(v, m),
    ensures
        ({
            let w = do_move_spec(v, m);
            let from = mv_from(m);
            let to = mv_to(m);
            let pawn = piece_pt(v.board.squares[from]->Some_0) == PieceType::Pawn;
            &&& w.state.rule50 == (if pawn || (mv_kind(m) != 3 && v.board.squares[to] is Some) {
                0
            } else {
                v.state.rule50 + 1
            })
            &&& w.state.ep_square == (if pawn && (to - from == 16 || from - to == 16) {
                Some(square_at((from + to) / 2))
            } else {
                None
            })
        }),
{
    reveal(check_info_spec);
}

/// The redundant views of the pieces agree: on consistent pieces, the
/// bitboard of a colour and type holds exactly the squares with that piece,
/// the two colours share no square, and the occupied squares are exactly
/// those holding a piece.
pub proof fn lemma_board_views_agree(b: BoardView)
    requires
        board_wf(b),
    ensures
        forall|sq: int, c: Color, pt: PieceType|
            0 <= sq < 64 ==> (#[trigger] has(pieces_ct(b, c, pt), sq) <==> b.squares[sq] == Some(piece_of(c, pt))),
        pieces_of(b, Color::White) & pieces_of(b, Color::Black) == 0,
        forall|sq: int| 0 <= sq < 64 ==> (#[trigger] has(occupied(b), sq) <==> b.squares[sq] is Some),
{
    assert forall|sq: int, c: Color, pt: PieceType|
        0 <= sq < 64 implies (#[trigger] has(pieces_ct(b, c, pt), sq) <==> b.squares[sq] == Some(piece_of(c, pt))) by {
        lemma_bit_and(b.by_type[pt_num(pt)], b.by_color[c as int], sq as u64);
        assert(has(b.by_type[pt_num(pt)], sq) <==> (b.squares[sq] matches Some(p) && pt_num(piece_pt(p)) == pt_num(pt)));
        assert(has(b.by_color[c as int], sq) <==> (b.squares[sq] matches Some(p) && piece_color(p) as int == c as int));
        if b.squares[sq] is Some {
            let p = b.squares[sq]->Some_0;
            assert((piece_pt(p) == pt && piece_color(p) == c) <==> p == piece_of(c, pt)) by {
                match p {
                    Piece::WPawn => {},
                    Piece::WKnight => {},
                    Piece::WBishop => {},
                    Piece::WRook => {},
                    Piece::WQueen => {},
                    Piece::WKing => {},
                    Piece::BPawn => {},
                    Piece::BKnight => {},
                    Piece::BBishop => {},
                    Piece::BRook => {},
                    Piece::BQueen => {},
                    Piece::BKing => {},
                }
            }
        }
    }
    assert forall|i: u64| i < 64 implies #[trigger] bit(pieces_of(b, Color::White) & pieces_of(b, Color::Black), i) == bit(0u64, i) by {
        lemma_bit_and(b.by_color[0], b.by_color[1], i);
        lemma_bit_zero(i);
        assert(has(b.by_color[0], i as int) <==> (b.squares[i as int] matches Some(p) && piece_color(p) as int == 0));
        assert(has(b.by_color[1], i as int) <==> (b.squares[i as int] matches Some(p) && piece_color(p) as int == 1));
    }
    lemma_bits_ext(pieces_of(b, Color::White) & pieces_of(b, Color::Black), 0u64);
    assert forall|sq: int| 0 <= sq < 64 implies (#[trigger] has(occupied(b), sq) <==> b.squares[sq] is Some) by {
        lemma_bit_or(b.by_color[0], b.by_color[1], sq as u64);
        assert(has(b.by_color[0], sq) <==> (b.squares[sq] matches Some(p) && piece_color(p) as int == 0));
        assert(has(b.by_color[1], sq) <==> (b.squares[sq] matches Some(p) && piece_color(p) as int == 1));
    }
}

/// Facts on castling-rights bytes: masks clear bits, single flags set and test.
pub proof fn lemma_and_u8(y: u8, z: u8, w: u8)
    by (bit_vector)
    ensures
        (y & w == 0 || z & w == 0) ==> (y & z) & w == 0,
        y & !y == 0,
        (y & 1u8 != 0 || y & 2u8 != 0) ==> y & 3u8 != 0,
        (y & 4u8 != 0 || y & 8u8 != 0) ==> y & 12u8 != 0,
        ((z == 1u8 || z == 2u8 || z == 4u8 || z == 8u8) && (w == 1u8 || w == 2u8 || w == 4u8 || w == 8u8)) ==> (((y
            | z) & w != 0) == (y & w != 0 || z == w)),
        0u8 & w == 0,
        12u8 & 1u8 == 0 && 12u8 & 2u8 == 0 && 3u8 & 4u8 == 0 && 3u8 & 8u8 == 0,
        14u8 & 1u8 == 0 && 13u8 & 2u8 == 0 && 11u8 & 4u8 == 0 && 7u8 & 8u8 == 0,
{
}

/// Castling rights after a move: no move grants a right; a king move drops
/// both rights of its side; a rook moving from its side's castling rook
/// square of a wing drops that wing's right; a capture of a rook on the
/// opponent's castling rook square of a wing drops the opponent's right there.
/// (The two castling rook squares of a side are different squares.)
pub proof fn lemma_castling_rights_after_move(v: PositionView, m: Move)
    requires
        forall|c: Color, sq: int| !(#[trigger] rook_sq_is(v.castling_rook_sq, c, 0, sq) && rook_sq_is(v.castling_rook_sq, c, 1, sq)),
    ensures
        ({
            let c0 = v.state.castling_rights;
            let c = do_move_spec(v, m).state.castling_rights;
            let us = v.side_to_move;
            let them = flip(us);
            let from = mv_from(m);
            let to = mv_to(m);
            let piece = v.board.squares[from]->Some_0;
            &&& c & !c0 == 0
            &&& piece_pt(piece) == PieceType::King ==> c & castle_mask(us, true) == 0 && c & castle_mask(us, false) == 0
            &&& (piece_pt(piece) == PieceType::Rook && rook_sq_is(v.castling_rook_sq, us, 0, from)) ==> c
                & castle_mask(us, true) == 0
            &&& (piece_pt(piece) == PieceType::Rook && rook_sq_is(v.castling_rook_sq, us, 1, from)) ==> c
                & castle_mask(us, false) == 0
            &&& (v.board.squares[to] matches Some(cap) && piece_pt(cap) == PieceType::Rook && rook_sq_is(
                v.castling_rook_sq,
                them,
                0,
                to,
            )) ==> c & castle_mask(them, true) == 0
            &&& (v.board.squares[to] matches Some(cap) && piece_pt(cap) == PieceType::Rook && rook_sq_is(
                v.castling_rook_sq,
                them,
                1,
                to,
            )) ==> c & castle_mask(them, false) == 0
        }),
{
    reveal(check_info_spec);
    reveal(castling_after);
    let c0 = v.state.castling_rights;
    let us = v.side_to_move;
    let them = flip(us);
    let from = mv_from(m);
    let to = mv_to(m);
    let b = v.board;
    let piece = b.squares[from]->Some_0;
    let rooks = v.castling_rook_sq;
    let c = do_move_spec(v, m).state.castling_rights;
    assert(c == castling_after(b, us, c0, rooks, m));
    let ka: u8 = if us == Color::White { 12u8 } else { 3u8 };
    let r0: u8 = if us == Color::White { 14u8 } else { 11u8 };
    let r1: u8 = if us == Color::White { 13u8 } else { 7u8 };
    let t0: u8 = if them == Color::White { 14u8 } else { 11u8 };
    let t1: u8 = if them == Color::White { 13u8 } else { 7u8 };
    let c1 = if piece_pt(piece) == PieceType::King {
        c0 & ka
    } else if piece_pt(piece) == PieceType::Rook {
        if rook_sq_is(rooks, us, 0, from) {
            c0 & r0
        } else if rook_sq_is(rooks, us, 1, from) {
            c0 & r1
        } else {
            c0
        }
    } else {
        c0
    };
    assert(c == c1 || c == c1 & t0 || c == c1 & t1);
    let ku = castle_mask(us, true);
    let qu = castle_mask(us, false);
    let kt = castle_mask(them, true);
    let qt = castle_mask(them, false);
    lemma_and_u8(c0, c0, c0);
    assert(ka & ku == 0 && ka & qu == 0 && r0 & ku == 0 && r1 & qu == 0 && t0 & kt == 0 && t1 & qt == 0);
    // No right is granted.
    lemma_and_u8(c0, ka, !c0);
    lemma_and_u8(c0, r0, !c0);
    lemma_and_u8(c0, r1, !c0);
    lemma_and_u8(c0, !c0, !c0);
    assert(c1 & !c0 == 0);
    lemma_and_u8(c1, t0, !c0);
    lemma_and_u8(c1, t1, !c0);
    // The rights that are dropped.
    lemma_and_u8(c0, ka, ku);
    lemma_and_u8(c0, ka, qu);
    lemma_and_u8(c0, r0, ku);
    lemma_and_u8(c0, r1, qu);
    lemma_and_u8(c1, t0, ku);
    lemma_and_u8(c1, t0, qu);
    lemma_and_u8(c1, t1, ku);
    lemma_and_u8(c1, t1, qu);
    lemma_and_u8(c1, t0, kt);
    lemma_and_u8(c1, t1, qt);
    let cap_rook = b.squares[to] matches Some(cap) && piece_pt(cap) == PieceType::Rook;
    if cap_rook && rook_sq_is(rooks, them, 0, to) {
        assert(c == c1 & t0);
    } else if cap_rook && rook_sq_is(rooks, them, 1, to) {
        assert(c == c1 & t1);
    } else {
        assert(c == c1);
    }
    assert(c & !c0 == 0);
    assert(piece_pt(piece) == PieceType::King ==> c & ku == 0 && c & qu == 0);
    assert((piece_pt(piece) == PieceType::Rook && rook_sq_is(rooks, us, 0, from)) ==> c & ku == 0);
    assert((piece_pt(piece) == PieceType::Rook && rook_sq_is(rooks, us, 1, from)) ==> c & qu == 0);
}

/// What a move does to the squares. A normal move carries the piece from its
/// origin to its target (whatever stood there is taken); a promotion leaves
/// the chosen piece of the mover's colour on the target; an en-passant capture
/// carries the pawn and empties the captured pawn's square; castling puts the
/// king two squares towards the rook and the rook on the square the king
/// crossed, emptying the king's and the rook's squares. Every other square
/// keeps its piece.
pub proof fn lemma_squares_after_move(b: BoardView, us: Color, m: Move, s: int)
    requires
        b.squares.len() == 64,
        0 <= s < 64,
        b.squares[mv_from(m)] is Some,
        mv_from(m) != mv_to(m),
        mv_kind(m) == 2 ==> 0 <= ep_victim_sq(us, mv_to(m)) < 64 && ep_victim_sq(us, mv_to(m)) != mv_from(m)
            && ep_victim_sq(us, mv_to(m)) != mv_to(m),
        mv_kind(m) == 3 ==> 0 <= castle_king_to(m) < 64 && 0 <= castle_rook_to(m) < 64,
    ensures
        castle_king_to(m) == mv_from(m) + (if file_of(mv_to(m)) > file_of(mv_from(m)) { 2int } else { -2int }),
        castle_rook_to(m) == mv_from(m) + (if file_of(mv_to(m)) > file_of(mv_from(m)) { 1int } else { -1int }),
        ({
            let a = board_after(b, us, m).squares;
            let from = mv_from(m);
            let to = mv_to(m);
            &&& mv_kind(m) == 0 ==> a[s] == (if s == to {
                b.squares[from]
            } else if s == from {
                None
            } else {
                b.squares[s]
            })
            &&& mv_kind(m) == 1 ==> a[s] == (if s == to {
                Some(promo_piece(us, m))
            } else if s == from {
                None
            } else {
                b.squares[s]
            })
            &&& mv_kind(m) == 2 ==> a[s] == (if s == to {
                b.squares[from]
            } else if s == from || s == ep_victim_sq(us, to) {
                None
            } else {
                b.squares[s]
            })
            &&& mv_kind(m) == 3 ==> a[s] == (if s == castle_rook_to(m) {
                Some(piece_of(us, PieceType::Rook))
            } else if s == castle_king_to(m) {
                b.squares[from]
            } else if s == from || s == to {
                None
            } else {
                b.squares[s]
            })
        }),
{
    reveal(board_after);
    lemma_move_fields(m);
}

/// A move hands the turn to the opponent, counts one more ply, and saves the
/// state it started from on top of the history.
pub proof fn lemma_turn_after_move(v: PositionView, m: Move)
    requires
        v.state.ply < u32::MAX,
    ensures
        do_move_spec(v, m).side_to_move == flip(v.side_to_move),
        do_move_spec(v, m).state.ply == v.state.ply + 1,
        do_move_spec(v, m).history == v.history.push(v.state),
{
    reveal(check_info_spec);
}

} // verus!
