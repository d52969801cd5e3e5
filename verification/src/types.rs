//! Chess primitives: colours, piece types, pieces, squares, files, ranks,
//! castling-right flags, packed moves and search values.

use vstd::prelude::*;

verus! {

/// A bitboard: bit `i` stands for square `i` (a1 = 0, h8 = 63).
pub type Bitboard = u64;

/// A position hash.
pub type Key = u64;

pub const MAX_MOVES: usize = 256;

pub const MAX_PLY: usize = 246;

#[derive(Debug, Copy, Clone, PartialEq, Eq, Structural)]
pub enum Color {
    White,
    Black,
}

impl Color {
    /// The other colour.
    pub fn flip(self) -> (r: Color)
        ensures
            r as int == 1 - self as int,
    {
        match self {
            Color::White => Color::Black,
            Color::Black => Color::White,
        }
    }

    /// White is 0, Black is 1.
    pub fn index(self) -> (r: usize)
        ensures
            r == self as int,
            r < 2,
    {
        self as usize
    }
}

/// Piece types; their numbers run from 1 (pawn) to 6 (king).
#[derive(Debug, Copy, Clone, PartialEq, Eq, Structural)]
pub enum PieceType {
    Pawn,
    Knight,
    Bishop,
    Rook,
    Queen,
    King,
}

/// The number of a piece type: pawn 1, knight 2, bishop 3, rook 4, queen 5, king 6.
pub open spec fn pt_num(pt: PieceType) -> int {
    pt as int + 1
}

impl PieceType {
    pub fn index(self) -> (r: usize)
        ensures
            r == pt_num(self),
            1 <= r <= 6,
    {
        self as usize + 1
    }
}

/// The piece type whose number is `n` (1 to 6).
pub open spec fn pt_of_num(n: int) -> PieceType {
    if n == 1 {
        PieceType::Pawn
    } else if n == 2 {
        PieceType::Knight
    } else if n == 3 {
        PieceType::Bishop
    } else if n == 4 {
        PieceType::Rook
    } else if n == 5 {
        PieceType::Queen
    } else {
        PieceType::King
    }
}

/// Coloured pieces; the number of a piece is 8 * colour + type - 1.
#[derive(Debug, Copy, Clone, PartialEq, Eq, Structural)]
pub enum Piece {
    WPawn,
    WKnight,
    WBishop,
    WRook,
    WQueen,
    WKing,
    BPawn,
    BKnight,
    BBishop,
    BRook,
    BQueen,
    BKing,
}

/// The colour of a piece.
pub open spec fn piece_color(p: Piece) -> Color {
    if (p as int) < 6 {
        Color::White
    } else {
        Color::Black
    }
}

/// The type of a piece.
pub open spec fn piece_pt(p: Piece) -> PieceType {
    pt_of_num(p as int % 6 + 1)
}

/// The number of a piece: 0..5 for white, 8..13 for black.
pub open spec fn piece_num(p: Piece) -> int {
    8 * (piece_color(p) as int) + pt_num(piece_pt(p)) - 1
}

/// The piece of the given colour and type.
pub open spec fn piece_of(c: Color, pt: PieceType) -> Piece {
    piece_from_num(8 * (c as int) + pt_num(pt) - 1)
}

pub open spec fn piece_from_num(n: int) -> Piece {
    if n == 0 {
        Piece::WPawn
    } else if n == 1 {
        Piece::WKnight
    } else if n == 2 {
        Piece::WBishop
    } else if n == 3 {
        Piece::WRook
    } else if n == 4 {
        Piece::WQueen
    } else if n == 5 {
        Piece::WKing
    } else if n == 8 {
        Piece::BPawn
    } else if n == 9 {
        Piece::BKnight
    } else if n == 10 {
        Piece::BBishop
    } else if n == 11 {
        Piece::BRook
    } else if n == 12 {
        Piece::BQueen
    } else {
        Piece::BKing
    }
}

impl Piece {
    /// The piece of the given colour and type.
    pub fn make(color: Color, piece_type: PieceType) -> (r: Piece)
        ensures
            r == piece_of(color, piece_type),
            piece_color(r) == color,
            piece_pt(r) == piece_type,
    {
        match (color, piece_type) {
            (Color::White, PieceType::Pawn) => Piece::WPawn,
            (Color::White, PieceType::Knight) => Piece::WKnight,
            (Color::White, PieceType::Bishop) => Piece::WBishop,
            (Color::White, PieceType::Rook) => Piece::WRook,
            (Color::White, PieceType::Queen) => Piece::WQueen,
            (Color::White, PieceType::King) => Piece::WKing,
            (Color::Black, PieceType::Pawn) => Piece::BPawn,
            (Color::Black, PieceType::Knight) => Piece::BKnight,
            (Color::Black, PieceType::Bishop) => Piece::BBishop,
            (Color::Black, PieceType::Rook) => Piece::BRook,
            (Color::Black, PieceType::Queen) => Piece::BQueen,
            (Color::Black, PieceType::King) => Piece::BKing,
        }
    }

    pub fn color(self) -> (r: Color)
        ensures
            r == piece_color(self),
    {
        if (self as u8) < 6 {
            Color::White
        } else {
            Color::Black
        }
    }

    pub fn piece_type(self) -> (r: PieceType)
        ensures
            r == piece_pt(self),
    {
        match self {
            Piece::WPawn | Piece::BPawn => PieceType::Pawn,
            Piece::WKnight | Piece::BKnight => PieceType::Knight,
            Piece::WBishop | Piece::BBishop => PieceType::Bishop,
            Piece::WRook | Piece::BRook => PieceType::Rook,
            Piece::WQueen | Piece::BQueen => PieceType::Queen,
            Piece::WKing | Piece::BKing => PieceType::King,
        }
    }

    /// The number of the piece: 0..5 for white, 8..13 for black.
    pub fn index(self) -> (r: usize)
        ensures
            r == piece_num(self),
            r < 16,
    {
        let v = self as usize;
        if v < 6 {
            v
        } else {
            v + 2
        }
    }
}

#[derive(Debug, Copy, Clone, PartialEq, Eq, PartialOrd, Ord, Structural)]
pub enum Square {
    A1, B1, C1, D1, E1, F1, G1, H1,
    A2, B2, C2, D2, E2, F2, G2, H2,
    A3, B3, C3, D3, E3, F3, G3, H3,
    A4, B4, C4, D4, E4, F4, G4, H4,
    A5, B5, C5, D5, E5, F5, G5, H5,
    A6, B6, C6, D6, E6, F6, G6, H6,
    A7, B7, C7, D7, E7, F7, G7, H7,
    A8, B8, C8, D8, E8, F8, G8, H8,
}

/// The file (0..7) and rank (0..7) of a square number.
pub open spec fn file_of(s: int) -> int {
    s % 8
}

pub open spec fn rank_of(s: int) -> int {
    s / 8
}

proof fn lemma_square_bits(i: usize)
    by (bit_vector)
    requires
        i < 64,
    ensures
        i & 7 == i % 8,
        i >> 3 == i / 8,
        i ^ 56 == 8 * (7 - i / 8) + i % 8,
        i ^ 0 == i,
        i & 7 < 8,
        i >> 3 < 8,
{
}

proof fn lemma_make_bits(r: usize, f: usize)
    by (bit_vector)
    requires
        r < 8,
        f < 8,
    ensures
        (r << 3) | f == 8 * r + f,
        r ^ 7 == 7 - r,
        r ^ 0 == r,
{
}

/// The square with number `i` (0..63).
pub open spec fn square_at(i: int) -> Square {
    if i == 0 {
        Square::A1
    } else if i == 1 {
        Square::B1
    } else if i == 2 {
        Square::C1
    } else if i == 3 {
        Square::D1
    } else if i == 4 {
        Square::E1
    } else if i == 5 {
        Square::F1
    } else if i == 6 {
        Square::G1
    } else if i == 7 {
        Square::H1
    } else if i == 8 {
        Square::A2
    } else if i == 9 {
        Square::B2
    } else if i == 10 {
        Square::C2
    } else if i == 11 {
        Square::D2
    } else if i == 12 {
        Square::E2
    } else if i == 13 {
        Square::F2
    } else if i == 14 {
        Square::G2
    } else if i == 15 {
        Square::H2
    } else if i == 16 {
        Square::A3
    } else if i == 17 {
        Square::B3
    } else if i == 18 {
        Square::C3
    } else if i == 19 {
        Square::D3
    } else if i == 20 {
        Square::E3
    } else if i == 21 {
        Square::F3
    } else if i == 22 {
        Square::G3
    } else if i == 23 {
        Square::H3
    } else if i == 24 {
        Square::A4
    } else if i == 25 {
        Square::B4
    } else if i == 26 {
        Square::C4
    } else if i == 27 {
        Square::D4
    } else if i == 28 {
        Square::E4
    } else if i == 29 {
        Square::F4
    } else if i == 30 {
        Square::G4
    } else if i == 31 {
        Square::H4
    } else if i == 32 {
        Square::A5
    } else if i == 33 {
        Square::B5
    } else if i == 34 {
        Square::C5
    } else if i == 35 {
        Square::D5
    } else if i == 36 {
        Square::E5
    } else if i == 37 {
        Square::F5
    } else if i == 38 {
        Square::G5
    } else if i == 39 {
        Square::H5
    } else if i == 40 {
        Square::A6
    } else if i == 41 {
        Square::B6
    } else if i == 42 {
        Square::C6
    } else if i == 43 {
        Square::D6
    } else if i == 44 {
        Square::E6
    } else if i == 45 {
        Square::F6
    } else if i == 46 {
        Square::G6
    } else if i == 47 {
        Square::H6
    } else if i == 48 {
        Square::A7
    } else if i == 49 {
        Square::B7
    } else if i == 50 {
        Square::C7
    } else if i == 51 {
        Square::D7
    } else if i == 52 {
        Square::E7
    } else if i == 53 {
        Square::F7
    } else if i == 54 {
        Square::G7
    } else if i == 55 {
        Square::H7
    } else if i == 56 {
        Square::A8
    } else if i == 57 {
        Square::B8
    } else if i == 58 {
        Square::C8
    } else if i == 59 {
        Square::D8
    } else if i == 60 {
        Square::E8
    } else if i == 61 {
        Square::F8
    } else if i == 62 {
        Square::G8
    } else {
        Square::H8
    }
}

/// The square with number `i` has number `i`.
pub proof fn lemma_square_at_index(i: int)
    requires
        0 <= i < 64,
    ensures
        square_at(i) as int == i,
{
}

impl Square {
    /// The square with number `idx`.
    pub fn from_index(idx: usize) -> (r: Square)
        requires
            idx < 64,
        ensures
            r as int == idx,
            r == square_at(idx as int),
    {
        match idx {
            0 => Square::A1,
            1 => Square::B1,
            2 => Square::C1,
            3 => Square::D1,
            4 => Square::E1,
            5 => Square::F1,
            6 => Square::G1,
            7 => Square::H1,
            8 => Square::A2,
            9 => Square::B2,
            10 => Square::C2,
            11 => Square::D2,
            12 => Square::E2,
            13 => Square::F2,
            14 => Square::G2,
            15 => Square::H2,
            16 => Square::A3,
            17 => Square::B3,
            18 => Square::C3,
            19 => Square::D3,
            20 => Square::E3,
            21 => Square::F3,
            22 => Square::G3,
            23 => Square::H3,
            24 => Square::A4,
            25 => Square::B4,
            26 => Square::C4,
            27 => Square::D4,
            28 => Square::E4,
            29 => Square::F4,
            30 => Square::G4,
            31 => Square::H4,
            32 => Square::A5,
            33 => Square::B5,
            34 => Square::C5,
            35 => Square::D5,
            36 => Square::E5,
            37 => Square::F5,
            38 => Square::G5,
            39 => Square::H5,
            40 => Square::A6,
            41 => Square::B6,
            42 => Square::C6,
            43 => Square::D6,
            44 => Square::E6,
            45 => Square::F6,
            46 => Square::G6,
            47 => Square::H6,
            48 => Square::A7,
            49 => Square::B7,
            50 => Square::C7,
            51 => Square::D7,
            52 => Square::E7,
            53 => Square::F7,
            54 => Square::G7,
            55 => Square::H7,
            56 => Square::A8,
            57 => Square::B8,
            58 => Square::C8,
            59 => Square::D8,
            60 => Square::E8,
            61 => Square::F8,
            62 => Square::G8,
            63 => Square::H8,
            _ => Square::H8,
        }
    }

    pub fn index(self) -> (r: usize)
        ensures
            r == self as int,
            r < 64,
    {
        self as usize
    }

    pub fn file(self) -> (r: File)
        ensures
            r as int == file_of(self as int),
    {
        proof {
            lemma_square_bits(self as usize);
        }
        File::from_index(self.index() & 7)
    }

    pub fn rank(self) -> (r: Rank)
        ensures
            r as int == rank_of(self as int),
    {
        proof {
            lemma_square_bits(self as usize);
        }
        Rank::from_index(self.index() >> 3)
    }

    pub fn make(file: File, rank: Rank) -> (r: Square)
        ensures
            r as int == 8 * (rank as int) + file as int,
    {
        proof {
            lemma_make_bits(rank as usize, file as usize);
        }
        Self::from_index((rank.index() << 3) | file.index())
    }

    /// The same file on the mirrored rank.
    pub fn flip_rank(self) -> (r: Square)
        ensures
            r as int == 8 * (7 - rank_of(self as int)) + file_of(self as int),
    {
        proof {
            lemma_square_bits(self as usize);
        }
        Self::from_index(self.index() ^ 56)
    }

    /// The square seen from `color`'s side: unchanged for white, rank mirrored for black.
    pub fn relative_square(self, color: Color) -> (r: Square)
        ensures
            color == Color::White ==> r == self,
            color == Color::Black ==> r as int == 8 * (7 - rank_of(self as int)) + file_of(self as int),
    {
        proof {
            lemma_square_bits(self as usize);
        }
        Self::from_index(self.index() ^ (color.index() * 56))
    }

    /// The square `offset` numbers away, if it is on the board.
    pub fn offset(self, offset: i8) -> (r: Option<Square>)
        requires
            self as int + offset <= 127,
        ensures
            0 <= self as int + offset < 64 ==> (r matches Some(s) && s as int == self as int + offset),
            !(0 <= self as int + offset < 64) ==> r is None,
    {
        let new_sq = self.index() as i8 + offset;
        if new_sq >= 0 && new_sq < 64 {
            Some(Self::from_index(new_sq as usize))
        } else {
            None
        }
    }
}

#[derive(Debug, Copy, Clone, PartialEq, Eq, Structural)]
pub enum File {
    A,
    B,
    C,
    D,
    E,
    F,
    G,
    H,
}

impl File {
    pub fn from_index(idx: usize) -> (r: File)
        requires
            idx < 8,
        ensures
            r as int == idx,
    {
        match idx {
            0 => File::A,
            1 => File::B,
            2 => File::C,
            3 => File::D,
            4 => File::E,
            5 => File::F,
            6 => File::G,
            _ => File::H,
        }
    }

    pub fn index(self) -> (r: usize)
        ensures
            r == self as int,
            r < 8,
    {
        self as usize
    }
}

#[derive(Debug, Copy, Clone, PartialEq, Eq, Structural)]
pub enum Rank {
    R1,
    R2,
    R3,
    R4,
    R5,
    R6,
    R7,
    R8,
}

impl Rank {
    pub fn from_index(idx: usize) -> (r: Rank)
        requires
            idx < 8,
        ensures
            r as int == idx,
    {
        match idx {
            0 => Rank::R1,
            1 => Rank::R2,
            2 => Rank::R3,
            3 => Rank::R4,
            4 => Rank::R5,
            5 => Rank::R6,
            6 => Rank::R7,
            _ => Rank::R8,
        }
    }

    pub fn index(self) -> (r: usize)
        ensures
            r == self as int,
            r < 8,
    {
        self as usize
    }

    /// The rank seen from `color`'s side.
    pub fn relative_rank(self, color: Color) -> (r: Rank)
        ensures
            color == Color::White ==> r == self,
            color == Color::Black ==> r as int == 7 - self as int,
    {
        proof {
            lemma_make_bits(self as usize, 0);
        }
        Self::from_index(self.index() ^ (color.index() * 7))
    }
}

/// Castling-right flags; `bits` gives each its bit value.
#[derive(Debug, Copy, Clone, PartialEq, Eq, Structural)]
pub enum CastlingRights {
    NoRights,
    WhiteOO,
    WhiteOOO,
    BlackOO,
    BlackOOO,
}

/// The bit value of a castling-right flag.
pub open spec fn cr_bits(c: CastlingRights) -> u8 {
    match c {
        CastlingRights::NoRights => 0,
        CastlingRights::WhiteOO => 1,
        CastlingRights::WhiteOOO => 2,
        CastlingRights::BlackOO => 4,
        CastlingRights::BlackOOO => 8,
    }
}

/// The kingside (`kingside`) or queenside castling bit of `color`.
pub open spec fn castle_mask(color: Color, kingside: bool) -> u8 {
    if kingside {
        if color == Color::White { 1 } else { 4 }
    } else {
        if color == Color::White { 2 } else { 8 }
    }
}

impl CastlingRights {
    /// The flag with bit value `bits`, which must be 0, 1, 2, 4 or 8.
    pub fn from_bits(bits: u8) -> (r: CastlingRights)
        requires
            bits == 0 || bits == 1 || bits == 2 || bits == 4 || bits == 8,
        ensures
            cr_bits(r) == bits,
    {
        match bits {
            0 => CastlingRights::NoRights,
            1 => CastlingRights::WhiteOO,
            2 => CastlingRights::WhiteOOO,
            4 => CastlingRights::BlackOO,
            _ => CastlingRights::BlackOOO,
        }
    }

    pub fn bits(self) -> (r: u8)
        ensures
            r == cr_bits(self),
    {
        match self {
            CastlingRights::NoRights => 0,
            CastlingRights::WhiteOO => 1,
            CastlingRights::WhiteOOO => 2,
            CastlingRights::BlackOO => 4,
            CastlingRights::BlackOOO => 8,
        }
    }

    /// Whether the rights `bits` hold the kingside right of `color`.
    pub fn can_castle_kingside(bits: u8, color: Color) -> (r: bool)
        ensures
            r == (bits & castle_mask(color, true) != 0),
    {
        let mask: u8 = if color == Color::White { 1 } else { 4 };
        (bits & mask) != 0
    }

    /// Whether the rights `bits` hold the queenside right of `color`.
    pub fn can_castle_queenside(bits: u8, color: Color) -> (r: bool)
        ensures
            r == (bits & castle_mask(color, false) != 0),
    {
        let mask: u8 = if color == Color::White { 2 } else { 8 };
        (bits & mask) != 0
    }
}

/// A move packed in 16 bits: bits 0..5 the target square, bits 6..11 the
/// origin square, bits 12..13 the promotion piece (knight 0 .. queen 3) and
/// bits 14..15 the kind (0 normal, 1 promotion, 2 en passant, 3 castling).
#[derive(Debug, Copy, Clone, PartialEq, Eq, Structural)]
pub struct Move(pub u16);

/// The fields of a packed move.
pub open spec fn mv_to(m: Move) -> int {
    m.0 as int % 64
}

pub open spec fn mv_from(m: Move) -> int {
    (m.0 as int / 64) % 64
}

pub open spec fn mv_promo_code(m: Move) -> int {
    (m.0 as int / 4096) % 4
}

pub open spec fn mv_kind(m: Move) -> int {
    m.0 as int / 16384
}

/// The packed move with the given fields.
pub open spec fn mv_pack(kind: int, promo: int, from: int, to: int) -> int {
    kind * 16384 + promo * 4096 + from * 64 + to
}

proof fn lemma_pack(kind: u16, promo: u16, from: u16, to: u16)
    requires
        kind < 4,
        promo < 4,
        from < 64,
        to < 64,
    ensures
        (kind << 14) | (promo << 12) | (from << 6) | to == mv_pack(kind as int, promo as int, from as int, to as int),
        mv_pack(kind as int, promo as int, from as int, to as int) < 65536,
{
    assert((kind << 14) | (promo << 12) | (from << 6) | to == kind * 16384 + promo * 4096 + from * 64 + to) by (bit_vector)
        requires
            kind < 4,
            promo < 4,
            from < 64,
            to < 64,
    ;
}

proof fn lemma_unpack(v: u16)
    ensures
        (v >> 6) & 0x3F == (v as int / 64) % 64,
        v & 0x3F == v as int % 64,
        (v >> 12) & 3 == (v as int / 4096) % 4,
        v & (3u16 << 14u16) == (v as int / 16384) * 16384,
        (v as int / 16384) < 4,
        3u16 << 14u16 == 49152u16,
        2u16 << 14u16 == 32768u16,
        1u16 << 14u16 == 16384u16,
        v == mv_pack(v as int / 16384, (v as int / 4096) % 4, (v as int / 64) % 64, v as int % 64),
{
    lemma_unpack_bits(v);
}

proof fn lemma_unpack_bits(v: u16)
    by (bit_vector)
    ensures
        (v >> 6) & 0x3F == (v / 64) % 64,
        v & 0x3F == v % 64,
        (v >> 12) & 3 == (v / 4096) % 4,
        v & (3u16 << 14u16) == (v / 16384) * 16384,
        v / 16384 < 4,
        3u16 << 14u16 == 49152u16,
        2u16 << 14u16 == 32768u16,
        1u16 << 14u16 == 16384u16,
        v == (v / 16384) * 16384 + ((v / 4096) % 4) * 4096 + ((v / 64) % 64) * 64 + v % 64,
{
}

/// The kind of a move is one of four.
pub proof fn lemma_move_kind(m: Move)
    ensures
        0 <= mv_kind(m) < 4,
{
    lemma_unpack(m.0);
}

impl Move {
    /// A normal move.
    pub fn new(from: Square, to: Square) -> (r: Move)
        ensures
            r.0 == mv_pack(0, 0, from as int, to as int),
    {
        proof {
            lemma_pack(0, 0, from as u16, to as u16);
            assert(((from as u16) << 6) | (to as u16) == (0u16 << 14) | (0u16 << 12) | ((from as u16) << 6) | (to as u16)) by (bit_vector);
        }
        Move(((from.index() as u16) << 6) | (to.index() as u16))
    }

    /// A promotion to `promo`, which must be a knight, bishop, rook, queen or king
    /// (a king is packed like a knight).
    pub fn new_promotion(from: Square, to: Square, promo: PieceType) -> (r: Move)
        requires
            promo != PieceType::Pawn,
        ensures
            r.0 == mv_pack(1, (pt_num(promo) - 2) % 4, from as int, to as int),
    {
        let code: u16 = (promo.index() as u16 - 2) & 3;
        proof {
            let p = (pt_num(promo) - 2) as u16;
            assert(p & 3 == p % 4) by (bit_vector);
            lemma_pack(1, code, from as u16, to as u16);
        }
        Move((1 << 14) | (code << 12) | ((from.index() as u16) << 6) | (to.index() as u16))
    }

    pub fn new_en_passant(from: Square, to: Square) -> (r: Move)
        ensures
            r.0 == mv_pack(2, 0, from as int, to as int),
    {
        proof {
            lemma_pack(2, 0, from as u16, to as u16);
            assert((2u16 << 14) | ((from as u16) << 6) | (to as u16) == (2u16 << 14) | (0u16 << 12) | ((from as u16) << 6) | (to as u16)) by (bit_vector);
        }
        Move((2 << 14) | ((from.index() as u16) << 6) | (to.index() as u16))
    }

    pub fn new_castle(from: Square, to: Square) -> (r: Move)
        ensures
            r.0 == mv_pack(3, 0, from as int, to as int),
    {
        proof {
            lemma_pack(3, 0, from as u16, to as u16);
            assert((3u16 << 14) | ((from as u16) << 6) | (to as u16) == (3u16 << 14) | (0u16 << 12) | ((from as u16) << 6) | (to as u16)) by (bit_vector);
        }
        Move((3 << 14) | ((from.index() as u16) << 6) | (to.index() as u16))
    }

    pub fn null() -> (r: Move)
        ensures
            r.0 == 65,
    {
        Move(65)
    }

    pub fn none() -> (r: Move)
        ensures
            r.0 == 0,
    {
        Move(0)
    }

    pub fn from_sq(self) -> (r: Square)
        ensures
            r as int == mv_from(self),
    {
        proof {
            lemma_unpack(self.0);
        }
        Square::from_index(((self.0 >> 6) & 0x3F) as usize)
    }

    pub fn to_sq(self) -> (r: Square)
        ensures
            r as int == mv_to(self),
    {
        proof {
            lemma_unpack(self.0);
        }
        Square::from_index((self.0 & 0x3F) as usize)
    }

    pub fn is_promotion(self) -> (r: bool)
        ensures
            r == (mv_kind(self) == 1),
    {
        proof {
            lemma_unpack(self.0);
        }
        (self.0 & (3 << 14)) == (1 << 14)
    }

    pub fn is_en_passant(self) -> (r: bool)
        ensures
            r == (mv_kind(self) == 2),
    {
        proof {
            lemma_unpack(self.0);
        }
        (self.0 & (3 << 14)) == (2 << 14)
    }

    pub fn is_castle(self) -> (r: bool)
        ensures
            r == (mv_kind(self) == 3),
    {
        proof {
            lemma_unpack(self.0);
        }
        (self.0 & (3 << 14)) == (3 << 14)
    }

    /// The promotion piece of a promotion move: knight, bishop, rook or queen.
    pub fn promotion_type(self) -> (r: Option<PieceType>)
        ensures
            mv_kind(self) == 1 ==> r == Some(pt_of_num(mv_promo_code(self) + 2)),
            mv_kind(self) != 1 ==> r is None,
    {
        if self.is_promotion() {
            proof {
                lemma_unpack(self.0);
            }
            let code = (self.0 >> 12) & 3;
            let pt = if code == 0 {
                PieceType::Knight
            } else if code == 1 {
                PieceType::Bishop
            } else if code == 2 {
                PieceType::Rook
            } else {
                PieceType::Queen
            };
            Some(pt)
        } else {
            None
        }
    }

    /// Neither the empty move nor the null move.
    pub fn is_ok(self) -> (r: bool)
        ensures
            r == (self.0 != 0 && self.0 != 65),
    {
        self.0 != 0 && self.0 != 65
    }
}

/// Search values (centipawns, mate scores).
pub type Value = i32;

pub const VALUE_ZERO: Value = 0;

pub const VALUE_DRAW: Value = 0;

pub const VALUE_NONE: Value = 32002;

pub const VALUE_INFINITE: Value = 32001;

pub const VALUE_MATE: Value = 32000;

pub const VALUE_MATE_IN_MAX_PLY: Value = 31754;

pub const VALUE_MATED_IN_MAX_PLY: Value = -31754;

pub const PAWN_VALUE: Value = 100;

pub const KNIGHT_VALUE: Value = 320;

pub const BISHOP_VALUE: Value = 330;

pub const ROOK_VALUE: Value = 500;

pub const QUEEN_VALUE: Value = 900;

/// The material value of a piece type (a king counts 0).
pub open spec fn piece_value_spec(pt: PieceType) -> Value {
    match pt {
        PieceType::Pawn => PAWN_VALUE,
        PieceType::Knight => KNIGHT_VALUE,
        PieceType::Bishop => BISHOP_VALUE,
        PieceType::Rook => ROOK_VALUE,
        PieceType::Queen => QUEEN_VALUE,
        PieceType::King => 0,
    }
}

pub fn piece_value(pt: PieceType) -> (r: Value)
    ensures
        r == piece_value_spec(pt),
{
    match pt {
        PieceType::Pawn => PAWN_VALUE,
        PieceType::Knight => KNIGHT_VALUE,
        PieceType::Bishop => BISHOP_VALUE,
        PieceType::Rook => ROOK_VALUE,
        PieceType::Queen => QUEEN_VALUE,
        PieceType::King => 0,
    }
}

/// The score of giving mate in `ply` plies.
pub fn mate_in(ply: usize) -> (r: Value)
    requires
        ply <= i32::MAX,
    ensures
        r == VALUE_MATE - ply,
{
    VALUE_MATE - ply as Value
}

/// The score of being mated in `ply` plies.
pub fn mated_in(ply: usize) -> (r: Value)
    requires
        ply <= i32::MAX - VALUE_MATE,
    ensures
        r == -VALUE_MATE + ply,
{
    -VALUE_MATE + ply as Value
}

pub type Depth = i32;

pub const DEPTH_ZERO: Depth = 0;

pub const DEPTH_QS: Depth = 0;

pub const DEPTH_NONE: Depth = -6;

pub const NORTH: i8 = 8;

pub const SOUTH: i8 = -8;

pub const EAST: i8 = 1;

pub const WEST: i8 = -1;

pub const NORTH_EAST: i8 = 9;

pub const NORTH_WEST: i8 = 7;

pub const SOUTH_EAST: i8 = -7;

pub const SOUTH_WEST: i8 = -9;

} // verus!
