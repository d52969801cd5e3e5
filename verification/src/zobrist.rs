//! Zobrist keys: pseudo-random 64-bit numbers for every (piece, square),
//! en-passant file, castling-rights value and the side to move.

use vstd::prelude::*;
use crate::types::File;
use crate::types::Key;
use crate::types::Piece;
use crate::types::Square;
use crate::types::piece_num;

verus! {

/// The seed of the key generator.
pub const ZOBRIST_SEED: u64 = 1070372;

/// One xorshift step of the generator state.
pub open spec fn prng_mix(s: u64) -> u64 {
    let a = s ^ (s >> 12u64);
    let b = a ^ (a << 25u64);
    b ^ (b >> 27u64)
}

/// The generator's output for a state.
pub open spec fn prng_out(s: u64) -> u64 {
    s.wrapping_mul(2685821657736338717u64)
}

/// The generator state after `n` draws.
pub open spec fn prng_state(seed: u64, n: nat) -> u64
    decreases n,
{
    if n == 0 {
        seed
    } else {
        prng_mix(prng_state(seed, (n - 1) as nat))
    }
}

/// The `n`-th number drawn (counting from 0) from a generator seeded with `seed`.
pub open spec fn prng_draw(seed: u64, n: nat) -> u64 {
    prng_out(prng_state(seed, n + 1))
}

/// The key of `piece` (by number, 0..15) on square `sq`.
pub open spec fn piece_key_spec(p: int, sq: int) -> u64 {
    prng_draw(ZOBRIST_SEED, (p * 64 + sq) as nat)
}

/// The key of an en-passant file.
pub open spec fn enpassant_key_spec(f: int) -> u64 {
    prng_draw(ZOBRIST_SEED, (1024 + f) as nat)
}

/// The key of a castling-rights value (0..15).
pub open spec fn castling_key_spec(cr: int) -> u64 {
    prng_draw(ZOBRIST_SEED, (1032 + cr) as nat)
}

/// The key of black to move.
pub open spec fn side_key_spec() -> u64 {
    prng_draw(ZOBRIST_SEED, 1048)
}

/// A xorshift pseudo-random number generator.
pub struct Prng {
    pub seed: u64,
}

impl Prng {
    pub fn new(seed: u64) -> (r: Prng)
        ensures
            r.seed == seed,
    {
        Prng { seed }
    }

    /// Advances the state and returns the next number.
    pub fn rand64(&mut self) -> (r: u64)
        ensures
            final(self).seed == prng_mix(old(self).seed),
            r == prng_out(final(self).seed),
    {
        self.seed = self.seed ^ (self.seed >> 12);
        self.seed = self.seed ^ (self.seed << 25);
        self.seed = self.seed ^ (self.seed >> 27);
        self.seed.wrapping_mul(2685821657736338717u64)
    }
}

/// The table of Zobrist keys.
pub struct Zobrist {
    piece: Vec<Key>,
    enpassant: Vec<Key>,
    castling: Vec<Key>,
    side: Key,
}

/// The keys of a table: pieces (by piece number times 64 plus square),
/// en-passant files, castling-rights values, and the side to move.
pub struct ZobristView {
    pub piece: Seq<u64>,
    pub enpassant: Seq<u64>,
    pub castling: Seq<u64>,
    pub side: u64,
}

impl View for Zobrist {
    type V = ZobristView;

    closed spec fn view(&self) -> ZobristView {
        ZobristView { piece: self.piece@, enpassant: self.enpassant@, castling: self.castling@, side: self.side }
    }
}

/// The keys drawn in order from the generator seeded with `ZOBRIST_SEED`:
/// 1024 piece keys, 8 en-passant keys, 16 castling keys, then the side key.
pub open spec fn drawn_keys() -> ZobristView {
    ZobristView {
        piece: Seq::new(1024, |i: int| prng_draw(ZOBRIST_SEED, i as nat)),
        enpassant: Seq::new(8, |i: int| prng_draw(ZOBRIST_SEED, (1024 + i) as nat)),
        castling: Seq::new(16, |i: int| prng_draw(ZOBRIST_SEED, (1032 + i) as nat)),
        side: side_key_spec(),
    }
}

impl Zobrist {
    /// Every key equals the number drawn for it.
    #[verifier::type_invariant]
    spec fn keys_drawn(self) -> bool {
        &&& self.piece@.len() == 1024
        &&& self.enpassant@.len() == 8
        &&& self.castling@.len() == 16
        &&& forall|i: int| 0 <= i < 1024 ==> #[trigger] self.piece@[i] == prng_draw(ZOBRIST_SEED, i as nat)
        &&& forall|i: int| 0 <= i < 8 ==> #[trigger] self.enpassant@[i] == prng_draw(ZOBRIST_SEED, (1024 + i) as nat)
        &&& forall|i: int| 0 <= i < 16 ==> #[trigger] self.castling@[i] == prng_draw(ZOBRIST_SEED, (1032 + i) as nat)
        &&& self.side == side_key_spec()
    }

    /// Draws all keys, in order: pieces by square, en-passant files, castling values, side.
    pub fn init() -> (r: Zobrist)
        ensures
            r@ == drawn_keys(),
    {
        let mut rng = Prng::new(ZOBRIST_SEED);
        let mut piece: Vec<Key> = Vec::new();
        let mut i: usize = 0;
        while i < 1024
            invariant
                i <= 1024,
                piece@.len() == i,
                rng.seed == prng_state(ZOBRIST_SEED, i as nat),
                forall|j: int| 0 <= j < i ==> #[trigger] piece@[j] == prng_draw(ZOBRIST_SEED, j as nat),
            decreases 1024 - i,
        {
            let k = rng.rand64();
            piece.push(k);
            i = i + 1;
        }
        let mut enpassant: Vec<Key> = Vec::new();
        let mut f: usize = 0;
        while f < 8
            invariant
                f <= 8,
                enpassant@.len() == f,
                rng.seed == prng_state(ZOBRIST_SEED, (1024 + f) as nat),
                forall|j: int| 0 <= j < f ==> #[trigger] enpassant@[j] == prng_draw(ZOBRIST_SEED, (1024 + j) as nat),
            decreases 8 - f,
        {
            let k = rng.rand64();
            enpassant.push(k);
            f = f + 1;
        }
        let mut castling: Vec<Key> = Vec::new();
        let mut c: usize = 0;
        while c < 16
            invariant
                c <= 16,
                castling@.len() == c,
                rng.seed == prng_state(ZOBRIST_SEED, (1032 + c) as nat),
                forall|j: int| 0 <= j < c ==> #[trigger] castling@[j] == prng_draw(ZOBRIST_SEED, (1032 + j) as nat),
            decreases 16 - c,
        {
            let k = rng.rand64();
            castling.push(k);
            c = c + 1;
        }
        let side = rng.rand64();
        let r = Zobrist { piece, enpassant, castling, side };
        proof {
            assert(r@.piece =~= drawn_keys().piece);
            assert(r@.enpassant =~= drawn_keys().enpassant);
            assert(r@.castling =~= drawn_keys().castling);
        }
        r
    }

    pub fn piece_key(&self, piece: Piece, sq: Square) -> (r: Key)
        ensures
            r == piece_key_spec(piece_num(piece), sq as int),
    {
        proof {
            use_type_invariant(self);
        }
        self.piece[piece.index() * 64 + sq.index()]
    }

    pub fn enpassant_key(&self, file: File) -> (r: Key)
        ensures
            r == enpassant_key_spec(file as int),
    {
        proof {
            use_type_invariant(self);
        }
        self.enpassant[file.index()]
    }

    pub fn castling_key(&self, castling_rights: u8) -> (r: Key)
        requires
            castling_rights < 16,
        ensures
            r == castling_key_spec(castling_rights as int),
    {
        proof {
            use_type_invariant(self);
        }
        self.castling[castling_rights as usize]
    }

    pub fn side_key(&self) -> (r: Key)
        ensures
            r == side_key_spec(),
    {
        proof {
            use_type_invariant(self);
        }
        self.side
    }
}

} // verus!
