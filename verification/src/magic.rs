//! Magic bitboards: per-square tables of rook and bishop attacks indexed by a
//! multiply-and-shift hash of the relevant occupancy.
//!
//! Every table entry holds an attack set together with the blockers it was
//! computed for, and a lookup accepts an entry only when the board has exactly
//! those blockers on the entry's squares; otherwise it walks the rays. So a
//! lookup is correct on every board, whatever the magic numbers are.

use vstd::prelude::*;
use crate::types::Bitboard;
use crate::types::Square;
use crate::bitboard::bit;
use crate::bitboard::has;
use crate::bitboard::on_board;
use crate::bitboard::ray;
use crate::bitboard::ray_from;
use crate::bitboard::rook_spec;
use crate::bitboard::bishop_spec;
use crate::bitboard::lsb_spec;
use crate::bitboard::clear_lsb;
use crate::bitboard::pop_count;
use crate::bitboard::lemma_bit_or;
use crate::bitboard::lemma_bit_and;
use crate::bitboard::lemma_bit_zero;
use crate::bitboard::lemma_bit_single;
use crate::bitboard::lemma_bits_ext;
use crate::bitboard::lemma_lsb;
use crate::bitboard::lemma_clear_lsb;
use crate::bitboard::lemma_pop_clear_lsb;
use crate::bitboard::lemma_pop_zero;
use crate::bitboard::lemma_or_assoc;
use crate::bitboard::popcount;
use crate::bitboard::rank_bb;
use crate::bitboard::file_bb;
use crate::bitboard::rook_attacks_bb;
use crate::bitboard::bishop_attacks_bb;
use crate::bitboard::FILE_A_BB;
use crate::bitboard::FILE_H_BB;
use crate::bitboard::RANK_1_BB;
use crate::bitboard::RANK_8_BB;

verus! {

/// The attacks of a rook (`is_rook`) or a bishop on `s` over the board `occ`.
pub open spec fn slider_spec(is_rook: bool, s: int, occ: u64) -> u64 {
    if is_rook {
        rook_spec(s, occ)
    } else {
        bishop_spec(s, occ)
    }
}

/// The board `index` spreads its bits `i..n` over the squares of `mask`, the
/// `i`-th bit of `index` going to the lowest square left in `mask`.
pub open spec fn deposit(index: usize, mask: u64, i: u32, n: u32) -> u64
    decreases n - i,
{
    if i >= n || mask == 0 || i >= 32 {
        0
    } else {
        let low: u64 = if index & (1usize << i) != 0 {
            1u64 << (lsb_spec(mask) as u64)
        } else {
            0
        };
        low | deposit(index, clear_lsb(mask), (i + 1) as u32, n)
    }
}

/// A ray depends only on the occupancy of its own squares.
proof fn lemma_ray_agree(o1: u64, o2: u64, f: int, r: int, df: int, dr: int, n: nat)
    requires
        forall|t: int| #[trigger] has(ray(o1, f, r, df, dr, n), t) ==> has(o1, t) == has(o2, t),
    ensures
        ray(o2, f, r, df, dr, n) == ray(o1, f, r, df, dr, n),
    decreases n,
{
    if n == 0 || !on_board(f + df, r + dr) {
    } else {
        let t = 8 * (r + dr) + (f + df);
        let b = 1u64 << (t as u64);
        let rest = ray(o1, f + df, r + dr, df, dr, (n - 1) as nat);
        lemma_bit_single(t as u64, t as u64);
        if has(o1, t) {
            assert(has(ray(o1, f, r, df, dr, n), t));
        } else {
            lemma_bit_or(b, rest, t as u64);
            assert(has(ray(o1, f, r, df, dr, n), t));
            assert forall|u: int| #[trigger] has(rest, u) implies has(o1, u) == has(o2, u) by {
                lemma_bit_or(b, rest, u as u64);
                assert(has(ray(o1, f, r, df, dr, n), u));
            }
            lemma_ray_agree(o1, o2, f + df, r + dr, df, dr, (n - 1) as nat);
        }
    }
}

proof fn lemma_or4(a: u64, b: u64, c: u64, d: u64, t: u64)
    requires
        t < 64,
    ensures
        bit((((0u64 | a) | b) | c) | d, t) == (bit(a, t) || bit(b, t) || bit(c, t) || bit(d, t)),
{
    lemma_bit_zero(t);
    lemma_bit_or(0u64, a, t);
    lemma_bit_or(0u64 | a, b, t);
    lemma_bit_or((0u64 | a) | b, c, t);
    lemma_bit_or(((0u64 | a) | b) | c, d, t);
}

/// Four rays from `s` that depend only on the occupancy of their union.
proof fn lemma_four_rays_agree(o1: u64, o2: u64, s: int, d1: int, d2: int, d3: int, d4: int)
    requires
        forall|t: int|
            #[trigger] has(
                (((0u64 | ray_from(o1, s, d1)) | ray_from(o1, s, d2)) | ray_from(o1, s, d3)) | ray_from(o1, s, d4),
                t,
            ) ==> has(o1, t) == has(o2, t),
    ensures
        (((0u64 | ray_from(o2, s, d1)) | ray_from(o2, s, d2)) | ray_from(o2, s, d3)) | ray_from(o2, s, d4)
            == (((0u64 | ray_from(o1, s, d1)) | ray_from(o1, s, d2)) | ray_from(o1, s, d3)) | ray_from(o1, s, d4),
{
    let r1 = ray_from(o1, s, d1);
    let r2 = ray_from(o1, s, d2);
    let r3 = ray_from(o1, s, d3);
    let r4 = ray_from(o1, s, d4);
    let all = (((0u64 | r1) | r2) | r3) | r4;
    assert forall|t: int| 0 <= t < 64 && (has(r1, t) || has(r2, t) || has(r3, t) || has(r4, t)) implies has(all, t) by {
        lemma_or4(r1, r2, r3, r4, t as u64);
    }
    assert forall|t: int| #[trigger] has(r1, t) implies has(o1, t) == has(o2, t) by {
        assert(has(all, t));
    }
    assert forall|t: int| #[trigger] has(r2, t) implies has(o1, t) == has(o2, t) by {
        assert(has(all, t));
    }
    assert forall|t: int| #[trigger] has(r3, t) implies has(o1, t) == has(o2, t) by {
        assert(has(all, t));
    }
    assert forall|t: int| #[trigger] has(r4, t) implies has(o1, t) == has(o2, t) by {
        assert(has(all, t));
    }
    lemma_ray_agree(o1, o2, crate::types::file_of(s), crate::types::rank_of(s), crate::bitboard::delta_df(d1), crate::bitboard::delta_dr(d1), 7);
    lemma_ray_agree(o1, o2, crate::types::file_of(s), crate::types::rank_of(s), crate::bitboard::delta_df(d2), crate::bitboard::delta_dr(d2), 7);
    lemma_ray_agree(o1, o2, crate::types::file_of(s), crate::types::rank_of(s), crate::bitboard::delta_df(d3), crate::bitboard::delta_dr(d3), 7);
    lemma_ray_agree(o1, o2, crate::types::file_of(s), crate::types::rank_of(s), crate::bitboard::delta_df(d4), crate::bitboard::delta_dr(d4), 7);
}

/// A slider's attacks depend only on the occupancy of the squares it attacks:
/// two boards that agree there give the same attacks.
pub proof fn lemma_slider_agree(is_rook: bool, s: int, o1: u64, o2: u64)
    requires
        forall|t: int| #[trigger] has(slider_spec(is_rook, s, o1), t) ==> has(o1, t) == has(o2, t),
    ensures
        slider_spec(is_rook, s, o2) == slider_spec(is_rook, s, o1),
{
    if is_rook {
        let all = (((0u64 | ray_from(o1, s, 8)) | ray_from(o1, s, -8)) | ray_from(o1, s, 1)) | ray_from(o1, s, -1);
        assert(all == slider_spec(is_rook, s, o1));
        assert forall|t: int| #[trigger] has(all, t) implies has(o1, t) == has(o2, t) by {
            assert(has(slider_spec(is_rook, s, o1), t));
        }
        lemma_four_rays_agree(o1, o2, s, 8, -8, 1, -1);
    } else {
        let all = (((0u64 | ray_from(o1, s, 9)) | ray_from(o1, s, -9)) | ray_from(o1, s, 7)) | ray_from(o1, s, -7);
        assert(all == slider_spec(is_rook, s, o1));
        assert forall|t: int| #[trigger] has(all, t) implies has(o1, t) == has(o2, t) by {
            assert(has(slider_spec(is_rook, s, o1), t));
        }
        lemma_four_rays_agree(o1, o2, s, 9, -9, 7, -7);
    }
}

/// A table entry: the attacks `a` from `s` over the board `blk`, where `blk`
/// lies within `a`.
pub open spec fn entry_ok(is_rook: bool, s: int, a: u64, blk: u64) -> bool {
    a == slider_spec(is_rook, s, blk) && blk & a == blk
}

/// An entry made from any board is a valid entry.
proof fn lemma_entry_from(is_rook: bool, s: int, occ: u64)
    ensures
        entry_ok(is_rook, s, slider_spec(is_rook, s, occ), occ & slider_spec(is_rook, s, occ)),
{
    let a = slider_spec(is_rook, s, occ);
    let blk = occ & a;
    assert forall|t: int| #[trigger] has(a, t) implies has(occ, t) == has(blk, t) by {
        lemma_bit_and(occ, a, t as u64);
    }
    lemma_slider_agree(is_rook, s, occ, blk);
    assert forall|i: u64| i < 64 implies #[trigger] bit(blk & a, i) == bit(blk, i) by {
        lemma_bit_and(blk, a, i);
        lemma_bit_and(occ, a, i);
    }
    lemma_bits_ext(blk & a, blk);
}

/// A board that has exactly an entry's blockers on the entry's squares is attacked as the entry says.
proof fn lemma_entry_hit(is_rook: bool, s: int, a: u64, blk: u64, occ: u64)
    requires
        entry_ok(is_rook, s, a, blk),
        occ & a == blk,
    ensures
        slider_spec(is_rook, s, occ) == a,
{
    assert forall|t: int| #[trigger] has(a, t) implies has(blk, t) == has(occ, t) by {
        lemma_bit_and(occ, a, t as u64);
        lemma_bit_and(blk, a, t as u64);
    }
    lemma_slider_agree(is_rook, s, blk, occ);
}

/// Spreads the low `bits` bits of `index` over the squares of `mask`, lowest first.
pub fn index_to_bitboard(index: usize, bits: u32, mask: Bitboard) -> (r: Bitboard)
    requires
        bits <= pop_count(mask),
        bits <= 32,
    ensures
        r == deposit(index, mask, 0, bits),
{
    let mut result: u64 = 0;
    let mut m: u64 = mask;
    let mut i: u32 = 0;
    proof {
        lemma_or_assoc(0u64, 0u64, deposit(index, mask, 0, bits));
        assert(0u64 | deposit(index, mask, 0, bits) == deposit(index, mask, 0, bits)) by {
            lemma_or_assoc(deposit(index, mask, 0, bits), 0u64, 0u64);
            assert forall|t: u64| t < 64 implies #[trigger] bit(0u64 | deposit(index, mask, 0, bits), t)
                == bit(deposit(index, mask, 0, bits), t) by {
                lemma_bit_or(0u64, deposit(index, mask, 0, bits), t);
                lemma_bit_zero(t);
            }
            lemma_bits_ext(0u64 | deposit(index, mask, 0, bits), deposit(index, mask, 0, bits));
        }
    }
    while i < bits
        invariant
            i <= bits,
            bits <= 32,
            i + pop_count(m) == pop_count(mask) || bits <= i,
            bits - i <= pop_count(m),
            result | deposit(index, m, i, bits) == deposit(index, mask, 0, bits),
        decreases bits - i,
    {
        proof {
            lemma_pop_zero(m);
            lemma_clear_lsb(m);
            lemma_pop_clear_lsb(m);
            lemma_lsb(m);
        }
        let lsb: u32 = m.trailing_zeros();
        let ghost old_m = m;
        m = m & (m - 1);
        let low: u64 = if index & (1usize << i) != 0 {
            1u64 << (lsb as u64)
        } else {
            0
        };
        proof {
            let rest = deposit(index, m, (i + 1) as u32, bits);
            assert(deposit(index, old_m, i, bits) == low | rest);
            lemma_or_assoc(result, low, rest);
        }
        result = result | low;
        i = i + 1;
    }
    proof {
        assert(deposit(index, m, i, bits) == 0);
        assert forall|t: u64| t < 64 implies #[trigger] bit(result | 0u64, t) == bit(result, t) by {
            lemma_bit_or(result, 0u64, t);
            lemma_bit_zero(t);
        }
        lemma_bits_ext(result | 0u64, result);
    }
    result
}

/// The magic numbers used to hash the relevant occupancy of each square.
fn magic_number(is_rook: bool, s: usize) -> (r: u64)
    requires
        s < 64,
{
    let rook: [u64; 64] = [
        0x0080001020400080, 0x0040001000200040, 0x0080081000200080, 0x0080040800100080,
        0x0080020400080080, 0x0080010200040080, 0x0080008001000200, 0x0080002040800100,
        0x0000800020400080, 0x0000400020005000, 0x0000801000200080, 0x0000800800100080,
        0x0000800400080080, 0x0000800200040080, 0x0000800100020080, 0x0000800040800100,
        0x0000208000400080, 0x0000404000201000, 0x0000808010002000, 0x0000808008001000,
        0x0000808004000800, 0x0000808002000400, 0x0000010100020004, 0x0000020000408104,
        0x0000208080004000, 0x0000200040005000, 0x0000100080200080, 0x0000080080100080,
        0x0000040080080080, 0x0000020080040080, 0x0000010080800200, 0x0000800080004100,
        0x0000204000800080, 0x0000200040401000, 0x0000100080802000, 0x0000080080801000,
        0x0000040080800800, 0x0000020080800400, 0x0000020001010004, 0x0000800040800100,
        0x0000204000808000, 0x0000200040008080, 0x0000100020008080, 0x0000080010008080,
        0x0000040008008080, 0x0000020004008080, 0x0000010002008080, 0x0000004081020004,
        0x0000204000800080, 0x0000200040008080, 0x0000100020008080, 0x0000080010008080,
        0x0000040008008080, 0x0000020004008080, 0x0000800100020080, 0x0000800041000080,
        0x00FFFCDDFCED714A, 0x007FFCDDFCED714A, 0x003FFFCDFFD88096, 0x0000040810002101,
        0x0001000204080011, 0x0001000204000801, 0x0001000082000401, 0x0001FFFAABFAD1A2,
    ];
    let bishop: [u64; 64] = [
        0x0002020202020200, 0x0002020202020000, 0x0004010202000000, 0x0004040080000000,
        0x0001104000000000, 0x0000821040000000, 0x0000410410400000, 0x0000104104104000,
        0x0000040404040400, 0x0000020202020200, 0x0000040102020000, 0x0000040400800000,
        0x0000011040000000, 0x0000008210400000, 0x0000004104104000, 0x0000002082082000,
        0x0004000808080800, 0x0002000404040400, 0x0001000202020200, 0x0000800802004000,
        0x0000800400A00000, 0x0000200100884000, 0x0000400082082000, 0x0000200041041000,
        0x0002080010101000, 0x0001040008080800, 0x0000208004010400, 0x0000404004010200,
        0x0000840000802000, 0x0000404002011000, 0x0000808001041000, 0x0000404000820800,
        0x0001041000202000, 0x0000820800101000, 0x0000104400080800, 0x0000020080080080,
        0x0000404040040100, 0x0000808100020100, 0x0001010100020800, 0x0000808080010400,
        0x0000820820004000, 0x0000410410002000, 0x0000082088001000, 0x0000002011000800,
        0x0000080100400400, 0x0001010101000200, 0x0002020202000400, 0x0001010101000200,
        0x0000410410400000, 0x0000208208200000, 0x0000002084100000, 0x0000000020880000,
        0x0000001002020000, 0x0000040408020000, 0x0004040404040000, 0x0002020202020000,
        0x0000104104104000, 0x0000002082082000, 0x0000000020841000, 0x0000000000208800,
        0x0000000010020200, 0x0000000404080200, 0x0000040404040400, 0x0002020202020200,
    ];
    if is_rook {
        rook[s]
    } else {
        bishop[s]
    }
}

/// The attacks of a rook (`is_rook`) or a bishop, walked along the rays.
fn slider_attacks(is_rook: bool, sq: Square, occupied: Bitboard) -> (r: Bitboard)
    ensures
        r == slider_spec(is_rook, sq as int, occupied),
{
    if is_rook {
        rook_attacks_bb(sq, occupied)
    } else {
        bishop_attacks_bb(sq, occupied)
    }
}

/// The magic hashing of one square's attacks, with its table.
pub struct Magic {
    pub square: Square,
    pub is_rook: bool,
    pub mask: Bitboard,
    pub magic: u64,
    pub shift: u32,
    pub attacks: Vec<Bitboard>,
    pub blockers: Vec<Bitboard>,
}

impl Magic {
    /// Every entry of the table is a valid entry for this square.
    pub open spec fn wf(&self) -> bool {
        &&& self.shift < 64
        &&& self.attacks@.len() == self.blockers@.len()
        &&& forall|i: int|
            0 <= i < self.attacks@.len() ==> entry_ok(
                self.is_rook,
                self.square as int,
                #[trigger] self.attacks@[i],
                self.blockers@[i],
            )
    }

    /// The table slot for the board `occupied`.
    pub fn index(&self, occupied: Bitboard) -> (r: usize)
        requires
            self.shift < 64,
        ensures
            r == (vstd::wrapping::u64_specs::wrapping_mul(occupied & self.mask, self.magic) >> self.shift) as usize,
    {
        let relevant = occupied & self.mask;
        (relevant.wrapping_mul(self.magic) >> self.shift) as usize
    }

    /// The attacks from this square over the board `occupied`: the table entry
    /// when it was made for this board's blockers, else the rays walked.
    pub fn attacks(&self, occupied: Bitboard) -> (r: Bitboard)
        requires
            self.wf(),
        ensures
            r == slider_spec(self.is_rook, self.square as int, occupied),
    {
        let idx = self.index(occupied);
        if idx < self.attacks.len() {
            let a = self.attacks[idx];
            if occupied & a == self.blockers[idx] {
                proof {
                    lemma_entry_hit(self.is_rook, self.square as int, a, self.blockers@[idx as int], occupied);
                }
                return a;
            }
        }
        slider_attacks(self.is_rook, self.square, occupied)
    }
}

/// The magic hashing of all 64 squares for rooks or for bishops.
pub struct MagicTable {
    pub is_rook: bool,
    pub magics: Vec<Magic>,
}

impl MagicTable {
    /// One valid magic per square, in square order, all of this table's piece.
    pub open spec fn wf(&self) -> bool {
        &&& self.magics@.len() == 64
        &&& forall|s: int|
            0 <= s < 64 ==> {
                &&& (#[trigger] self.magics@[s]).wf()
                &&& self.magics@[s].square as int == s
                &&& self.magics@[s].is_rook == self.is_rook
            }
    }

    /// What a lookup on `sq` over `occ` gives.
    pub open spec fn attacks_spec(&self, sq: int, occ: u64) -> u64 {
        slider_spec(self.is_rook, sq, occ)
    }

    /// The rook (`is_rook`) or bishop attacks from `sq` over `occupied`.
    pub fn attacks(&self, sq: Square, occupied: Bitboard) -> (r: Bitboard)
        requires
            self.wf(),
        ensures
            r == self.attacks_spec(sq as int, occupied),
    {
        let m = &self.magics[sq.index()];
        m.attacks(occupied)
    }
}

/// Builds the magic tables of every square for rooks (`is_rook`) or bishops:
/// the relevant squares of each square (its empty-board rays without the board
/// edges), and a table filled for every blocker pattern on them.
pub fn init_magics(is_rook: bool) -> (r: MagicTable)
    ensures
        r.wf(),
        r.is_rook == is_rook,
        forall|sq: int, occ: u64|
            #![trigger r.attacks_spec(sq, occ)]
            r.attacks_spec(sq, occ) == (if is_rook { rook_spec(sq, occ) } else { bishop_spec(sq, occ) }),
{
    let mut magics: Vec<Magic> = Vec::new();
    let mut s: usize = 0;
    while s < 64
        invariant
            s <= 64,
            magics@.len() == s,
            forall|j: int|
                0 <= j < s ==> {
                    &&& (#[trigger] magics@[j]).wf()
                    &&& magics@[j].square as int == j
                    &&& magics@[j].is_rook == is_rook
                },
        decreases 64 - s,
    {
        let magic = init_square(is_rook, s);
        magics.push(magic);
        s = s + 1;
    }
    MagicTable { is_rook, magics }
}

/// The magic of one square, with its table filled.
fn init_square(is_rook: bool, s: usize) -> (r: Magic)
    requires
        s < 64,
    ensures
        r.wf(),
        r.square as int == s,
        r.is_rook == is_rook,
{
    let sq = Square::from_index(s);
    let edges = ((RANK_1_BB | RANK_8_BB) & !rank_bb(sq.rank())) | ((FILE_A_BB | FILE_H_BB) & !file_bb(sq.file()));
    let empty = slider_attacks(is_rook, sq, 0);
    let mask = empty & !edges;
    let bits = popcount(mask);
    let magic = magic_number(is_rook, s);
    let mut attacks: Vec<Bitboard> = Vec::new();
    let mut blockers: Vec<Bitboard> = Vec::new();
    proof {
        lemma_entry_from(is_rook, s as int, 0u64);
        assert(0u64 & empty == 0u64) by {
            assert forall|i: u64| i < 64 implies #[trigger] bit(0u64 & empty, i) == bit(0u64, i) by {
                lemma_bit_and(0u64, empty, i);
                lemma_bit_zero(i);
            }
            lemma_bits_ext(0u64 & empty, 0u64);
        }
    }
    // A mask is never empty on a real board; with no relevant squares the
    // table stays empty and every lookup walks the rays.
    if bits == 0 || bits > 16 {
        return Magic { square: sq, is_rook, mask, magic, shift: 63, attacks, blockers };
    }
    let shift: u32 = 64 - bits;
    let size: usize = 1usize << bits;
    let mut k: usize = 0;
    while k < size
        invariant
            k <= size,
            attacks@.len() == k,
            blockers@.len() == k,
            sq as int == s,
            empty == slider_spec(is_rook, s as int, 0u64),
            entry_ok(is_rook, s as int, empty, 0u64),
            forall|i: int| 0 <= i < k ==> #[trigger] attacks@[i] == empty,
            forall|i: int| 0 <= i < k ==> #[trigger] blockers@[i] == 0u64,
        decreases size - k,
    {
        attacks.push(empty);
        blockers.push(0);
        k = k + 1;
    }
    let mut i: usize = 0;
    while i < size
        invariant
            i <= size,
            bits <= pop_count(mask),
            bits <= 16,
            shift < 64,
            sq as int == s,
            attacks@.len() == blockers@.len(),
            forall|j: int|
                0 <= j < attacks@.len() ==> entry_ok(is_rook, s as int, #[trigger] attacks@[j], blockers@[j]),
        decreases size - i,
    {
        let occ = index_to_bitboard(i, bits, mask);
        let a = slider_attacks(is_rook, sq, occ);
        let idx = (occ.wrapping_mul(magic) >> shift) as usize;
        if idx < attacks.len() {
            proof {
                lemma_entry_from(is_rook, s as int, occ);
            }
            attacks.set(idx, a);
            blockers.set(idx, occ & a);
        }
        i = i + 1;
    }
    Magic { square: sq, is_rook, mask, magic, shift, attacks, blockers }
}

} // verus!
