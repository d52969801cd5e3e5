//! Bitboards: single-square, file and rank sets, shifts, bit scans, and the
//! attack sets of every piece type.

use vstd::prelude::*;
use vstd::std_specs::bits::u64_trailing_zeros;
use vstd::std_specs::bits::u64_leading_zeros;
use vstd::std_specs::bits::axiom_u64_trailing_zeros;
use vstd::std_specs::bits::axiom_u64_leading_zeros;
use crate::types::Bitboard;
use crate::types::Color;
use crate::types::File;
use crate::types::Rank;
use crate::types::Square;
use crate::types::PieceType;
use crate::types::file_of;
use crate::types::rank_of;

verus! {

/// Bit `i` of `b`.
pub open spec fn bit(b: u64, i: u64) -> bool {
    (b >> i) & 1u64 == 1u64
}

/// Whether square number `s` is in the bitboard `b`.
pub open spec fn has(b: u64, s: int) -> bool {
    0 <= s < 64 && bit(b, s as u64)
}

pub proof fn lemma_bit_or(a: u64, b: u64, i: u64)
    requires
        i < 64,
    ensures
        bit(a | b, i) == (bit(a, i) || bit(b, i)),
{
    assert(((a | b) >> i) & 1u64 == 1u64 <==> ((a >> i) & 1u64 == 1u64 || (b >> i) & 1u64 == 1u64)) by (bit_vector)
        requires
            i < 64,
    ;
}

pub proof fn lemma_bit_and(a: u64, b: u64, i: u64)
    requires
        i < 64,
    ensures
        bit(a & b, i) == (bit(a, i) && bit(b, i)),
{
    assert(((a & b) >> i) & 1u64 == 1u64 <==> ((a >> i) & 1u64 == 1u64 && (b >> i) & 1u64 == 1u64)) by (bit_vector)
        requires
            i < 64,
    ;
}

pub proof fn lemma_bit_xor(a: u64, b: u64, i: u64)
    requires
        i < 64,
    ensures
        bit(a ^ b, i) == (bit(a, i) != bit(b, i)),
{
    assert(((a ^ b) >> i) & 1u64 == 1u64 <==> ((a >> i) & 1u64 == 1u64) != ((b >> i) & 1u64 == 1u64)) by (bit_vector)
        requires
            i < 64,
    ;
}

pub proof fn lemma_bit_not(a: u64, i: u64)
    requires
        i < 64,
    ensures
        bit(!a, i) == !bit(a, i),
{
    assert(((!a) >> i) & 1u64 == 1u64 <==> !((a >> i) & 1u64 == 1u64)) by (bit_vector)
        requires
            i < 64,
    ;
}

pub proof fn lemma_bit_single(s: u64, i: u64)
    requires
        i < 64,
        s < 64,
    ensures
        bit(1u64 << s, i) == (i == s),
{
    assert(((1u64 << s) >> i) & 1u64 == 1u64 <==> i == s) by (bit_vector)
        requires
            i < 64,
            s < 64,
    ;
}

pub proof fn lemma_bit_zero(i: u64)
    requires
        i < 64,
    ensures
        !bit(0u64, i),
{
    assert(!((0u64 >> i) & 1u64 == 1u64)) by (bit_vector);
}

/// Two bitboards with the same squares are equal.
pub proof fn lemma_bits_ext(a: u64, b: u64)
    requires
        forall|i: u64| i < 64 ==> #[trigger] bit(a, i) == bit(b, i),
    ensures
        a == b,
{
    let x = a ^ b;
    assert forall|i: u64| i < 64 implies (x >> i) & 1u64 == 0u64 by {
        lemma_bit_xor(a, b, i);
        assert((x >> i) & 1u64 != 1u64 ==> (x >> i) & 1u64 == 0u64) by (bit_vector);
    }
    lemma_zero_from_bits(x);
    assert(a ^ b == 0u64 ==> a == b) by (bit_vector);
}

proof fn lemma_zero_from_bits(x: u64)
    requires
        forall|i: u64| i < 64 ==> (x >> i) & 1u64 == 0u64,
    ensures
        x == 0,
{
    if x != 0 {
        axiom_u64_trailing_zeros(x);
        let t = u64_trailing_zeros(x) as u64;
        assert((x >> t) & 1u64 == 0u64);
    }
}

/// A bitboard is empty exactly when it holds no square.
pub proof fn lemma_empty_iff(b: u64)
    ensures
        b == 0 <==> forall|i: u64| i < 64 ==> !#[trigger] bit(b, i),
{
    if b == 0 {
        assert forall|i: u64| i < 64 implies !#[trigger] bit(b, i) by {
            lemma_bit_zero(i);
        }
    } else {
        axiom_u64_trailing_zeros(b);
        let t = u64_trailing_zeros(b) as u64;
        assert(bit(b, t));
    }
}

pub const FILE_A_BB: Bitboard = 0x0101010101010101;

pub const FILE_B_BB: Bitboard = 0x0202020202020202;

pub const FILE_C_BB: Bitboard = 0x0404040404040404;

pub const FILE_D_BB: Bitboard = 0x0808080808080808;

pub const FILE_E_BB: Bitboard = 0x1010101010101010;

pub const FILE_F_BB: Bitboard = 0x2020202020202020;

pub const FILE_G_BB: Bitboard = 0x4040404040404040;

pub const FILE_H_BB: Bitboard = 0x8080808080808080;

pub const RANK_1_BB: Bitboard = 0xFF;

pub const RANK_2_BB: Bitboard = 0xFF00;

pub const RANK_3_BB: Bitboard = 0xFF0000;

pub const RANK_4_BB: Bitboard = 0xFF000000;

pub const RANK_5_BB: Bitboard = 0xFF00000000;

pub const RANK_6_BB: Bitboard = 0xFF0000000000;

pub const RANK_7_BB: Bitboard = 0xFF000000000000;

pub const RANK_8_BB: Bitboard = 0xFF00000000000000;

/// The bitboard of the squares on file `f`.
pub open spec fn file_mask(f: int) -> u64 {
    if f == 0 {
        FILE_A_BB
    } else if f == 1 {
        FILE_B_BB
    } else if f == 2 {
        FILE_C_BB
    } else if f == 3 {
        FILE_D_BB
    } else if f == 4 {
        FILE_E_BB
    } else if f == 5 {
        FILE_F_BB
    } else if f == 6 {
        FILE_G_BB
    } else {
        FILE_H_BB
    }
}

/// The bitboard of the squares on rank `r`.
pub open spec fn rank_mask(r: int) -> u64 {
    if r == 0 {
        RANK_1_BB
    } else if r == 1 {
        RANK_2_BB
    } else if r == 2 {
        RANK_3_BB
    } else if r == 3 {
        RANK_4_BB
    } else if r == 4 {
        RANK_5_BB
    } else if r == 5 {
        RANK_6_BB
    } else if r == 6 {
        RANK_7_BB
    } else {
        RANK_8_BB
    }
}

pub proof fn lemma_file_mask(f: u64, i: u64)
    requires
        f < 8,
        i < 64,
    ensures
        bit(file_mask(f as int), i) == (i % 8 == f),
{
    let m = 0x0101010101010101u64;
    assert(((m << f) >> i) & 1u64 == 1u64 <==> i % 8 == f) by (bit_vector)
        requires
            f < 8,
            i < 64,
            m == 0x0101010101010101u64,
    ;
    assert(file_mask(f as int) == m << f) by (bit_vector)
        requires
            m == 0x0101010101010101u64,
            f < 8,
            f == 0 ==> file_mask(f as int) == 0x0101010101010101u64,
            f == 1 ==> file_mask(f as int) == 0x0202020202020202u64,
            f == 2 ==> file_mask(f as int) == 0x0404040404040404u64,
            f == 3 ==> file_mask(f as int) == 0x0808080808080808u64,
            f == 4 ==> file_mask(f as int) == 0x1010101010101010u64,
            f == 5 ==> file_mask(f as int) == 0x2020202020202020u64,
            f == 6 ==> file_mask(f as int) == 0x4040404040404040u64,
            f == 7 ==> file_mask(f as int) == 0x8080808080808080u64,
    ;
}

pub proof fn lemma_rank_mask(r: u64, i: u64)
    requires
        r < 8,
        i < 64,
    ensures
        bit(rank_mask(r as int), i) == (i / 8 == r),
{
    let m = 0xFFu64;
    assert(((m << (8 * r)) >> i) & 1u64 == 1u64 <==> i / 8 == r) by (bit_vector)
        requires
            r < 8,
            i < 64,
            m == 0xFFu64,
    ;
    assert(rank_mask(r as int) == m << (8 * r)) by (bit_vector)
        requires
            m == 0xFFu64,
            r < 8,
            r == 0 ==> rank_mask(r as int) == 0xFFu64,
            r == 1 ==> rank_mask(r as int) == 0xFF00u64,
            r == 2 ==> rank_mask(r as int) == 0xFF0000u64,
            r == 3 ==> rank_mask(r as int) == 0xFF000000u64,
            r == 4 ==> rank_mask(r as int) == 0xFF00000000u64,
            r == 5 ==> rank_mask(r as int) == 0xFF0000000000u64,
            r == 6 ==> rank_mask(r as int) == 0xFF000000000000u64,
            r == 7 ==> rank_mask(r as int) == 0xFF00000000000000u64,
    ;
}

/// The bitboard holding only `sq`.
pub fn square_bb(sq: Square) -> (r: Bitboard)
    ensures
        r == 1u64 << (sq as u64),
        forall|i: u64| i < 64 ==> (#[trigger] bit(r, i) <==> i == sq as u64),
{
    proof {
        let s = sq as u64;
        assert forall|i: u64| i < 64 implies (#[trigger] bit(1u64 << s, i) <==> i == s) by {
            lemma_bit_single(s, i);
        }
    }
    1u64 << (sq.index() as u64)
}

/// The bitboard of a file.
pub fn file_bb(file: File) -> (r: Bitboard)
    ensures
        r == file_mask(file as int),
        forall|i: u64| i < 64 ==> (#[trigger] bit(r, i) <==> i % 8 == file as u64),
{
    proof {
        let f = file as u64;
        let m = file_mask(file as int);
        assert forall|i: u64| i < 64 implies (#[trigger] bit(m, i) <==> i % 8 == f) by {
            lemma_file_mask(f, i);
        }
    }
    match file {
        File::A => FILE_A_BB,
        File::B => FILE_B_BB,
        File::C => FILE_C_BB,
        File::D => FILE_D_BB,
        File::E => FILE_E_BB,
        File::F => FILE_F_BB,
        File::G => FILE_G_BB,
        File::H => FILE_H_BB,
    }
}

/// The bitboard of a rank.
pub fn rank_bb(rank: Rank) -> (r: Bitboard)
    ensures
        r == rank_mask(rank as int),
        forall|i: u64| i < 64 ==> (#[trigger] bit(r, i) <==> i / 8 == rank as u64),
{
    proof {
        let rr = rank as u64;
        let m = rank_mask(rank as int);
        assert forall|i: u64| i < 64 implies (#[trigger] bit(m, i) <==> i / 8 == rr) by {
            lemma_rank_mask(rr, i);
        }
    }
    match rank {
        Rank::R1 => RANK_1_BB,
        Rank::R2 => RANK_2_BB,
        Rank::R3 => RANK_3_BB,
        Rank::R4 => RANK_4_BB,
        Rank::R5 => RANK_5_BB,
        Rank::R6 => RANK_6_BB,
        Rank::R7 => RANK_7_BB,
        Rank::R8 => RANK_8_BB,
    }
}

/// The number of squares in a bitboard.
pub open spec fn pop_count(b: u64) -> nat
    decreases b,
{
    if b == 0 {
        0
    } else {
        (b % 2) as nat + pop_count(b / 2)
    }
}

proof fn lemma_pop_step(x: u64)
    ensures
        pop_count(x) == (x & 1) as nat + pop_count(x >> 1),
        x >> 1 <= x,
{
    assert(x >> 1 == x / 2) by (bit_vector);
    assert(x & 1 == x % 2) by (bit_vector);
}

/// The number of squares in `b`.
pub fn popcount(b: Bitboard) -> (r: u32)
    ensures
        r == pop_count(b),
        r <= 64,
{
    let mut x = b;
    let mut count: u32 = 0;
    let mut i: u32 = 0;
    proof {
        assert(b >> 0u64 == b) by (bit_vector);
    }
    while i < 64
        invariant
            i <= 64,
            count <= i,
            count + pop_count(x) == pop_count(b),
            x == b >> (i as u64),
        decreases 64 - i,
    {
        proof {
            lemma_pop_step(x);
            assert((b >> (i as u64)) >> 1u64 == b >> ((i + 1) as u64)) by (bit_vector)
                requires
                    i < 64,
            ;
            assert(x & 1 <= 1) by (bit_vector);
        }
        count = count + (x & 1) as u32;
        x = x >> 1;
        i = i + 1;
    }
    proof {
        assert(b >> 64u64 == 0u64) by (bit_vector);
    }
    count
}

/// The lowest square of a non-empty bitboard.
pub open spec fn lsb_spec(b: u64) -> int {
    u64_trailing_zeros(b) as int
}

/// The highest square of a non-empty bitboard.
pub open spec fn msb_spec(b: u64) -> int {
    63 - u64_leading_zeros(b)
}

pub proof fn lemma_lsb(b: u64)
    requires
        b != 0,
    ensures
        0 <= lsb_spec(b) < 64,
        has(b, lsb_spec(b)),
        forall|i: u64| i < lsb_spec(b) ==> !#[trigger] bit(b, i),
{
    axiom_u64_trailing_zeros(b);
    let t = u64_trailing_zeros(b);
    assert forall|i: u64| i < lsb_spec(b) implies !#[trigger] bit(b, i) by {
        assert((b >> i) & 1u64 == 0u64);
    }
}

pub proof fn lemma_msb(b: u64)
    requires
        b != 0,
    ensures
        0 <= msb_spec(b) < 64,
        has(b, msb_spec(b)),
        forall|i: u64| msb_spec(b) < i < 64 ==> !#[trigger] bit(b, i),
{
    axiom_u64_leading_zeros(b);
    let z = u64_leading_zeros(b) as u64;
    assert((b >> ((63 - z) as u64)) & 1u64 != 0u64);
    assert((b >> ((63 - z) as u64)) & 1u64 != 0u64 ==> (b >> ((63 - z) as u64)) & 1u64 == 1u64) by (bit_vector);
    assert forall|i: u64| msb_spec(b) < i < 64 implies !#[trigger] bit(b, i) by {
        assert((b >> i) & 1u64 == 0u64);
    }
}

/// The lowest square of a non-empty bitboard.
pub fn lsb(b: Bitboard) -> (r: Square)
    requires
        b != 0,
    ensures
        r as int == lsb_spec(b),
        has(b, r as int),
        forall|i: u64| i < r as u64 ==> !#[trigger] bit(b, i),
{
    proof {
        lemma_lsb(b);
    }
    Square::from_index(b.trailing_zeros() as usize)
}

/// The highest square of a non-empty bitboard.
pub fn msb(b: Bitboard) -> (r: Square)
    requires
        b != 0,
    ensures
        r as int == msb_spec(b),
        has(b, r as int),
        forall|i: u64| (r as u64) < i < 64 ==> !#[trigger] bit(b, i),
{
    proof {
        lemma_msb(b);
    }
    Square::from_index(63 - b.leading_zeros() as usize)
}

/// `b` without its lowest square.
pub open spec fn clear_lsb(b: u64) -> u64 {
    if b == 0 {
        0
    } else {
        b & ((b - 1) as u64)
    }
}

pub proof fn lemma_clear_lsb(b: u64)
    requires
        b != 0,
    ensures
        clear_lsb(b) < b,
        forall|i: u64| i < 64 ==> (#[trigger] bit(clear_lsb(b), i) <==> (bit(b, i) && i != lsb_spec(b))),
{
    lemma_lsb(b);
    axiom_u64_trailing_zeros(b);
    let t = lsb_spec(b) as u64;
    assert(b << ((64 - t) as u64) == 0u64);
    assert((b & ((b - 1) as u64)) < b) by (bit_vector)
        requires
            b != 0,
    ;
    assert forall|i: u64| i < 64 implies (#[trigger] bit(clear_lsb(b), i) <==> (bit(b, i) && i != t)) by {
        assert(((b & ((b - 1) as u64)) >> i) & 1u64 == 1u64 <==> ((b >> i) & 1u64 == 1u64 && i != t)) by (bit_vector)
            requires
                b != 0,
                i < 64,
                t < 64,
                (b >> t) & 1u64 == 1u64,
                b << ((64 - t) as u64) == 0u64,
        ;
    }
}

/// Removes and returns the lowest square of a non-empty bitboard.
pub fn pop_lsb(b: &mut Bitboard) -> (r: Square)
    requires
        *old(b) != 0,
    ensures
        r as int == lsb_spec(*old(b)),
        has(*old(b), r as int),
        *final(b) == clear_lsb(*old(b)),
        forall|i: u64| i < 64 ==> (#[trigger] bit(*final(b), i) <==> (bit(*old(b), i) && i != r as u64)),
{
    proof {
        lemma_clear_lsb(*b);
    }
    let sq = lsb(*b);
    *b &= *b - 1;
    sq
}

/// Whether a non-empty bitboard holds two squares or more.
pub fn more_than_one(b: Bitboard) -> (r: bool)
    requires
        b != 0,
    ensures
        r == (pop_count(b) > 1),
{
    proof {
        lemma_clear_lsb(b);
        lemma_pop_clear_lsb(b);
        lemma_pop_zero(clear_lsb(b));
    }
    b & (b - 1) != 0
}

pub proof fn lemma_pop_zero(b: u64)
    ensures
        pop_count(b) == 0 <==> b == 0,
    decreases b,
{
    if b != 0 {
        assert(b / 2 < b);
        lemma_pop_zero(b / 2);
        if b % 2 == 0 {
            assert(b / 2 != 0);
        }
    }
}

/// Removing the lowest square lowers the count by one.
pub proof fn lemma_pop_clear_lsb(b: u64)
    requires
        b != 0,
    ensures
        pop_count(b) == 1 + pop_count(clear_lsb(b)),
    decreases b,
{
    let c = clear_lsb(b);
    if b % 2 == 1 {
        assert(c == b - 1) by (bit_vector)
            requires
                b % 2 == 1,
                c == b & ((b - 1) as u64),
        ;
        assert((b - 1) as u64 / 2 == b / 2);
        assert(pop_count(c) == pop_count(b / 2));
    } else {
        let h = b / 2;
        assert(h != 0);
        assert(c / 2 == h & ((h - 1) as u64) && c % 2 == 0) by (bit_vector)
            requires
                b % 2 == 0,
                b != 0,
                h == b / 2,
                c == b & ((b - 1) as u64),
        ;
        lemma_pop_clear_lsb(h);
        if c != 0 {
            assert(pop_count(c) == pop_count(c / 2));
        } else {
            assert(clear_lsb(h) == 0);
        }
    }
}


pub proof fn lemma_shl_bit(b: u64, k: u64, i: u64)
    requires
        k < 64,
        i < 64,
    ensures
        bit(b << k, i) == (i >= k && bit(b, (i - k) as u64)),
{
    assert(((b << k) >> i) & 1u64 == 1u64 <==> (i >= k && (b >> ((i - k) as u64)) & 1u64 == 1u64)) by (bit_vector)
        requires
            k < 64,
            i < 64,
    ;
}

pub proof fn lemma_shr_bit(b: u64, k: u64, i: u64)
    requires
        k < 64,
        i < 64,
    ensures
        bit(b >> k, i) == (i + k < 64 && bit(b, (i + k) as u64)),
{
    assert(((b >> k) >> i) & 1u64 == 1u64 <==> (i + k < 64 && (b >> ((i + k) as u64)) & 1u64 == 1u64)) by (bit_vector)
        requires
            k < 64,
            i < 64,
    ;
}

/// Bits of `b` off file h (`off_h`) or off file a.
pub proof fn lemma_off_file(b: u64, i: u64)
    requires
        i < 64,
    ensures
        bit(b & !FILE_H_BB, i) == (bit(b, i) && i % 8 != 7),
        bit(b & !FILE_A_BB, i) == (bit(b, i) && i % 8 != 0),
{
    lemma_bit_and(b, !FILE_H_BB, i);
    lemma_bit_and(b, !FILE_A_BB, i);
    lemma_bit_not(FILE_H_BB, i);
    lemma_bit_not(FILE_A_BB, i);
    lemma_file_mask(7, i);
    lemma_file_mask(0, i);
}

/// The squares one step north of those of `b`, and so on for each direction.
pub open spec fn sh_north(b: u64) -> u64 {
    b << 8u64
}

pub open spec fn sh_south(b: u64) -> u64 {
    b >> 8u64
}

pub open spec fn sh_east(b: u64) -> u64 {
    (b & !FILE_H_BB) << 1u64
}

pub open spec fn sh_west(b: u64) -> u64 {
    (b & !FILE_A_BB) >> 1u64
}

pub open spec fn sh_north_east(b: u64) -> u64 {
    (b & !FILE_H_BB) << 9u64
}

pub open spec fn sh_north_west(b: u64) -> u64 {
    (b & !FILE_A_BB) << 7u64
}

pub open spec fn sh_south_east(b: u64) -> u64 {
    (b & !FILE_H_BB) >> 7u64
}

pub open spec fn sh_south_west(b: u64) -> u64 {
    (b & !FILE_A_BB) >> 9u64
}

pub fn shift_north(b: Bitboard) -> (r: Bitboard)
    ensures
        r == sh_north(b),
        forall|i: u64| i < 64 ==> (#[trigger] bit(r, i) <==> (i >= 8 && bit(b, (i - 8) as u64))),
{
    proof {
        assert forall|i: u64| i < 64 implies (#[trigger] bit(b << 8u64, i) <==> (i >= 8 && bit(b, (i - 8) as u64))) by {
            lemma_shl_bit(b, 8, i);
        }
    }
    b << 8
}

pub fn shift_south(b: Bitboard) -> (r: Bitboard)
    ensures
        r == sh_south(b),
        forall|i: u64| i < 64 ==> (#[trigger] bit(r, i) <==> (i < 56 && bit(b, (i + 8) as u64))),
{
    proof {
        assert forall|i: u64| i < 64 implies (#[trigger] bit(b >> 8u64, i) <==> (i < 56 && bit(b, (i + 8) as u64))) by {
            lemma_shr_bit(b, 8, i);
        }
    }
    b >> 8
}

pub fn shift_east(b: Bitboard) -> (r: Bitboard)
    ensures
        r == sh_east(b),
        forall|i: u64| i < 64 ==> (#[trigger] bit(r, i) <==> (i % 8 != 0 && bit(b, (i - 1) as u64))),
{
    proof {
        let m = b & !FILE_H_BB;
        assert forall|i: u64| i < 64 implies (#[trigger] bit(m << 1u64, i) <==> (i % 8 != 0 && bit(b, (i - 1) as u64))) by {
            lemma_shl_bit(m, 1, i);
            if i >= 1 {
                lemma_off_file(b, (i - 1) as u64);
            }
        }
    }
    (b & !FILE_H_BB) << 1
}

pub fn shift_west(b: Bitboard) -> (r: Bitboard)
    ensures
        r == sh_west(b),
        forall|i: u64| i < 64 ==> (#[trigger] bit(r, i) <==> (i % 8 != 7 && bit(b, (i + 1) as u64))),
{
    proof {
        let m = b & !FILE_A_BB;
        assert forall|i: u64| i < 64 implies (#[trigger] bit(m >> 1u64, i) <==> (i % 8 != 7 && bit(b, (i + 1) as u64))) by {
            lemma_shr_bit(m, 1, i);
            if i < 63 {
                lemma_off_file(b, (i + 1) as u64);
            }
        }
    }
    (b & !FILE_A_BB) >> 1
}

pub fn shift_north_east(b: Bitboard) -> (r: Bitboard)
    ensures
        r == sh_north_east(b),
        forall|i: u64| i < 64 ==> (#[trigger] bit(r, i) <==> (i >= 9 && i % 8 != 0 && bit(b, (i - 9) as u64))),
{
    proof {
        let m = b & !FILE_H_BB;
        assert forall|i: u64| i < 64 implies (#[trigger] bit(m << 9u64, i) <==> (i >= 9 && i % 8 != 0 && bit(b, (i - 9) as u64))) by {
            lemma_shl_bit(m, 9, i);
            if i >= 9 {
                lemma_off_file(b, (i - 9) as u64);
            }
        }
    }
    (b & !FILE_H_BB) << 9
}

pub fn shift_north_west(b: Bitboard) -> (r: Bitboard)
    ensures
        r == sh_north_west(b),
        forall|i: u64| i < 64 ==> (#[trigger] bit(r, i) <==> (i >= 7 && i % 8 != 7 && bit(b, (i - 7) as u64))),
{
    proof {
        let m = b & !FILE_A_BB;
        assert forall|i: u64| i < 64 implies (#[trigger] bit(m << 7u64, i) <==> (i >= 7 && i % 8 != 7 && bit(b, (i - 7) as u64))) by {
            lemma_shl_bit(m, 7, i);
            if i >= 7 {
                lemma_off_file(b, (i - 7) as u64);
            }
        }
    }
    (b & !FILE_A_BB) << 7
}

pub fn shift_south_east(b: Bitboard) -> (r: Bitboard)
    ensures
        r == sh_south_east(b),
        forall|i: u64| i < 64 ==> (#[trigger] bit(r, i) <==> (i < 57 && i % 8 != 0 && bit(b, (i + 7) as u64))),
{
    proof {
        let m = b & !FILE_H_BB;
        assert forall|i: u64| i < 64 implies (#[trigger] bit(m >> 7u64, i) <==> (i < 57 && i % 8 != 0 && bit(b, (i + 7) as u64))) by {
            lemma_shr_bit(m, 7, i);
            if i < 57 {
                lemma_off_file(b, (i + 7) as u64);
            }
        }
    }
    (b & !FILE_H_BB) >> 7
}

pub fn shift_south_west(b: Bitboard) -> (r: Bitboard)
    ensures
        r == sh_south_west(b),
        forall|i: u64| i < 64 ==> (#[trigger] bit(r, i) <==> (i < 55 && i % 8 != 7 && bit(b, (i + 9) as u64))),
{
    proof {
        let m = b & !FILE_A_BB;
        assert forall|i: u64| i < 64 implies (#[trigger] bit(m >> 9u64, i) <==> (i < 55 && i % 8 != 7 && bit(b, (i + 9) as u64))) by {
            lemma_shr_bit(m, 9, i);
            if i < 55 {
                lemma_off_file(b, (i + 9) as u64);
            }
        }
    }
    (b & !FILE_A_BB) >> 9
}

/// The squares attacked by pawns of `color` standing on `pawns`.
pub open spec fn pawn_attacks_spec(color: Color, pawns: u64) -> u64 {
    match color {
        Color::White => sh_north_east(pawns) | sh_north_west(pawns),
        Color::Black => sh_south_east(pawns) | sh_south_west(pawns),
    }
}

pub fn pawn_attacks_bb(color: Color, pawns: Bitboard) -> (r: Bitboard)
    ensures
        r == pawn_attacks_spec(color, pawns),
{
    match color {
        Color::White => shift_north_east(pawns) | shift_north_west(pawns),
        Color::Black => shift_south_east(pawns) | shift_south_west(pawns),
    }
}


/// The file step and the rank step of a board direction given as a square-number delta.
pub open spec fn delta_df(delta: int) -> int {
    if delta == 1 || delta == 9 || delta == -7 {
        1
    } else if delta == -1 || delta == -9 || delta == 7 {
        -1
    } else {
        0
    }
}

pub open spec fn delta_dr(delta: int) -> int {
    if delta == 8 || delta == 9 || delta == 7 {
        1
    } else if delta == -8 || delta == -9 || delta == -7 {
        -1
    } else {
        0
    }
}

/// The eight one-step directions.
pub open spec fn valid_delta(delta: int) -> bool {
    delta == 8 || delta == -8 || delta == 1 || delta == -1 || delta == 9 || delta == -9 || delta == 7
        || delta == -7
}

pub open spec fn on_board(f: int, r: int) -> bool {
    0 <= f < 8 && 0 <= r < 8
}

/// The squares a slider on (f, r) reaches walking (df, dr) at most `n` steps
/// over the board `occ`: every square up to and including the first occupied one.
pub open spec fn ray(occ: u64, f: int, r: int, df: int, dr: int, n: nat) -> u64
    decreases n,
{
    if n == 0 || !on_board(f + df, r + dr) {
        0
    } else {
        let t = 8 * (r + dr) + (f + df);
        let b = 1u64 << (t as u64);
        if has(occ, t) {
            b
        } else {
            b | ray(occ, f + df, r + dr, df, dr, (n - 1) as nat)
        }
    }
}

/// The ray from square `s` in the direction `delta`.
pub open spec fn ray_from(occ: u64, s: int, delta: int) -> u64 {
    ray(occ, file_of(s), rank_of(s), delta_df(delta), delta_dr(delta), 7)
}

/// The union of the rays from `s` in the first `n` of `dirs`.
pub open spec fn slide_spec(occ: u64, s: int, dirs: Seq<i8>, n: nat) -> u64
    decreases n,
{
    if n == 0 {
        0
    } else {
        slide_spec(occ, s, dirs, (n - 1) as nat) | ray_from(occ, s, dirs[n - 1] as int)
    }
}

/// The squares a rook on `s` attacks over the board `occ`.
pub open spec fn rook_spec(s: int, occ: u64) -> u64 {
    (((0u64 | ray_from(occ, s, 8)) | ray_from(occ, s, -8)) | ray_from(occ, s, 1)) | ray_from(occ, s, -1)
}

/// The squares a bishop on `s` attacks over the board `occ`.
pub open spec fn bishop_spec(s: int, occ: u64) -> u64 {
    (((0u64 | ray_from(occ, s, 9)) | ray_from(occ, s, -9)) | ray_from(occ, s, 7)) | ray_from(occ, s, -7)
}

proof fn lemma_step(s: int, delta: int)
    requires
        0 <= s < 64,
        valid_delta(delta),
    ensures
        ({
            let t = s + delta;
            let f = file_of(s);
            let r = rank_of(s);
            let horizontal = delta == 1 || delta == -1 || delta == 9 || delta == -9 || delta == 7 || delta == -7;
            let ok = 0 <= t < 64 && !(horizontal && (f - t % 8 > 1 || t % 8 - f > 1));
            &&& ok == on_board(f + delta_df(delta), r + delta_dr(delta))
            &&& ok ==> t == 8 * (r + delta_dr(delta)) + f + delta_df(delta)
        }),
{
}

pub proof fn lemma_or_assoc(a: u64, b: u64, c: u64)
    ensures
        (a | b) | c == a | (b | c),
        a | 0 == a,
{
    assert((a | b) | c == a | (b | c)) by (bit_vector);
    assert(a | 0 == a) by (bit_vector);
}

/// The squares reached from `sq` along each direction in `directions` over the board `occupied`.
#[verifier::rlimit(50)]
fn sliding_attack(sq: Square, occupied: Bitboard, directions: &[i8]) -> (r: Bitboard)
    requires
        forall|j: int| 0 <= j < directions@.len() ==> valid_delta(#[trigger] directions@[j] as int),
    ensures
        r == slide_spec(occupied, sq as int, directions@, directions@.len() as nat),
{
    let mut attacks: u64 = 0;
    let mut d: usize = 0;
    while d < directions.len()
        invariant
            d <= directions@.len(),
            forall|j: int| 0 <= j < directions@.len() ==> valid_delta(#[trigger] directions@[j] as int),
            attacks == slide_spec(occupied, sq as int, directions@, d as nat),
        decreases directions@.len() - d,
    {
        let delta = directions[d];
        let ghost df = delta_df(delta as int);
        let ghost dr = delta_dr(delta as int);
        let ghost start = attacks;
        let ghost mut k: nat = 0;
        let mut s: i8 = sq.index() as i8;
        proof {
            assert(delta_df(delta as int) == df);
        }
        loop
            invariant_except_break
                valid_delta(delta as int),
                df == delta_df(delta as int),
                dr == delta_dr(delta as int),
                0 <= s < 64,
                k <= 7,
                df == 1 ==> file_of(s as int) >= k,
                df == -1 ==> file_of(s as int) <= 7 - k,
                dr == 1 ==> rank_of(s as int) >= k,
                dr == -1 ==> rank_of(s as int) <= 7 - k,
                attacks | ray(occupied, file_of(s as int), rank_of(s as int), df, dr, (7 - k) as nat)
                    == start | ray_from(occupied, sq as int, delta as int),
            ensures
                attacks == start | ray_from(occupied, sq as int, delta as int),
            decreases 7 - k,
        {
            proof {
                lemma_step(s as int, delta as int);
            }
            let ghost fs = file_of(s as int);
            let ghost rs = rank_of(s as int);
            let from_file: i8 = s % 8;
            s = s + delta;
            if s < 0 || s >= 64 {
                proof {
                    lemma_or_assoc(attacks, 0, 0);
                }
                break;
            }
            let to_file: i8 = s % 8;
            let diff: i8 = if from_file > to_file { from_file - to_file } else { to_file - from_file };
            if (delta == 1 || delta == -1 || delta == 9 || delta == -9 || delta == 7 || delta == -7) && diff > 1 {
                proof {
                    lemma_or_assoc(attacks, 0, 0);
                }
                break;
            }
            proof {
                assert(k < 7) by {
                    if k == 7 {
                        assert(df != 0 || dr != 0);
                    }
                }
                let b = 1u64 << (s as u64);
                let rest = ray(occupied, fs + df, rs + dr, df, dr, (7 - k - 1) as nat);
                lemma_or_assoc(attacks, b, rest);
            }
            attacks = attacks | (1u64 << (s as u64));
            proof {
                k = k + 1;
            }
            if occupied & (1u64 << (s as u64)) != 0 {
                proof {
                    lemma_bit_and(occupied, 1u64 << (s as u64), s as u64);
                    lemma_bit_single(s as u64, s as u64);
                    assert(occupied & (1u64 << (s as u64)) != 0 ==> has(occupied, s as int)) by {
                        let t = s as u64;
                        assert(occupied & (1u64 << t) != 0 ==> (occupied >> t) & 1u64 == 1u64) by (bit_vector)
                            requires
                                t < 64,
                        ;
                    }
                }
                break;
            } else {
                proof {
                    let t = s as u64;
                    assert(occupied & (1u64 << t) == 0 ==> (occupied >> t) & 1u64 != 1u64) by (bit_vector)
                        requires
                            t < 64,
                    ;
                }
            }
        }
        d = d + 1;
    }
    attacks
}


fn rook_attack(sq: Square, occupied: Bitboard) -> (r: Bitboard)
    ensures
        r == rook_spec(sq as int, occupied),
{
    let dirs: [i8; 4] = [8, -8, 1, -1];
    proof {
        reveal_with_fuel(slide_spec, 5);
    }
    sliding_attack(sq, occupied, &dirs)
}

fn bishop_attack(sq: Square, occupied: Bitboard) -> (r: Bitboard)
    ensures
        r == bishop_spec(sq as int, occupied),
{
    let dirs: [i8; 4] = [9, -9, 7, -7];
    proof {
        reveal_with_fuel(slide_spec, 5);
    }
    sliding_attack(sq, occupied, &dirs)
}

/// Bishop attacks from `sq` over the board `occupied`.
pub fn bishop_attacks_bb(sq: Square, occupied: Bitboard) -> (r: Bitboard)
    ensures
        r == bishop_spec(sq as int, occupied),
{
    bishop_attack(sq, occupied)
}

/// Rook attacks from `sq` over the board `occupied`.
pub fn rook_attacks_bb(sq: Square, occupied: Bitboard) -> (r: Bitboard)
    ensures
        r == rook_spec(sq as int, occupied),
{
    rook_attack(sq, occupied)
}

/// Queen attacks: bishop and rook attacks together.
pub fn queen_attacks_bb(sq: Square, occupied: Bitboard) -> (r: Bitboard)
    ensures
        r == bishop_spec(sq as int, occupied) | rook_spec(sq as int, occupied),
{
    bishop_attacks_bb(sq, occupied) | rook_attacks_bb(sq, occupied)
}

/// Chebyshev distance between two squares.
pub open spec fn dist(a: int, b: int) -> int {
    let df = if file_of(a) > file_of(b) { file_of(a) - file_of(b) } else { file_of(b) - file_of(a) };
    let dr = if rank_of(a) > rank_of(b) { rank_of(a) - rank_of(b) } else { rank_of(b) - rank_of(a) };
    if df > dr { df } else { dr }
}

/// The distance between two squares: the larger of the file and rank distances.
pub fn distance(sq1: Square, sq2: Square) -> (r: u8)
    ensures
        r == dist(sq1 as int, sq2 as int),
{
    let f1 = (sq1.index() % 8) as u8;
    let f2 = (sq2.index() % 8) as u8;
    let r1 = (sq1.index() / 8) as u8;
    let r2 = (sq2.index() / 8) as u8;
    let file_dist = if f1 > f2 { f1 - f2 } else { f2 - f1 };
    let rank_dist = if r1 > r2 { r1 - r2 } else { r2 - r1 };
    if file_dist > rank_dist { file_dist } else { rank_dist }
}

/// The square `s + delta` as a bitboard when it is on the board at most two
/// files and ranks away from `s`, else the empty bitboard.
pub open spec fn jump(s: int, delta: int) -> u64 {
    if 0 <= s + delta < 64 && dist(s, s + delta) <= 2 {
        1u64 << ((s + delta) as u64)
    } else {
        0
    }
}

pub open spec fn jumps_spec(s: int, deltas: Seq<i8>, n: nat) -> u64
    decreases n,
{
    if n == 0 {
        0
    } else {
        jumps_spec(s, deltas, (n - 1) as nat) | jump(s, deltas[n - 1] as int)
    }
}

/// The squares a knight on `s` attacks.
pub open spec fn knight_spec(s: int) -> u64 {
    jumps_spec(s, seq![-17i8, -15i8, -10i8, -6i8, 6i8, 10i8, 15i8, 17i8], 8)
}

/// The squares a king on `s` attacks.
pub open spec fn king_spec(s: int) -> u64 {
    jumps_spec(s, seq![-9i8, -8i8, -7i8, -1i8, 1i8, 7i8, 8i8, 9i8], 8)
}

/// The square `delta` away from `sq` when it is on the board and close by.
fn jump_bb(sq: Square, delta: i8) -> (r: Bitboard)
    requires
        -17 <= delta <= 17,
    ensures
        r == jump(sq as int, delta as int),
{
    if let Some(to) = sq.offset(delta) {
        let d = distance(sq, to);
        if d <= 2 {
            return square_bb(to);
        }
    }
    0
}

fn jump_attacks(sq: Square, deltas: &[i8]) -> (r: Bitboard)
    requires
        forall|j: int| 0 <= j < deltas@.len() ==> -17 <= #[trigger] deltas@[j] <= 17,
    ensures
        r == jumps_spec(sq as int, deltas@, deltas@.len() as nat),
{
    let mut attacks: u64 = 0;
    let mut i: usize = 0;
    while i < deltas.len()
        invariant
            i <= deltas@.len(),
            forall|j: int| 0 <= j < deltas@.len() ==> -17 <= #[trigger] deltas@[j] <= 17,
            attacks == jumps_spec(sq as int, deltas@, i as nat),
        decreases deltas@.len() - i,
    {
        let delta = deltas[i];
        let step = jump_bb(sq, delta);
        attacks = attacks | step;
        i = i + 1;
    }
    attacks
}

/// The squares a knight on `sq` attacks.
pub fn knight_attacks_bb(sq: Square) -> (r: Bitboard)
    ensures
        r == knight_spec(sq as int),
{
    let deltas: [i8; 8] = [-17, -15, -10, -6, 6, 10, 15, 17];
    proof {
        assert(deltas@ == seq![-17i8, -15i8, -10i8, -6i8, 6i8, 10i8, 15i8, 17i8]);
    }
    jump_attacks(sq, &deltas)
}

/// The squares a king on `sq` attacks.
pub fn king_attacks_bb(sq: Square) -> (r: Bitboard)
    ensures
        r == king_spec(sq as int),
{
    let deltas: [i8; 8] = [-9, -8, -7, -1, 1, 7, 8, 9];
    proof {
        assert(deltas@ == seq![-9i8, -8i8, -7i8, -1i8, 1i8, 7i8, 8i8, 9i8]);
    }
    jump_attacks(sq, &deltas)
}

/// The squares a pawn of `color` on `sq` attacks.
pub fn pawn_attacks_bb_sq(color: Color, sq: Square) -> (r: Bitboard)
    ensures
        r == pawn_attacks_spec(color, 1u64 << (sq as u64)),
{
    pawn_attacks_bb(color, square_bb(sq))
}

/// The whole line through two squares on a common rank, file or diagonal
/// (both included), else the empty bitboard.
pub open spec fn line_spec(s1: int, s2: int) -> u64 {
    let b1 = 1u64 << (s1 as u64);
    let b2 = 1u64 << (s2 as u64);
    if has(rook_spec(s1, 0), s2) {
        (rook_spec(s1, 0) & rook_spec(s2, 0)) | b1 | b2
    } else if has(bishop_spec(s1, 0), s2) {
        (bishop_spec(s1, 0) & bishop_spec(s2, 0)) | b1 | b2
    } else {
        0
    }
}

/// The squares strictly between two aligned squares, together with `s2`;
/// only `s2` when they are not aligned.
pub open spec fn between_spec(s1: int, s2: int) -> u64 {
    let b1 = 1u64 << (s1 as u64);
    let b2 = 1u64 << (s2 as u64);
    if has(rook_spec(s1, 0), s2) {
        (rook_spec(s1, b2) & rook_spec(s2, b1)) | b2
    } else if has(bishop_spec(s1, 0), s2) {
        (bishop_spec(s1, b2) & bishop_spec(s2, b1)) | b2
    } else {
        b2
    }
}

proof fn lemma_has_and_single(b: u64, s: u64)
    requires
        s < 64,
    ensures
        (b & (1u64 << s) != 0) == has(b, s as int),
{
    assert((b & (1u64 << s) != 0) == ((b >> s) & 1u64 == 1u64)) by (bit_vector)
        requires
            s < 64,
    ;
}

/// The line through two squares.
pub fn line_bb(sq1: Square, sq2: Square) -> (r: Bitboard)
    ensures
        r == line_spec(sq1 as int, sq2 as int),
{
    let b1 = square_bb(sq1);
    let b2 = square_bb(sq2);
    let r1 = rook_attacks_bb(sq1, 0);
    proof {
        lemma_has_and_single(r1, sq2 as u64);
    }
    if r1 & b2 != 0 {
        return (r1 & rook_attacks_bb(sq2, 0)) | b1 | b2;
    }
    let bi1 = bishop_attacks_bb(sq1, 0);
    proof {
        lemma_has_and_single(bi1, sq2 as u64);
    }
    if bi1 & b2 != 0 {
        return (bi1 & bishop_attacks_bb(sq2, 0)) | b1 | b2;
    }
    0
}

/// The squares between two squares, `sq2` included.
pub fn between_bb(sq1: Square, sq2: Square) -> (r: Bitboard)
    ensures
        r == between_spec(sq1 as int, sq2 as int),
{
    let b1 = square_bb(sq1);
    let b2 = square_bb(sq2);
    let r1 = rook_attacks_bb(sq1, 0);
    proof {
        lemma_has_and_single(r1, sq2 as u64);
    }
    if r1 & b2 != 0 {
        return (rook_attacks_bb(sq1, b2) & rook_attacks_bb(sq2, b1)) | b2;
    }
    let bi1 = bishop_attacks_bb(sq1, 0);
    proof {
        lemma_has_and_single(bi1, sq2 as u64);
    }
    if bi1 & b2 != 0 {
        return (bishop_attacks_bb(sq1, b2) & bishop_attacks_bb(sq2, b1)) | b2;
    }
    b2
}

/// The attacks of a piece of type `pt` on `sq` over `occ` (pawns attack nothing here).
pub open spec fn attacks_spec(pt: PieceType, sq: int, occ: u64) -> u64 {
    match pt {
        PieceType::Bishop => bishop_spec(sq, occ),
        PieceType::Rook => rook_spec(sq, occ),
        PieceType::Queen => bishop_spec(sq, occ) | rook_spec(sq, occ),
        PieceType::Knight => knight_spec(sq),
        PieceType::King => king_spec(sq),
        PieceType::Pawn => 0,
    }
}

pub fn attacks_bb(pt: PieceType, sq: Square, occupied: Bitboard) -> (r: Bitboard)
    ensures
        r == attacks_spec(pt, sq as int, occupied),
{
    match pt {
        PieceType::Bishop => bishop_attacks_bb(sq, occupied),
        PieceType::Rook => rook_attacks_bb(sq, occupied),
        PieceType::Queen => queen_attacks_bb(sq, occupied),
        PieceType::Knight => knight_attacks_bb(sq),
        PieceType::King => king_attacks_bb(sq),
        _ => 0,
    }
}

} // verus!
